//! Vertical agent panel: the agents of every live session, grouped under their
//! sessions' headers, with a cursor, a viewport and alerts.
//!
//! The state is in [`panel`], what happens to it and what it asks for in
//! [`events`] and [`update`]. A drawing goes from agents to groups ([`groups`]) to
//! wrapped lines ([`wrap`], [`lines`]) to coloured spans ([`paint`]), put on the
//! screen by [`cells`].
pub mod cells;
pub mod events;
pub mod group_laws;
pub mod groups;
pub mod laws;
pub mod lines;
pub mod looks;
pub mod paint;
pub mod panel;
pub mod promises;
pub mod shades;
pub mod update;
pub mod wrap;
pub mod wrap_laws;
