//! The tab bar: one line of tabs, each tinted by what its agents are up to, and
//! a floating tooltip with the key bindings of the current mode.
//!
//! Like the agent panel, the bar never calls the host: it answers an event with
//! actions, and what the host found out by one comes back as another event.
pub mod laws;
pub mod promises;
pub mod rules;
pub mod work;
