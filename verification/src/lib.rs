//! What this build of zellij adds around the multiplexer, as verified logic.
//!
//! - Plugins: the panel of agents ([`agent_bar`]), the tab bar tinted by them
//!   ([`compact_bar`], [`tab_flags`]) and tabs that name themselves
//!   ([`auto_tab_name`]), over the agents' snapshot ([`readmodel`]) and what the
//!   plugin host reports ([`host`], [`keys`]).
//! - Server: the jump tree over tabs of all sessions ([`pane_nav`]), keys written
//!   to a ConPTY child ([`win32_input_mode`]), prompts and scrolls ([`screen`]),
//!   what becomes of a client's plugins ([`detach_cleanup`]) and the server's own
//!   console ([`std_handles`]).
//! - Client and tools: waiting for output ([`wait_client`]), the palette mode of
//!   the host ([`host_theme`]), live sessions and who may open their pipes
//!   ([`session_pipes`], [`pipe_security`]), the control command ([`ctl`]) and
//!   readable input bytes ([`vt_input`]).
//!
//! Nothing here performs I/O. Where a part alternates with the outside, it answers
//! an event with what is to be done next, and is told what came of it.
pub mod agent_bar;
pub mod auto_tab_name;
pub mod compact_bar;
pub mod ctl;
pub mod detach_cleanup;
pub mod dict;
pub mod host;
pub mod host_theme;
pub mod keys;
pub mod pane_nav;
pub mod pipe_security;
pub mod readmodel;
pub mod screen;
pub mod seqs;
pub mod session_pipes;
pub mod std_handles;
pub mod tab_flags;
pub mod text;
pub mod vt_input;
pub mod wait_client;
pub mod win32_input_mode;
