//! The verified core of a headless Wayland desktop driven through MCP tools.
//!
//! Every tool call injects input, waits until the user interface has settled
//! and reports the resulting desktop state. This crate holds the decisions of
//! that process; sockets, rendering and protocol plumbing live around it.

pub mod a11y;
pub mod comp;
pub mod ipc;
pub mod keys;
pub mod mcp;
pub mod monitor;
pub mod render;
pub mod session;
pub mod snapshot;
pub mod text;
pub mod tracker;
pub mod x11ping;
