//! WebSocket-to-stdio proxy core for the Language Server Protocol.
//!
//! The crate holds the verified logic of the proxy: the `Content-Length`
//! framing codec used on the child-process side, the JSON message model and
//! envelope classifier, the `source://` / `file://` URI remapper, the server
//! selector, the SQL provisioning planner, and the per-connection bridge
//! state machine. I/O (sockets, processes, databases, files) lives outside
//! the library and only hands plain values in and out.

pub mod args;
pub mod bridge;
pub mod codec;
pub mod config;
pub mod json;
pub mod message;
pub mod provision;
pub mod remap;
pub mod selector;
pub mod util;
