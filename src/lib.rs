//! Message framing and relay decisions for a Wayland proxy that rewrites the
//! application identifier of every top-level window.
//!
//! - `proto`: the wire format of messages and of `uint` and `string` arguments.
//! - `tracker`: what one connection knows of its objects, and the rewrite of
//!   `xdg_toplevel.set_app_id`.
//! - `fds`: the file descriptors waiting to go on with the next message.
pub mod fds;
pub mod proto;
pub mod tracker;
