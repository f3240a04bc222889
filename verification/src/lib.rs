//! Verified core of a Wayland bridge that offers `zwlr_layer_shell_v1` to
//! applications running under a compositor that lacks it.
//!
//! The bridge stands between each application and the compositor and
//! forwards their messages. It passes the compositor's globals on and adds a
//! layer shell of its own when the compositor has none, and it turns every
//! layer surface into an `xdg_surface` with an `xdg_toplevel` on the
//! compositor. The library holds that routing, the wire format, the
//! configuration and the accept loop; the binary around it moves the bytes.

pub mod config;
pub mod proxy;
pub mod cli;
pub mod service;
pub mod config_file;
