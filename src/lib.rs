//! Guest/host window integration for single-application virtual machines:
//! a guest-side window watcher, a framed wire protocol, and host-side
//! registries for mirrored windows and the shared clipboard.

pub mod codec;
pub mod config;
pub mod guest_agent;
pub mod message;
pub mod provisioner;
pub mod replay;
pub mod snapshot;
pub mod text;
pub mod window_proxy;
