//! What a program does that starts a shell in a container: the event loop, the pipes between the
//! processes, the root file system and the network.
//!
//! The library makes no system calls.  It gives the calls to make, with their arguments, and says
//! what follows from their outcomes.
pub mod address;
pub mod epoll;
pub mod events;
pub mod forward;
pub mod io;
pub mod ipc;
pub mod kernel;
pub mod path;
pub mod plan;
pub mod reactor_laws;
pub mod rootfs;
pub mod rootfs_laws;
pub mod rootfs_view;
pub mod slirp;
pub mod sys;
pub mod text;
pub mod utils;
