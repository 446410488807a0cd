//! KMFlow shares one keyboard and mouse between machines on a local network.
//!
//! This crate holds the decisions of the program: what a captured or received
//! input event does to the focus, how peers are discovered and trusted, how
//! messages are framed, how screen and device listings are read. Sockets,
//! devices, processes and clocks belong to the program around it.
pub mod cli;
pub mod clipboard;
pub mod discovery;
pub mod edge;
pub mod evdev;
pub mod frame;
pub mod handshake;
pub mod input;
pub mod ipc;
pub mod proto;
pub mod reconnect;
pub mod screen;
pub mod session;
pub mod state;
pub mod text;
pub mod tls;
pub mod x11;
