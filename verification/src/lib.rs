//! Control plane of a screen dimmer: the configuration record and its merge
//! rule, the wake latch, the single-instance protocol spoken over a local
//! socket, the per-output view registry, and the overlay's pixels.
//!
//! Every function here works on plain values. The process that hosts the
//! library owns the socket, the compositor session and the threads, and calls
//! in with what it read and carries out what it is handed back.

pub mod config;
pub mod daemon;
pub mod ipc;
pub mod render;
pub mod shell;
pub mod text;
pub mod view;
pub mod wake;
