//! Control plane of a local desktop widget shell: a loopback HTTP/WebSocket
//! server that serves the widget UI, runs user-supplied plugin commands, and
//! streams their line-oriented output back to the UI surface that asked for it.
//!
//! The crate holds the decision logic of that control plane — request routing,
//! static-path containment, the line splitter and decoder, the process-runner
//! spawn policy, and the addressed event bus — each with a verified contract.
//! The surrounding I/O (listening, spawning, reading pipes) lives outside.

pub mod bus;
pub mod config;
pub mod error;
pub mod http;
pub mod json;
pub mod lines;
pub mod paths;
pub mod plugins;
pub mod runner;
pub mod server;

pub use error::SkadiError;
