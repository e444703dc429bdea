//! nanoaios: the verified core of a minimal AIOS kernel.
//!
//! The library holds the kernel's decisions and data: configuration values and
//! their defaults, session memory with bounded history, the tool registry, the
//! runtime's provider dispatch and the kernel's turn accounting. Reading and
//! writing files, the clock, HTTP and the command line live outside it.
pub mod config;
pub mod kernel;
pub mod memory;
pub mod runtime;
pub mod settings;
pub mod text;
pub mod tool;
