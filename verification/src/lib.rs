//! Verified core of the COR24 Forth web debugger: tier and stack
//! configuration, demo catalogues, the bootstrap snapshot format with its
//! content hash and base64 codec, and the pure inspection and REPL logic
//! that the UI drives.
pub mod config;
pub mod base64;
pub mod snapshot;
pub mod demos;
pub mod fmt;
pub mod debugger;
pub mod text;
pub mod repl;
pub mod help;
