//! A small line-printing library: it copies text to an output buffer,
//! optionally prefixing each line with a right-justified line number.
//!
//! The library is pure: it turns input bytes into output bytes. Opening
//! files, reading standard input and writing the result belong to the
//! binary built around it.

pub mod config;
pub mod lines;
pub mod numfmt;
pub mod render;

pub use config::{Config, Mode, UsageError};
pub use render::render;
