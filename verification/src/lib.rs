//! Counting lines, words, bytes and characters of a byte stream.
//!
//! The counts are defined over the bytes of an input and over the text that
//! those bytes encode in UTF-8; every executable function is proved against
//! those definitions.

pub mod args;
pub mod by_lines;
pub mod counter;
pub mod laws;
pub mod lines;
pub mod scalar;
pub mod source;
pub mod text;
pub mod whitespace;
pub mod words;

pub use args::{get_args, Args, ArgsError, RawArgs};
pub use counter::{count, CountError, FileInfo};
pub use source::Source;
