//! Shell quoting of arbitrary byte strings.
//!
//! [`quotemeta`] turns a byte string, typically a file name, into text that can be pasted
//! into a shell command line. The text is the input itself where every byte is harmless,
//! the input between single quotes where that is enough, and an ANSI-C quoted word
//! (`$'...'`) where a byte has to be written as an escape.

pub mod class;
pub mod escape;
pub mod quote;
pub mod shell;

pub use quote::quotemeta;
