//! A memory-safe boundary for an embedded command shell.
//!
//! The crate models one shell instance as a checked handle: bytes are fed in
//! one at a time, and the shell echoes input, tokenizes completed lines with
//! sh-like quoting, and reports lines that exceed the line buffer. Callers
//! observe all of this through typed callbacks registered per handle, one
//! slot per kind (command, print, overflow), with replacement semantics.
//!
//! Argument lists are exposed through a bounds-checked accessor over a packed
//! parse pool of NUL-terminated byte strings, and every view handed to a
//! callback is reconstructed by a verified terminator scan.

pub mod args;
pub mod bytestr;
pub mod inplace;
pub mod pool;
pub mod shell;
pub mod tokens;
