//! An interpreter for a minimal tape language of eight one-byte instructions.
//!
//! A source text is parsed into an instruction sequence with a table of
//! resolved loop targets; the resulting [`Program`] is then executed one
//! instruction at a time against a growable tape of wrapping 8-bit cells.

pub mod brackets;
pub mod channel;
pub mod cmd;
pub mod laws;
pub mod machine;
pub mod program;

pub use cmd::Cmd;
pub use machine::Machine;
pub use program::{Error, Program};
