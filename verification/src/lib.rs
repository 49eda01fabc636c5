//! Verified core of an interactive SQL shell's input reader.
//!
//! The crate classifies submitted lines: a line may be a shell meta-command
//! (a `.`-prefixed line at a statement boundary), a comment (a `#`-prefixed
//! line, discarded), or a fragment of a SQL statement that accumulates until
//! a termination token (`;` suffix, or a line that is exactly `go` or `/`)
//! completes it. It also offers prefix completion over the fixed list of
//! meta-commands. Terminal I/O, line editing and history live outside this
//! crate; the functions here are pure and fully specified.

pub mod completion;
pub mod input;
pub mod text;
