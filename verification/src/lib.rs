//! Interactive regular-expression explorer: the verified core.
//!
//! A corpus of text lines is filtered by a live-edited regular expression;
//! each matching line is split into an ordered, gapless sequence of literal
//! and captured segments whose concatenation reproduces the line exactly.
//! A cursor-based input editor and a session state machine drive the loop;
//! terminal I/O and rendering live outside this crate.

pub mod capture;
pub mod color;
pub mod input;
pub mod offsets;
pub mod pattern;
pub mod session;
