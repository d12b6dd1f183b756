//! Incremental tailing and classification of rotating log files.
//!
//! A poll cycle hands the library what was read of every monitored file. The
//! library keeps one byte offset per path, takes the whole lines that stand
//! behind that offset, classifies each against the grammar of its source and
//! reports one counter increment per logical event, together with the
//! diagnostics of the cycle. Reading the files and feeding the counters is
//! left to the caller.
//!
//! - [`config`]: the sources, their file patterns and grammars.
//! - [`offsets`]: the offset of the first unread byte of each file.
//! - [`reader`]: from unread bytes to whole text lines.
//! - [`grammar`]: the pattern engine and the timestamp parser.
//! - [`text`]: blank lines.
//! - [`classifier`]: what a line is, and what a run of lines counts as.
//! - [`log_parser`]: the poll of one source, and the cycle over all of them.
//! - [`classifier_laws`], [`log_parser_laws`]: what holds of every pass and
//!   of every poll.

pub mod classifier;
pub mod classifier_laws;
pub mod config;
pub mod grammar;
pub mod log_parser;
pub mod log_parser_laws;
pub mod offsets;
pub mod reader;
pub mod text;
