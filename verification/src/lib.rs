//! The standard streams of a process: input, output and error.
//!
//! Standard input is buffered ([`buf_reader`]), standard output is buffered by lines
//! ([`line_writer`]), and standard error is not buffered. Each exists once, is made on first use
//! and is shared behind a lock ([`sync`]). A stream that is not open reads as empty and swallows
//! what is written to it ([`raw`]).
//!
//! The bytes themselves are moved by the host, outside this library: [`source`] and [`sink`] keep
//! what the host was asked and what it answered. An operation that lacks an answer fails with
//! [`error::Error::Unanswered`], and is repeated from the state in which it began once the answer
//! is there. That a repetition makes the same requests is a law, and so is that no byte is lost,
//! doubled or moved: see the modules whose names end in `laws`.
pub mod basic_laws;
pub mod buf_reader;
pub mod bytes;
pub mod closed_laws;
pub mod error;
pub mod failure_laws;
pub mod format;
pub mod host_laws;
pub mod input_laws;
pub mod input_replay_laws;
pub mod line_ends;
pub mod line_writer;
pub mod lock_laws;
pub mod output_laws;
pub mod output_replay_laws;
pub mod print;
pub mod raw;
pub mod reading_laws;
pub mod scan;
pub mod sink;
pub mod source;
pub mod stderr;
pub mod stdin;
pub mod stdout;
pub mod sync;
pub mod text;
pub mod writing_laws;
