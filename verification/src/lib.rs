//! A verified decoder for RESP-style client commands.
//!
//! The input is a fully buffered sequence of characters holding one command
//! encoded as an array of length-prefixed bulk strings
//! (`*<N>\r\n` followed by `N` occurrences of `$<M>\r\n<M characters>\r\n`).
//! A [`scanner::Scanner`] provides forward-only, character-level access to
//! the buffer; [`parser`] implements the grammar on top of it and returns
//! either the decoded command or a structured decode error.
//!
//! Decoding is a pure function of the buffered input: the contracts of the
//! parsing functions pin their result, and the scanner's final position, to
//! a mathematical model of the grammar, so decoding the same input always
//! gives the same outcome. The laws in [`laws`] prove that every well-formed
//! encoding decodes to exactly its payload.

pub mod laws;
pub mod parser;
pub mod scanner;
