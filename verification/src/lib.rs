//! The front end of a small command-line interpreter: a scanner that
//! turns one line of input into tokens, and a recursive-descent parser
//! that turns the tokens into a tree of command nodes, pipelines
//! included.
//!
//! Both halves are specified exactly: `lexer::tokenize` says what the
//! scanner produces for every input line, the functions of
//! `parser::grammar` say what the parser stores and which errors it
//! records, and the executable code is verified against those
//! specifications.  Scanning never fails — unrecognized characters
//! degrade into literal tokens — and parsing never panics: malformed
//! input is reported through the parser's error list.

pub mod lexer;
pub mod parser;
pub mod token;
