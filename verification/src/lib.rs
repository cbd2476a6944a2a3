//! A lexical front end: a position-tracking cursor over source text, a
//! scanner that turns the text into tokens while collecting errors, and
//! the rendering of those errors against the source.

pub mod accounting;
pub mod error;
pub mod grammar;
pub mod input_parser;
pub mod text;
pub mod tokenizer;
