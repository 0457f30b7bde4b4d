//! Cue sheet parsing.
//!
//! A cue sheet is a plain-text description of how audio or data tracks are
//! laid out across one or more disc-image files.  This crate turns such a
//! text into a structured, queryable tracklist in three layered stages:
//! a lexer ([`parser::tokenize`]), a command parser ([`parser::parse_cue`])
//! and a tracklist assembler ([`tracklist::Tracklist::parse`]).

pub mod errors;
pub mod parser;
pub mod tracklist;
