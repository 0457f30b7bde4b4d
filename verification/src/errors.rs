//! The errors used by this crate.
//!
//! Each stage of the pipeline reports its failures through a closed set of
//! error kinds, grouped by the stage that raises them.

use vstd::prelude::*;

verus! {

/// An error raised while turning raw text into tokens.
#[derive(Clone, Copy, Debug, PartialEq, Eq, Structural)]
pub enum LexicalError {
    /// The reader was asked for more characters than remain in the input.
    ReadPastEnd,
    /// A quoted string was still open when the input ended.
    UnclosedQuote,
    /// A bare (unquoted) string ran into a literal quote character.
    QuoteInBareString,
}

/// An error raised while grouping tokens into commands.
#[derive(Clone, Copy, Debug, PartialEq, Eq, Structural)]
pub enum SyntaxError {
    /// The token stream ended in the middle of a command.
    EndOfTokens,
    /// A grammar slot required a number token but found something else.
    ExpectedNumber,
    /// A grammar slot required a string token but found something else.
    ExpectedString,
    /// A grammar slot required a timecode token but found something else.
    ExpectedTime,
    /// A string was not a valid `mm:ss:ff` timecode.
    BadTimecode,
    /// The leading string of a command is not a known keyword.
    UnknownKeyword,
    /// A string did not name a known file format.
    UnknownFileFormat,
    /// A string did not name a known track flag.
    UnknownTrackFlag,
    /// A string did not name a known track type.
    UnknownTrackType,
    /// A FLAGS command was not followed by any recognizable flag.
    EmptyFlags,
}

/// An error raised while assembling commands into a tracklist.
#[derive(Clone, Copy, Debug, PartialEq, Eq, Structural)]
pub enum AssemblyError {
    /// The album header never declared a Title command.
    MissingAlbumTitle,
    /// A track block never declared a Title command.
    MissingTrackTitle,
    /// A file block was expected to start with a File command.
    ExpectedFile,
    /// A track block was expected to start with a Track command.
    ExpectedTrack,
    /// A Pregap command was the last command of its track block.
    PregapAtEnd,
    /// A Pregap command was not immediately followed by an Index command.
    PregapWithoutIndex,
}

/// Any error this crate reports, tagged with the stage that raised it.
#[derive(Clone, Copy, Debug, PartialEq, Eq, Structural)]
pub enum Error {
    /// Raised by the lexer.
    Lexical(LexicalError),
    /// Raised by the command parser.
    Syntax(SyntaxError),
    /// Raised by the tracklist assembler.
    Assembly(AssemblyError),
}

} // verus!
