//! The command parser: groups the token stream into one typed command per
//! cue sheet grammar rule.
//!
//! Each command consumes a leading string token as its keyword
//! (case-insensitively) and then the fixed arity of typed tokens that the
//! keyword requires, strictly left to right.  Only FLAGS looks one token
//! ahead, to stop at the first token that is not a recognizable flag.

use vstd::prelude::*;

use crate::errors::{Error, SyntaxError};
use crate::parser::{
    eq_ignore_case, catalog_string, spec_upper_eq, spec_padded13, spec_file_format,
    spec_track_flag, spec_track_type, FileFormat, Time, TrackFlag, TrackType,
};
use crate::parser::tokenization::{spec_tokens_view, Token, TokenView};

verus! {

/// The main grammar element of CUE sheets.
#[derive(Clone, Debug, PartialEq)]
pub enum Command {
    /// A 13-digit UPC/EAN code.
    Catalog(String),

    /// A path to a file containing CD-Text info.
    Cdtextfile(String),

    /// A path to a file containing audio data, and to which subsequent
    /// commands apply.
    File(String, FileFormat),

    /// Per-track subcode flag(s).
    Flags(Vec<TrackFlag>),

    /// Per-track index(es).
    Index(u32, Time),

    /// Per-track ISRC(s).
    Isrc(String),

    /// Per-disc or per-track performer name for CD-Text data.
    Performer(String),

    /// Amount of post-track silence to add.
    Postgap(Time),

    /// Amount of pre-track silence to add.
    Pregap(Time),

    /// A remark/comment to be ignored.
    /// (key,   value)
    Rem(String, Token),

    /// Per-disc or per-track songwriter name for CD-Text data.
    Songwriter(String),

    /// Per-disc or per-track title for CD-Text data.
    Title(String),

    /// Type of track to create, and to which subsequent commands apply.
    Track(u32, TrackType),
}

/// The mathematical value of a command: its string contents as character
/// sequences.
pub enum CommandView {
    /// A 13-digit UPC/EAN code.
    Catalog(Seq<char>),
    /// A path to a file containing CD-Text info.
    Cdtextfile(Seq<char>),
    /// A path to a file with audio data, with its format.
    File(Seq<char>, FileFormat),
    /// Per-track subcode flag(s).
    Flags(Seq<TrackFlag>),
    /// Per-track index(es).
    Index(u32, Time),
    /// Per-track ISRC(s).
    Isrc(Seq<char>),
    /// A performer name.
    Performer(Seq<char>),
    /// Amount of post-track silence.
    Postgap(Time),
    /// Amount of pre-track silence.
    Pregap(Time),
    /// A remark: key and raw value token.
    Rem(Seq<char>, TokenView),
    /// A songwriter name.
    Songwriter(Seq<char>),
    /// A title.
    Title(Seq<char>),
    /// Track number and type.
    Track(u32, TrackType),
}

impl View for Command {
    type V = CommandView;

    open spec fn view(&self) -> CommandView {
        match self {
            Command::Catalog(s) => CommandView::Catalog(s@),
            Command::Cdtextfile(s) => CommandView::Cdtextfile(s@),
            Command::File(s, f) => CommandView::File(s@, *f),
            Command::Flags(v) => CommandView::Flags(v@),
            Command::Index(n, t) => CommandView::Index(*n, *t),
            Command::Isrc(s) => CommandView::Isrc(s@),
            Command::Performer(s) => CommandView::Performer(s@),
            Command::Postgap(t) => CommandView::Postgap(*t),
            Command::Pregap(t) => CommandView::Pregap(*t),
            Command::Rem(s, t) => CommandView::Rem(s@, t@),
            Command::Songwriter(s) => CommandView::Songwriter(s@),
            Command::Title(s) => CommandView::Title(s@),
            Command::Track(n, t) => CommandView::Track(*n, *t),
        }
    }
}

/// The views of a sequence of commands.
pub open spec fn spec_commands_view(cs: Seq<Command>) -> Seq<CommandView> {
    cs.map_values(|c: Command| c@)
}

/// The token at position `i`, or an end-of-stream error.
pub open spec fn spec_tok(toks: Seq<TokenView>, i: int) -> Result<TokenView, Error> {
    if 0 <= i < toks.len() {
        Ok(toks[i])
    } else {
        Err(Error::Syntax(SyntaxError::EndOfTokens))
    }
}

/// The string contents of the token at position `i`, or an error when the
/// stream ends or the token has another kind.
pub open spec fn spec_string_tok(toks: Seq<TokenView>, i: int) -> Result<Seq<char>, Error> {
    match spec_tok(toks, i) {
        Ok(TokenView::Str(s)) => Ok(s),
        Ok(_) => Err(Error::Syntax(SyntaxError::ExpectedString)),
        Err(e) => Err(e),
    }
}

/// The numeric value of the token at position `i`, or an error when the
/// stream ends or the token has another kind.
pub open spec fn spec_number_tok(toks: Seq<TokenView>, i: int) -> Result<u32, Error> {
    match spec_tok(toks, i) {
        Ok(TokenView::Number(n)) => Ok(n),
        Ok(_) => Err(Error::Syntax(SyntaxError::ExpectedNumber)),
        Err(e) => Err(e),
    }
}

/// The timecode value of the token at position `i`, or an error when the
/// stream ends or the token has another kind.
pub open spec fn spec_time_tok(toks: Seq<TokenView>, i: int) -> Result<Time, Error> {
    match spec_tok(toks, i) {
        Ok(TokenView::Time(t)) => Ok(t),
        Ok(_) => Err(Error::Syntax(SyntaxError::ExpectedTime)),
        Err(e) => Err(e),
    }
}

/// The run of recognizable flag strings starting at position `i`,
/// together with the position of the first token that is not one.
pub open spec fn spec_take_flags(toks: Seq<TokenView>, i: int) -> (Seq<TrackFlag>, int)
    decreases toks.len() - i,
{
    if 0 <= i < toks.len() {
        match toks[i] {
            TokenView::Str(s) => match spec_track_flag(s) {
                Ok(f) => {
                    let rest = spec_take_flags(toks, i + 1);
                    (seq![f] + rest.0, rest.1)
                },
                Err(_) => (Seq::empty(), i),
            },
            _ => (Seq::empty(), i),
        }
    } else {
        (Seq::empty(), i)
    }
}

/// Taking flags never moves backwards and never runs past the end.
pub proof fn lemma_take_flags_bounds(toks: Seq<TokenView>, i: int)
    requires
        0 <= i <= toks.len(),
    ensures
        i <= spec_take_flags(toks, i).1 <= toks.len(),
    decreases toks.len() - i,
{
    if i < toks.len() {
        match toks[i] {
            TokenView::Str(s) => match spec_track_flag(s) {
                Ok(_) => {
                    lemma_take_flags_bounds(toks, i + 1);
                },
                Err(_) => {},
            },
            _ => {},
        }
    }
}

/// The command starting at position `i` of the token stream, together
/// with the position right after its last consumed token.
pub open spec fn spec_command_at(toks: Seq<TokenView>, i: int) -> Result<(CommandView, int), Error> {
    match spec_string_tok(toks, i) {
        Err(e) => Err(e),
        Ok(kw) => {
            if spec_upper_eq(kw, "CATALOG"@) {
                match spec_number_tok(toks, i + 1) {
                    Err(e) => Err(e),
                    Ok(n) => Ok((CommandView::Catalog(spec_padded13(n as int)), i + 2)),
                }
            } else if spec_upper_eq(kw, "CDTEXTFILE"@) {
                match spec_string_tok(toks, i + 1) {
                    Err(e) => Err(e),
                    Ok(s) => Ok((CommandView::Cdtextfile(s), i + 2)),
                }
            } else if spec_upper_eq(kw, "FILE"@) {
                match spec_string_tok(toks, i + 1) {
                    Err(e) => Err(e),
                    Ok(path) => match spec_string_tok(toks, i + 2) {
                        Err(e) => Err(e),
                        Ok(fmt) => match spec_file_format(fmt) {
                            Err(e) => Err(e),
                            Ok(f) => Ok((CommandView::File(path, f), i + 3)),
                        },
                    },
                }
            } else if spec_upper_eq(kw, "FLAGS"@) {
                let flags = spec_take_flags(toks, i + 1);
                if flags.0.len() == 0 {
                    Err(Error::Syntax(SyntaxError::EmptyFlags))
                } else {
                    Ok((CommandView::Flags(flags.0), flags.1))
                }
            } else if spec_upper_eq(kw, "INDEX"@) {
                match spec_number_tok(toks, i + 1) {
                    Err(e) => Err(e),
                    Ok(n) => match spec_time_tok(toks, i + 2) {
                        Err(e) => Err(e),
                        Ok(t) => Ok((CommandView::Index(n, t), i + 3)),
                    },
                }
            } else if spec_upper_eq(kw, "ISRC"@) {
                match spec_string_tok(toks, i + 1) {
                    Err(e) => Err(e),
                    Ok(s) => Ok((CommandView::Isrc(s), i + 2)),
                }
            } else if spec_upper_eq(kw, "PERFORMER"@) {
                match spec_string_tok(toks, i + 1) {
                    Err(e) => Err(e),
                    Ok(s) => Ok((CommandView::Performer(s), i + 2)),
                }
            } else if spec_upper_eq(kw, "POSTGAP"@) {
                match spec_time_tok(toks, i + 1) {
                    Err(e) => Err(e),
                    Ok(t) => Ok((CommandView::Postgap(t), i + 2)),
                }
            } else if spec_upper_eq(kw, "PREGAP"@) {
                match spec_time_tok(toks, i + 1) {
                    Err(e) => Err(e),
                    Ok(t) => Ok((CommandView::Pregap(t), i + 2)),
                }
            } else if spec_upper_eq(kw, "REM"@) {
                match spec_string_tok(toks, i + 1) {
                    Err(e) => Err(e),
                    Ok(key) => match spec_tok(toks, i + 2) {
                        Err(e) => Err(e),
                        Ok(raw) => Ok((CommandView::Rem(key, raw), i + 3)),
                    },
                }
            } else if spec_upper_eq(kw, "SONGWRITER"@) {
                match spec_string_tok(toks, i + 1) {
                    Err(e) => Err(e),
                    Ok(s) => Ok((CommandView::Songwriter(s), i + 2)),
                }
            } else if spec_upper_eq(kw, "TITLE"@) {
                match spec_string_tok(toks, i + 1) {
                    Err(e) => Err(e),
                    Ok(s) => Ok((CommandView::Title(s), i + 2)),
                }
            } else if spec_upper_eq(kw, "TRACK"@) {
                match spec_number_tok(toks, i + 1) {
                    Err(e) => Err(e),
                    Ok(n) => match spec_string_tok(toks, i + 2) {
                        Err(e) => Err(e),
                        Ok(ty) => match spec_track_type(ty) {
                            Err(e) => Err(e),
                            Ok(t) => Ok((CommandView::Track(n, t), i + 3)),
                        },
                    },
                }
            } else {
                Err(Error::Syntax(SyntaxError::UnknownKeyword))
            }
        },
    }
}

/// A successfully parsed command always advances the position, and never
/// past the end of the token stream.
pub proof fn lemma_command_at_advances(toks: Seq<TokenView>, i: int)
    ensures
        match spec_command_at(toks, i) {
            Ok(p) => i < p.1 <= toks.len(),
            Err(_) => true,
        },
{
    if 0 <= i + 1 <= toks.len() {
        lemma_take_flags_bounds(toks, i + 1);
    }
}

/// The commands of the token stream from position `i` on, or the first
/// syntax error.
pub open spec fn spec_parse_commands(toks: Seq<TokenView>, i: int) -> Result<Seq<CommandView>, Error>
    decreases toks.len() - i
        when 0 <= i <= toks.len()
{
    proof {
        lemma_command_at_advances(toks, i);
    }
    if i >= toks.len() {
        Ok(Seq::empty())
    } else {
        match spec_command_at(toks, i) {
            Err(e) => Err(e),
            Ok(p) => match spec_parse_commands(toks, p.1) {
                Err(e) => Err(e),
                Ok(rest) => Ok(seq![p.0] + rest),
            },
        }
    }
}

/// Prepends already-parsed commands to the result of parsing the rest.
pub open spec fn spec_prepend_commands(
    cs: Seq<CommandView>,
    r: Result<Seq<CommandView>, Error>,
) -> Result<Seq<CommandView>, Error> {
    match r {
        Ok(rest) => Ok(cs + rest),
        Err(e) => Err(e),
    }
}

/// A copy of a token with the same view.
fn clone_token(t: &Token) -> (r: Token)
    ensures
        r@ == t@,
{
    match t {
        Token::Number(n) => Token::Number(*n),
        Token::String(s) => Token::String(s.clone()),
        Token::Time(tm) => Token::Time(*tm),
    }
}

/// Takes the token at the cursor, advancing past it.
fn consume_token(tokens: &Vec<Token>, pos: &mut usize) -> (r: Result<Token, Error>)
    ensures
        match r {
            Ok(t) => spec_tok(spec_tokens_view(tokens@), *old(pos) as int) == Ok::<TokenView, Error>(t@)
                && *final(pos) == *old(pos) + 1,
            Err(e) => spec_tok(spec_tokens_view(tokens@), *old(pos) as int) == Err::<TokenView, Error>(e)
                && *final(pos) == *old(pos),
        },
{
    if *pos < tokens.len() {
        let t = clone_token(&tokens[*pos]);
        *pos = *pos + 1;
        Ok(t)
    } else {
        Err(Error::Syntax(SyntaxError::EndOfTokens))
    }
}

/// Takes the token at the cursor as a timecode.
fn consume_time(tokens: &Vec<Token>, pos: &mut usize) -> (r: Result<Time, Error>)
    ensures
        match r {
            Ok(t) => spec_time_tok(spec_tokens_view(tokens@), *old(pos) as int) == Ok::<Time, Error>(t)
                && *final(pos) == *old(pos) + 1,
            Err(e) => spec_time_tok(spec_tokens_view(tokens@), *old(pos) as int) == Err::<Time, Error>(e)
                && *final(pos) == *old(pos),
        },
{
    if *pos < tokens.len() {
        match &tokens[*pos] {
            Token::Time(t) => {
                let r = *t;
                *pos = *pos + 1;
                Ok(r)
            },
            _ => Err(Error::Syntax(SyntaxError::ExpectedTime)),
        }
    } else {
        Err(Error::Syntax(SyntaxError::EndOfTokens))
    }
}

/// Takes the token at the cursor as a number.
fn consume_number(tokens: &Vec<Token>, pos: &mut usize) -> (r: Result<u32, Error>)
    ensures
        match r {
            Ok(n) => spec_number_tok(spec_tokens_view(tokens@), *old(pos) as int) == Ok::<u32, Error>(n)
                && *final(pos) == *old(pos) + 1,
            Err(e) => spec_number_tok(spec_tokens_view(tokens@), *old(pos) as int) == Err::<u32, Error>(e)
                && *final(pos) == *old(pos),
        },
{
    if *pos < tokens.len() {
        match &tokens[*pos] {
            Token::Number(n) => {
                let r = *n;
                *pos = *pos + 1;
                Ok(r)
            },
            _ => Err(Error::Syntax(SyntaxError::ExpectedNumber)),
        }
    } else {
        Err(Error::Syntax(SyntaxError::EndOfTokens))
    }
}

/// Takes the token at the cursor as a string.
fn consume_string(tokens: &Vec<Token>, pos: &mut usize) -> (r: Result<String, Error>)
    ensures
        match r {
            Ok(s) => spec_string_tok(spec_tokens_view(tokens@), *old(pos) as int) == Ok::<
                Seq<char>,
                Error,
            >(s@) && *final(pos) == *old(pos) + 1,
            Err(e) => spec_string_tok(spec_tokens_view(tokens@), *old(pos) as int) == Err::<
                Seq<char>,
                Error,
            >(e) && *final(pos) == *old(pos),
        },
{
    if *pos < tokens.len() {
        match &tokens[*pos] {
            Token::String(s) => {
                let r = s.clone();
                *pos = *pos + 1;
                Ok(r)
            },
            _ => Err(Error::Syntax(SyntaxError::ExpectedString)),
        }
    } else {
        Err(Error::Syntax(SyntaxError::EndOfTokens))
    }
}

impl Command {
    /// Parses one command starting at the cursor, advancing it past the
    /// command's tokens on success and leaving it unchanged on error.
    pub fn consume(tokens: &Vec<Token>, pos: &mut usize) -> (r: Result<Command, Error>)
        ensures
            match r {
                Ok(c) => spec_command_at(spec_tokens_view(tokens@), *old(pos) as int) == Ok::<
                    (CommandView, int),
                    Error,
                >((c@, *final(pos) as int)),
                Err(e) => spec_command_at(spec_tokens_view(tokens@), *old(pos) as int) == Err::<
                    (CommandView, int),
                    Error,
                >(e) && *final(pos) == *old(pos),
            },
    {
        let mut cur: usize = *pos;
        let keyword = match consume_string(tokens, &mut cur) {
            Ok(s) => s,
            Err(e) => {
                return Err(e);
            },
        };
        let kw = keyword.as_str();
        if eq_ignore_case(kw, "CATALOG") {
            match consume_number(tokens, &mut cur) {
                Ok(n) => {
                    *pos = cur;
                    Ok(Command::Catalog(catalog_string(n)))
                },
                Err(e) => Err(e),
            }
        } else if eq_ignore_case(kw, "CDTEXTFILE") {
            match consume_string(tokens, &mut cur) {
                Ok(s) => {
                    *pos = cur;
                    Ok(Command::Cdtextfile(s))
                },
                Err(e) => Err(e),
            }
        } else if eq_ignore_case(kw, "FILE") {
            let path = match consume_string(tokens, &mut cur) {
                Ok(s) => s,
                Err(e) => {
                    return Err(e);
                },
            };
            let fmt = match consume_string(tokens, &mut cur) {
                Ok(s) => s,
                Err(e) => {
                    return Err(e);
                },
            };
            match FileFormat::from_str(fmt.as_str()) {
                Ok(f) => {
                    *pos = cur;
                    Ok(Command::File(path, f))
                },
                Err(e) => Err(e),
            }
        } else if eq_ignore_case(kw, "FLAGS") {
            let ghost toks = spec_tokens_view(tokens@);
            let ghost start = cur as int;
            let mut flags: Vec<TrackFlag> = Vec::new();
            proof {
                assert(flags@ =~= Seq::<TrackFlag>::empty());
            }
            loop
                invariant
                    toks == spec_tokens_view(tokens@),
                    start <= cur as int <= toks.len(),
                    spec_take_flags(toks, start).0 =~= flags@ + spec_take_flags(toks, cur as int).0,
                    spec_take_flags(toks, start).1 == spec_take_flags(toks, cur as int).1,
                ensures
                    spec_take_flags(toks, start).0 =~= flags@,
                    spec_take_flags(toks, start).1 == cur as int,
                decreases toks.len() - cur,
            {
                if cur >= tokens.len() {
                    break;
                }
                match &tokens[cur] {
                    Token::String(s) => {
                        match TrackFlag::from_str(s.as_str()) {
                            Ok(f) => {
                                flags.push(f);
                                cur = cur + 1;
                                proof {
                                    assert(spec_take_flags(toks, start).0 =~= flags@
                                        + spec_take_flags(toks, cur as int).0);
                                }
                            },
                            Err(_) => {
                                break;
                            },
                        }
                    },
                    _ => {
                        break;
                    },
                }
            }
            if flags.len() == 0 {
                Err(Error::Syntax(SyntaxError::EmptyFlags))
            } else {
                *pos = cur;
                Ok(Command::Flags(flags))
            }
        } else if eq_ignore_case(kw, "INDEX") {
            let n = match consume_number(tokens, &mut cur) {
                Ok(n) => n,
                Err(e) => {
                    return Err(e);
                },
            };
            match consume_time(tokens, &mut cur) {
                Ok(t) => {
                    *pos = cur;
                    Ok(Command::Index(n, t))
                },
                Err(e) => Err(e),
            }
        } else if eq_ignore_case(kw, "ISRC") {
            match consume_string(tokens, &mut cur) {
                Ok(s) => {
                    *pos = cur;
                    Ok(Command::Isrc(s))
                },
                Err(e) => Err(e),
            }
        } else if eq_ignore_case(kw, "PERFORMER") {
            match consume_string(tokens, &mut cur) {
                Ok(s) => {
                    *pos = cur;
                    Ok(Command::Performer(s))
                },
                Err(e) => Err(e),
            }
        } else if eq_ignore_case(kw, "POSTGAP") {
            match consume_time(tokens, &mut cur) {
                Ok(t) => {
                    *pos = cur;
                    Ok(Command::Postgap(t))
                },
                Err(e) => Err(e),
            }
        } else if eq_ignore_case(kw, "PREGAP") {
            match consume_time(tokens, &mut cur) {
                Ok(t) => {
                    *pos = cur;
                    Ok(Command::Pregap(t))
                },
                Err(e) => Err(e),
            }
        } else if eq_ignore_case(kw, "REM") {
            let key = match consume_string(tokens, &mut cur) {
                Ok(s) => s,
                Err(e) => {
                    return Err(e);
                },
            };
            match consume_token(tokens, &mut cur) {
                Ok(raw) => {
                    *pos = cur;
                    Ok(Command::Rem(key, raw))
                },
                Err(e) => Err(e),
            }
        } else if eq_ignore_case(kw, "SONGWRITER") {
            match consume_string(tokens, &mut cur) {
                Ok(s) => {
                    *pos = cur;
                    Ok(Command::Songwriter(s))
                },
                Err(e) => Err(e),
            }
        } else if eq_ignore_case(kw, "TITLE") {
            match consume_string(tokens, &mut cur) {
                Ok(s) => {
                    *pos = cur;
                    Ok(Command::Title(s))
                },
                Err(e) => Err(e),
            }
        } else if eq_ignore_case(kw, "TRACK") {
            let n = match consume_number(tokens, &mut cur) {
                Ok(n) => n,
                Err(e) => {
                    return Err(e);
                },
            };
            let ty = match consume_string(tokens, &mut cur) {
                Ok(s) => s,
                Err(e) => {
                    return Err(e);
                },
            };
            match TrackType::from_str(ty.as_str()) {
                Ok(t) => {
                    *pos = cur;
                    Ok(Command::Track(n, t))
                },
                Err(e) => Err(e),
            }
        } else {
            Err(Error::Syntax(SyntaxError::UnknownKeyword))
        }
    }
}

} // verus!
