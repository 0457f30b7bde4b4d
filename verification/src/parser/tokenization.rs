//! The lexer: turns raw cue sheet text into a flat, ordered sequence of
//! typed tokens.
//!
//! At every position the recognizers are tried in strict priority order:
//! first an 8-character timecode, then a run of exactly two digits followed
//! by a boundary, and only then a (bare or quoted) string.  Longer digit
//! runs therefore fall through to the string recognizer.

use vstd::prelude::*;
use vstd::string::*;

use crate::errors::{Error, LexicalError};
use crate::parser::{spec_is_digit, spec_digit_val, spec_is_timecode, spec_timecode_value, Time};
use crate::parser::digit_value;

verus! {

/// Any token as it can appear in a cue sheet.
#[derive(Clone, Debug, Eq, PartialEq)]
pub enum Token {
    /// A two digit long integer.
    Number(u32),

    /// Any string; keywords and longer digit runs are all treated as
    /// strings by the lexer.
    String(String),

    /// A time (usually relative to the start of the file).
    Time(Time),
}

/// The mathematical value of a token: its string contents as a character
/// sequence.
pub enum TokenView {
    /// A two digit long integer.
    Number(u32),
    /// Any string.
    Str(Seq<char>),
    /// A time.
    Time(Time),
}

impl View for Token {
    type V = TokenView;

    open spec fn view(&self) -> TokenView {
        match self {
            Token::Number(n) => TokenView::Number(*n),
            Token::String(s) => TokenView::Str(s@),
            Token::Time(t) => TokenView::Time(*t),
        }
    }
}

/// The views of a sequence of tokens.
pub open spec fn spec_tokens_view(ts: Seq<Token>) -> Seq<TokenView> {
    ts.map_values(|t: Token| t@)
}

/// True for the characters the lexer skips between tokens: every Unicode
/// whitespace character, plus the byte-order mark.
pub open spec fn spec_is_ws(c: char) -> bool {
    ||| 0x9 <= c as int && c as int <= 0xd
    ||| c as int == 0x20
    ||| c as int == 0x85
    ||| c as int == 0xa0
    ||| c as int == 0x1680
    ||| 0x2000 <= c as int && c as int <= 0x200a
    ||| c as int == 0x2028
    ||| c as int == 0x2029
    ||| c as int == 0x202f
    ||| c as int == 0x205f
    ||| c as int == 0x3000
    ||| c as int == 0xfeff
}

/// True for the characters the lexer skips between tokens.
pub(crate) fn is_whitespace(c: char) -> (r: bool)
    ensures
        r == spec_is_ws(c),
{
    let u = c as u32;
    (0x9 <= u && u <= 0xd) || u == 0x20 || u == 0x85 || u == 0xa0 || u == 0x1680 || (0x2000 <= u
        && u <= 0x200a) || u == 0x2028 || u == 0x2029 || u == 0x202f || u == 0x205f || u == 0x3000
        || u == 0xfeff
}

/// The first position at or after `i` that does not hold a whitespace
/// character (or the end of the input).
pub open spec fn spec_skip_ws(s: Seq<char>, i: int) -> int
    decreases s.len() - i,
{
    if 0 <= i < s.len() && spec_is_ws(s[i]) {
        spec_skip_ws(s, i + 1)
    } else {
        i
    }
}

/// Skipping whitespace never moves backwards, never runs past the end,
/// and stops on a non-whitespace character.
pub proof fn lemma_skip_ws_bounds(s: Seq<char>, i: int)
    requires
        0 <= i <= s.len(),
    ensures
        i <= spec_skip_ws(s, i) <= s.len(),
        spec_skip_ws(s, i) < s.len() ==> !spec_is_ws(s[spec_skip_ws(s, i)]),
        spec_skip_ws(s, spec_skip_ws(s, i)) == spec_skip_ws(s, i),
    decreases s.len() - i,
{
    if i < s.len() && spec_is_ws(s[i]) {
        lemma_skip_ws_bounds(s, i + 1);
    }
}

/// The first position at or after `j` holding a quote character (or the
/// end of the input).
pub open spec fn spec_scan_quote(s: Seq<char>, j: int) -> int
    decreases s.len() - j,
{
    if 0 <= j < s.len() {
        if s[j] == '"' {
            j
        } else {
            spec_scan_quote(s, j + 1)
        }
    } else {
        j
    }
}

/// Scanning for a quote never moves backwards and never runs past the end.
pub proof fn lemma_scan_quote_bounds(s: Seq<char>, j: int)
    requires
        0 <= j <= s.len(),
    ensures
        j <= spec_scan_quote(s, j) <= s.len(),
    decreases s.len() - j,
{
    if j < s.len() && s[j] != '"' {
        lemma_scan_quote_bounds(s, j + 1);
    }
}

/// The first position at or after `j` that ends a bare string: whitespace,
/// a quote character, or the end of the input.
pub open spec fn spec_scan_bare(s: Seq<char>, j: int) -> int
    decreases s.len() - j,
{
    if 0 <= j < s.len() && !spec_is_ws(s[j]) && s[j] != '"' {
        spec_scan_bare(s, j + 1)
    } else {
        j
    }
}

/// Scanning a bare string never moves backwards and never runs past the
/// end.
pub proof fn lemma_scan_bare_bounds(s: Seq<char>, j: int)
    requires
        0 <= j <= s.len(),
    ensures
        j <= spec_scan_bare(s, j) <= s.len(),
    decreases s.len() - j,
{
    if j < s.len() && !spec_is_ws(s[j]) && s[j] != '"' {
        lemma_scan_bare_bounds(s, j + 1);
    }
}

/// The string token starting at position `i`, together with the position
/// right after it: a quote-delimited run when the first character is a
/// quote, otherwise a maximal run of characters up to (and consuming) the
/// first whitespace character.  A quote inside a bare string, an unclosed
/// quoted string, and a start position at or past the end are errors.
pub open spec fn spec_take_string(s: Seq<char>, i: int) -> Result<(Seq<char>, int), Error> {
    if !(0 <= i < s.len()) {
        Err(Error::Lexical(LexicalError::ReadPastEnd))
    } else if s[i] == '"' {
        let e = spec_scan_quote(s, i + 1);
        if e < s.len() {
            Ok((s.subrange(i + 1, e), e + 1))
        } else {
            Err(Error::Lexical(LexicalError::UnclosedQuote))
        }
    } else {
        let e = spec_scan_bare(s, i + 1);
        if e < s.len() && s[e] == '"' {
            Err(Error::Lexical(LexicalError::QuoteInBareString))
        } else {
            Ok((s.subrange(i, e), if e < s.len() { e + 1 } else { e }))
        }
    }
}

/// A successfully taken string always advances the position, and never
/// past the end.
pub proof fn lemma_take_string_bounds(s: Seq<char>, i: int)
    ensures
        match spec_take_string(s, i) {
            Ok(p) => 0 <= i < s.len() ==> i < p.1 <= s.len(),
            Err(_) => true,
        },
{
    if 0 <= i < s.len() {
        lemma_scan_quote_bounds(s, i + 1);
        lemma_scan_bare_bounds(s, i + 1);
    }
}

/// True when an 8-character timecode token starts at position `i`.
pub open spec fn spec_time_at(s: Seq<char>, i: int) -> bool {
    0 <= i && i + 8 <= s.len() && spec_is_timecode(s.subrange(i, i + 8))
}

/// True when a number token starts at position `i`: exactly two digits
/// followed by whitespace or the end of the input.
pub open spec fn spec_number_at(s: Seq<char>, i: int) -> bool {
    &&& 0 <= i
    &&& i + 2 <= s.len()
    &&& spec_is_digit(s[i])
    &&& spec_is_digit(s[i + 1])
    &&& (i + 3 > s.len() || spec_is_ws(s[i + 2]))
}

/// The value of the number token starting at position `i`.
pub open spec fn spec_number_value(s: Seq<char>, i: int) -> u32 {
    (10 * spec_digit_val(s[i]) + spec_digit_val(s[i + 1])) as u32
}

/// Prepends a token to the result of lexing the rest of the input.
pub open spec fn spec_cons_token(t: TokenView, r: Result<Seq<TokenView>, Error>) -> Result<
    Seq<TokenView>,
    Error,
> {
    match r {
        Ok(ts) => Ok(seq![t] + ts),
        Err(e) => Err(e),
    }
}

/// The tokens of the input from position `i` on: skip whitespace, then try
/// the recognizers in priority order (timecode, two-digit number, string)
/// and recurse after the recognized token.
pub open spec fn spec_tokenize_from(s: Seq<char>, i: int) -> Result<Seq<TokenView>, Error>
    decreases s.len() - i
        when 0 <= i <= s.len()
{
    proof {
        lemma_skip_ws_bounds(s, i);
        lemma_take_string_bounds(s, spec_skip_ws(s, i));
    }
    let j = spec_skip_ws(s, i);
    if j >= s.len() {
        Ok(Seq::empty())
    } else if spec_time_at(s, j) {
        spec_cons_token(
            TokenView::Time(spec_timecode_value(s.subrange(j, j + 8))),
            spec_tokenize_from(s, j + 8),
        )
    } else if spec_number_at(s, j) {
        spec_cons_token(
            TokenView::Number(spec_number_value(s, j)),
            spec_tokenize_from(s, if j + 3 <= s.len() { j + 3 } else { s.len() as int }),
        )
    } else {
        match spec_take_string(s, j) {
            Ok(p) => spec_cons_token(TokenView::Str(p.0), spec_tokenize_from(s, p.1)),
            Err(e) => Err(e),
        }
    }
}

/// The tokens of a whole input text, or the first lexical error.
pub open spec fn spec_tokenize(s: Seq<char>) -> Result<Seq<TokenView>, Error> {
    spec_tokenize_from(s, 0)
}

/// Lexing from a position gives the same result as lexing from the first
/// non-whitespace position after it.
pub proof fn lemma_tokenize_from_skip(s: Seq<char>, i: int)
    requires
        0 <= i <= s.len(),
    ensures
        spec_tokenize_from(s, i) == spec_tokenize_from(s, spec_skip_ws(s, i)),
{
    lemma_skip_ws_bounds(s, i);
}

/// Prepends already-lexed tokens to the result of lexing the rest.
pub open spec fn spec_prepend_tokens(ts: Seq<TokenView>, r: Result<Seq<TokenView>, Error>) -> Result<
    Seq<TokenView>,
    Error,
> {
    match r {
        Ok(rest) => Ok(ts + rest),
        Err(e) => Err(e),
    }
}

/// A cursor over the characters of the input text.
pub struct Reader {
    text: String,
    position: usize,
}

impl Reader {
    /// The characters this reader walks over.
    pub closed spec fn spec_text(&self) -> Seq<char> {
        self.text@
    }

    /// The current position of the cursor.
    pub closed spec fn spec_pos(&self) -> int {
        self.position as int
    }

    /// A fresh reader over `source`, positioned at the start.
    pub fn new(source: &str) -> (r: Reader)
        ensures
            r.spec_text() == source@,
            r.spec_pos() == 0,
    {
        Reader { text: source.to_owned(), position: 0 }
    }

    /// True if there are still characters available to be read.
    pub fn available(&self) -> (r: bool)
        ensures
            r == (self.spec_pos() < self.spec_text().len()),
    {
        self.position < self.text.as_str().unicode_len()
    }

    /// The next `n` characters, without moving the cursor.
    pub fn peek(&self, n: usize) -> (r: Result<String, Error>)
        ensures
            match r {
                Ok(s) => self.spec_pos() + n <= self.spec_text().len() && s@ == self.spec_text()
                    .subrange(self.spec_pos(), self.spec_pos() + n),
                Err(e) => self.spec_pos() + n > self.spec_text().len() && e == Error::Lexical(
                    LexicalError::ReadPastEnd,
                ),
            },
    {
        let len = self.text.as_str().unicode_len();
        if self.position <= len && n <= len - self.position {
            let sub = self.text.as_str().substring_char(self.position, self.position + n);
            Ok(sub.to_owned())
        } else {
            Err(Error::Lexical(LexicalError::ReadPastEnd))
        }
    }

    /// The next `n` characters, moving the cursor past them.
    pub fn take(&mut self, n: usize) -> (r: Result<String, Error>)
        ensures
            final(self).spec_text() == old(self).spec_text(),
            match r {
                Ok(s) => old(self).spec_pos() + n <= old(self).spec_text().len()
                    && s@ == old(self).spec_text().subrange(old(self).spec_pos(), old(self).spec_pos() + n)
                    && final(self).spec_pos() == old(self).spec_pos() + n,
                Err(e) => old(self).spec_pos() + n > old(self).spec_text().len()
                    && e == Error::Lexical(LexicalError::ReadPastEnd)
                    && *final(self) == *old(self),
            },
    {
        let len = self.text.as_str().unicode_len();
        if self.position <= len && n <= len - self.position {
            let sub = self.text.as_str().substring_char(self.position, self.position + n);
            let owned = sub.to_owned();
            self.position = self.position + n;
            Ok(owned)
        } else {
            Err(Error::Lexical(LexicalError::ReadPastEnd))
        }
    }

    /// Takes an 8-character timecode if one starts at the cursor, else
    /// leaves the reader unchanged.
    pub fn try_take_time(&mut self) -> (r: Option<Time>)
        ensures
            final(self).spec_text() == old(self).spec_text(),
            match r {
                Some(t) => spec_time_at(old(self).spec_text(), old(self).spec_pos())
                    && t == spec_timecode_value(
                        old(self).spec_text().subrange(old(self).spec_pos(), old(self).spec_pos() + 8),
                    )
                    && final(self).spec_pos() == old(self).spec_pos() + 8,
                None => *final(self) == *old(self)
                    && !spec_time_at(old(self).spec_text(), old(self).spec_pos()),
            },
    {
        let len = self.text.as_str().unicode_len();
        if self.position >= len || len - self.position < 8 {
            return None;
        }
        let sub = self.text.as_str().substring_char(self.position, self.position + 8);
        match Time::parse(sub) {
            Ok(t) => {
                self.position = self.position + 8;
                Some(t)
            },
            Err(_) => None,
        }
    }

    /// Takes a two-digit number followed by a boundary if one starts at
    /// the cursor (consuming the boundary character as well), else leaves
    /// the reader unchanged.  Numbers can only be two digits long.
    pub fn try_take_number(&mut self) -> (r: Option<u32>)
        ensures
            final(self).spec_text() == old(self).spec_text(),
            match r {
                Some(v) => spec_number_at(old(self).spec_text(), old(self).spec_pos())
                    && v == spec_number_value(old(self).spec_text(), old(self).spec_pos())
                    && final(self).spec_pos() == (
                    if old(self).spec_pos() + 3 <= old(self).spec_text().len() {
                        old(self).spec_pos() + 3
                    } else {
                        old(self).spec_text().len() as int
                    }),
                None => *final(self) == *old(self)
                    && !spec_number_at(old(self).spec_text(), old(self).spec_pos()),
            },
    {
        let len = self.text.as_str().unicode_len();
        if self.position >= len || len - self.position < 2 {
            return None;
        }
        let d0 = match digit_value(self.text.as_str().get_char(self.position)) {
            Some(d) => d,
            None => {
                return None;
            },
        };
        let d1 = match digit_value(self.text.as_str().get_char(self.position + 1)) {
            Some(d) => d,
            None => {
                return None;
            },
        };
        if len - self.position >= 3 {
            if !is_whitespace(self.text.as_str().get_char(self.position + 2)) {
                return None;
            }
            self.position = self.position + 3;
        } else {
            self.position = len;
        }
        Some(10 * (d0 as u32) + (d1 as u32))
    }

    /// Takes a string token starting at the cursor: quote-delimited when
    /// the first character is a quote, otherwise a maximal bare run whose
    /// terminating whitespace character is consumed too.
    pub fn take_string(&mut self) -> (r: Result<String, Error>)
        ensures
            final(self).spec_text() == old(self).spec_text(),
            match r {
                Ok(s) => spec_take_string(old(self).spec_text(), old(self).spec_pos()) == Ok::<
                    (Seq<char>, int),
                    Error,
                >((s@, final(self).spec_pos())),
                Err(e) => spec_take_string(old(self).spec_text(), old(self).spec_pos()) == Err::<
                    (Seq<char>, int),
                    Error,
                >(e),
            },
    {
        let len = self.text.as_str().unicode_len();
        if self.position >= len {
            return Err(Error::Lexical(LexicalError::ReadPastEnd));
        }
        let first = self.text.as_str().get_char(self.position);
        let start = self.position;
        if first == '"' {
            let mut j = start + 1;
            while j < len && self.text.as_str().get_char(j) != '"'
                invariant
                    start + 1 <= j <= len,
                    len == self.text@.len(),
                    self == old(self),
                    spec_scan_quote(self.text@, start + 1) == spec_scan_quote(self.text@, j as int),
                decreases len - j,
            {
                j = j + 1;
            }
            if j < len {
                let content = self.text.as_str().substring_char(start + 1, j);
                let owned = content.to_owned();
                self.position = j + 1;
                Ok(owned)
            } else {
                self.position = len;
                Err(Error::Lexical(LexicalError::UnclosedQuote))
            }
        } else {
            let mut j = start + 1;
            while j < len && !is_whitespace(self.text.as_str().get_char(j)) && self.text.as_str()
                .get_char(j) != '"'
                invariant
                    start + 1 <= j <= len,
                    len == self.text@.len(),
                    self == old(self),
                    spec_scan_bare(self.text@, start + 1) == spec_scan_bare(self.text@, j as int),
                decreases len - j,
            {
                j = j + 1;
            }
            if j < len && self.text.as_str().get_char(j) == '"' {
                self.position = j + 1;
                Err(Error::Lexical(LexicalError::QuoteInBareString))
            } else {
                let content = self.text.as_str().substring_char(start, j);
                let owned = content.to_owned();
                self.position = if j < len {
                    j + 1
                } else {
                    j
                };
                Ok(owned)
            }
        }
    }

    /// Moves the cursor past any whitespace characters.
    pub fn try_skip_whitespace(&mut self)
        ensures
            final(self).spec_text() == old(self).spec_text(),
            final(self).spec_pos() == spec_skip_ws(old(self).spec_text(), old(self).spec_pos()),
    {
        let len = self.text.as_str().unicode_len();
        while self.position < len && is_whitespace(self.text.as_str().get_char(self.position))
            invariant
                len == self.text@.len(),
                self.text@ == old(self).spec_text(),
                spec_skip_ws(self.text@, old(self).spec_pos()) == spec_skip_ws(
                    self.text@,
                    self.position as int,
                ),
            decreases len - self.position,
        {
            self.position = self.position + 1;
        }
    }
}

/// Converts a string into a vector of tokens.
pub fn tokenize(source: &str) -> (r: Result<Vec<Token>, Error>)
    ensures
        match r {
            Ok(v) => spec_tokenize(source@) == Ok::<Seq<TokenView>, Error>(spec_tokens_view(v@)),
            Err(e) => spec_tokenize(source@) == Err::<Seq<TokenView>, Error>(e),
        },
{
    let mut tokens: Vec<Token> = Vec::new();
    let mut reader = Reader::new(source);
    reader.try_skip_whitespace();
    proof {
        lemma_skip_ws_bounds(source@, 0);
        lemma_tokenize_from_skip(source@, 0);
        assert(spec_tokens_view(tokens@) =~= Seq::<TokenView>::empty());
    }
    while reader.available()
        invariant
            reader.spec_text() == source@,
            0 <= reader.spec_pos() <= source@.len(),
            spec_skip_ws(source@, reader.spec_pos()) == reader.spec_pos(),
            spec_prepend_tokens(spec_tokens_view(tokens@), spec_tokenize_from(source@, reader.spec_pos()))
                == spec_tokenize(source@),
        decreases source@.len() - reader.spec_pos(),
    {
        let ghost s = source@;
        let ghost p = reader.spec_pos();
        let ghost toks0 = spec_tokens_view(tokens@);
        proof {
            lemma_take_string_bounds(s, p);
        }
        if let Some(time) = reader.try_take_time() {
            tokens.push(Token::Time(time));
            proof {
                lemma_step(s, p, toks0, TokenView::Time(spec_timecode_value(s.subrange(p, p + 8))), p + 8);
                assert(spec_tokens_view(tokens@) =~= toks0.push(
                    TokenView::Time(spec_timecode_value(s.subrange(p, p + 8))),
                ));
            }
        } else if let Some(num) = reader.try_take_number() {
            tokens.push(Token::Number(num));
            proof {
                let k = if p + 3 <= s.len() { p + 3 } else { s.len() as int };
                lemma_step(s, p, toks0, TokenView::Number(spec_number_value(s, p)), k);
                assert(spec_tokens_view(tokens@) =~= toks0.push(TokenView::Number(spec_number_value(s, p))));
            }
        } else {
            match reader.take_string() {
                Ok(st) => {
                    let ghost tv = TokenView::Str(st@);
                    let ghost k2 = reader.spec_pos();
                    tokens.push(Token::String(st));
                    proof {
                        lemma_step(s, p, toks0, tv, k2);
                        assert(spec_tokens_view(tokens@) =~= toks0.push(tv));
                    }
                },
                Err(e) => {
                    return Err(e);
                },
            }
        }
        let ghost q = reader.spec_pos();
        reader.try_skip_whitespace();
        proof {
            lemma_skip_ws_bounds(s, q);
            lemma_tokenize_from_skip(s, q);
        }
    }
    proof {
        assert(spec_tokens_view(tokens@) + Seq::<TokenView>::empty() =~= spec_tokens_view(tokens@));
    }
    Ok(tokens)
}

/// A bare-string scan over characters that cannot end it stops exactly
/// at the first position that can (or at the end of the input).
proof fn lemma_scan_bare_stops_at(s: Seq<char>, k: int, j: int)
    requires
        0 <= k <= j <= s.len(),
        forall|m: int| k <= m < j ==> !spec_is_ws(s[m]) && s[m] != '"',
        j == s.len() || spec_is_ws(s[j]) || s[j] == '"',
    ensures
        spec_scan_bare(s, k) == j,
    decreases j - k,
{
    if k < j {
        lemma_scan_bare_stops_at(s, k + 1, j);
    }
}

/// A maximal run of digits whose length is not exactly two — delimited
/// on the right by whitespace or the end of the input — lexes as one
/// single string token holding exactly the run, never as a number, and
/// the lexer continues after it.  An 8-digit hex tag inside a larger
/// sheet, for example, is a string.
pub proof fn lemma_digit_run_lexes_as_string(s: Seq<char>, i: int, j: int)
    requires
        0 <= i < j <= s.len(),
        forall|k: int| i <= k < j ==> spec_is_digit(s[k]),
        j == s.len() || spec_is_ws(s[j]),
        j - i != 2,
    ensures
        spec_tokenize_from(s, i) == spec_cons_token(
            TokenView::Str(s.subrange(i, j)),
            spec_tokenize_from(
                s,
                if j < s.len() {
                    j + 1
                } else {
                    j
                },
            ),
        ),
{
    assert(forall|k: int| i <= k < j ==> !spec_is_ws(s[k]) && s[k] != '"' && s[k] != ':');
    assert(spec_skip_ws(s, i) == i);
    if i + 8 <= s.len() {
        let sub = s.subrange(i, i + 8);
        assert(sub[1] == s[i + 1]);
        assert(sub[2] == s[i + 2]);
        if j - i == 1 {
            assert(spec_is_ws(s[i + 1]));
            assert(!spec_is_digit(sub[1]));
        } else {
            assert(sub[2] != ':');
        }
        assert(!spec_is_timecode(sub));
    }
    assert(!spec_time_at(s, i));
    assert(!spec_number_at(s, i));
    lemma_scan_bare_stops_at(s, i + 1, j);
    assert(spec_take_string(s, i) == Ok::<(Seq<char>, int), Error>(
        (
            s.subrange(i, j),
            if j < s.len() {
                j + 1
            } else {
                j
            },
        ),
    ));
}

/// A run of digits whose length is not exactly two lexes as one single
/// string token, never as a number: the whole-input instance of the law
/// above.
pub proof fn lemma_digit_run_is_string(s: Seq<char>)
    requires
        s.len() > 0,
        s.len() != 2,
        forall|i: int| 0 <= i < s.len() ==> spec_is_digit(s[i]),
    ensures
        spec_tokenize(s) == Ok::<Seq<TokenView>, Error>(seq![TokenView::Str(s)]),
{
    lemma_digit_run_lexes_as_string(s, 0, s.len() as int);
    assert(s.subrange(0, s.len() as int) =~= s);
    assert(spec_skip_ws(s, s.len() as int) == s.len());
    assert(spec_tokenize_from(s, s.len() as int) == Ok::<Seq<TokenView>, Error>(Seq::empty()));
    assert(seq![TokenView::Str(s)] + Seq::<TokenView>::empty() =~= seq![TokenView::Str(s)]);
}

/// One unfolding step of the lexer specification: when a token with view
/// `t` is recognized at the (whitespace-free) position `p` and the cursor
/// moves to `k`, the already-lexed prefix absorbs the token.
proof fn lemma_step(s: Seq<char>, p: int, toks0: Seq<TokenView>, t: TokenView, k: int)
    requires
        0 <= p <= s.len(),
        0 <= k <= s.len(),
        spec_skip_ws(s, p) == p,
        spec_tokenize_from(s, p) == spec_cons_token(t, spec_tokenize_from(s, k)),
        spec_prepend_tokens(toks0, spec_tokenize_from(s, p)) == spec_tokenize(s),
    ensures
        spec_prepend_tokens(toks0.push(t), spec_tokenize_from(s, k)) == spec_tokenize(s),
{
    match spec_tokenize_from(s, k) {
        Ok(rest) => {
            assert(toks0 + (seq![t] + rest) =~= toks0.push(t) + rest);
        },
        Err(_) => {},
    }
}

} // verus!
