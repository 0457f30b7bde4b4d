//! Parsing of cue sheets: the `Time` value type, the keyword enums, and the
//! entry point that turns raw text into a sequence of commands.

pub mod command;
pub mod tokenization;

pub use self::command::{Command, CommandView};
pub use self::tokenization::{tokenize, Reader, Token, TokenView};

use vstd::prelude::*;
use vstd::string::*;
use vstd::arithmetic::div_mod::{
    lemma_fundamental_div_mod, lemma_fundamental_div_mod_converse, lemma_div_denominator,
    lemma_div_is_ordered,
};

use crate::errors::{Error, SyntaxError};

verus! {

/// Number of audio frames/sectors per second in cue sheets.
///
/// This value is fixed for all cue sheets to 75 frames per second.
const FPS: i64 = 75;

/// The largest total frame count whose normalized `mm:ss:ff` form still has
/// a minutes component that fits the minutes field of [`Time`].
pub const MAX_TOTAL_FRAMES: i64 = 4500 * 0x8000_0000 - 1;

/// True for the ten ASCII digit characters.
pub open spec fn spec_is_digit(c: char) -> bool {
    48 <= c as int && c as int <= 57
}

/// The numeric value of an ASCII digit character.
pub open spec fn spec_digit_val(c: char) -> int {
    c as int - 48
}

/// The ASCII digit character for a value between 0 and 9.
pub open spec fn spec_digit_char(d: int) -> char {
    (48 + d) as char
}

/// The decimal digit string of a non-negative number, most significant
/// digit first, without leading zeros.
pub open spec fn spec_decimal(n: int) -> Seq<char>
    decreases n,
{
    if n < 10 {
        seq![spec_digit_char(if n < 0 { 0 } else { n })]
    } else {
        spec_decimal(n / 10).push(spec_digit_char(n % 10))
    }
}

/// The decimal digit string of a non-negative number, left-padded with a
/// zero to at least two characters.
pub open spec fn spec_padded2(n: int) -> Seq<char> {
    if n < 10 {
        seq!['0', spec_digit_char(if n < 0 { 0 } else { n })]
    } else {
        spec_decimal(n)
    }
}

/// A run of `k` zero characters (empty when `k` is not positive).
pub open spec fn spec_zeros(k: int) -> Seq<char> {
    Seq::new(if k < 0 { 0 } else { k as nat }, |i: int| '0')
}

/// The decimal digit string of a non-negative number, left-padded with
/// zeros to at least 13 characters.
pub open spec fn spec_padded13(n: int) -> Seq<char> {
    spec_zeros(13 - spec_decimal(n).len()) + spec_decimal(n)
}

/// ASCII upper-casing of a single character; everything outside `a..=z`
/// is left unchanged.
pub open spec fn spec_ascii_upper(c: char) -> char {
    if 97 <= c as int && c as int <= 122 {
        (c as int - 32) as char
    } else {
        c
    }
}

/// True when upper-casing `a` character by character yields exactly `b`.
pub open spec fn spec_upper_eq(a: Seq<char>, b: Seq<char>) -> bool {
    a.len() == b.len() && (forall|i: int| 0 <= i < a.len() ==> spec_ascii_upper(a[i]) == b[i])
}

/// True when `s` has the strict 8-character `mm:ss:ff` shape: two digits,
/// a colon, two digits, a colon, two digits.
pub open spec fn spec_is_timecode(s: Seq<char>) -> bool {
    &&& s.len() == 8
    &&& s[2] == ':'
    &&& s[5] == ':'
    &&& spec_is_digit(s[0])
    &&& spec_is_digit(s[1])
    &&& spec_is_digit(s[3])
    &&& spec_is_digit(s[4])
    &&& spec_is_digit(s[6])
    &&& spec_is_digit(s[7])
}

/// Time representation of the format `mm:ss:ff`.
///
/// Where mm = minutes, ss = seconds, ff = frames/sectors.
/// There are 75 frames per second, 60 seconds per minute.
#[derive(Clone, Copy, Debug, Eq, PartialEq, Hash, Structural)]
pub struct Time {
    /// Minutes time component.
    mins: i32,

    /// Seconds time component.
    secs: i8,

    /// Frames time component.
    frames: i8,
}

/// The `Time` value denoted by a well-shaped `mm:ss:ff` character sequence.
pub closed spec fn spec_timecode_value(s: Seq<char>) -> Time {
    Time {
        mins: (10 * spec_digit_val(s[0]) + spec_digit_val(s[1])) as i32,
        secs: (10 * spec_digit_val(s[3]) + spec_digit_val(s[4])) as i8,
        frames: (10 * spec_digit_val(s[6]) + spec_digit_val(s[7])) as i8,
    }
}

/// The components of the value denoted by a well-shaped timecode, spelled
/// out digit by digit.
pub proof fn lemma_timecode_value(s: Seq<char>)
    requires
        spec_is_timecode(s),
    ensures
        spec_timecode_value(s).spec_minutes() == 10 * spec_digit_val(s[0]) + spec_digit_val(s[1]),
        spec_timecode_value(s).spec_seconds() == 10 * spec_digit_val(s[3]) + spec_digit_val(s[4]),
        spec_timecode_value(s).spec_frames() == 10 * spec_digit_val(s[6]) + spec_digit_val(s[7]),
{
}

/// Clips an arbitrary frame count into the representable range
/// `0 ..= MAX_TOTAL_FRAMES`.
pub open spec fn spec_clip_frames(n: int) -> int {
    if n < 0 {
        0
    } else if n > MAX_TOTAL_FRAMES as int {
        MAX_TOTAL_FRAMES as int
    } else {
        n
    }
}

/// The difference of two times as a frame count, saturating at zero when
/// the subtrahend exceeds the minuend (and at the representable maximum).
pub open spec fn spec_saturating_sub(a: Time, b: Time) -> Time {
    Time::spec_from_frames(spec_clip_frames(a.spec_total_frames() - b.spec_total_frames()))
}

/// The canonical `mm:ss:ff` display of a time, each component zero-padded
/// to at least two digits.
pub open spec fn spec_time_display(t: Time) -> Seq<char> {
    spec_padded2(t.spec_minutes()) + seq![':'] + spec_padded2(t.spec_seconds()) + seq![':']
        + spec_padded2(t.spec_frames())
}

/// The shortened `mm:ss` display of a time.
pub open spec fn spec_time_display_2(t: Time) -> Seq<char> {
    spec_padded2(t.spec_minutes()) + seq![':'] + spec_padded2(t.spec_seconds())
}

impl Time {
    /// The minutes component, as a mathematical integer.
    pub closed spec fn spec_minutes(self) -> int {
        self.mins as int
    }

    /// The seconds component, as a mathematical integer.
    pub closed spec fn spec_seconds(self) -> int {
        self.secs as int
    }

    /// The frames component, as a mathematical integer.
    pub closed spec fn spec_frames(self) -> int {
        self.frames as int
    }

    /// The total frame count denoted by the three components.
    pub open spec fn spec_total_frames(self) -> int {
        (self.spec_minutes() * 60 + self.spec_seconds()) * 75 + self.spec_frames()
    }

    /// A well-formed time: non-negative minutes, seconds below a minute,
    /// frames below a second.
    pub open spec fn wf(self) -> bool {
        &&& 0 <= self.spec_minutes()
        &&& 0 <= self.spec_seconds() < 60
        &&& 0 <= self.spec_frames() < 75
    }

    /// A time whose components can each be rendered as decimal digits:
    /// non-negative, with seconds and frames below one hundred.  Every
    /// well-formed time and every parsed timecode satisfies this.
    pub open spec fn displayable(self) -> bool {
        &&& 0 <= self.spec_minutes()
        &&& 0 <= self.spec_seconds() < 100
        &&& 0 <= self.spec_frames() < 100
    }

    /// The normalized time for a total frame count: frames below 75,
    /// seconds below 60, the rest in minutes.  Meaningful for counts in
    /// `0 ..= MAX_TOTAL_FRAMES`.
    pub closed spec fn spec_from_frames(n: int) -> Time {
        Time {
            mins: (n / 4500) as i32,
            secs: ((n / 75) % 60) as i8,
            frames: (n % 75) as i8,
        }
    }

    /// Create a new instance with the specified components.
    pub fn new(minutes: i32, seconds: i8, frames: i8) -> (t: Time)
        ensures
            t.spec_minutes() == minutes,
            t.spec_seconds() == seconds,
            t.spec_frames() == frames,
    {
        Time { mins: minutes, secs: seconds, frames: frames }
    }

    /// Returns the "minutes" component of this instance.
    pub fn minutes(&self) -> (m: i32)
        ensures
            m == self.spec_minutes(),
    {
        self.mins
    }

    /// Returns the "seconds" component of this instance.
    pub fn seconds(&self) -> (s: i8)
        ensures
            s == self.spec_seconds(),
    {
        self.secs
    }

    /// Returns the "frames/sectors" component of this instance.
    pub fn frames(&self) -> (f: i8)
        ensures
            f == self.spec_frames(),
    {
        self.frames
    }

    /// Returns the total number of frames/sectors represented by this
    /// instance.
    pub fn total_frames(&self) -> (n: i64)
        ensures
            n == self.spec_total_frames(),
    {
        (self.mins as i64 * 60 + self.secs as i64) * FPS + self.frames as i64
    }

    /// Create an instance for the specified number of frames/sectors,
    /// normalizing frames into seconds and seconds into minutes.
    pub fn from_frames(from: i64) -> (t: Time)
        requires
            0 <= from,
            from <= MAX_TOTAL_FRAMES,
        ensures
            t == Time::spec_from_frames(from as int),
    {
        let n = from as u64;
        let frames = (n % 75) as i8;
        let secs = ((n / 75) % 60) as i8;
        proof {
            lemma_div_is_ordered(n as int, MAX_TOTAL_FRAMES as int, 4500);
        }
        let mins = (n / 4500) as i32;
        Time { mins: mins, secs: secs, frames: frames }
    }

    /// The components and the total of a normalized time, for any
    /// representable frame count.
    pub proof fn lemma_from_frames(n: int)
        requires
            0 <= n,
            n <= MAX_TOTAL_FRAMES,
        ensures
            Time::spec_from_frames(n).spec_minutes() == n / 4500,
            Time::spec_from_frames(n).spec_seconds() == (n / 75) % 60,
            Time::spec_from_frames(n).spec_frames() == n % 75,
            Time::spec_from_frames(n).wf(),
            Time::spec_from_frames(n).spec_total_frames() == n,
    {
        lemma_div_is_ordered(n, MAX_TOTAL_FRAMES as int, 4500);
        lemma_fundamental_div_mod(n, 75);
        lemma_fundamental_div_mod(n / 75, 60);
        lemma_div_denominator(n, 75, 60);
    }

    /// Normalizing the total frame count of a well-formed time yields the
    /// same time again.
    pub proof fn lemma_round_trip(t: Time)
        requires
            t.wf(),
        ensures
            Time::spec_from_frames(t.spec_total_frames()) == t,
    {
        let n = t.spec_total_frames();
        let m = t.spec_minutes();
        let s = t.spec_seconds();
        let f = t.spec_frames();
        assert(n == m * 4500 + (s * 75 + f));
        lemma_fundamental_div_mod_converse(n, 4500, m, s * 75 + f);
        lemma_fundamental_div_mod_converse(n, 75, m * 60 + s, f);
        lemma_fundamental_div_mod_converse(m * 60 + s, 60, m, s);
        lemma_div_denominator(n, 75, 60);
    }

    /// Subtracts `rhs` from `self` by total frame count, saturating at
    /// zero (and at the representable maximum), then normalizes.
    pub fn saturating_sub(self, rhs: Time) -> (r: Time)
        ensures
            r == spec_saturating_sub(self, rhs),
    {
        let l = self.total_frames();
        let m = rhs.total_frames();
        let d = if l >= m {
            l - m
        } else {
            0
        };
        let d = if d > MAX_TOTAL_FRAMES {
            MAX_TOTAL_FRAMES
        } else {
            d
        };
        Time::from_frames(d)
    }

    /// Subtracting a time from itself yields the zero time.
    pub proof fn lemma_sub_self_is_zero(t: Time)
        ensures
            spec_saturating_sub(t, t) == Time::spec_from_frames(0),
            spec_saturating_sub(t, t).spec_total_frames() == 0,
    {
        Time::lemma_from_frames(0);
    }

    /// When the subtrahend is at least as large as the minuend, the
    /// saturating difference is the zero time.
    pub proof fn lemma_sub_saturates(a: Time, b: Time)
        requires
            a.spec_total_frames() <= b.spec_total_frames(),
        ensures
            spec_saturating_sub(a, b) == Time::spec_from_frames(0),
    {
    }

    /// When the subtrahend does not exceed the minuend and the minuend is
    /// representable, the saturating difference is exactly the normalized
    /// difference of the two total frame counts: the index that a Pregap
    /// command synthesizes then lies at precisely (index time minus
    /// pregap duration).
    pub proof fn lemma_sub_exact(a: Time, b: Time)
        requires
            0 <= b.spec_total_frames() <= a.spec_total_frames(),
            a.spec_total_frames() <= MAX_TOTAL_FRAMES,
        ensures
            spec_saturating_sub(a, b) == Time::spec_from_frames(
                a.spec_total_frames() - b.spec_total_frames(),
            ),
    {
    }

    /// Parse a string in the strict 8-character `mm:ss:ff` form.
    pub fn parse(s: &str) -> (r: Result<Time, Error>)
        ensures
            r == (if spec_is_timecode(s@) {
                Ok::<Time, Error>(spec_timecode_value(s@))
            } else {
                Err::<Time, Error>(Error::Syntax(SyntaxError::BadTimecode))
            }),
    {
        let n = s.unicode_len();
        if n != 8 {
            return Err(Error::Syntax(SyntaxError::BadTimecode));
        }
        if s.get_char(2) != ':' || s.get_char(5) != ':' {
            return Err(Error::Syntax(SyntaxError::BadTimecode));
        }
        let d0 = match digit_value(s.get_char(0)) {
            Some(d) => d,
            None => {
                return Err(Error::Syntax(SyntaxError::BadTimecode));
            },
        };
        let d1 = match digit_value(s.get_char(1)) {
            Some(d) => d,
            None => {
                return Err(Error::Syntax(SyntaxError::BadTimecode));
            },
        };
        let d3 = match digit_value(s.get_char(3)) {
            Some(d) => d,
            None => {
                return Err(Error::Syntax(SyntaxError::BadTimecode));
            },
        };
        let d4 = match digit_value(s.get_char(4)) {
            Some(d) => d,
            None => {
                return Err(Error::Syntax(SyntaxError::BadTimecode));
            },
        };
        let d6 = match digit_value(s.get_char(6)) {
            Some(d) => d,
            None => {
                return Err(Error::Syntax(SyntaxError::BadTimecode));
            },
        };
        let d7 = match digit_value(s.get_char(7)) {
            Some(d) => d,
            None => {
                return Err(Error::Syntax(SyntaxError::BadTimecode));
            },
        };
        let mins = (10 * d0 + d1) as i32;
        let secs = (10 * d3 + d4) as i8;
        let frames = (10 * d6 + d7) as i8;
        Ok(Time { mins: mins, secs: secs, frames: frames })
    }
}

/// A one-character string slice for a digit value between 0 and 9.
fn digit_str(d: u8) -> (r: &'static str)
    requires
        d < 10,
    ensures
        r@ == seq![spec_digit_char(d as int)],
{
    proof {
        reveal_strlit("0");
        reveal_strlit("1");
        reveal_strlit("2");
        reveal_strlit("3");
        reveal_strlit("4");
        reveal_strlit("5");
        reveal_strlit("6");
        reveal_strlit("7");
        reveal_strlit("8");
        reveal_strlit("9");
    }
    let r: &'static str = match d {
        0 => "0",
        1 => "1",
        2 => "2",
        3 => "3",
        4 => "4",
        5 => "5",
        6 => "6",
        7 => "7",
        8 => "8",
        _ => "9",
    };
    proof {
        assert(r@ =~= seq![spec_digit_char(d as int)]);
    }
    r
}

/// Appends the decimal digit string of `n` to `s`.
fn push_decimal(s: &mut String, n: u32)
    ensures
        final(s)@ == old(s)@ + spec_decimal(n as int),
    decreases n,
{
    if n >= 10 {
        push_decimal(s, n / 10);
    }
    s.append(digit_str((n % 10) as u8));
    proof {
        assert(s@ =~= old(s)@ + spec_decimal(n as int));
    }
}

/// Appends the decimal digit string of `n` to `s`, zero-padded to at
/// least two characters.
fn push_padded2(s: &mut String, n: u32)
    ensures
        final(s)@ == old(s)@ + spec_padded2(n as int),
{
    if n < 10 {
        proof {
            reveal_strlit("0");
        }
        s.append("0");
        s.append(digit_str(n as u8));
        proof {
            assert(s@ =~= old(s)@ + spec_padded2(n as int));
        }
    } else {
        push_decimal(s, n);
    }
}

/// Builds the 13-character, zero-padded decimal rendering of a catalog
/// number.
pub(crate) fn catalog_string(n: u32) -> (r: String)
    ensures
        r@ == spec_padded13(n as int),
{
    let mut tail = String::new();
    push_decimal(&mut tail, n);
    proof {
        assert(tail@ =~= spec_decimal(n as int));
    }
    let dl = tail.as_str().unicode_len();
    let mut r = String::new();
    let mut k: usize = dl;
    proof {
        reveal_strlit("0");
        assert(r@ =~= spec_zeros(k - dl));
    }
    while k < 13
        invariant
            dl <= k,
            dl < 13 ==> k <= 13,
            dl >= 13 ==> k == dl,
            dl == spec_decimal(n as int).len(),
            tail@ == spec_decimal(n as int),
            r@ == spec_zeros(k - dl),
        decreases 13 - k,
    {
        proof {
            reveal_strlit("0");
        }
        r.append("0");
        k = k + 1;
        proof {
            assert(r@ =~= spec_zeros(k - dl));
        }
    }
    r.append(tail.as_str());
    proof {
        if dl < 13 {
            assert(r@ =~= spec_padded13(n as int));
        } else {
            assert(r@ =~= spec_padded13(n as int));
        }
    }
    r
}

impl Time {
    /// Format as canonical `mm:ss:ff`, each component zero-padded to at
    /// least two digits.
    pub fn to_string(&self) -> (r: String)
        requires
            self.displayable(),
        ensures
            r@ == spec_time_display(*self),
    {
        proof {
            reveal_strlit(":");
        }
        let mut s = String::new();
        push_padded2(&mut s, self.mins as u32);
        s.append(":");
        push_padded2(&mut s, self.secs as u32);
        s.append(":");
        push_padded2(&mut s, self.frames as u32);
        proof {
            assert(s@ =~= spec_time_display(*self));
        }
        s
    }

    /// Format as `mm:ss`, truncating the remaining frames.
    pub fn to_string_2(&self) -> (r: String)
        requires
            self.displayable(),
        ensures
            r@ == spec_time_display_2(*self),
    {
        proof {
            reveal_strlit(":");
        }
        let mut s = String::new();
        push_padded2(&mut s, self.mins as u32);
        s.append(":");
        push_padded2(&mut s, self.secs as u32);
        proof {
            assert(s@ =~= spec_time_display_2(*self));
        }
        s
    }
}

/// Parsing the canonical display of a well-formed time with a two-digit
/// minutes component yields the time itself.
pub proof fn lemma_display_round_trip(t: Time)
    requires
        t.wf(),
        t.spec_minutes() < 100,
    ensures
        spec_is_timecode(spec_time_display(t)),
        spec_timecode_value(spec_time_display(t)) == t,
{
    let s = spec_time_display(t);
    lemma_padded2_digits(t.spec_minutes());
    lemma_padded2_digits(t.spec_seconds());
    lemma_padded2_digits(t.spec_frames());
    assert(s[0] == spec_digit_char(t.spec_minutes() / 10));
    assert(s[1] == spec_digit_char(t.spec_minutes() % 10));
    assert(s[2] == ':');
    assert(s[3] == spec_digit_char(t.spec_seconds() / 10));
    assert(s[4] == spec_digit_char(t.spec_seconds() % 10));
    assert(s[5] == ':');
    assert(s[6] == spec_digit_char(t.spec_frames() / 10));
    assert(s[7] == spec_digit_char(t.spec_frames() % 10));
    lemma_timecode_value(s);
    lemma_fundamental_div_mod(t.spec_minutes(), 10);
    lemma_fundamental_div_mod(t.spec_seconds(), 10);
    lemma_fundamental_div_mod(t.spec_frames(), 10);
}

/// The result that `Time::parse` fixes for the canonical display of a
/// well-formed time with a two-digit minutes component is exactly `Ok`
/// of that time: the ensured expression below is `Time::parse`'s
/// postcondition, applied to that display.
pub proof fn lemma_parse_display(t: Time)
    requires
        t.wf(),
        t.spec_minutes() <= 99,
    ensures
        (if spec_is_timecode(spec_time_display(t)) {
            Ok::<Time, Error>(spec_timecode_value(spec_time_display(t)))
        } else {
            Err::<Time, Error>(Error::Syntax(SyntaxError::BadTimecode))
        }) == Ok::<Time, Error>(t),
{
    lemma_display_round_trip(t);
}

/// For a value below one hundred, the padded rendering is exactly its two
/// decimal digits.
proof fn lemma_padded2_digits(n: int)
    requires
        0 <= n < 100,
    ensures
        spec_padded2(n) =~= seq![spec_digit_char(n / 10), spec_digit_char(n % 10)],
{
    if n < 10 {
        assert(n / 10 == 0);
    } else {
        assert(spec_decimal(n) == spec_decimal(n / 10).push(spec_digit_char(n % 10)));
        assert(n / 10 < 10);
    }
}

/// The numeric value of an ASCII digit character, or `None` for any other
/// character.
pub(crate) fn digit_value(c: char) -> (r: Option<u8>)
    ensures
        r is Some <==> spec_is_digit(c),
        r is Some ==> r->0 == spec_digit_val(c),
{
    let u = c as u32;
    if 48 <= u && u <= 57 {
        Some((u - 48) as u8)
    } else {
        None
    }
}

/// ASCII upper-casing of a single character.
pub(crate) fn to_upper_char(c: char) -> (r: char)
    ensures
        r == spec_ascii_upper(c),
{
    let u = c as u32;
    if 97 <= u && u <= 122 {
        ((c as u8) - 32) as char
    } else {
        c
    }
}

/// Compares `s` against an upper-case keyword, ignoring ASCII case in `s`.
pub(crate) fn eq_ignore_case(s: &str, upper: &str) -> (r: bool)
    ensures
        r == spec_upper_eq(s@, upper@),
{
    let n = s.unicode_len();
    let m = upper.unicode_len();
    if n != m {
        return false;
    }
    let mut i: usize = 0;
    while i < n
        invariant
            n == s@.len(),
            n == upper@.len(),
            0 <= i <= n,
            forall|j: int| 0 <= j < i ==> spec_ascii_upper(s@[j]) == upper@[j],
        decreases n - i,
    {
        let c = to_upper_char(s.get_char(i));
        if c != upper.get_char(i) {
            return false;
        }
        i = i + 1;
    }
    true
}

/// Describes the file format of an audio file.
#[derive(Clone, Copy, Debug, Eq, PartialEq, Structural)]
pub enum FileFormat {
    /// Also includes other lossless formats.
    Wave,
    /// An MP3 audio file.
    Mp3,
    /// An AIFF audio file.
    Aiff,
    /// Little-endian binary raw data file.
    Binary,
    /// Big-endian binary raw data file.
    Motorola,
}

/// The file format named by a string, compared case-insensitively.
pub open spec fn spec_file_format(s: Seq<char>) -> Result<FileFormat, Error> {
    if spec_upper_eq(s, "WAVE"@) {
        Ok(FileFormat::Wave)
    } else if spec_upper_eq(s, "MP3"@) {
        Ok(FileFormat::Mp3)
    } else if spec_upper_eq(s, "AIFF"@) {
        Ok(FileFormat::Aiff)
    } else if spec_upper_eq(s, "BINARY"@) {
        Ok(FileFormat::Binary)
    } else if spec_upper_eq(s, "MOTOROLA"@) {
        Ok(FileFormat::Motorola)
    } else {
        Err(Error::Syntax(SyntaxError::UnknownFileFormat))
    }
}

impl FileFormat {
    /// Parse a file format keyword, ignoring ASCII case.
    pub fn from_str(s: &str) -> (r: Result<FileFormat, Error>)
        ensures
            r == spec_file_format(s@),
    {
        if eq_ignore_case(s, "WAVE") {
            Ok(FileFormat::Wave)
        } else if eq_ignore_case(s, "MP3") {
            Ok(FileFormat::Mp3)
        } else if eq_ignore_case(s, "AIFF") {
            Ok(FileFormat::Aiff)
        } else if eq_ignore_case(s, "BINARY") {
            Ok(FileFormat::Binary)
        } else if eq_ignore_case(s, "MOTOROLA") {
            Ok(FileFormat::Motorola)
        } else {
            Err(Error::Syntax(SyntaxError::UnknownFileFormat))
        }
    }
}

/// Additional flags a Track can have.
#[derive(Clone, Copy, Debug, Eq, PartialEq, Structural)]
pub enum TrackFlag {
    /// Digital Copy Permitted
    Dcp,
    /// 4 Channel audio (4CH)
    FourChannel,
    /// PRE-emphasis enabled (audio tracks only)
    Pre,
    /// Serial Copy Management System
    Scms,
}

/// The track flag named by a string, compared case-insensitively.
pub open spec fn spec_track_flag(s: Seq<char>) -> Result<TrackFlag, Error> {
    if spec_upper_eq(s, "DCP"@) {
        Ok(TrackFlag::Dcp)
    } else if spec_upper_eq(s, "4CH"@) {
        Ok(TrackFlag::FourChannel)
    } else if spec_upper_eq(s, "PRE"@) {
        Ok(TrackFlag::Pre)
    } else if spec_upper_eq(s, "SCMS"@) {
        Ok(TrackFlag::Scms)
    } else {
        Err(Error::Syntax(SyntaxError::UnknownTrackFlag))
    }
}

impl TrackFlag {
    /// Parse a track flag keyword, ignoring ASCII case.
    pub fn from_str(s: &str) -> (r: Result<TrackFlag, Error>)
        ensures
            r == spec_track_flag(s@),
    {
        if eq_ignore_case(s, "DCP") {
            Ok(TrackFlag::Dcp)
        } else if eq_ignore_case(s, "4CH") {
            Ok(TrackFlag::FourChannel)
        } else if eq_ignore_case(s, "PRE") {
            Ok(TrackFlag::Pre)
        } else if eq_ignore_case(s, "SCMS") {
            Ok(TrackFlag::Scms)
        } else {
            Err(Error::Syntax(SyntaxError::UnknownTrackFlag))
        }
    }
}

/// Describes the type of tracks on the media.
///
/// Most of the time, for music, this will be just `Audio`.
#[derive(Clone, Copy, Debug, Eq, PartialEq, Structural)]
pub enum TrackType {
    /// Audio/Music (2352 — 588 samples)
    Audio,
    /// Karaoke CD+G (2448)
    Cdg,
    /// A data track in a CD-ROM sector mode, with its byte size: sector
    /// mode 1 for the MODE1 forms, sector mode 2 for the MODE2 (CD-ROM
    /// XA) forms.
    Mode(u8, u16),
    /// A CDI Mode 2 data track, with its byte size.
    Cdi(u16),
}

/// The track type named by a string, compared case-insensitively.
pub open spec fn spec_track_type(s: Seq<char>) -> Result<TrackType, Error> {
    if spec_upper_eq(s, "AUDIO"@) {
        Ok(TrackType::Audio)
    } else if spec_upper_eq(s, "CDG"@) {
        Ok(TrackType::Cdg)
    } else if spec_upper_eq(s, "MODE1/2048"@) {
        Ok(TrackType::Mode(1, 2048))
    } else if spec_upper_eq(s, "MODE1/2352"@) {
        Ok(TrackType::Mode(1, 2352))
    } else if spec_upper_eq(s, "MODE2/2048"@) {
        Ok(TrackType::Mode(2, 2048))
    } else if spec_upper_eq(s, "MODE2/2324"@) {
        Ok(TrackType::Mode(2, 2324))
    } else if spec_upper_eq(s, "MODE2/2336"@) {
        Ok(TrackType::Mode(2, 2336))
    } else if spec_upper_eq(s, "MODE2/2352"@) {
        Ok(TrackType::Mode(2, 2352))
    } else if spec_upper_eq(s, "CDI/2336"@) {
        Ok(TrackType::Cdi(2336))
    } else if spec_upper_eq(s, "CDI/2352"@) {
        Ok(TrackType::Cdi(2352))
    } else {
        Err(Error::Syntax(SyntaxError::UnknownTrackType))
    }
}

impl TrackType {
    /// Parse a track type keyword, ignoring ASCII case.
    pub fn from_str(s: &str) -> (r: Result<TrackType, Error>)
        ensures
            r == spec_track_type(s@),
    {
        if eq_ignore_case(s, "AUDIO") {
            Ok(TrackType::Audio)
        } else if eq_ignore_case(s, "CDG") {
            Ok(TrackType::Cdg)
        } else if eq_ignore_case(s, "MODE1/2048") {
            Ok(TrackType::Mode(1, 2048))
        } else if eq_ignore_case(s, "MODE1/2352") {
            Ok(TrackType::Mode(1, 2352))
        } else if eq_ignore_case(s, "MODE2/2048") {
            Ok(TrackType::Mode(2, 2048))
        } else if eq_ignore_case(s, "MODE2/2324") {
            Ok(TrackType::Mode(2, 2324))
        } else if eq_ignore_case(s, "MODE2/2336") {
            Ok(TrackType::Mode(2, 2336))
        } else if eq_ignore_case(s, "MODE2/2352") {
            Ok(TrackType::Mode(2, 2352))
        } else if eq_ignore_case(s, "CDI/2336") {
            Ok(TrackType::Cdi(2336))
        } else if eq_ignore_case(s, "CDI/2352") {
            Ok(TrackType::Cdi(2352))
        } else {
            Err(Error::Syntax(SyntaxError::UnknownTrackType))
        }
    }
}

/// The commands denoted by a whole input text: its tokens, grouped into
/// commands, or the first error of either stage.
pub open spec fn spec_parse_cue(s: Seq<char>) -> Result<Seq<CommandView>, Error> {
    match tokenization::spec_tokenize(s) {
        Ok(ts) => command::spec_parse_commands(ts, 0),
        Err(e) => Err(e),
    }
}

/// Parse the CUE sheet provided by the parameter `source` into its
/// command sequence.
pub fn parse_cue(source: &str) -> (r: Result<Vec<Command>, Error>)
    ensures
        match r {
            Ok(cmds) => spec_parse_cue(source@) == Ok::<Seq<CommandView>, Error>(
                command::spec_commands_view(cmds@),
            ),
            Err(e) => spec_parse_cue(source@) == Err::<Seq<CommandView>, Error>(e),
        },
{
    let tokens = match tokenization::tokenize(source) {
        Ok(t) => t,
        Err(e) => {
            return Err(e);
        },
    };
    let ghost toks = tokenization::spec_tokens_view(tokens@);
    let mut commands: Vec<Command> = Vec::new();
    let mut pos: usize = 0;
    proof {
        assert(command::spec_commands_view(commands@) =~= Seq::<CommandView>::empty());
    }
    while pos < tokens.len()
        invariant
            toks == tokenization::spec_tokens_view(tokens@),
            toks.len() == tokens@.len(),
            0 <= pos as int <= toks.len(),
            spec_parse_cue(source@) == command::spec_parse_commands(toks, 0),
            command::spec_prepend_commands(
                command::spec_commands_view(commands@),
                command::spec_parse_commands(toks, pos as int),
            ) == command::spec_parse_commands(toks, 0),
        decreases toks.len() - pos,
    {
        let ghost p = pos as int;
        let ghost cs0 = command::spec_commands_view(commands@);
        proof {
            command::lemma_command_at_advances(toks, p);
        }
        match Command::consume(&tokens, &mut pos) {
            Ok(c) => {
                let ghost cv = c@;
                commands.push(c);
                proof {
                    assert(command::spec_commands_view(commands@) =~= cs0.push(cv));
                    match command::spec_parse_commands(toks, pos as int) {
                        Ok(rest) => {
                            assert(cs0 + (seq![cv] + rest) =~= cs0.push(cv) + rest);
                        },
                        Err(_) => {},
                    }
                }
            },
            Err(e) => {
                proof {
                    assert(command::spec_parse_commands(toks, p) == Err::<Seq<CommandView>, Error>(
                        e,
                    ));
                    assert(command::spec_parse_commands(toks, 0) == Err::<Seq<CommandView>, Error>(
                        e,
                    ));
                }
                return Err(e);
            },
        }
    }
    proof {
        assert(command::spec_commands_view(commands@) + Seq::<CommandView>::empty()
            =~= command::spec_commands_view(commands@));
    }
    Ok(commands)
}

} // verus!
