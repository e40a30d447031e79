//! The configuration of mining keys and its text form
//! `share,m:key1,key2,key3`.

use vstd::prelude::*;
use vstd::string::{StrSliceExecFns, StringExecFns};

verus! {

/// Why a text is not a decimal number that fits 64 bits.
#[derive(Clone, Copy, Debug, PartialEq, Eq, Structural)]
pub enum ParseFailure {
    /// The text is empty.
    Empty,
    /// A character that is not a decimal digit was found.
    InvalidDigit,
    /// The number is too large.
    Overflow,
}

/// The value of a decimal digit.
pub open spec fn digit_value(c: char) -> Option<int> {
    if '0' <= c && c <= '9' {
        Some(c as int - '0' as int)
    } else {
        None
    }
}

/// Reads the digits of `s` from position `i` on, with `acc` the value of
/// the digits before. The first character that is no digit, or the first
/// digit with which the value no longer fits, decides the failure.
pub open spec fn scan_digits(s: Seq<char>, i: nat, acc: int) -> Result<u64, ParseFailure>
    decreases s.len() - i,
{
    if i >= s.len() {
        Ok(acc as u64)
    } else {
        match digit_value(s[i as int]) {
            None => Err(ParseFailure::InvalidDigit),
            Some(d) => if acc * 10 + d > u64::MAX {
                Err(ParseFailure::Overflow)
            } else {
                scan_digits(s, i + 1, acc * 10 + d)
            },
        }
    }
}

/// The number that a text stands for: decimal digits, with an optional
/// `+` in front, and nothing else.
pub open spec fn parse_decimal(s: Seq<char>) -> Result<u64, ParseFailure> {
    if s.len() == 0 {
        Err(ParseFailure::Empty)
    } else if s.len() == 1 && (s[0] == '+' || s[0] == '-') {
        Err(ParseFailure::InvalidDigit)
    } else if s[0] == '+' {
        scan_digits(s, 1, 0)
    } else {
        scan_digits(s, 0, 0)
    }
}

/// The text that reports a failure.
pub open spec fn failure_text(f: ParseFailure) -> Seq<char> {
    match f {
        ParseFailure::Empty => "cannot parse integer from empty string"@,
        ParseFailure::InvalidDigit => "invalid digit found in string"@,
        ParseFailure::Overflow => "number too large to fit in target type"@,
    }
}

impl ParseFailure {
    /// The text that reports the failure.
    pub fn message(&self) -> (r: String)
        ensures
            r@ == failure_text(*self),
    {
        match self {
            ParseFailure::Empty => String::from_str("cannot parse integer from empty string"),
            ParseFailure::InvalidDigit => String::from_str("invalid digit found in string"),
            ParseFailure::Overflow => String::from_str("number too large to fit in target type"),
        }
    }
}

/// The value of the digit `c`, if it is one.
fn digit_of(c: char) -> (r: Option<u64>)
    ensures
        match r {
            Some(d) => digit_value(c) == Some(d as int) && d <= 9,
            None => digit_value(c) is None,
        },
{
    if '0' <= c && c <= '9' {
        Some((c as u64) - ('0' as u64))
    } else {
        None
    }
}

/// The number that the text stands for.
pub fn parse_u64(s: &str) -> (r: Result<u64, ParseFailure>)
    ensures
        r == parse_decimal(s@),
{
    let n = s.unicode_len();
    if n == 0 {
        return Err(ParseFailure::Empty);
    }
    let first = s.get_char(0);
    if n == 1 && (first == '+' || first == '-') {
        return Err(ParseFailure::InvalidDigit);
    }
    let mut i: usize = if first == '+' {
        1
    } else {
        0
    };
    let mut acc: u64 = 0;
    while i < n
        invariant
            n == s@.len(),
            i <= n,
            parse_decimal(s@) == scan_digits(s@, i as nat, acc as int),
        decreases n - i,
    {
        let c = s.get_char(i);
        match digit_of(c) {
            None => {
                return Err(ParseFailure::InvalidDigit);
            },
            Some(d) => {
                if acc > (u64::MAX - d) / 10 {
                    return Err(ParseFailure::Overflow);
                }
                acc = acc * 10 + d;
            },
        }
        i = i + 1;
    }
    Ok(acc)
}

/// The position of the first `sep` in `s`, or the length of `s` if there
/// is none.
pub open spec fn first_index(s: Seq<char>, sep: char) -> int
    decreases s.len(),
{
    if s.len() == 0 {
        0
    } else if s[0] == sep {
        0
    } else {
        1 + first_index(s.drop_first(), sep)
    }
}

/// The pieces of `s` between the occurrences of `sep`. There is one piece
/// more than there are separators; pieces may be empty.
pub open spec fn split(s: Seq<char>, sep: char) -> Seq<Seq<char>>
    decreases s.len(),
    via split_decreases
{
    let i = first_index(s, sep);
    if i >= s.len() {
        seq![s]
    } else {
        seq![s.subrange(0, i)] + split(s.subrange(i + 1, s.len() as int), sep)
    }
}

#[via_fn]
proof fn split_decreases(s: Seq<char>, sep: char) {
    lemma_first_index_range(s, sep);
}

/// The first index is a position of `s` or its length.
pub proof fn lemma_first_index_range(s: Seq<char>, sep: char)
    ensures
        0 <= first_index(s, sep) <= s.len(),
    decreases s.len(),
{
    if s.len() > 0 && s[0] != sep {
        lemma_first_index_range(s.drop_first(), sep);
    }
}

/// If the first `k` characters are no separator, the first index is `k`
/// when a separator stands at `k`, and the length when `k` is the length.
pub proof fn lemma_first_index(s: Seq<char>, sep: char, k: int)
    requires
        0 <= k <= s.len(),
        forall|j: int| 0 <= j < k ==> s[j] != sep,
        k < s.len() ==> s[k] == sep,
    ensures
        first_index(s, sep) == k,
    decreases s.len(),
{
    if s.len() > 0 && k > 0 {
        let t = s.drop_first();
        assert forall|j: int| 0 <= j < k - 1 implies t[j] != sep by {
            assert(t[j] == s[j + 1]);
        }
        lemma_first_index(t, sep, k - 1);
    }
}

/// The texts of a sequence of strings.
pub open spec fn texts(v: Seq<String>) -> Seq<Seq<char>> {
    Seq::new(v.len(), |i: int| v[i]@)
}

/// The pieces of `s` between the occurrences of `sep`.
pub fn split_text(s: &str, sep: char) -> (parts: Vec<String>)
    ensures
        texts(parts@) == split(s@, sep),
        parts@.len() >= 1,
{
    let n = s.unicode_len();
    let mut parts: Vec<String> = Vec::new();
    let mut start: usize = 0;
    let mut i: usize = 0;
    proof {
        assert(s@.subrange(0, n as int) =~= s@);
        assert(texts(parts@) + split(s@, sep) =~= split(s@, sep));
    }
    while i < n
        invariant
            n == s@.len(),
            start <= i <= n,
            forall|j: int| start <= j < i ==> s@[j] != sep,
            texts(parts@) + split(s@.subrange(start as int, n as int), sep) == split(s@, sep),
        decreases n - i,
    {
        let c = s.get_char(i);
        if c == sep {
            let piece = String::from_str(s.substring_char(start, i));
            proof {
                let rest = s@.subrange(start as int, n as int);
                assert forall|j: int| 0 <= j < i - start implies rest[j] != sep by {
                    assert(rest[j] == s@[start + j]);
                }
                lemma_first_index(rest, sep, i - start);
                assert(rest.subrange(0, i - start) =~= s@.subrange(start as int, i as int));
                assert(rest.subrange(i - start + 1, rest.len() as int) =~= s@.subrange(
                    i + 1,
                    n as int,
                ));
                assert(texts(parts@.push(piece)) =~= texts(parts@) + seq![piece@]);
                assert((texts(parts@) + seq![piece@]) + split(s@.subrange(i + 1, n as int), sep)
                    =~= texts(parts@) + (seq![piece@] + split(s@.subrange(i + 1, n as int), sep)));
            }
            parts.push(piece);
            start = i + 1;
        }
        i = i + 1;
    }
    let piece = String::from_str(s.substring_char(start, n));
    proof {
        let rest = s@.subrange(start as int, n as int);
        assert forall|j: int| 0 <= j < n - start implies rest[j] != sep by {
            assert(rest[j] == s@[start + j]);
        }
        lemma_first_index(rest, sep, n - start);
        assert(texts(parts@.push(piece)) =~= texts(parts@) + seq![piece@]);
    }
    parts.push(piece);
    parts
}

/// How a reward is shared among mining keys: a share, a threshold `m`,
/// and the keys.
#[derive(Debug, Clone)]
pub struct MiningKeyConfig {
    pub share: u64,
    pub m: u64,
    pub keys: Vec<String>,
}

/// A key configuration as a mathematical value.
pub struct ConfigView {
    pub share: u64,
    pub m: u64,
    pub keys: Seq<Seq<char>>,
}

impl View for MiningKeyConfig {
    type V = ConfigView;

    open spec fn view(&self) -> ConfigView {
        ConfigView { share: self.share, m: self.m, keys: texts(self.keys@) }
    }
}

/// The text that reports a text without exactly one `:`.
pub open spec fn format_error_text() -> Seq<char> {
    "Invalid format. Expected 'share,m:key1,key2,key3'"@
}

/// The text that reports a part before the `:` without exactly one `,`.
pub open spec fn share_error_text() -> Seq<char> {
    "Invalid share,m format"@
}

/// The key configuration that a text stands for, or the text of the
/// error. The text must have exactly one `:`; before it stand the share
/// and `m`, two decimal numbers with one `,` between them; after it stand
/// the keys with a `,` between them.
pub open spec fn parse_config(s: Seq<char>) -> Result<ConfigView, Seq<char>> {
    let parts = split(s, ':');
    if parts.len() != 2 {
        Err(format_error_text())
    } else {
        let share_m = split(parts[0], ',');
        if share_m.len() != 2 {
            Err(share_error_text())
        } else {
            match parse_decimal(share_m[0]) {
                Err(f) => Err(failure_text(f)),
                Ok(share) => match parse_decimal(share_m[1]) {
                    Err(f) => Err(failure_text(f)),
                    Ok(m) => Ok(ConfigView { share, m, keys: split(parts[1], ',') }),
                },
            }
        }
    }
}

impl MiningKeyConfig {
    /// Reads a key configuration from its text form
    /// `share,m:key1,key2,key3`.
    pub fn parse(s: &str) -> (r: Result<MiningKeyConfig, String>)
        ensures
            match r {
                Ok(config) => parse_config(s@) == Ok::<ConfigView, Seq<char>>(config@),
                Err(e) => parse_config(s@) == Err::<ConfigView, Seq<char>>(e@),
            },
    {
        let mut parts = split_text(s, ':');
        if parts.len() != 2 {
            return Err(String::from_str("Invalid format. Expected 'share,m:key1,key2,key3'"));
        }
        proof {
            assert(texts(parts@)[0] == parts@[0]@);
            assert(texts(parts@)[1] == parts@[1]@);
        }
        let share_m = split_text(parts[0].as_str(), ',');
        if share_m.len() != 2 {
            return Err(String::from_str("Invalid share,m format"));
        }
        proof {
            assert(texts(share_m@)[0] == share_m@[0]@);
            assert(texts(share_m@)[1] == share_m@[1]@);
        }
        let share = match parse_u64(share_m[0].as_str()) {
            Ok(n) => n,
            Err(f) => {
                return Err(f.message());
            },
        };
        let m = match parse_u64(share_m[1].as_str()) {
            Ok(n) => n,
            Err(f) => {
                return Err(f.message());
            },
        };
        let keys = split_text(parts[1].as_str(), ',');
        Ok(MiningKeyConfig { share, m, keys })
    }
}

impl core::str::FromStr for MiningKeyConfig {
    type Err = String;

    /// Reads a key configuration from its text form, as `parse` does.
    fn from_str(s: &str) -> (r: Result<Self, String>)
        ensures
            match r {
                Ok(config) => parse_config(s@) == Ok::<ConfigView, Seq<char>>(config@),
                Err(e) => parse_config(s@) == Err::<ConfigView, Seq<char>>(e@),
            },
    {
        MiningKeyConfig::parse(s)
    }
}

} // verus!
