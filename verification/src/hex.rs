//! Unsigned numbers written in base sixteen.
use vstd::prelude::*;
use vstd::string::*;

use crate::text;

verus! {

/// Why a text is no number.
#[derive(Debug, Clone, Copy, PartialEq, Eq, Structural)]
pub enum HexError {
    /// There is no text.
    Empty,
    /// A character is no digit.
    InvalidDigit,
    /// The number does not fit in 64 bits.
    Overflow,
}

impl HexError {
    /// What is logged.
    pub open spec fn text(self) -> Seq<char> {
        match self {
            HexError::Empty => "cannot parse integer from empty string"@,
            HexError::InvalidDigit => "invalid digit found in string"@,
            HexError::Overflow => "number too large to fit in target type"@,
        }
    }

    /// What is logged.
    pub fn message(&self) -> (m: &'static str)
        ensures
            m@ == self.text(),
    {
        match self {
            HexError::Empty => "cannot parse integer from empty string",
            HexError::InvalidDigit => "invalid digit found in string",
            HexError::Overflow => "number too large to fit in target type",
        }
    }
}

/// The value of a digit of base sixteen, in either letter case.
pub open spec fn hex_digit(c: char) -> Option<nat> {
    if '0' <= c && c <= '9' {
        Some((c as nat - 48) as nat)
    } else if 'a' <= c && c <= 'f' {
        Some((c as nat - 87) as nat)
    } else if 'A' <= c && c <= 'F' {
        Some((c as nat - 55) as nat)
    } else {
        None
    }
}

/// The longest beginning of `s` that is made of digits.
pub open spec fn hex_prefix(s: Seq<char>) -> Seq<char>
    decreases s.len(),
{
    if s.len() == 0 || hex_digit(s[0]) is None {
        seq![]
    } else {
        seq![s[0]] + hex_prefix(s.drop_first())
    }
}

/// The number that digits write, the most significant first.
pub open spec fn hex_number(digits: Seq<char>) -> nat
    decreases digits.len(),
{
    if digits.len() == 0 {
        0
    } else {
        match hex_digit(digits.last()) {
            Some(d) => 16 * hex_number(digits.drop_last()) + d,
            None => 0,
        }
    }
}

/// `s` without one leading plus sign.
pub open spec fn unsigned(s: Seq<char>) -> Seq<char> {
    if s.len() > 0 && s[0] == '+' {
        s.skip(1)
    } else {
        s
    }
}

/// The number that `s` writes: digits of base sixteen, which one plus sign may precede.
pub open spec fn hex_value(s: Seq<char>) -> Result<u64, HexError> {
    let digits = unsigned(s);
    let prefix = hex_prefix(digits);
    if s.len() == 0 {
        Err(HexError::Empty)
    } else if hex_number(prefix) > u64::MAX {
        Err(HexError::Overflow)
    } else if digits.len() == 0 || prefix.len() < digits.len() {
        Err(HexError::InvalidDigit)
    } else {
        Ok(hex_number(digits) as u64)
    }
}

/// `s` without the `0x` that it may begin with.
pub open spec fn without_0x(s: Seq<char>) -> Seq<char> {
    if text::has_0x(s) {
        s.skip(2)
    } else {
        s
    }
}

/// Whether `c` is a digit of base sixteen.
pub fn is_hex_digit(c: char) -> (r: bool)
    ensures
        r == (hex_digit(c) is Some),
{
    ('0' <= c && c <= '9') || ('a' <= c && c <= 'f') || ('A' <= c && c <= 'F')
}

/// A beginning of digits that is followed by another character, or by nothing, is the longest one.
pub proof fn lemma_hex_prefix(s: Seq<char>, n: int)
    requires
        0 <= n <= s.len(),
        forall|j: int| 0 <= j < n ==> hex_digit(#[trigger] s[j]) is Some,
    ensures
        n <= hex_prefix(s).len() <= s.len(),
        hex_prefix(s) == s.take(hex_prefix(s).len() as int),
        forall|j: int| 0 <= j < hex_prefix(s).len() ==> hex_digit(#[trigger] s[j]) is Some,
        n == s.len() || hex_digit(s[n]) is None ==> hex_prefix(s) == s.take(n),
    decreases s.len(),
{
    if s.len() > 0 && hex_digit(s[0]) is Some {
        let rest = s.drop_first();
        let m = if n == 0 { 0 } else { n - 1 };
        lemma_hex_prefix(rest, m);
        let p = hex_prefix(rest).len() as int;
        assert(hex_prefix(s) == s.take(p + 1));
        assert forall|j: int| 0 <= j < p + 1 implies hex_digit(#[trigger] s[j]) is Some by {
            if j > 0 {
                assert(rest[j - 1] == s[j]);
            }
        }
        if n > 0 && (n == s.len() || hex_digit(s[n]) is None) {
            assert(n == s.len() || rest[n - 1] == s[n]);
        }
    } else {
        assert(hex_prefix(s) == s.take(0));
    }
}

/// More digits write no smaller number.
pub proof fn lemma_hex_number_grows(s: Seq<char>, n: int)
    requires
        0 <= n <= s.len(),
        forall|j: int| 0 <= j < s.len() ==> hex_digit(#[trigger] s[j]) is Some,
    ensures
        hex_number(s.take(n)) <= hex_number(s),
    decreases s.len(),
{
    if n == s.len() {
        assert(s.take(n) == s);
    } else {
        let shorter = s.drop_last();
        lemma_hex_number_grows(shorter, n);
        assert(shorter.take(n) == s.take(n));
        assert(hex_digit(s.last()) is Some);
    }
}

/// Reads the number that `written` writes: digits of base sixteen, which one plus sign may precede.
pub fn parse_hex(written: &str) -> (r: Result<u64, HexError>)
    ensures
        r == hex_value(written@),
{
    let chars: Vec<char> = text::characters(written);
    if chars.len() == 0 {
        return Err(HexError::Empty);
    }
    let start: usize = if chars[0] == '+' {
        1
    } else {
        0
    };
    let ghost digits = unsigned(written@);
    proof {
        assert(digits == chars@.skip(start as int));
        lemma_hex_prefix(digits, 0);
    }
    if start == chars.len() {
        return Err(HexError::InvalidDigit);
    }
    let mut value: u64 = 0;
    let mut i: usize = start;
    while i < chars.len()
        invariant
            chars@ == written@,
            written@.len() > 0,
            start <= i <= chars.len(),
            start <= 1,
            digits == unsigned(written@),
            digits == chars@.skip(start as int),
            digits.len() > 0,
            forall|j: int| 0 <= j < i - start ==> hex_digit(#[trigger] digits[j]) is Some,
            value == hex_number(digits.take(i - start)),
        decreases chars.len() - i,
    {
        let c: char = chars[i];
        let ghost k = i - start;
        proof {
            assert(digits[k] == c);
            assert(digits.take(k + 1).drop_last() == digits.take(k));
            lemma_hex_prefix(digits, k);
        }
        let d: u64 = if '0' <= c && c <= '9' {
            c as u64 - 48
        } else if 'a' <= c && c <= 'f' {
            c as u64 - 87
        } else if 'A' <= c && c <= 'F' {
            c as u64 - 55
        } else {
            return Err(HexError::InvalidDigit);
        };
        if value > (u64::MAX - d) / 16 {
            proof {
                lemma_hex_prefix(digits, k + 1);
                let prefix = hex_prefix(digits);
                assert(prefix.take(k + 1) == digits.take(k + 1));
                lemma_hex_number_grows(prefix, k + 1);
            }
            return Err(HexError::Overflow);
        }
        value = value * 16 + d;
        i += 1;
    }
    proof {
        lemma_hex_prefix(digits, digits.len() as int);
        assert(digits.take(digits.len() as int) == digits);
    }
    Ok(value)
}

/// Reads a number in base sixteen, with or without `0x` before it: `0x10` is sixteen.
pub fn hex_to_u64(s: &str) -> (r: Result<u64, HexError>)
    ensures
        r == hex_value(without_0x(s@)),
{
    match text::strip_0x(s) {
        Some(digits) => parse_hex(digits),
        None => parse_hex(s),
    }
}

proof fn lemma_numeral(n: nat)
    ensures
        text::numeral(n, 16).len() > 0,
        forall|i: int| 0 <= i < text::numeral(n, 16).len() ==> hex_digit(#[trigger] text::numeral(n, 16)[i]) is Some,
        hex_number(text::numeral(n, 16)) == n,
    decreases n,
{
    reveal_with_fuel(hex_number, 2);
    let written = text::numeral(n, 16);
    if n < 16 {
        assert(written.drop_last() =~= seq![]);
        assert(hex_digit(text::digit_char(n)) == Some(n));
    } else {
        lemma_numeral(n / 16);
        assert(written.drop_last() =~= text::numeral(n / 16, 16));
        assert(hex_digit(text::digit_char(n % 16)) == Some(n % 16));
    }
}

/// A number that is written in base sixteen is read again, with `0x` before it or without.
pub proof fn law_hex_round_trip(n: u64)
    ensures
        hex_value(text::numeral(n as nat, 16)) == Ok::<u64, HexError>(n),
        hex_value(without_0x(text::numeral(n as nat, 16))) == Ok::<u64, HexError>(n),
        hex_value(without_0x(seq!['0', 'x'] + text::numeral(n as nat, 16))) == Ok::<u64, HexError>(n),
{
    let written = text::numeral(n as nat, 16);
    lemma_numeral(n as nat);
    assert(hex_digit(written[0]) is Some);
    if written.len() > 1 {
        assert(hex_digit(written[1]) is Some);
    }
    lemma_hex_prefix(written, written.len() as int);
    assert(written.take(written.len() as int) == written);
    assert((seq!['0', 'x'] + written).skip(2) =~= written);
}

/// A text is read as a number exactly where it is made of digits of base sixteen, of which there is one at least and which
/// one plus sign may precede, and where the number fits.
pub proof fn law_hex_value(s: Seq<char>)
    ensures
        hex_value(s) is Ok <==> {
            let digits = unsigned(s);
            &&& digits.len() > 0
            &&& forall|i: int| 0 <= i < digits.len() ==> hex_digit(#[trigger] digits[i]) is Some
            &&& hex_number(digits) <= u64::MAX
        },
        hex_value(s) matches Ok(n) ==> n == hex_number(unsigned(s)),
{
    let digits = unsigned(s);
    lemma_hex_prefix(digits, 0);
    if forall|i: int| 0 <= i < digits.len() ==> hex_digit(#[trigger] digits[i]) is Some {
        lemma_hex_prefix(digits, digits.len() as int);
        assert(digits.take(digits.len() as int) == digits);
    }
    if hex_prefix(digits).len() == digits.len() {
        assert(digits.take(digits.len() as int) == digits);
    }
}

} // verus!
