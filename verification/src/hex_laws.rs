//! What it means that a text writes a number in base sixteen.
use vstd::arithmetic::power::*;
use vstd::prelude::*;

use crate::hex;
use crate::hex::HexError;

verus! {

/// `c` is one of the digits of base sixteen: `0` to `9`, `a` to `f`, or `A` to `F`.
pub open spec fn is_digit(c: char) -> bool {
    48 <= c as int <= 57 || 97 <= c as int <= 102 || 65 <= c as int <= 70
}

/// All characters of `s` are digits of base sixteen.
pub open spec fn all_digits(s: Seq<char>) -> bool {
    forall|i: int| 0 <= i < s.len() ==> is_digit(#[trigger] s[i])
}

/// The digits of base sixteen are those of ASCII, with the letters in either case, and each stands for its number.
pub proof fn law_hex_digit(c: char)
    ensures
        hex::hex_digit(c) is Some <==> is_digit(c),
        48 <= c as int <= 57 ==> hex::hex_digit(c) == Some((c as int - 48) as nat),
        97 <= c as int <= 102 ==> hex::hex_digit(c) == Some((c as int - 97 + 10) as nat),
        65 <= c as int <= 70 ==> hex::hex_digit(c) == Some((c as int - 65 + 10) as nat),
{
}

/// A digit writes its number, nothing writes zero, and digits that are followed by others write their number times a power
/// of sixteen, to which the others are added.
pub proof fn law_hex_number(c: char, a: Seq<char>, b: Seq<char>)
    requires
        is_digit(c),
        all_digits(a),
        all_digits(b),
    ensures
        hex::hex_number(seq![]) == 0,
        hex::hex_digit(c) == Some(hex::hex_number(seq![c])),
        hex::hex_number(a + b) == hex::hex_number(a) * pow(16, b.len()) + hex::hex_number(b),
    decreases b.len(),
{
    reveal_with_fuel(hex::hex_number, 2);
    assert(seq![c].drop_last() =~= seq![]);
    assert(seq![c].last() == c);
    if b.len() == 0 {
        assert(a + b =~= a);
        lemma_pow0(16);
    } else {
        let rest = b.drop_last();
        law_hex_number(c, a, rest);
        assert((a + b).drop_last() =~= a + rest);
        assert((a + b).last() == b.last());
        assert(is_digit(b[b.len() - 1]));
        reveal(pow);
        let (x, p) = (hex::hex_number(a) as int, pow(16, rest.len()));
        assert(pow(16, b.len()) == 16 * p);
        assert(16 * (x * p) == x * (16 * p)) by (nonlinear_arith);
    }
}

/// Digits, of which there is one at least, are read as the number that they write where that fits in 64 bits, and are too
/// large else. One plus sign before them changes nothing.
pub proof fn law_digits_are_read(digits: Seq<char>)
    requires
        all_digits(digits),
        digits.len() > 0,
    ensures
        hex::hex_number(digits) <= u64::MAX ==> (hex::hex_value(digits) matches Ok(n) && n == hex::hex_number(digits)),
        hex::hex_number(digits) > u64::MAX ==> hex::hex_value(digits) == Err::<u64, HexError>(HexError::Overflow),
        hex::hex_value(seq!['+'] + digits) == hex::hex_value(digits),
{
    assert(is_digit(digits[0]));
    assert forall|j: int| 0 <= j < digits.len() implies hex::hex_digit(#[trigger] digits[j]) is Some by {
        assert(is_digit(digits[j]));
    }
    hex::lemma_hex_prefix(digits, digits.len() as int);
    assert(digits.take(digits.len() as int) =~= digits);
    assert((seq!['+'] + digits).skip(1) =~= digits);
}

/// No text is read as a number that holds nothing, nothing but a plus sign, or a character that is no digit. Where digits
/// before that character are too large, that is the error.
pub proof fn law_no_number(digits: Seq<char>, c: char, rest: Seq<char>)
    requires
        all_digits(digits),
        !is_digit(c),
        digits.len() > 0 || c != '+',
    ensures
        hex::hex_value(seq![]) == Err::<u64, HexError>(HexError::Empty),
        hex::hex_value(seq!['+']) == Err::<u64, HexError>(HexError::InvalidDigit),
        hex::hex_value(digits + seq![c] + rest) == Err::<u64, HexError>(
            if hex::hex_number(digits) > u64::MAX {
                HexError::Overflow
            } else {
                HexError::InvalidDigit
            },
        ),
        hex::hex_value(seq!['+'] + (digits + seq![c] + rest)) == Err::<u64, HexError>(
            if hex::hex_number(digits) > u64::MAX {
                HexError::Overflow
            } else {
                HexError::InvalidDigit
            },
        ),
{
    let s = digits + seq![c] + rest;
    let n = digits.len() as int;
    assert forall|j: int| 0 <= j < n implies hex::hex_digit(#[trigger] s[j]) is Some by {
        assert(is_digit(digits[j]));
        assert(s[j] == digits[j]);
    }
    assert(s[n] == c);
    hex::lemma_hex_prefix(s, n);
    assert(s.take(n) =~= digits);
    if n > 0 {
        assert(is_digit(digits[0]) && s[0] == digits[0]);
    }
    assert((seq!['+'] + s).skip(1) =~= s);
    assert(seq!['+'].skip(1) =~= seq![]);
    assert(hex::hex_prefix(seq![]) =~= seq![]);
    assert(hex::hex_number(seq![]) == 0);
}

/// A second plus sign is no digit.
pub proof fn law_one_sign(rest: Seq<char>)
    ensures
        hex::hex_value(seq!['+', '+'] + rest) == Err::<u64, HexError>(HexError::InvalidDigit),
{
    let s = seq!['+', '+'] + rest;
    assert(s.skip(1)[0] == '+');
    assert(hex::hex_prefix(s.skip(1)) =~= seq![]);
    assert(hex::hex_number(seq![]) == 0);
}

/// One `0x` at the beginning is taken off, and nothing else.
pub proof fn law_without_0x(s: Seq<char>)
    ensures
        hex::without_0x(seq!['0', 'x'] + s) == s,
        s.len() < 2 || s[0] != '0' || s[1] != 'x' ==> hex::without_0x(s) == s,
{
    assert((seq!['0', 'x'] + s).skip(2) =~= s);
}

} // verus!
