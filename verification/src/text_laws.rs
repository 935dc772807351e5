//! What the functions on text mean: letter case, order, cuts, and numerals.
use vstd::prelude::*;
use vstd::utf8::*;

use crate::text;

verus! {

/// Strings hold their texts, one for one.
pub proof fn law_views(strings: Seq<String>)
    ensures
        text::views(strings).len() == strings.len(),
        forall|i: int| 0 <= i < strings.len() ==> #[trigger] text::views(strings)[i] == strings[i]@,
{
}

/// Text in small letters is as long as before. A capital of ASCII, which lies 32 before its small letter, has become that
/// letter, and every other character is as before.
pub proof fn law_lower(s: Seq<char>)
    ensures
        text::lower(s).len() == s.len(),
        forall|i: int|
            #![trigger text::lower(s)[i]]
            0 <= i < s.len() && 65 <= s[i] as int <= 90 ==> text::lower(s)[i] as int == s[i] as int + 32,
        forall|i: int|
            #![trigger text::lower(s)[i]]
            0 <= i < s.len() && !(65 <= s[i] as int <= 90) ==> text::lower(s)[i] == s[i],
{
}

/// To turn a text into small letters is to do so with its parts.
pub proof fn law_lower_parts(a: Seq<char>, b: Seq<char>)
    ensures
        text::lower(a + b) == text::lower(a) + text::lower(b),
{
    assert(text::lower(a + b) =~= text::lower(a) + text::lower(b));
}

/// `x` and `y` are the same up to `k`, where `x` ends or has a smaller byte than `y`.
pub open spec fn first_differ(x: Seq<u8>, y: Seq<u8>, k: int) -> bool {
    &&& 0 <= k <= x.len()
    &&& k < y.len()
    &&& forall|i: int| 0 <= i < k ==> #[trigger] x[i] == y[i]
    &&& k == x.len() || x[k] < y[k]
}

proof fn lemma_bytes_lt_differ(x: Seq<u8>, y: Seq<u8>) -> (k: int)
    requires
        text::bytes_lt(x, y),
    ensures
        first_differ(x, y, k),
    decreases x.len(),
{
    if x.len() > 0 && x[0] == y[0] {
        let k = lemma_bytes_lt_differ(x.drop_first(), y.drop_first());
        assert forall|i: int| 0 <= i < k + 1 implies #[trigger] x[i] == y[i] by {
            if i > 0 {
                assert(x.drop_first()[i - 1] == y.drop_first()[i - 1]);
            }
        }
        k + 1
    } else {
        0
    }
}

proof fn lemma_differ_bytes_lt(x: Seq<u8>, y: Seq<u8>, k: int)
    requires
        first_differ(x, y, k),
    ensures
        text::bytes_lt(x, y),
    decreases x.len(),
{
    if k > 0 {
        assert(x[0] == y[0]);
        assert forall|i: int| 0 <= i < k - 1 implies #[trigger] x.drop_first()[i] == y.drop_first()[i] by {
            assert(x[i + 1] == y[i + 1]);
        }
        lemma_differ_bytes_lt(x.drop_first(), y.drop_first(), k - 1);
    }
}

/// One text comes before another exactly where its bytes in UTF-8 are a proper beginning of those of the other, or are
/// smaller where the two first differ.
pub proof fn law_text_order(a: Seq<char>, b: Seq<char>)
    ensures
        text::text_lt(a, b) <==> exists|k: int| #[trigger] first_differ(encode_utf8(a), encode_utf8(b), k),
{
    let (x, y) = (encode_utf8(a), encode_utf8(b));
    if text::text_lt(a, b) {
        let k = lemma_bytes_lt_differ(x, y);
    }
    if exists|k: int| #[trigger] first_differ(x, y, k) {
        let k = choose|k: int| first_differ(x, y, k);
        lemma_differ_bytes_lt(x, y, k);
    }
}

/// A part of a text can be cut out by the bytes where it begins and ends, and is then that part.
pub proof fn law_cut(before: Seq<char>, part: Seq<char>, after: Seq<char>)
    ensures
        ({
            let from = encode_utf8(before).len() as int;
            let to = from + encode_utf8(part).len();
            &&& text::can_cut(before + part + after, from, to)
            &&& text::cut(before + part + after, from, to) == part
        }),
{
    let whole = before + part + after;
    let from = encode_utf8(before).len() as int;
    let to = from + encode_utf8(part).len();
    text::lemma_encode_concat(before, part);
    text::lemma_encode_concat(before + part, after);
    encode_utf8_valid_utf8(before);
    encode_utf8_valid_utf8(before + part);
    is_char_boundary_start_end_of_seq(encode_utf8(before));
    is_char_boundary_start_end_of_seq(encode_utf8(before + part));
    text::lemma_boundary_before(before, part + after, from);
    text::lemma_boundary_before(before + part, after, to);
    assert(before + (part + after) =~= whole);
    assert(encode_utf8(whole).subrange(from, to) =~= encode_utf8(part));
    encode_utf8_decode_utf8(part);
}

/// The number that a digit stands for: `0` to `9`, which begin at 48, and then the small letters, which begin at 97.
pub open spec fn digit_meaning(c: char) -> int {
    if c as int <= 57 {
        c as int - 48
    } else {
        c as int - 97 + 10
    }
}

/// The number that digits of base `base` stand for, the most significant first.
pub open spec fn meaning(digits: Seq<char>, base: int) -> int
    decreases digits.len(),
{
    if digits.len() == 0 {
        0
    } else {
        meaning(digits.drop_last(), base) * base + digit_meaning(digits.last())
    }
}

/// A numeral stands for its number. It is made of digits of its base, and has no leading zero but for zero itself.
pub proof fn law_numeral(n: nat, base: nat)
    requires
        2 <= base <= 36,
    ensures
        meaning(text::numeral(n, base), base as int) == n,
        text::numeral(n, base).len() > 0,
        forall|i: int|
            0 <= i < text::numeral(n, base).len() ==> {
                let c = #[trigger] text::numeral(n, base)[i];
                &&& 48 <= c as int <= 57 || 97 <= c as int <= 122
                &&& digit_meaning(c) < base
            },
        text::numeral(n, base)[0] == '0' ==> n == 0 && text::numeral(n, base).len() == 1,
    decreases n,
{
    reveal_with_fuel(meaning, 2);
    let written = text::numeral(n, base);
    if n < base {
        assert(written.drop_last() =~= seq![]);
        assert(meaning(written.drop_last(), base as int) * base == 0) by (nonlinear_arith)
            requires
                meaning(written.drop_last(), base as int) == 0,
        ;
    } else {
        let (q, d) = (n / base, n % base);
        assert(q < n && 0 < q && q * base + d == n && d < base) by (nonlinear_arith)
            requires
                2 <= base <= n,
                q == n / base,
                d == n % base,
        ;
        law_numeral(q, base);
        let rest = text::numeral(q, base);
        assert(written == rest.push(text::digit_char(d)));
        assert(written.drop_last() =~= rest);
        assert(written.last() == text::digit_char(d));
        assert(digit_meaning(text::digit_char(d)) == d);
        assert(written[0] == rest[0]);
    }
}

} // verus!
