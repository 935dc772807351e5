//! Text: its order, its cuts at byte offsets, and the numerals written in it.
use vstd::prelude::*;
use vstd::string::*;
use vstd::utf8::*;

verus! {

/// `String::push`: the character is appended to the end of the string.
pub assume_specification[ String::push ](s: &mut String, c: char)
    ensures
        final(s)@ == old(s)@.push(c),
;

/// The texts that strings hold.
pub open spec fn views(strings: Seq<String>) -> Seq<Seq<char>> {
    strings.map_values(|s: String| s@)
}

// ---- Letter case ----
/// `c` with an ASCII capital turned into the small letter, and any other character as it is.
pub open spec fn lower_char(c: char) -> char {
    if 'A' <= c && c <= 'Z' {
        (c as u8 + 32) as u8 as char
    } else {
        c
    }
}

/// `s` with each ASCII capital turned into the small letter.
pub open spec fn lower(s: Seq<char>) -> Seq<char> {
    s.map_values(|c: char| lower_char(c))
}

/// A copy of `s` in which each ASCII capital is turned into the small letter.
pub fn to_lower(s: &str) -> (out: String)
    ensures
        out@ == lower(s@),
{
    let mut out = String::new();
    for c in it: s.chars()
        invariant
            it.seq() == s@,
            out@ == lower(s@.take(it.index() as int)),
    {
        let small: char = if 'A' <= c && c <= 'Z' {
            (c as u8 + 32u8) as char
        } else {
            c
        };
        out.push(small);
    }
    out
}

/// Text in small letters stays as it is.
pub proof fn lemma_lower_twice(s: Seq<char>)
    ensures
        lower(lower(s)) == lower(s),
{
    assert forall|i: int| 0 <= i < s.len() implies lower_char(lower_char(#[trigger] s[i])) == lower_char(s[i]) by {
        lemma_lower_char_twice(s[i]);
    }
    assert(lower(lower(s)) =~= lower(s));
}

proof fn lemma_lower_char_twice(c: char)
    ensures
        lower_char(lower_char(c)) == lower_char(c),
{
}

/// The characters of `s`.
pub fn characters(s: &str) -> (out: Vec<char>)
    ensures
        out@ == s@,
{
    let mut out: Vec<char> = Vec::new();
    for c in it: s.chars()
        invariant
            it.seq() == s@,
            out@ == s@.take(it.index() as int),
    {
        out.push(c);
    }
    out
}

// ---- Order ----
/// `a` comes before `b` in the lexicographic order of bytes.
pub open spec fn bytes_lt(a: Seq<u8>, b: Seq<u8>) -> bool
    decreases a.len(),
{
    if b.len() == 0 {
        false
    } else if a.len() == 0 {
        true
    } else if a[0] == b[0] {
        bytes_lt(a.drop_first(), b.drop_first())
    } else {
        a[0] < b[0]
    }
}

/// `a` comes before `b` in the order of strings, which is that of their UTF-8 bytes.
pub open spec fn text_lt(a: Seq<char>, b: Seq<char>) -> bool {
    bytes_lt(encode_utf8(a), encode_utf8(b))
}

proof fn lemma_bytes_lt_trans(a: Seq<u8>, b: Seq<u8>, c: Seq<u8>)
    requires
        bytes_lt(a, b),
        bytes_lt(b, c),
    ensures
        bytes_lt(a, c),
    decreases a.len(),
{
    if a.len() > 0 && a[0] == b[0] && b[0] == c[0] {
        lemma_bytes_lt_trans(a.drop_first(), b.drop_first(), c.drop_first());
    }
}

proof fn lemma_bytes_lt_total(a: Seq<u8>, b: Seq<u8>)
    ensures
        bytes_lt(a, b) || bytes_lt(b, a) || a == b,
        !(bytes_lt(a, b) && bytes_lt(b, a)),
        a == b ==> !bytes_lt(a, b),
    decreases a.len(),
{
    if a.len() > 0 && b.len() > 0 && a[0] == b[0] {
        lemma_bytes_lt_total(a.drop_first(), b.drop_first());
        if a.drop_first() == b.drop_first() {
            assert(a == seq![a[0]] + a.drop_first());
            assert(b == seq![b[0]] + b.drop_first());
        }
    } else if a.len() == 0 && b.len() == 0 {
        assert(a == b);
    }
}

/// Two texts with the same UTF-8 bytes are the same text.
pub proof fn lemma_encode_injective(a: Seq<char>, b: Seq<char>)
    requires
        encode_utf8(a) == encode_utf8(b),
    ensures
        a == b,
{
    encode_utf8_decode_utf8(a);
    encode_utf8_decode_utf8(b);
}

/// The order of texts is transitive.
pub proof fn lemma_text_lt_trans(a: Seq<char>, b: Seq<char>, c: Seq<char>)
    requires
        text_lt(a, b),
        text_lt(b, c),
    ensures
        text_lt(a, c),
{
    lemma_bytes_lt_trans(encode_utf8(a), encode_utf8(b), encode_utf8(c));
}

/// Of two different texts exactly one comes before the other, and no text comes before itself.
pub proof fn lemma_text_lt_total(a: Seq<char>, b: Seq<char>)
    ensures
        text_lt(a, b) || text_lt(b, a) || a == b,
        !(text_lt(a, b) && text_lt(b, a)),
        a == b ==> !text_lt(a, b),
{
    lemma_bytes_lt_total(encode_utf8(a), encode_utf8(b));
    if encode_utf8(a) == encode_utf8(b) {
        lemma_encode_injective(a, b);
    }
}

/// How one text stands to another.
#[derive(Debug, Clone, Copy, PartialEq, Eq, Structural)]
pub enum Place {
    Before,
    Same,
    After,
}

/// How `a` stands to `b` in the order of strings.
pub fn place(a: &str, b: &str) -> (p: Place)
    ensures
        p == Place::Before <==> text_lt(a@, b@),
        p == Place::Same <==> a@ == b@,
        p == Place::After <==> text_lt(b@, a@),
{
    let x: &[u8] = a.as_bytes();
    let y: &[u8] = b.as_bytes();
    let mut i: usize = 0;
    proof {
        lemma_text_lt_total(a@, b@);
        assert(x@.skip(0) == x@);
        assert(y@.skip(0) == y@);
    }
    while i < x.len() && i < y.len() && x[i] == y[i]
        invariant
            i <= x.len(),
            i <= y.len(),
            x@.take(i as int) == y@.take(i as int),
            bytes_lt(x@, y@) == bytes_lt(x@.skip(i as int), y@.skip(i as int)),
            bytes_lt(y@, x@) == bytes_lt(y@.skip(i as int), x@.skip(i as int)),
        decreases x.len() - i,
    {
        proof {
            assert(x@.skip(i as int).drop_first() == x@.skip(i + 1));
            assert(y@.skip(i as int).drop_first() == y@.skip(i + 1));
            assert(x@.take(i + 1) == x@.take(i as int).push(x@[i as int]));
            assert(y@.take(i + 1) == y@.take(i as int).push(y@[i as int]));
        }
        i += 1;
    }
    if i == x.len() && i == y.len() {
        proof {
            assert(x@.take(i as int) == x@);
            assert(y@.take(i as int) == y@);
            lemma_encode_injective(a@, b@);
        }
        Place::Same
    } else if i == x.len() || (i < y.len() && x[i] < y[i]) {
        Place::Before
    } else {
        Place::After
    }
}

/// Whether two texts are the same.
pub fn same(a: &str, b: &str) -> (r: bool)
    ensures
        r == (a@ == b@),
{
    match place(a, b) {
        Place::Same => true,
        _ => false,
    }
}

// ---- Cuts ----
/// The bytes of `s` from `from` up to `to` begin and end between two characters.
pub open spec fn can_cut(s: Seq<char>, from: int, to: int) -> bool {
    &&& 0 <= from <= to <= encode_utf8(s).len()
    &&& is_char_boundary(encode_utf8(s), from)
    &&& is_char_boundary(encode_utf8(s), to)
}

/// The text in the bytes of `s` from `from` up to `to`.
pub open spec fn cut(s: Seq<char>, from: int, to: int) -> Seq<char> {
    decode_utf8(encode_utf8(s).subrange(from, to))
}

/// The text in the bytes of `s` from `from` up to `to`, or `None` where a bound falls inside a character.
pub fn cut_text<'a>(s: &'a str, from: usize, to: usize) -> (r: Option<&'a str>)
    requires
        from <= to <= encode_utf8(s@).len(),
    ensures
        match r {
            Some(t) => can_cut(s@, from as int, to as int) && t@ == cut(s@, from as int, to as int),
            None => !can_cut(s@, from as int, to as int),
        },
{
    if !s.is_char_boundary(from) || !s.is_char_boundary(to) {
        return None;
    }
    let ghost bytes = s.spec_bytes();
    proof {
        encode_utf8_valid_utf8(s@);
    }
    let head: &str = s.split_at(to).0;
    proof {
        encode_utf8_valid_utf8(head@);
        if from < to {
            is_char_boundary_iff_not_is_continuation_byte(bytes, from as int);
            is_char_boundary_iff_not_is_continuation_byte(head.spec_bytes(), from as int);
        } else {
            is_char_boundary_start_end_of_seq(head.spec_bytes());
        }
    }
    let piece: &str = head.split_at(from).1;
    proof {
        assert(piece.spec_bytes() == bytes.subrange(from as int, to as int));
        encode_utf8_decode_utf8(piece@);
    }
    Some(piece)
}

/// A text of ASCII characters can be cut anywhere, and the cut is the characters at those positions.
pub proof fn lemma_cut_ascii(s: Seq<char>, from: int, to: int)
    requires
        is_ascii_chars(s),
        0 <= from <= to <= s.len(),
    ensures
        can_cut(s, from, to),
        cut(s, from, to) == s.subrange(from, to),
{
    let bytes = encode_utf8(s);
    let part = s.subrange(from, to);
    is_ascii_chars_encode_utf8(s);
    encode_utf8_valid_utf8(s);
    lemma_boundary_ascii(s, from);
    lemma_boundary_ascii(s, to);
    is_ascii_chars_encode_utf8(part);
    assert(encode_utf8(part) == bytes.subrange(from, to)) by {
        assert forall|i: int| 0 <= i < part.len() implies encode_utf8(part)[i] == bytes[from + i] by {
            assert(part[i] == s[from + i]);
        }
    }
    encode_utf8_decode_utf8(part);
}

proof fn lemma_boundary_ascii(s: Seq<char>, i: int)
    requires
        is_ascii_chars(s),
        0 <= i <= s.len(),
    ensures
        is_char_boundary(encode_utf8(s), i),
{
    is_ascii_chars_encode_utf8(s);
    encode_utf8_valid_utf8(s);
    if i < s.len() {
        assert(s[i] as u8 <= 0x7f);
        is_char_boundary_iff_not_is_continuation_byte(encode_utf8(s), i);
    } else {
        is_char_boundary_start_end_of_seq(encode_utf8(s));
    }
}

/// The bytes of two texts, one after the other, are the bytes of the two texts joined.
pub proof fn lemma_encode_concat(a: Seq<char>, b: Seq<char>)
    ensures
        encode_utf8(a + b) == encode_utf8(a) + encode_utf8(b),
    decreases a.len(),
{
    if a.len() == 0 {
        assert(a + b == b);
    } else {
        assert((a + b).drop_first() == a.drop_first() + b);
        lemma_encode_concat(a.drop_first(), b);
    }
}

/// What can be cut out of a text can be cut out of it in the same way where more text follows.
pub proof fn lemma_cut_before(s: Seq<char>, more: Seq<char>, from: int, to: int)
    requires
        can_cut(s, from, to),
    ensures
        can_cut(s + more, from, to),
        cut(s + more, from, to) == cut(s, from, to),
{
    lemma_encode_concat(s, more);
    lemma_boundary_before(s, more, from);
    lemma_boundary_before(s, more, to);
    assert(encode_utf8(s + more).subrange(from, to) =~= encode_utf8(s).subrange(from, to));
}

/// A bound between two characters of a text stays one where more text follows.
pub proof fn lemma_boundary_before(s: Seq<char>, more: Seq<char>, i: int)
    requires
        0 <= i <= encode_utf8(s).len(),
        is_char_boundary(encode_utf8(s), i),
    ensures
        is_char_boundary(encode_utf8(s + more), i),
{
    lemma_encode_concat(s, more);
    encode_utf8_valid_utf8(s);
    encode_utf8_valid_utf8(more);
    encode_utf8_valid_utf8(s + more);
    let bytes = encode_utf8(s + more);
    if i < encode_utf8(s).len() {
        is_char_boundary_iff_not_is_continuation_byte(encode_utf8(s), i);
        is_char_boundary_iff_not_is_continuation_byte(bytes, i);
    } else if more.len() > 0 {
        encode_utf8_first_scalar(more);
        assert(bytes[i] == encode_utf8(more)[0]);
        is_char_boundary_iff_not_is_continuation_byte(bytes, i);
    } else {
        assert(s + more =~= s);
    }
}

/// `s` begins with `0x`.
pub open spec fn has_0x(s: Seq<char>) -> bool {
    s.len() >= 2 && s[0] == '0' && s[1] == 'x'
}

/// What follows `0x` at the beginning of `s`, or `None` where `s` does not begin so.
pub fn strip_0x<'a>(s: &'a str) -> (rest: Option<&'a str>)
    ensures
        match rest {
            Some(t) => has_0x(s@) && t@ == s@.skip(2),
            None => !has_0x(s@),
        },
{
    let mut chars = s.chars();
    let first: Option<char> = chars.next();
    let second: Option<char> = chars.next();
    match (first, second) {
        (Some('0'), Some('x')) => {
            proof {
                let (a, b) = (s@.take(2), s@.skip(2));
                assert(s@ == a + b);
                lemma_encode_concat(a, b);
                is_ascii_chars_encode_utf8(a);
                encode_utf8_valid_utf8(s@);
                encode_utf8_valid_utf8(b);
                if b.len() > 0 {
                    encode_utf8_first_scalar(b);
                    is_char_boundary_iff_not_is_continuation_byte(s.spec_bytes(), 2);
                } else {
                    is_char_boundary_start_end_of_seq(s.spec_bytes());
                }
                assert(s.spec_bytes().subrange(2, s.spec_bytes().len() as int) == encode_utf8(b));
            }
            let rest: &str = s.split_at(2).1;
            proof {
                lemma_encode_injective(rest@, s@.skip(2));
            }
            Some(rest)
        },
        _ => None,
    }
}

// ---- Numerals ----
/// The digit for `d`: `0` to `9`, and then the small letters.
pub open spec fn digit_char(d: nat) -> char {
    if d < 10 {
        (48 + d) as u8 as char
    } else {
        (87 + d) as u8 as char
    }
}

/// `n` written in base `base`, with no leading zeros.
pub open spec fn numeral(n: nat, base: nat) -> Seq<char>
    decreases n,
{
    if base < 2 || n < base {
        seq![digit_char(n)]
    } else {
        proof {
            assert(n / base < n) by (nonlinear_arith)
                requires
                    2 <= base <= n,
            ;
        }
        numeral(n / base, base).push(digit_char(n % base))
    }
}

/// Appends `n`, written in base `base`, to `out`.
pub fn push_numeral(out: &mut String, n: u64, base: u64)
    requires
        2 <= base <= 36,
    ensures
        final(out)@ == old(out)@ + numeral(n as nat, base as nat),
    decreases n,
{
    if n >= base {
        assert(n / base < n) by (nonlinear_arith)
            requires
                n >= base,
                base >= 2,
        ;
        push_numeral(out, n / base, base);
    }
    let d: u64 = n % base;
    proof {
        if n < base {
            vstd::arithmetic::div_mod::lemma_small_mod(n as nat, base as nat);
        }
    }
    let c: char = if d < 10 {
        (48u8 + d as u8) as char
    } else {
        (87u8 + d as u8) as char
    };
    out.push(c);
}

} // verus!
