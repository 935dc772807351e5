//! Words and addresses in what a contract call returns.
use vstd::prelude::*;
use vstd::string::*;
use vstd::utf8::*;

use crate::hex;
use crate::hex::HexError;
use crate::table;
use crate::table::TextMap;
use crate::text;

verus! {

/// Why a word cannot be read.
#[derive(Debug, Clone, Copy, PartialEq, Eq, Structural)]
pub enum AbiError {
    /// The word does not lie within the data.
    OutOfBounds,
    /// A bound of the word falls inside a character.
    SplitCharacter,
    /// The word is no number of 64 bits.
    NotANumber(HexError),
}

impl AbiError {
    /// What is logged.
    pub open spec fn text(self) -> Seq<char> {
        match self {
            AbiError::OutOfBounds => "abi decode out of bounds"@,
            AbiError::SplitCharacter => "abi decode splits a character"@,
            AbiError::NotANumber(e) => "failed to parse abi word as u64: "@ + e.text(),
        }
    }

    /// What is logged.
    pub fn message(&self) -> (m: String)
        ensures
            m@ == self.text(),
    {
        match self {
            AbiError::OutOfBounds => String::from_str("abi decode out of bounds"),
            AbiError::SplitCharacter => String::from_str("abi decode splits a character"),
            AbiError::NotANumber(e) => String::from_str("failed to parse abi word as u64: ").concat(e.message()),
        }
    }
}

/// Why the members cannot be read.
#[derive(Debug, Clone, Copy, PartialEq, Eq, Structural)]
pub enum MembersError {
    /// The result does not begin with `0x`.
    NoPrefix,
    /// The offset or the length of the array cannot be read.
    Head(AbiError),
    /// A member does not lie within the data.
    OutOfBounds,
    /// A bound of a member falls inside a character.
    SplitCharacter,
    /// There are no members.
    NoMembers,
}

impl MembersError {
    /// What is logged.
    pub open spec fn text(self) -> Seq<char> {
        match self {
            MembersError::NoPrefix => "eth_call result missing 0x prefix"@,
            MembersError::Head(e) => e.text(),
            MembersError::OutOfBounds => "abi decode members[] out of bounds"@,
            MembersError::SplitCharacter => "abi decode members[] splits a character"@,
            MembersError::NoMembers => "getMembers returned empty members list"@,
        }
    }

    /// What is logged.
    pub fn message(&self) -> (m: String)
        ensures
            m@ == self.text(),
    {
        match self {
            MembersError::NoPrefix => String::from_str("eth_call result missing 0x prefix"),
            MembersError::Head(e) => e.message(),
            MembersError::OutOfBounds => String::from_str("abi decode members[] out of bounds"),
            MembersError::SplitCharacter => String::from_str("abi decode members[] splits a character"),
            MembersError::NoMembers => String::from_str("getMembers returned empty members list"),
        }
    }
}

/// The word of 32 bytes, two digits each, that begins `byte_offset` bytes into `hex`.
pub open spec fn abi_word(hex: Seq<char>, byte_offset: int) -> Result<u64, AbiError> {
    let start = byte_offset * 2;
    let end = start + 64;
    if end > encode_utf8(hex).len() {
        Err(AbiError::OutOfBounds)
    } else if !text::can_cut(hex, start, end) {
        Err(AbiError::SplitCharacter)
    } else {
        match hex::hex_value(text::cut(hex, start, end)) {
            Ok(value) => Ok(value),
            Err(e) => Err(AbiError::NotANumber(e)),
        }
    }
}

/// Where the word of member `i` begins, in digits, for an array at `offset`.
pub open spec fn member_start(offset: int, i: int) -> int {
    (offset + 32 + i * 32) * 2
}

/// The address in the last 20 bytes of a word that begins at digit `start`.
pub open spec fn address_at(hex: Seq<char>, start: int) -> Seq<char> {
    seq!['0', 'x'] + text::lower(text::cut(hex, start + 24, start + 64))
}

/// The first `n` addresses of the array at `offset`, as they stand there.
pub open spec fn listed_members(hex: Seq<char>, offset: int, n: nat) -> Result<Seq<Seq<char>>, MembersError>
    decreases n,
{
    if n == 0 {
        Ok(seq![])
    } else {
        let start = member_start(offset, n - 1);
        match listed_members(hex, offset, (n - 1) as nat) {
            Err(e) => Err(e),
            Ok(members) => if start + 64 > encode_utf8(hex).len() {
                Err(MembersError::OutOfBounds)
            } else if !text::can_cut(hex, start, start + 64) || !text::can_cut(hex, start + 24, start + 64) {
                Err(MembersError::SplitCharacter)
            } else {
                Ok(members.push(address_at(hex, start)))
            },
        }
    }
}

/// The members that a call of `getMembers()` returned: each once, in ascending order.
pub open spec fn decoded_members(result: Seq<char>) -> Result<Seq<Seq<char>>, MembersError> {
    let hex = result.skip(2);
    if !text::has_0x(result) {
        Err(MembersError::NoPrefix)
    } else {
        match abi_word(hex, 0) {
            Err(e) => Err(MembersError::Head(e)),
            Ok(offset) => match abi_word(hex, offset as usize as int) {
                Err(e) => Err(MembersError::Head(e)),
                Ok(count) => match listed_members(hex, offset as usize as int, count as usize as nat) {
                    Err(e) => Err(e),
                    Ok(members) => if members.len() == 0 {
                        Err(MembersError::NoMembers)
                    } else {
                        Ok(table::in_order(members.to_set()))
                    },
                },
            },
        }
    }
}

/// An array of which one member cannot be read cannot be read with more members either.
pub proof fn lemma_listed_error(hex: Seq<char>, offset: int, m: nat, n: nat)
    requires
        m <= n,
        listed_members(hex, offset, m) is Err,
    ensures
        listed_members(hex, offset, n) == listed_members(hex, offset, m),
    decreases n,
{
    if m < n {
        lemma_listed_error(hex, offset, m, (n - 1) as nat);
    }
}

/// Reads the word of 32 bytes, two digits each, that begins `byte_offset` bytes into `hex_no_prefix`.
pub fn read_abi_word_as_u64(hex_no_prefix: &str, byte_offset: usize) -> (r: Result<u64, AbiError>)
    ensures
        r == abi_word(hex_no_prefix@, byte_offset as int),
{
    let len: usize = hex_no_prefix.as_bytes().len();
    if len < 64 || byte_offset > (len - 64) / 2 {
        return Err(AbiError::OutOfBounds);
    }
    let start: usize = byte_offset * 2;
    match text::cut_text(hex_no_prefix, start, start + 64) {
        None => Err(AbiError::SplitCharacter),
        Some(word) => match hex::parse_hex(word) {
            Ok(value) => Ok(value),
            Err(e) => Err(AbiError::NotANumber(e)),
        },
    }
}

/// Reads the addresses that a call of `getMembers()` returned, the first item of which is an array of them: each
/// once, in small letters, in ascending order.
pub fn decode_get_members_addresses(result_hex: &str) -> (r: Result<Vec<String>, MembersError>)
    ensures
        match r {
            Ok(members) => decoded_members(result_hex@) == Ok::<Seq<Seq<char>>, MembersError>(
                text::views(members@),
            ),
            Err(e) => decoded_members(result_hex@) == Err::<Seq<Seq<char>>, MembersError>(e),
        },
{
    let hex: &str = match text::strip_0x(result_hex) {
        Some(rest) => rest,
        None => {
            return Err(MembersError::NoPrefix);
        },
    };
    let offset: usize = match read_abi_word_as_u64(hex, 0) {
        Ok(word) => word as usize,
        Err(e) => {
            return Err(MembersError::Head(e));
        },
    };
    let count: usize = match read_abi_word_as_u64(hex, offset) {
        Ok(word) => word as usize,
        Err(e) => {
            return Err(MembersError::Head(e));
        },
    };
    let len: usize = hex.as_bytes().len();
    let mut members: TextMap<()> = TextMap::new();
    let mut start: usize = offset * 2 + 64;
    let mut i: usize = 0;
    proof {
        assert(members@.dom() =~= Seq::<Seq<char>>::empty().to_set());
    }
    while i < count
        invariant
            i <= count,
            len == encode_utf8(hex@).len(),
            start <= len,
            start == member_start(offset as int, i as int),
            listed_members(hex@, offset as int, i as nat) is Ok,
            members@.dom() == listed_members(hex@, offset as int, i as nat)->Ok_0.to_set(),
            listed_members(hex@, offset as int, i as nat)->Ok_0.len() == i,
            text::has_0x(result_hex@),
            hex@ == result_hex@.skip(2),
            abi_word(hex@, 0) is Ok,
            offset == abi_word(hex@, 0)->Ok_0 as usize,
            abi_word(hex@, offset as int) is Ok,
            count == abi_word(hex@, offset as int)->Ok_0 as usize,
        decreases count - i,
    {
        let ghost before = listed_members(hex@, offset as int, i as nat)->Ok_0;
        if len - start < 64 {
            proof {
                lemma_listed_error(hex@, offset as int, (i + 1) as nat, count as nat);
            }
            return Err(MembersError::OutOfBounds);
        }
        let word: Option<&str> = text::cut_text(hex, start, start + 64);
        match (word, text::cut_text(hex, start + 24, start + 64)) {
            (Some(_), Some(digits)) => {
                let mut address = String::new();
                address.push('0');
                address.push('x');
                let small: String = text::to_lower(digits);
                address.append(small.as_str());
                proof {
                    let a = address_at(hex@, start as int);
                    assert(address@ =~= a);
                    table::lemma_push_member(before, a);
                    assert(members@.insert(a, ()).dom() =~= members@.dom().insert(a));
                }
                members.insert(address, ());
            },
            _ => {
                proof {
                    lemma_listed_error(hex@, offset as int, (i + 1) as nat, count as nat);
                }
                return Err(MembersError::SplitCharacter);
            },
        }
        start = start + 64;
        i += 1;
    }
    if count == 0 {
        return Err(MembersError::NoMembers);
    }
    Ok(members.key_list())
}

/// The members that are listed are the addresses at the places of the array.
pub proof fn lemma_listed(hex: Seq<char>, offset: int, n: nat)
    requires
        listed_members(hex, offset, n) is Ok,
    ensures
        listed_members(hex, offset, n)->Ok_0.len() == n,
        forall|i: int|
            0 <= i < n ==> #[trigger] listed_members(hex, offset, n)->Ok_0[i] == address_at(
                hex,
                member_start(offset, i),
            ),
    decreases n,
{
    if n > 0 {
        lemma_listed(hex, offset, (n - 1) as nat);
    }
}

/// The members that are read are in ascending order, so that none occurs twice. There is one at least. Each begins with
/// `0x` and is in small letters.
pub proof fn law_members(result: Seq<char>)
    requires
        decoded_members(result) is Ok,
    ensures
        ({
            let members = decoded_members(result)->Ok_0;
            &&& members.len() > 0
            &&& table::ascending(members)
            &&& forall|i: int|
                0 <= i < members.len() ==> text::has_0x(#[trigger] members[i]) && text::lower(members[i]) == members[i]
        }),
{
    let hex = result.skip(2);
    let offset = abi_word(hex, 0)->Ok_0 as usize as int;
    let n = abi_word(hex, offset)->Ok_0 as usize as nat;
    let listed = listed_members(hex, offset, n)->Ok_0;
    let members = decoded_members(result)->Ok_0;
    lemma_listed(hex, offset, n);
    vstd::seq_lib::seq_to_set_is_finite(listed);
    table::law_in_order(listed.to_set());
    assert(listed.to_set().contains(listed[0]));
    assert(members.to_set().contains(listed[0]));
    assert forall|i: int| 0 <= i < members.len() implies text::has_0x(#[trigger] members[i]) && text::lower(members[i])
        == members[i] by {
        assert(members.to_set().contains(members[i]));
        let j = choose|j: int| 0 <= j < listed.len() && listed[j] == members[i];
        let digits = text::cut(hex, member_start(offset, j) + 24, member_start(offset, j) + 64);
        text::lemma_lower_twice(digits);
        assert(members[i] == address_at(hex, member_start(offset, j)));
        assert(text::lower(members[i]) =~= seq!['0', 'x'] + text::lower(text::lower(digits)));
    }
}

/// The members of an array in ASCII can be listed exactly where they lie within the data.
pub proof fn lemma_listed_ascii(hex: Seq<char>, offset: int, n: nat)
    requires
        is_ascii_chars(hex),
        0 <= offset,
        member_start(offset, 0) <= hex.len(),
    ensures
        member_start(offset, n as int) <= hex.len() ==> listed_members(hex, offset, n) is Ok,
        member_start(offset, n as int) > hex.len() ==> listed_members(hex, offset, n) == Err::<
            Seq<Seq<char>>,
            MembersError,
        >(MembersError::OutOfBounds),
    decreases n,
{
    is_ascii_chars_encode_utf8(hex);
    if n > 0 {
        lemma_listed_ascii(hex, offset, (n - 1) as nat);
        let start = member_start(offset, n - 1);
        if start + 64 <= hex.len() {
            text::lemma_cut_ascii(hex, start, start + 64);
            text::lemma_cut_ascii(hex, start + 24, start + 64);
        }
    }
}

/// The last 40 digits of a word that begins at digit `start`.
pub open spec fn last_digits(hex: Seq<char>, start: int) -> Seq<char> {
    hex.subrange(start + 24, start + 64)
}

/// The last 40 digits of each of the `count` words after the length of the array at `offset`, in small letters, with `0x`
/// before them.
pub open spec fn word_ends(hex: Seq<char>, offset: int, count: nat) -> Seq<Seq<char>> {
    Seq::new(count, |i: int| seq!['0', 'x'] + text::lower(last_digits(hex, member_start(offset, i))))
}

/// Where a result in ASCII tells the offset and the length of the array, and the length is not zero, the members are read
/// exactly where all of them lie within the data: they are the last 40 digits of the words after the length, in small
/// letters, with `0x` before them.
pub proof fn law_members_are_words(result: Seq<char>, offset: usize, count: usize)
    requires
        is_ascii_chars(result),
        text::has_0x(result),
        abi_word(result.skip(2), 0) matches Ok(word) && word as usize == offset,
        abi_word(result.skip(2), offset as int) matches Ok(word) && word as usize == count,
        count > 0,
    ensures
        ({
            let hex = result.skip(2);
            decoded_members(result) == (if member_start(offset as int, count as int) <= hex.len() {
                Ok(table::in_order(word_ends(hex, offset as int, count as nat).to_set()))
            } else {
                Err(MembersError::OutOfBounds)
            })
        }),
{
    let hex = result.skip(2);
    let members = word_ends(hex, offset as int, count as nat);
    assert(is_ascii_chars(hex));
    is_ascii_chars_encode_utf8(hex);
    lemma_listed_ascii(hex, offset as int, count as nat);
    if member_start(offset as int, count as int) <= hex.len() {
        lemma_listed(hex, offset as int, count as nat);
        let listed = listed_members(hex, offset as int, count as nat)->Ok_0;
        assert forall|i: int| 0 <= i < count implies #[trigger] listed[i] == members[i] by {
            let start = member_start(offset as int, i);
            text::lemma_cut_ascii(hex, start + 24, start + 64);
        }
        assert(listed =~= members);
    }
}

proof fn lemma_listed_before(hex: Seq<char>, more: Seq<char>, offset: int, n: nat)
    requires
        0 <= offset,
        listed_members(hex, offset, n) is Ok,
    ensures
        listed_members(hex + more, offset, n) == listed_members(hex, offset, n),
    decreases n,
{
    if n > 0 {
        lemma_listed_before(hex, more, offset, (n - 1) as nat);
        let start = member_start(offset, n - 1);
        text::lemma_encode_concat(hex, more);
        text::lemma_cut_before(hex, more, start, start + 64);
        text::lemma_cut_before(hex, more, start + 24, start + 64);
    }
}

proof fn lemma_word_before(hex: Seq<char>, more: Seq<char>, byte_offset: int)
    requires
        abi_word(hex, byte_offset) is Ok,
    ensures
        abi_word(hex + more, byte_offset) == abi_word(hex, byte_offset),
{
    text::lemma_encode_concat(hex, more);
    text::lemma_cut_before(hex, more, byte_offset * 2, byte_offset * 2 + 64);
}

/// Whatever follows the data changes nothing of the members that are read.
pub proof fn law_members_before_more(result: Seq<char>, more: Seq<char>)
    requires
        decoded_members(result) is Ok,
    ensures
        decoded_members(result + more) == decoded_members(result),
{
    let hex = result.skip(2);
    assert((result + more).skip(2) =~= hex + more);
    let offset = abi_word(hex, 0)->Ok_0 as usize as int;
    let n = abi_word(hex, offset)->Ok_0 as usize as nat;
    lemma_word_before(hex, more, 0);
    lemma_word_before(hex, more, offset);
    lemma_listed_before(hex, more, offset, n);
}

/// The first 24 digits of the word of a member change nothing of the members that are read: two results in ASCII that have
/// the same offset and length of the array, and the same last 40 digits in the word of each member, hold the same members.
pub proof fn law_padding_without_effect(a: Seq<char>, b: Seq<char>, offset: usize, count: usize)
    requires
        is_ascii_chars(a),
        is_ascii_chars(b),
        text::has_0x(a),
        text::has_0x(b),
        abi_word(a.skip(2), 0) matches Ok(word) && word as usize == offset,
        abi_word(b.skip(2), 0) matches Ok(word) && word as usize == offset,
        abi_word(a.skip(2), offset as int) matches Ok(word) && word as usize == count,
        abi_word(b.skip(2), offset as int) matches Ok(word) && word as usize == count,
        a.len() == b.len(),
        forall|i: int|
            0 <= i < count && member_start(offset as int, i) + 64 <= a.skip(2).len() ==> last_digits(
                a.skip(2),
                #[trigger] member_start(offset as int, i),
            ) == last_digits(b.skip(2), member_start(offset as int, i)),
    ensures
        decoded_members(a) == decoded_members(b),
{
    if count > 0 {
        law_members_are_words(a, offset, count);
        law_members_are_words(b, offset, count);
        let (x, y) = (a.skip(2), b.skip(2));
        if member_start(offset as int, count as int) <= x.len() {
            assert(word_ends(x, offset as int, count as nat) =~= word_ends(y, offset as int, count as nat));
        }
    }
}

} // verus!
