//! What is read from the result of a contract call.
use vstd::prelude::*;
use vstd::utf8::*;

use crate::abi;
use crate::abi::{AbiError, MembersError};
use crate::hex;
use crate::hex::HexError;
use crate::hex_laws;
use crate::table;
use crate::text;
use crate::text_laws;

verus! {

/// The word at a byte offset is the 64 bytes of text that begin at twice that offset, and is read as the number that they
/// write in base sixteen.
pub proof fn law_word(before: Seq<char>, word: Seq<char>, after: Seq<char>, byte_offset: int)
    requires
        encode_utf8(before).len() == 2 * byte_offset,
        encode_utf8(word).len() == 64,
    ensures
        abi::abi_word(before + word + after, byte_offset) == (match hex::hex_value(word) {
            Ok(value) => Ok(value),
            Err(e) => Err(AbiError::NotANumber(e)),
        }),
{
    text_laws::law_cut(before, word, after);
}

/// In data of ASCII with 64 digits at twice a byte offset, the word at that offset is the number that those digits write,
/// and is too large where that does not fit in 64 bits.
pub proof fn law_word_of_digits(hex: Seq<char>, byte_offset: int)
    requires
        is_ascii_chars(hex),
        0 <= byte_offset,
        2 * byte_offset + 64 <= hex.len(),
        hex_laws::all_digits(hex.subrange(2 * byte_offset, 2 * byte_offset + 64)),
    ensures
        ({
            let number = hex::hex_number(hex.subrange(2 * byte_offset, 2 * byte_offset + 64));
            &&& number <= u64::MAX ==> (abi::abi_word(hex, byte_offset) matches Ok(n) && n == number)
            &&& number > u64::MAX ==> abi::abi_word(hex, byte_offset) == Err::<u64, AbiError>(
                AbiError::NotANumber(HexError::Overflow),
            )
        }),
{
    is_ascii_chars_encode_utf8(hex);
    text::lemma_cut_ascii(hex, 2 * byte_offset, 2 * byte_offset + 64);
    hex_laws::law_digits_are_read(hex.subrange(2 * byte_offset, 2 * byte_offset + 64));
}

/// A word is out of bounds exactly where fewer than 64 bytes of text follow twice its byte offset.
pub proof fn law_word_bounds(hex: Seq<char>, byte_offset: int)
    ensures
        abi::abi_word(hex, byte_offset) == Err::<u64, AbiError>(AbiError::OutOfBounds) <==> encode_utf8(hex).len() < 2
            * byte_offset + 64,
{
}

/// Where member `i` of an array at byte `offset` begins: after the word of the length and the words of the members before.
pub open spec fn word_of_member(offset: int, i: int) -> int {
    2 * offset + 64 + 64 * i
}

/// `address` is that of one of the `count` members of an array at byte `offset`: `0x`, and the text of the last 40 bytes of
/// the word of the member, in small letters.
pub open spec fn is_listed(hex: Seq<char>, offset: int, count: int, address: Seq<char>) -> bool {
    exists|i: int|
        0 <= i < count && address == seq!['0', 'x'] + text::lower(
            text::cut(hex, #[trigger] word_of_member(offset, i) + 24, word_of_member(offset, i) + 64),
        )
}

proof fn lemma_all_listed(hex: Seq<char>, offset: int, n: nat)
    requires
        forall|i: int|
            0 <= i < n ==> {
                let start = #[trigger] word_of_member(offset, i);
                text::can_cut(hex, start, start + 64) && text::can_cut(hex, start + 24, start + 64)
            },
    ensures
        abi::listed_members(hex, offset, n) is Ok,
    decreases n,
{
    if n > 0 {
        lemma_all_listed(hex, offset, (n - 1) as nat);
        assert(word_of_member(offset, n - 1) == abi::member_start(offset, n - 1));
    }
}

/// A result that holds `0x`, the offset of an array, and at that offset the length of the array, is read as the addresses
/// in the words that follow the length: all of them, and no others, in ascending order.
pub proof fn law_decoded(hex: Seq<char>, offset: usize, count: usize)
    requires
        abi::abi_word(hex, 0) == Ok::<u64, AbiError>(offset as u64),
        abi::abi_word(hex, offset as int) == Ok::<u64, AbiError>(count as u64),
        count > 0,
        forall|i: int|
            0 <= i < count ==> {
                let start = #[trigger] word_of_member(offset as int, i);
                text::can_cut(hex, start, start + 64) && text::can_cut(hex, start + 24, start + 64)
            },
    ensures
        ({
            let decoded = abi::decoded_members(seq!['0', 'x'] + hex);
            &&& decoded is Ok
            &&& forall|i: int, j: int|
                0 <= i < j < decoded->Ok_0.len() ==> text::text_lt(
                    #[trigger] decoded->Ok_0[i],
                    #[trigger] decoded->Ok_0[j],
                )
            &&& forall|address: Seq<char>| #[trigger]
                decoded->Ok_0.contains(address) <==> is_listed(hex, offset as int, count as int, address)
        }),
{
    let result = seq!['0', 'x'] + hex;
    assert(result.skip(2) =~= hex);
    lemma_all_listed(hex, offset as int, count as nat);
    abi::lemma_listed(hex, offset as int, count as nat);
    let listed = abi::listed_members(hex, offset as int, count as nat)->Ok_0;
    vstd::seq_lib::seq_to_set_is_finite(listed);
    table::law_in_order(listed.to_set());
    let members = table::in_order(listed.to_set());
    assert(abi::decoded_members(result) == Ok::<Seq<Seq<char>>, MembersError>(members));
    assert forall|address: Seq<char>| #[trigger] members.contains(address) <==> is_listed(
        hex,
        offset as int,
        count as int,
        address,
    ) by {
        assert(members.contains(address) <==> members.to_set().contains(address));
        assert(listed.contains(address) <==> listed.to_set().contains(address));
        if listed.contains(address) {
            let i = choose|i: int| 0 <= i < listed.len() && listed[i] == address;
            assert(word_of_member(offset as int, i) == abi::member_start(offset as int, i));
        }
        if is_listed(hex, offset as int, count as int, address) {
            let i = choose|i: int|
                0 <= i < count && address == seq!['0', 'x'] + text::lower(
                    text::cut(
                        hex,
                        #[trigger] word_of_member(offset as int, i) + 24,
                        word_of_member(offset as int, i) + 64,
                    ),
                );
            assert(word_of_member(offset as int, i) == abi::member_start(offset as int, i));
            assert(listed[i] == address);
        }
    }
}

/// A result in ASCII that begins with `0x`, and of which the digits write the offset of an array, and at that offset its
/// length, is read exactly where the array is not empty and lies within the data. Then the members are the last 40 digits of
/// the words that follow the length, with `0x` before them and in small letters: all of them, and no others.
pub proof fn law_decoded_digits(hex: Seq<char>, offset: usize, count: usize)
    requires
        is_ascii_chars(hex),
        2 * offset + 64 <= hex.len(),
        64 <= hex.len(),
        hex_laws::all_digits(hex.subrange(0, 64)),
        hex::hex_number(hex.subrange(0, 64)) == offset,
        hex_laws::all_digits(hex.subrange(2 * offset, 2 * offset + 64)),
        hex::hex_number(hex.subrange(2 * offset, 2 * offset + 64)) == count,
    ensures
        ({
            let decoded = abi::decoded_members(seq!['0', 'x'] + hex);
            &&& count == 0 ==> decoded == Err::<Seq<Seq<char>>, MembersError>(MembersError::NoMembers)
            &&& 2 * offset + 64 + 64 * count > hex.len() ==> decoded == Err::<Seq<Seq<char>>, MembersError>(
                MembersError::OutOfBounds,
            )
            &&& count > 0 && 2 * offset + 64 + 64 * count <= hex.len() ==> {
                &&& decoded is Ok
                &&& forall|i: int|
                    0 <= i < count ==> decoded->Ok_0.contains(
                        seq!['0', 'x'] + text::lower(
                            hex.subrange(
                                #[trigger] word_of_member(offset as int, i) + 24,
                                word_of_member(offset as int, i) + 64,
                            ),
                        ),
                    )
                &&& forall|address: Seq<char>| #[trigger]
                    decoded->Ok_0.contains(address) ==> exists|i: int|
                        0 <= i < count && address == seq!['0', 'x'] + text::lower(
                            hex.subrange(
                                #[trigger] word_of_member(offset as int, i) + 24,
                                word_of_member(offset as int, i) + 64,
                            ),
                        )
            }
        }),
{
    let result = seq!['0', 'x'] + hex;
    assert(result.skip(2) =~= hex);
    law_word_of_digits(hex, 0);
    law_word_of_digits(hex, offset as int);
    abi::lemma_listed_ascii(hex, offset as int, count as nat);
    is_ascii_chars_encode_utf8(hex);
    if count > 0 && 2 * offset + 64 + 64 * count <= hex.len() {
        assert forall|i: int| 0 <= i < count implies {
            let start = #[trigger] word_of_member(offset as int, i);
            &&& text::can_cut(hex, start, start + 64)
            &&& text::can_cut(hex, start + 24, start + 64)
            &&& text::cut(hex, start + 24, start + 64) == hex.subrange(start + 24, start + 64)
        } by {
            let start = word_of_member(offset as int, i);
            text::lemma_cut_ascii(hex, start, start + 64);
            text::lemma_cut_ascii(hex, start + 24, start + 64);
        }
        law_decoded(hex, offset, count);
        let members = abi::decoded_members(result)->Ok_0;
        assert forall|i: int| 0 <= i < count implies members.contains(
            seq!['0', 'x'] + text::lower(
                hex.subrange(#[trigger] word_of_member(offset as int, i) + 24, word_of_member(offset as int, i) + 64),
            ),
        ) by {
            let address = seq!['0', 'x'] + text::lower(
                hex.subrange(word_of_member(offset as int, i) + 24, word_of_member(offset as int, i) + 64),
            );
            assert(is_listed(hex, offset as int, count as int, address));
        }
        assert forall|address: Seq<char>| #[trigger] members.contains(address) implies exists|i: int|
            0 <= i < count && address == seq!['0', 'x'] + text::lower(
                hex.subrange(#[trigger] word_of_member(offset as int, i) + 24, word_of_member(offset as int, i) + 64),
            ) by {
            assert(is_listed(hex, offset as int, count as int, address));
        }
    }
}

/// Where the words of some members can be read and that of the next one ends beyond the data, the array is out of bounds.
pub proof fn law_decoded_bounds(hex: Seq<char>, offset: usize, count: usize, i: int)
    requires
        abi::abi_word(hex, 0) == Ok::<u64, AbiError>(offset as u64),
        abi::abi_word(hex, offset as int) == Ok::<u64, AbiError>(count as u64),
        0 <= i < count,
        forall|j: int|
            0 <= j < i ==> {
                let start = #[trigger] word_of_member(offset as int, j);
                text::can_cut(hex, start, start + 64) && text::can_cut(hex, start + 24, start + 64)
            },
        encode_utf8(hex).len() < 2 * offset + 128 + 64 * i,
    ensures
        abi::decoded_members(seq!['0', 'x'] + hex) == Err::<Seq<Seq<char>>, MembersError>(MembersError::OutOfBounds),
{
    assert((seq!['0', 'x'] + hex).skip(2) =~= hex);
    lemma_all_listed(hex, offset as int, i as nat);
    assert(abi::listed_members(hex, offset as int, (i + 1) as nat) == Err::<Seq<Seq<char>>, MembersError>(
        MembersError::OutOfBounds,
    ));
    abi::lemma_listed_error(hex, offset as int, (i + 1) as nat, count as nat);
}

/// No members are read from a result that does not begin with `0x`, of which the first word cannot be read, or of which the
/// word of the length cannot: the error is that of the word.
pub proof fn law_decoded_head(hex: Seq<char>, result: Seq<char>, offset: usize)
    ensures
        abi::decoded_members(result) == Err::<Seq<Seq<char>>, MembersError>(MembersError::NoPrefix) <==> result.len() < 2
            || result[0] != '0' || result[1] != 'x',
        abi::abi_word(hex, 0) matches Err(e) ==> abi::decoded_members(seq!['0', 'x'] + hex) == Err::<
            Seq<Seq<char>>,
            MembersError,
        >(MembersError::Head(e)),
        abi::abi_word(hex, 0) == Ok::<u64, AbiError>(offset as u64) ==> (abi::abi_word(hex, offset as int) matches Err(e)
            ==> abi::decoded_members(seq!['0', 'x'] + hex) == Err::<Seq<Seq<char>>, MembersError>(
            MembersError::Head(e),
        )),
{
    assert((seq!['0', 'x'] + hex).skip(2) =~= hex);
    let rest = result.skip(2);
    if let Ok(first) = abi::abi_word(rest, 0) {
        if let Ok(count) = abi::abi_word(rest, first as usize as int) {
            lemma_listed_errors(rest, first as usize as int, count as usize as nat);
        }
    }
}

proof fn lemma_listed_errors(hex: Seq<char>, offset: int, n: nat)
    ensures
        abi::listed_members(hex, offset, n) != Err::<Seq<Seq<char>>, MembersError>(MembersError::NoPrefix),
    decreases n,
{
    if n > 0 {
        lemma_listed_errors(hex, offset, (n - 1) as nat);
    }
}

/// The messages of the errors end with the messages of their causes.
pub proof fn law_messages(e: HexError, f: AbiError)
    ensures
        AbiError::NotANumber(e).text() == "failed to parse abi word as u64: "@ + e.text(),
        MembersError::Head(f).text() == f.text(),
{
}

} // verus!
