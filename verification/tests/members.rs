use oracle_monitor::abi::{decode_get_members_addresses, read_abi_word_as_u64, AbiError, MembersError};
use oracle_monitor::hex::HexError;

fn word(n: u64) -> String {
    format!("{:064x}", n)
}

fn address_word(digits: &str) -> String {
    format!("{:0>64}", digits)
}

const A: &str = "AAaaAAaaAAaaAAaaAAaaAAaaAAaaAAaaAAaaAAaa";
const B: &str = "00000000000000000000000000000000000000Bb";

#[test]
fn word_is_read_at_its_offset() {
    let data = format!("{}{}", word(7), word(0x1234));
    assert_eq!(read_abi_word_as_u64(&data, 0), Ok(7));
    assert_eq!(read_abi_word_as_u64(&data, 32), Ok(0x1234));
    assert_eq!(read_abi_word_as_u64(&data, 31), Err(AbiError::NotANumber(HexError::Overflow)));
    assert_eq!(read_abi_word_as_u64(&format!("{}{}", word(0), word(7 << 8)), 31), Ok(7));
}

#[test]
fn word_out_of_bounds() {
    let data = word(7);
    assert_eq!(read_abi_word_as_u64(&data, 1), Err(AbiError::OutOfBounds));
    assert_eq!(read_abi_word_as_u64("", 0), Err(AbiError::OutOfBounds));
    assert_eq!(read_abi_word_as_u64(&data[1..], 0), Err(AbiError::OutOfBounds));
    assert_eq!(read_abi_word_as_u64(&data, usize::MAX), Err(AbiError::OutOfBounds));
    assert_eq!(AbiError::OutOfBounds.message(), "abi decode out of bounds");
}

#[test]
fn word_that_is_no_number() {
    let too_large = format!("{}{}", "0".repeat(47), "10000000000000000");
    assert_eq!(too_large.len(), 64);
    assert_eq!(read_abi_word_as_u64(&too_large, 0), Err(AbiError::NotANumber(HexError::Overflow)));
    let no_digit = format!("{}g", "0".repeat(63));
    assert_eq!(read_abi_word_as_u64(&no_digit, 0), Err(AbiError::NotANumber(HexError::InvalidDigit)));
    assert_eq!(
        AbiError::NotANumber(HexError::Overflow).message(),
        "failed to parse abi word as u64: number too large to fit in target type"
    );
}

#[test]
fn word_that_splits_a_character() {
    let data = format!("{}\u{e9}", "0".repeat(63));
    assert_eq!(read_abi_word_as_u64(&data, 0), Err(AbiError::SplitCharacter));
    let inside = format!("{}\u{e9}", "0".repeat(62));
    assert_eq!(read_abi_word_as_u64(&inside, 0), Err(AbiError::NotANumber(HexError::InvalidDigit)));
}

#[test]
fn members_are_sorted_small_and_different() {
    let data = format!(
        "0x{}{}{}{}{}{}{}",
        word(64),
        word(0),
        word(3),
        address_word(A),
        address_word(B),
        address_word(&A.to_lowercase()),
        word(99)
    );
    assert_eq!(
        decode_get_members_addresses(&data).unwrap(),
        vec![
            String::from("0x00000000000000000000000000000000000000bb"),
            String::from("0xaaaaaaaaaaaaaaaaaaaaaaaaaaaaaaaaaaaaaaaa"),
        ]
    );
}

#[test]
fn members_ignore_the_first_bytes_of_their_words() {
    let data = format!("0x{}{}{}{}", word(32), word(1), "z".repeat(24), A);
    assert_eq!(
        decode_get_members_addresses(&data).unwrap(),
        vec![String::from("0xaaaaaaaaaaaaaaaaaaaaaaaaaaaaaaaaaaaaaaaa")]
    );
}

#[test]
fn members_ignore_what_follows() {
    let data = format!("0x{}{}{}{}", word(32), word(2), address_word(A), address_word(B));
    let members = decode_get_members_addresses(&data).unwrap();
    assert_eq!(members.len(), 2);
    for more in ["0", "not hex", "\u{e9}", &word(7)] {
        assert_eq!(decode_get_members_addresses(&format!("{}{}", data, more)), Ok(members.clone()));
    }
}

#[test]
fn members_without_prefix() {
    let data = format!("{}{}{}", word(32), word(1), address_word(A));
    assert_eq!(decode_get_members_addresses(&data), Err(MembersError::NoPrefix));
    assert_eq!(decode_get_members_addresses(""), Err(MembersError::NoPrefix));
    assert_eq!(MembersError::NoPrefix.message(), "eth_call result missing 0x prefix");
}

#[test]
fn members_with_a_bad_head() {
    assert_eq!(decode_get_members_addresses("0x"), Err(MembersError::Head(AbiError::OutOfBounds)));
    let far = format!("0x{}", word(32));
    assert_eq!(decode_get_members_addresses(&far), Err(MembersError::Head(AbiError::OutOfBounds)));
    let very_far = format!("0x{}", word(u64::MAX));
    assert_eq!(decode_get_members_addresses(&very_far), Err(MembersError::Head(AbiError::OutOfBounds)));
    let no_number = format!("0x{}", "x".repeat(64));
    assert_eq!(
        decode_get_members_addresses(&no_number),
        Err(MembersError::Head(AbiError::NotANumber(HexError::InvalidDigit)))
    );
    assert_eq!(MembersError::Head(AbiError::OutOfBounds).message(), "abi decode out of bounds");
}

#[test]
fn members_out_of_bounds() {
    let data = format!("0x{}{}{}", word(32), word(2), address_word(A));
    assert_eq!(decode_get_members_addresses(&data), Err(MembersError::OutOfBounds));
    let many = format!("0x{}{}{}", word(32), word(u64::MAX), address_word(A));
    assert_eq!(decode_get_members_addresses(&many), Err(MembersError::OutOfBounds));
    assert_eq!(MembersError::OutOfBounds.message(), "abi decode members[] out of bounds");
}

#[test]
fn members_that_split_a_character() {
    let data = format!("0x{}{}{}\u{e9}{}", word(32), word(1), "0".repeat(23), "0".repeat(39));
    assert_eq!(decode_get_members_addresses(&data), Err(MembersError::SplitCharacter));
    assert_eq!(MembersError::SplitCharacter.message(), "abi decode members[] splits a character");
    assert_eq!(AbiError::SplitCharacter.message(), "abi decode splits a character");
}

#[test]
fn no_members() {
    let data = format!("0x{}{}", word(32), word(0));
    assert_eq!(decode_get_members_addresses(&data), Err(MembersError::NoMembers));
    assert_eq!(MembersError::NoMembers.message(), "getMembers returned empty members list");
}
