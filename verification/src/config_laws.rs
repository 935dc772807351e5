//! What a configuration is made of.
use vstd::prelude::*;
use vstd::utf8::*;

use crate::config;
use crate::config::{Config, ConfigError, ConfigFault, ConfigText};
use crate::hex_laws;
use crate::text;

verus! {

/// An address has nothing wrong with it exactly where it has 42 characters: `0x`, and digits of base sixteen.
pub proof fn law_address(addr: Seq<char>)
    ensures
        config::address_fault(addr) is None <==> {
            &&& addr.len() == 42
            &&& addr[0] == '0'
            &&& addr[1] == 'x'
            &&& hex_laws::all_digits(addr.skip(2))
        },
{
    config::law_valid_address(addr);
    assert forall|i: int| 0 <= i < addr.len() implies (crate::hex::hex_digit(#[trigger] addr[i]) is Some
        <==> hex_laws::is_digit(addr[i])) by {
        hex_laws::law_hex_digit(addr[i]);
    }
    if addr.len() == 42 {
        if config::address_digits(addr) {
            assert forall|i: int| 0 <= i < addr.skip(2).len() implies hex_laws::is_digit(#[trigger] addr.skip(2)[i]) by {
                assert(addr.skip(2)[i] == addr[i + 2]);
            }
        }
        if hex_laws::all_digits(addr.skip(2)) {
            assert forall|i: int| 2 <= i < addr.len() implies crate::hex::hex_digit(#[trigger] addr[i]) is Some by {
                assert(addr.skip(2)[i - 2] == addr[i]);
            }
        }
    }
}

/// An address is of the wrong form exactly where it is not 42 bytes long or does not begin with `0x`. One of the right form
/// with anything wrong is at fault for its digits. The fault names the address.
pub proof fn law_address_fault(addr: Seq<char>)
    ensures
        config::address_fault(addr) == Some(ConfigFault::AddressFormat(addr)) <==> encode_utf8(addr).len() != 42 || addr.len()
            < 2 || addr[0] != '0' || addr[1] != 'x',
        config::address_fault(addr) matches Some(fault) ==> fault == ConfigFault::AddressFormat(addr) || fault
            == ConfigFault::AddressHex(addr),
{
}

/// A text is blank exactly where its parts are, and one character is where it is white space.
pub proof fn law_blank(a: Seq<char>, b: Seq<char>, c: char)
    ensures
        config::blank(seq![]),
        config::blank(seq![c]) == config::white_space(c),
        config::blank(a + b) == (config::blank(a) && config::blank(b)),
{
    assert(seq![c][0] == c);
    if config::blank(a + b) {
        assert forall|i: int| 0 <= i < a.len() implies config::white_space(#[trigger] a[i]) by {
            assert((a + b)[i] == a[i]);
        }
        assert forall|i: int| 0 <= i < b.len() implies config::white_space(#[trigger] b[i]) by {
            assert((a + b)[a.len() + i] == b[i]);
        }
    }
}

/// White space is, of the characters of ASCII, the space and those from tab to carriage return. Of the others it is those
/// that Unicode lists.
pub proof fn law_white_space(c: char)
    ensures
        config::white_space(c) <==> {
            let n = c as int;
            ||| 9 <= n <= 13
            ||| n == 32
            ||| n == 133
            ||| n == 160
            ||| n == 5760
            ||| 8192 <= n <= 8202
            ||| n == 8232
            ||| n == 8233
            ||| n == 8239
            ||| n == 8287
            ||| n == 12288
        },
{
}

/// Without a network and a URL there is no configuration. With them, what is configured depends on nothing else among the
/// arguments.
pub proof fn law_arguments(args: Seq<Seq<char>>, others: Seq<Seq<char>>, set: Option<Seq<char>>)
    ensures
        args.len() < 3 <==> config::configured(args, set) == Err::<ConfigText, ConfigFault>(ConfigFault::Usage),
        args.len() >= 3 && others.len() >= 3 && args[1] == others[1] && args[2] == others[2] ==> config::configured(
            args,
            set,
        ) == config::configured(others, set),
{
}

/// There is a configuration for the networks `mainnet` and `hoodi` alone. Another network is named in the error.
pub proof fn law_networks(args: Seq<Seq<char>>, set: Option<Seq<char>>)
    requires
        args.len() >= 3,
    ensures
        args[1] != "mainnet"@ && args[1] != "hoodi"@ <==> config::configured(args, set) == Err::<ConfigText, ConfigFault>(
            ConfigFault::UnknownNetwork(args[1]),
        ),
{
}

/// A configuration holds the network and the URL as they were given, and the contract of the network.
pub proof fn law_settings(args: Seq<Seq<char>>, set: Option<Seq<char>>)
    ensures
        config::configured(args, set) matches Ok(found) ==> {
            &&& found.network == args[1]
            &&& found.rpc_url == args[2]
            &&& args[1] == "mainnet"@ ==> found.target_contract_address
                == "0xD624B08C83bAECF0807Dd2c6880C3154a5F0B288"@
            &&& args[1] == "hoodi"@ ==> found.target_contract_address == "0x32EC59a78abaca3f91527aeB2008925D5AaC1eFC"@
        },
{
    reveal_strlit("mainnet");
    reveal_strlit("hoodi");
    assert("mainnet"@.len() != "hoodi"@.len());
}

/// Where no members source is set, or a blank one, that of the network is used, in small letters.
pub proof fn law_default_source(args: Seq<Seq<char>>, set: Seq<char>)
    requires
        args.len() >= 3,
        config::blank(set),
    ensures
        config::configured(args, Some(set)) == config::configured(args, None),
        args[1] == "mainnet"@ ==> (config::configured(args, None) matches Ok(found) && found.members_source_address
            == text::lower("0x7FaDB6358950c5fAA66Cb5EB8eE5147De3df355a"@)),
        args[1] == "hoodi"@ ==> (config::configured(args, None) matches Ok(found) && found.members_source_address
            == text::lower("0x30308CD8844fb2DB3ec4D056F1d475a802DCA07c"@)),
{
    reveal_strlit("mainnet");
    reveal_strlit("hoodi");
    assert("mainnet"@.len() != "hoodi"@.len());
    lemma_default_source_valid(args[1]);
}

proof fn lemma_default_source_valid(network: Seq<char>)
    ensures
        config::address_fault(text::lower(config::default_members_source(network))) is None,
{
    reveal_strlit("0x7FaDB6358950c5fAA66Cb5EB8eE5147De3df355a");
    reveal_strlit("0x30308CD8844fb2DB3ec4D056F1d475a802DCA07c");
    let source = config::default_members_source(network);
    let low = text::lower(source);
    assert(source.len() == 42);
    assert(config::address_digits(low)) by {
        assert forall|i: int| 0 <= i < 42 implies crate::hex::hex_digit(#[trigger] low[i]) is Some || i == 1 by {
            assert(low[i] == text::lower_char(source[i]));
        }
    }
    config::law_valid_address(low);
}

/// A members source that is set, and is not blank, is used in small letters, and nothing else of the configuration depends
/// on it. Where it is no address, its fault is the error.
pub proof fn law_set_source(args: Seq<Seq<char>>, set: Seq<char>)
    requires
        args.len() >= 3,
        args[1] == "mainnet"@ || args[1] == "hoodi"@,
        !config::blank(set),
    ensures
        config::address_fault(text::lower(set)) matches Some(fault) ==> config::configured(args, Some(set)) == Err::<
            ConfigText,
            ConfigFault,
        >(fault),
        config::address_fault(text::lower(set)) is None ==> config::configured(args, None) is Ok && config::configured(
            args,
            Some(set),
        ) == Ok::<ConfigText, ConfigFault>(
            (ConfigText { members_source_address: text::lower(set), ..config::configured(args, None)->Ok_0 }),
        ),
{
    lemma_default_source_valid(args[1]);
}

/// The views of a configuration, of an error and of an optional string hold their texts.
pub proof fn law_views(config: Config, t: String)
    ensures
        config@.network == config.network@,
        config@.rpc_url == config.rpc_url@,
        config@.target_contract_address == config.target_contract_address@,
        config@.members_source_address == config.members_source_address@,
        ConfigError::Usage@ == ConfigFault::Usage,
        ConfigError::UnknownNetwork(t)@ == ConfigFault::UnknownNetwork(t@),
        ConfigError::AddressFormat(t)@ == ConfigFault::AddressFormat(t@),
        ConfigError::AddressHex(t)@ == ConfigFault::AddressHex(t@),
        config::set_text(Some(t)) == Some(t@),
        config::set_text(None) is None,
{
}

/// The message of an error names what is wrong in full, whatever it is.
pub proof fn law_messages(t: Seq<char>)
    ensures
        ConfigFault::UnknownNetwork(t).message() == "Invalid network argument '"@ + t + "'. Use mainnet or hoodi"@,
        ConfigFault::AddressFormat(t).message() == "invalid ethereum address format: "@ + t,
        ConfigFault::AddressHex(t).message() == "invalid ethereum address hex: "@ + t,
{
}

} // verus!
