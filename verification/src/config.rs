//! The settings of the monitor, and how they are chosen at start.
use vstd::prelude::*;
use vstd::string::*;
use vstd::utf8::*;

use crate::hex;
use crate::text;

verus! {

/// How many blocks back each poll looks for logs.
pub const LOG_BLOCK_WINDOW: u64 = 100_000;

/// How many different transactions, the newest first, each poll looks up at most.
pub const MAX_TX_TO_CHECK: usize = 300;

/// The seconds between two polls: a quarter of an hour.
pub const POLL_INTERVAL_SECS: u64 = 900;

/// The address on which `/metrics` and `/healthz` are served.
pub const METRICS_BIND_ADDR: &'static str = "0.0.0.0:9104";

/// What the monitor works on.
#[derive(Debug, Clone)]
pub struct Config {
    pub network: String,
    pub rpc_url: String,
    pub target_contract_address: String,
    pub members_source_address: String,
}

/// The texts in a `Config`.
#[verifier::ext_equal]
pub struct ConfigText {
    pub network: Seq<char>,
    pub rpc_url: Seq<char>,
    pub target_contract_address: Seq<char>,
    pub members_source_address: Seq<char>,
}

impl View for Config {
    type V = ConfigText;

    open spec fn view(&self) -> ConfigText {
        ConfigText {
            network: self.network@,
            rpc_url: self.rpc_url@,
            target_contract_address: self.target_contract_address@,
            members_source_address: self.members_source_address@,
        }
    }
}

/// Why there is no configuration.
#[derive(Debug)]
pub enum ConfigError {
    /// The network or the URL is not given.
    Usage,
    /// The network is neither of the known ones.
    UnknownNetwork(String),
    /// An address does not have the form of one.
    AddressFormat(String),
    /// An address holds a character that is no digit.
    AddressHex(String),
}

/// A `ConfigError` and the text in it.
pub enum ConfigFault {
    Usage,
    UnknownNetwork(Seq<char>),
    AddressFormat(Seq<char>),
    AddressHex(Seq<char>),
}

impl View for ConfigError {
    type V = ConfigFault;

    open spec fn view(&self) -> ConfigFault {
        match self {
            ConfigError::Usage => ConfigFault::Usage,
            ConfigError::UnknownNetwork(t) => ConfigFault::UnknownNetwork(t@),
            ConfigError::AddressFormat(t) => ConfigFault::AddressFormat(t@),
            ConfigError::AddressHex(t) => ConfigFault::AddressHex(t@),
        }
    }
}

impl ConfigFault {
    /// What the user is told.
    pub open spec fn message(self) -> Seq<char> {
        match self {
            ConfigFault::Usage =>
                "Usage: <binary> <network: mainnet|hoodi> <rpc_url>. Example: cargo run -- mainnet http://127.0.0.1:8545"@,
            ConfigFault::UnknownNetwork(t) => "Invalid network argument '"@ + t + "'. Use mainnet or hoodi"@,
            ConfigFault::AddressFormat(t) => "invalid ethereum address format: "@ + t,
            ConfigFault::AddressHex(t) => "invalid ethereum address hex: "@ + t,
        }
    }
}

impl ConfigError {
    /// What the user is told.
    pub fn message(&self) -> (m: String)
        ensures
            m@ == self@.message(),
    {
        match self {
            ConfigError::Usage => String::from_str(
                "Usage: <binary> <network: mainnet|hoodi> <rpc_url>. Example: cargo run -- mainnet http://127.0.0.1:8545",
            ),
            ConfigError::UnknownNetwork(t) => String::from_str("Invalid network argument '").concat(t.as_str()).concat(
                "'. Use mainnet or hoodi",
            ),
            ConfigError::AddressFormat(t) => String::from_str("invalid ethereum address format: ").concat(t.as_str()),
            ConfigError::AddressHex(t) => String::from_str("invalid ethereum address hex: ").concat(t.as_str()),
        }
    }
}

/// `addr` has the form of an address: 42 bytes that begin with `0x`.
pub open spec fn address_form(addr: Seq<char>) -> bool {
    encode_utf8(addr).len() == 42 && text::has_0x(addr)
}

/// The characters of `addr` after the first two are digits of base sixteen.
pub open spec fn address_digits(addr: Seq<char>) -> bool {
    forall|i: int| 2 <= i < addr.len() ==> hex::hex_digit(#[trigger] addr[i]) is Some
}

/// What is wrong with an address, if anything.
pub open spec fn address_fault(addr: Seq<char>) -> Option<ConfigFault> {
    if !address_form(addr) {
        Some(ConfigFault::AddressFormat(addr))
    } else if !address_digits(addr) {
        Some(ConfigFault::AddressHex(addr))
    } else {
        None
    }
}

/// An address has nothing wrong with it exactly where it is `0x` and 40 digits of base sixteen, in either letter case.
pub proof fn law_valid_address(addr: Seq<char>)
    ensures
        address_fault(addr) is None <==> addr.len() == 42 && text::has_0x(addr) && address_digits(addr),
{
    if text::has_0x(addr) && address_digits(addr) {
        assert forall|i: int| 0 <= i < addr.len() implies '\u{0}' <= #[trigger] addr[i] && addr[i] <= '\u{7f}' by {
            if i >= 2 {
                assert(hex::hex_digit(addr[i]) is Some);
            }
        }
        assert(is_ascii_chars(addr));
        is_ascii_chars_encode_utf8(addr);
    }
}

/// Checks that `addr` is an address: `0x` and 40 digits of base sixteen.
pub fn validate_eth_address(addr: &str) -> (r: Result<(), ConfigError>)
    ensures
        match r {
            Ok(_) => address_fault(addr@) is None,
            Err(e) => address_fault(addr@) == Some(e@),
        },
{
    if addr.as_bytes().len() != 42 || text::strip_0x(addr).is_none() {
        return Err(ConfigError::AddressFormat(String::from_str(addr)));
    }
    let chars: Vec<char> = text::characters(addr);
    let mut i: usize = 2;
    while i < chars.len()
        invariant
            chars@ == addr@,
            address_form(addr@),
            2 <= i <= chars.len(),
            forall|j: int| 2 <= j < i ==> hex::hex_digit(#[trigger] addr@[j]) is Some,
        decreases chars.len() - i,
    {
        let c: char = chars[i];
        if !hex::is_hex_digit(c) {
            assert(hex::hex_digit(addr@[i as int]) is None);
            return Err(ConfigError::AddressHex(String::from_str(addr)));
        }
        i += 1;
    }
    Ok(())
}

/// `c` is white space, as Unicode has it.
pub open spec fn white_space(c: char) -> bool {
    ||| '\u{9}' <= c && c <= '\u{d}'
    ||| c == ' '
    ||| c == '\u{85}'
    ||| c == '\u{a0}'
    ||| c == '\u{1680}'
    ||| '\u{2000}' <= c && c <= '\u{200a}'
    ||| c == '\u{2028}'
    ||| c == '\u{2029}'
    ||| c == '\u{202f}'
    ||| c == '\u{205f}'
    ||| c == '\u{3000}'
}

/// Whether `c` is white space.
pub fn is_white_space(c: char) -> (r: bool)
    ensures
        r == white_space(c),
{
    ('\u{9}' <= c && c <= '\u{d}') || c == ' ' || c == '\u{85}' || c == '\u{a0}' || c == '\u{1680}' || ('\u{2000}' <= c
        && c <= '\u{200a}') || c == '\u{2028}' || c == '\u{2029}' || c == '\u{202f}' || c == '\u{205f}' || c
        == '\u{3000}'
}

/// `s` is made of white space alone.
pub open spec fn blank(s: Seq<char>) -> bool {
    forall|i: int| 0 <= i < s.len() ==> white_space(#[trigger] s[i])
}

/// Whether `s` is made of white space alone.
pub fn is_blank(s: &str) -> (r: bool)
    ensures
        r == blank(s@),
{
    let chars: Vec<char> = text::characters(s);
    let mut i: usize = 0;
    while i < chars.len()
        invariant
            chars@ == s@,
            i <= chars.len(),
            forall|j: int| 0 <= j < i ==> white_space(#[trigger] s@[j]),
        decreases chars.len() - i,
    {
        if !is_white_space(chars[i]) {
            assert(!white_space(s@[i as int]));
            return false;
        }
        i += 1;
    }
    true
}

/// The contract that the reports of a network go to.
pub open spec fn target_contract(network: Seq<char>) -> Option<Seq<char>> {
    if network == "mainnet"@ {
        Some("0xD624B08C83bAECF0807Dd2c6880C3154a5F0B288"@)
    } else if network == "hoodi"@ {
        Some("0x32EC59a78abaca3f91527aeB2008925D5AaC1eFC"@)
    } else {
        None
    }
}

/// The contract that knows the members of a network.
pub open spec fn default_members_source(network: Seq<char>) -> Seq<char> {
    if network == "mainnet"@ {
        "0x7FaDB6358950c5fAA66Cb5EB8eE5147De3df355a"@
    } else {
        "0x30308CD8844fb2DB3ec4D056F1d475a802DCA07c"@
    }
}

/// The contract to ask for the members: the one that was set, unless that is blank, or else that of the network.
pub open spec fn members_source(network: Seq<char>, set: Option<Seq<char>>) -> Seq<char> {
    match set {
        Some(address) => if blank(address) {
            text::lower(default_members_source(network))
        } else {
            text::lower(address)
        },
        None => text::lower(default_members_source(network)),
    }
}

/// The configuration for the arguments of the program and for the members source that was set.
pub open spec fn configured(args: Seq<Seq<char>>, set: Option<Seq<char>>) -> Result<ConfigText, ConfigFault> {
    if args.len() < 3 {
        Err(ConfigFault::Usage)
    } else {
        let source = members_source(args[1], set);
        match target_contract(args[1]) {
            None => Err(ConfigFault::UnknownNetwork(args[1])),
            Some(target) => match address_fault(source) {
                Some(fault) => Err(fault),
                None => Ok(
                    ConfigText {
                        network: args[1],
                        rpc_url: args[2],
                        target_contract_address: target,
                        members_source_address: source,
                    },
                ),
            },
        }
    }
}

/// The two known networks have different names.
proof fn lemma_mainnet_is_not_hoodi()
    ensures
        "mainnet"@ != "hoodi"@,
{
    reveal_strlit("mainnet");
    reveal_strlit("hoodi");
    assert("mainnet"@.len() != "hoodi"@.len());
}

/// The contract of each known network has a valid address.
pub proof fn lemma_target_contract_valid(network: Seq<char>)
    ensures
        target_contract(network) matches Some(target) ==> address_fault(text::lower(target)) is None,
{
    reveal_strlit("0xD624B08C83bAECF0807Dd2c6880C3154a5F0B288");
    reveal_strlit("0x32EC59a78abaca3f91527aeB2008925D5AaC1eFC");
    if let Some(target) = target_contract(network) {
        let low = text::lower(target);
        assert(target.len() == 42);
        assert(is_ascii_chars(low) && address_digits(low)) by {
            assert forall|i: int| 0 <= i < 42 implies hex::hex_digit(#[trigger] low[i]) is Some || i == 1 by {
                assert(low[i] == text::lower_char(target[i]));
            }
            assert(low[1] == 'x');
        }
        is_ascii_chars_encode_utf8(low);
    }
}

/// A configuration is for a known network and its contract. Both of its addresses are valid, and that of the members
/// source is in small letters.
pub proof fn law_configured(args: Seq<Seq<char>>, set: Option<Seq<char>>)
    requires
        configured(args, set) is Ok,
    ensures
        ({
            let config = configured(args, set)->Ok_0;
            &&& target_contract(config.network) == Some(config.target_contract_address)
            &&& address_fault(text::lower(config.target_contract_address)) is None
            &&& address_fault(config.members_source_address) is None
            &&& text::lower(config.members_source_address) == config.members_source_address
        }),
{
    lemma_target_contract_valid(args[1]);
    text::lemma_lower_twice(default_members_source(args[1]));
    if let Some(address) = set {
        text::lemma_lower_twice(address);
    }
}

/// The text in an optional string.
pub open spec fn set_text(set: Option<String>) -> Option<Seq<char>> {
    match set {
        Some(t) => Some(t@),
        None => None,
    }
}

/// Builds the configuration from the arguments of the program, of which the first is its name, and from the address
/// of the members source, where one was set.
pub fn load_config(args: &Vec<String>, members_source_set: Option<String>) -> (r: Result<Config, ConfigError>)
    ensures
        match r {
            Ok(config) => configured(text::views(args@), set_text(members_source_set)) == Ok::<
                ConfigText,
                ConfigFault,
            >(config@),
            Err(e) => configured(text::views(args@), set_text(members_source_set)) == Err::<ConfigText, ConfigFault>(
                e@,
            ),
        },
{
    if args.len() < 3 {
        return Err(ConfigError::Usage);
    }
    let network: &str = args[1].as_str();
    let rpc_url: String = args[2].clone();
    let (target, default_source): (&str, &str) = if text::same(network, "mainnet") {
        ("0xD624B08C83bAECF0807Dd2c6880C3154a5F0B288", "0x7FaDB6358950c5fAA66Cb5EB8eE5147De3df355a")
    } else if text::same(network, "hoodi") {
        ("0x32EC59a78abaca3f91527aeB2008925D5AaC1eFC", "0x30308CD8844fb2DB3ec4D056F1d475a802DCA07c")
    } else {
        return Err(ConfigError::UnknownNetwork(String::from_str(network)));
    };
    proof {
        lemma_mainnet_is_not_hoodi();
        lemma_target_contract_valid(network@);
    }
    let source: String = match &members_source_set {
        Some(address) => if is_blank(address.as_str()) {
            text::to_lower(default_source)
        } else {
            text::to_lower(address.as_str())
        },
        None => text::to_lower(default_source),
    };
    match validate_eth_address(text::to_lower(target).as_str()) {
        Ok(_) => {},
        Err(e) => {
            return Err(e);
        },
    }
    match validate_eth_address(source.as_str()) {
        Ok(_) => {},
        Err(e) => {
            return Err(e);
        },
    }
    Ok(
        Config {
            network: String::from_str(network),
            rpc_url,
            target_contract_address: String::from_str(target),
            members_source_address: source,
        },
    )
}

} // verus!
