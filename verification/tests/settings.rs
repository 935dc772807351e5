use oracle_monitor::clock::{unix_now_secs, unix_secs, BeforeEpoch};
use oracle_monitor::config::{
    is_blank, is_white_space, load_config, validate_eth_address, Config, ConfigError, LOG_BLOCK_WINDOW, MAX_TX_TO_CHECK,
    METRICS_BIND_ADDR, POLL_INTERVAL_SECS,
};
use std::time::{Duration, UNIX_EPOCH};

const SOURCE: &str = "0xABCDEF0123456789abcdef0123456789ABCDEF01";

fn load(args: &[&str], source: Option<&str>) -> Result<Config, ConfigError> {
    let args: Vec<String> = args.iter().map(|s| s.to_string()).collect();
    load_config(&args, source.map(|s| s.to_string()))
}

#[test]
fn settings_have_their_values() {
    assert_eq!(LOG_BLOCK_WINDOW, 100_000);
    assert_eq!(MAX_TX_TO_CHECK, 300);
    assert_eq!(POLL_INTERVAL_SECS, 900);
    assert_eq!(METRICS_BIND_ADDR, "0.0.0.0:9104");
}

#[test]
fn mainnet_is_configured() {
    let config = load(&["monitor", "mainnet", "http://127.0.0.1:8545"], None).unwrap();
    assert_eq!(config.network, "mainnet");
    assert_eq!(config.rpc_url, "http://127.0.0.1:8545");
    assert_eq!(config.target_contract_address, "0xD624B08C83bAECF0807Dd2c6880C3154a5F0B288");
    assert_eq!(config.members_source_address, "0x7fadb6358950c5faa66cb5eb8ee5147de3df355a");
    assert!(validate_eth_address(&config.target_contract_address).is_ok());
    assert!(validate_eth_address(&config.members_source_address).is_ok());
}

#[test]
fn hoodi_is_configured() {
    let config = load(&["monitor", "hoodi", "url", "more"], None).unwrap();
    assert_eq!(config.network, "hoodi");
    assert_eq!(config.rpc_url, "url");
    assert_eq!(config.target_contract_address, "0x32EC59a78abaca3f91527aeB2008925D5AaC1eFC");
    assert_eq!(config.members_source_address, "0x30308cd8844fb2db3ec4d056f1d475a802dca07c");
}

#[test]
fn members_source_can_be_set() {
    let config = load(&["monitor", "hoodi", "url"], Some(SOURCE)).unwrap();
    assert_eq!(config.members_source_address, "0xabcdef0123456789abcdef0123456789abcdef01");
    let blank = load(&["monitor", "hoodi", "url"], Some(" \t\u{3000}")).unwrap();
    assert_eq!(blank.members_source_address, "0x30308cd8844fb2db3ec4d056f1d475a802dca07c");
    let empty = load(&["monitor", "mainnet", "url"], Some("")).unwrap();
    assert_eq!(empty.members_source_address, "0x7fadb6358950c5faa66cb5eb8ee5147de3df355a");
}

#[test]
fn arguments_are_missing() {
    for args in [&["monitor"][..], &["monitor", "mainnet"][..], &[][..]] {
        let e = load(args, None).unwrap_err();
        assert!(matches!(e, ConfigError::Usage));
        assert_eq!(
            e.message(),
            "Usage: <binary> <network: mainnet|hoodi> <rpc_url>. Example: cargo run -- mainnet http://127.0.0.1:8545"
        );
    }
}

#[test]
fn network_is_unknown() {
    let e = load(&["monitor", "Mainnet", "url"], Some("bad")).unwrap_err();
    assert_eq!(e.message(), "Invalid network argument 'Mainnet'. Use mainnet or hoodi");
}

#[test]
fn members_source_is_no_address() {
    let e = load(&["monitor", "mainnet", "url"], Some("0xABC")).unwrap_err();
    assert_eq!(e.message(), "invalid ethereum address format: 0xabc");
    let spaced = format!(" {}", SOURCE);
    let e = load(&["monitor", "mainnet", "url"], Some(&spaced)).unwrap_err();
    assert!(matches!(e, ConfigError::AddressFormat(_)));
    let e = load(&["monitor", "mainnet", "url"], Some(&SOURCE.replace("01", "0G"))).unwrap_err();
    assert!(matches!(e, ConfigError::AddressHex(_)));
}

#[test]
fn addresses_are_checked() {
    assert!(validate_eth_address(SOURCE).is_ok());
    let long = format!("{}0", SOURCE);
    assert_eq!(
        validate_eth_address(&long).unwrap_err().message(),
        format!("invalid ethereum address format: {}", long)
    );
    let upper = SOURCE.replace("0x", "0X");
    assert!(matches!(validate_eth_address(&upper), Err(ConfigError::AddressFormat(_))));
    let no_hex = SOURCE.replace("AB", "xy");
    assert_eq!(
        validate_eth_address(&no_hex).unwrap_err().message(),
        format!("invalid ethereum address hex: {}", no_hex)
    );
    let wide = format!("0x{}\u{e9}", "0".repeat(38));
    assert_eq!(wide.len(), 42);
    assert!(matches!(validate_eth_address(&wide), Err(ConfigError::AddressHex(_))));
    let wide = format!("0x{}\u{e9}", "0".repeat(39));
    assert!(matches!(validate_eth_address(&wide), Err(ConfigError::AddressFormat(_))));
}

#[test]
fn white_space_is_that_of_unicode() {
    for n in 0u32..=0x10ffff {
        if let Some(c) = char::from_u32(n) {
            assert_eq!(is_white_space(c), c.is_whitespace());
        }
    }
    for s in ["", " ", "\n\t ", "a", " a ", "\u{a0}\u{2003}", "\u{200b}"] {
        assert_eq!(is_blank(s), s.trim().is_empty());
    }
}

#[test]
fn clock_counts_whole_seconds() {
    assert_eq!(unix_secs(&UNIX_EPOCH), Ok(0));
    assert_eq!(unix_secs(&(UNIX_EPOCH + Duration::from_millis(1_999))), Ok(1));
    assert_eq!(unix_secs(&(UNIX_EPOCH + Duration::from_secs(1_700_000_000))), Ok(1_700_000_000));
    let early = UNIX_EPOCH - Duration::from_nanos(1_000);
    let reason = early.duration_since(UNIX_EPOCH).unwrap_err().to_string();
    assert!(!reason.is_empty());
    assert_eq!(unix_secs(&early), Err(BeforeEpoch(reason)));
}

#[test]
fn clock_tells_the_time() {
    assert!(unix_now_secs().unwrap() > 1_600_000_000);
}
