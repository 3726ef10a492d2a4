use relayer::address::parse_eth_address;
use relayer::arith::parse_dec_u128;
use relayer::arith::prod_ge;
use relayer::arith::wide_mul;
use relayer::commands::AddCosmosKeyCmd;
use relayer::commands::DeleteEthKeyCmd;
use relayer::commands::ImportEthKeyCmd;
use relayer::config::RelayerMode;

#[test]
fn parse_address_accepts_both_cases() {
    let lower = parse_eth_address("0x00112233445566778899aabbccddeeff00112233");
    let upper = parse_eth_address("0x00112233445566778899AABBCCDDEEFF00112233");
    assert!(lower.is_some());
    assert_eq!(lower, upper);
    let mixed = parse_eth_address("0X00112233445566778899AaBbCcDdEeFf00112233");
    assert_eq!(lower, mixed);
}

#[test]
fn parse_address_rejects_malformed_literals() {
    assert!(parse_eth_address("").is_none());
    assert!(parse_eth_address("0x").is_none());
    // 39 digits.
    assert!(parse_eth_address("0x00112233445566778899aabbccddeeff0011223").is_none());
    // 41 digits.
    assert!(parse_eth_address("0x00112233445566778899aabbccddeeff001122334").is_none());
    // No prefix.
    assert!(parse_eth_address("0000112233445566778899aabbccddeeff00112233").is_none());
    // A non-hex digit.
    assert!(parse_eth_address("0x00112233445566778899aabbccddeeff0011223g").is_none());
}

#[test]
fn parse_address_value() {
    let a = parse_eth_address("0x0000000000000000000000000000000000000001").expect("literal");
    assert_eq!(a.hi, 0);
    assert_eq!(a.mid, 0);
    assert_eq!(a.lo, 1);
    let b = parse_eth_address("0xffffffffffffffff0000000000000000f0000000").expect("literal");
    assert_eq!(b.hi, u64::MAX);
    assert_eq!(b.mid, 0);
    assert_eq!(b.lo, 0xf000_0000);
}

#[test]
fn parse_decimal_literals() {
    assert_eq!(parse_dec_u128("0"), Some(0));
    assert_eq!(parse_dec_u128("123"), Some(123));
    assert_eq!(parse_dec_u128("1000000000000000000"), Some(1_000_000_000_000_000_000));
    assert_eq!(
        parse_dec_u128("340282366920938463463374607431768211455"),
        Some(u128::MAX)
    );
}

#[test]
fn parse_decimal_rejects() {
    assert_eq!(parse_dec_u128(""), None);
    assert_eq!(parse_dec_u128("12a"), None);
    assert_eq!(parse_dec_u128("-1"), None);
    assert_eq!(parse_dec_u128(" 1"), None);
    // One above the range.
    assert_eq!(parse_dec_u128("340282366920938463463374607431768211456"), None);
}

#[test]
fn wide_products_compare_exactly() {
    assert!(prod_ge(2, 3, 5, 1));
    assert!(prod_ge(2, 3, 3, 2));
    assert!(!prod_ge(2, 3, 7, 1));
    // Both products overflow 128 bits and differ only in the low half.
    assert!(prod_ge(u128::MAX, u128::MAX, u128::MAX, u128::MAX));
    assert!(prod_ge(u128::MAX, u128::MAX, u128::MAX, u128::MAX - 1));
    assert!(!prod_ge(u128::MAX, u128::MAX - 1, u128::MAX, u128::MAX));
    // One side overflows, the other does not.
    assert!(prod_ge(u128::MAX, 2, u128::MAX, 1));
    assert!(!prod_ge(u128::MAX, 1, u128::MAX, 2));
}

#[test]
fn wide_mul_exact_halves() {
    assert_eq!(wide_mul(0, 12345), (0, 0));
    assert_eq!(wide_mul(1 << 64, 1 << 64), (1, 0));
    assert_eq!(wide_mul(u128::MAX, 1), (0, u128::MAX));
    // (2^128 - 1)^2 == 2^256 - 2^129 + 1.
    assert_eq!(wide_mul(u128::MAX, u128::MAX), (u128::MAX - 1, 1));
}

#[test]
fn relayer_mode_names() {
    assert_eq!(RelayerMode::from_str("AlwaysRelay"), Ok(RelayerMode::AlwaysRelay));
    assert_eq!(RelayerMode::from_str("Api"), Ok(RelayerMode::Api));
    assert_eq!(RelayerMode::from_str("File"), Ok(RelayerMode::File));
    assert_eq!(RelayerMode::from_str("file"), Err(()));
    assert_eq!(RelayerMode::from_str(""), Err(()));
}

#[test]
fn key_commands_read_their_name_argument() {
    let cmd = DeleteEthKeyCmd { args: vec![String::from("orchestrator")] };
    assert_eq!(cmd.key_name(), Some(&String::from("orchestrator")));
    let cmd = DeleteEthKeyCmd { args: Vec::new() };
    assert_eq!(cmd.key_name(), None);
    let cmd = AddCosmosKeyCmd { args: vec![String::from("validator")], overwrite: false };
    assert_eq!(cmd.key_name(), Some(&String::from("validator")));
    let cmd = ImportEthKeyCmd {
        args: vec![String::from("signer"), String::from("deadbeef")],
        overwrite: true,
    };
    assert_eq!(cmd.key_name(), Some(&String::from("signer")));
    assert_eq!(cmd.private_key_arg(), Some(&String::from("deadbeef")));
    let cmd = ImportEthKeyCmd { args: vec![String::from("signer")], overwrite: false };
    assert_eq!(cmd.private_key_arg(), None);
}
