use relayer::address::parse_eth_address;
use relayer::address::EthAddr;
use relayer::config::RelayerMode;
use relayer::error::GravityError;
use relayer::fee_manager::FeeManager;
use relayer::types::Erc20Token;
use relayer::types::GasCost;

fn addr(s: &str) -> EthAddr {
    parse_eth_address(s).expect("address literal")
}

fn token_a() -> String {
    let mut s = String::from("0x");
    for _ in 0..20 {
        s.push_str("aa");
    }
    s
}

fn token_b() -> String {
    let mut s = String::from("0x");
    for _ in 0..20 {
        s.push_str("bb");
    }
    s
}

fn file_manager(price: &str) -> FeeManager {
    let doc = format!("{{\"{}\":\"{}\"}}", token_a(), price);
    FeeManager::new_fee_manager(RelayerMode::File, 3600, String::new(), &doc).expect("init")
}

fn fee(amount: u128) -> Erc20Token {
    Erc20Token { amount, token_contract_address: addr(&token_a()) }
}

fn cost(gas: u128, gas_price: u128) -> GasCost {
    GasCost { gas, gas_price }
}

#[test]
fn profitable_file_mode_submission() {
    // An amount of 2 at a price of 1e18 easily covers 100000 wei of gas.
    let mut fm = file_manager("1000000000000000000");
    let tok = addr(&token_a());
    assert!(fm.can_send_batch(&cost(100000, 1), &fee(2), &tok, 1000, None));
    fm.update_next_batch_send_time(tok, 1000);
    // The refreshed cooldown is now + 3600: not elapsed a second later.
    assert!(fm.can_send_batch(&cost(100000, 1), &fee(2), &tok, 1001, None));
}

#[test]
fn unprofitable_not_elapsed() {
    // Batch value 2 * 1 = 2 < 100000: skipped, and the first inquiry only
    // arms the cooldown instead of electing the batch.
    let mut fm = file_manager("1");
    let tok = addr(&token_a());
    assert!(!fm.can_send_batch(&cost(100000, 1), &fee(2), &tok, 1000, None));
    assert!(!fm.can_send_batch(&cost(100000, 1), &fee(2), &tok, 1001, None));
}

#[test]
fn unprofitable_cooldown_elapsed() {
    let mut fm = file_manager("1");
    let tok = addr(&token_a());
    // Arms the cooldown: deadline 1000 + 3600.
    assert!(!fm.can_send_batch(&cost(100000, 1), &fee(2), &tok, 1000, None));
    // Still within the window.
    assert!(!fm.can_send_batch(&cost(100000, 1), &fee(2), &tok, 4600, None));
    // Past the deadline the batch is sent despite the loss.
    assert!(fm.can_send_batch(&cost(100000, 1), &fee(2), &tok, 4601, None));
}

#[test]
fn cooldown_refresh_moves_deadline_forward() {
    let mut fm = file_manager("1");
    let tok = addr(&token_a());
    assert!(!fm.can_send_batch(&cost(100000, 1), &fee(2), &tok, 1000, None));
    // A successful submission at a later instant re-arms the cooldown
    // further out: 2000 + 3600.
    fm.update_next_batch_send_time(tok, 2000);
    assert!(!fm.can_send_batch(&cost(100000, 1), &fee(2), &tok, 5600, None));
    assert!(fm.can_send_batch(&cost(100000, 1), &fee(2), &tok, 5601, None));
}

#[test]
fn unpriced_token_not_sent() {
    let mut fm = file_manager("1000000000000000000");
    let other = addr(&token_b());
    let unpriced = Erc20Token { amount: 2, token_contract_address: other };
    assert!(!fm.can_send_batch(&cost(100000, 1), &unpriced, &other, 1000, None));
}

#[test]
fn api_blacklist_never_sent() {
    let mut fm =
        FeeManager::new_fee_manager(RelayerMode::Api, 3600, String::from("http://oracle"), "")
            .expect("init");
    let tok = addr(&token_a());
    let answer = "{\"profitable\":true,\"in_blacklist\":true}";
    assert!(!fm.can_send_batch(&cost(100000, 1), &fee(2), &tok, 1000, Some(answer)));
}

#[test]
fn api_profitable_sent() {
    let mut fm =
        FeeManager::new_fee_manager(RelayerMode::Api, 3600, String::from("http://oracle"), "")
            .expect("init");
    let tok = addr(&token_a());
    let answer = "{\"profitable\":true,\"in_blacklist\":false}";
    assert!(fm.can_send_batch(&cost(100000, 1), &fee(2), &tok, 1000, Some(answer)));
}

#[test]
fn api_unprofitable_waits_for_cooldown() {
    let mut fm =
        FeeManager::new_fee_manager(RelayerMode::Api, 3600, String::from("http://oracle"), "")
            .expect("init");
    let tok = addr(&token_a());
    let answer = "{\"profitable\":false,\"in_blacklist\":false}";
    // First inquiry arms the cooldown and declines.
    assert!(!fm.can_send_batch(&cost(100000, 1), &fee(2), &tok, 1000, Some(answer)));
    // Once elapsed, the unprofitable batch goes anyway.
    assert!(fm.can_send_batch(&cost(100000, 1), &fee(2), &tok, 4601, Some(answer)));
}

#[test]
fn api_oracle_failure_means_no() {
    let mut fm =
        FeeManager::new_fee_manager(RelayerMode::Api, 3600, String::from("http://oracle"), "")
            .expect("init");
    let tok = addr(&token_a());
    assert!(!fm.can_send_batch(&cost(100000, 1), &fee(2), &tok, 1000, None));
    assert!(!fm.can_send_batch(&cost(100000, 1), &fee(2), &tok, 1000, Some("not json")));
    assert!(!fm.can_send_batch(&cost(100000, 1), &fee(2), &tok, 1000, Some("{\"profitable\":true}")));
}

#[test]
fn always_relay_ignores_everything() {
    // No price table, no oracle, an unpriced token, time zero: still true.
    let mut fm =
        FeeManager::new_fee_manager(RelayerMode::AlwaysRelay, 3600, String::new(), "").expect("init");
    let tok = addr(&token_b());
    let unpriced = Erc20Token { amount: 0, token_contract_address: tok };
    assert!(fm.can_send_batch(&cost(u128::MAX, u128::MAX), &unpriced, &tok, 0, None));
    assert!(fm.can_send_batch(&cost(u128::MAX, u128::MAX), &unpriced, &tok, 0, Some("garbage")));
}

#[test]
fn address_normalization_same_decision() {
    // The same address spelled upper- and lower-case keys the same entry.
    let upper = token_a().to_uppercase().replace("0X", "0x");
    let doc = format!("{{\"{}\":\"1000000000000000000\"}}", upper);
    let mut fm =
        FeeManager::new_fee_manager(RelayerMode::File, 3600, String::new(), &doc).expect("init");
    let lower_tok = addr(&token_a());
    let upper_tok = addr(&upper);
    assert_eq!(lower_tok, upper_tok);
    assert!(fm.can_send_batch(&cost(100000, 1), &fee(2), &lower_tok, 1000, None));
    assert!(fm.can_send_batch(&cost(100000, 1), &fee(2), &upper_tok, 1000, None));
}

#[test]
fn init_rejects_malformed_document() {
    let r = FeeManager::new_fee_manager(RelayerMode::File, 3600, String::new(), "not json");
    assert!(matches!(r, Err(GravityError::InvalidPriceDocument)));
    let r = FeeManager::new_fee_manager(RelayerMode::File, 3600, String::new(), "{\"a\": 3}");
    assert!(matches!(r, Err(GravityError::InvalidPriceDocument)));
}

#[test]
fn init_rejects_malformed_price() {
    let doc = format!("{{\"{}\":\"12x4\"}}", token_a());
    let r = FeeManager::new_fee_manager(RelayerMode::File, 3600, String::new(), &doc);
    assert!(matches!(r, Err(GravityError::InvalidPriceValue)));
}

#[test]
fn init_ignores_unknown_keys() {
    // A key that is no address literal is ignored, whatever its value.
    let doc = format!("{{\"note\":\"hello\",\"{}\":\"7\"}}", token_a());
    let fm = FeeManager::new_fee_manager(RelayerMode::File, 3600, String::new(), &doc)
        .expect("init");
    assert_eq!(fm.get_token_price(&addr(&token_a())), Ok(7));
}

#[test]
fn get_token_price_found_and_missing() {
    let fm = file_manager("123456789");
    assert_eq!(fm.get_token_price(&addr(&token_a())), Ok(123456789));
    assert_eq!(
        fm.get_token_price(&addr(&token_b())),
        Err(GravityError::TokenPriceNotFound)
    );
}

#[test]
fn error_descriptions() {
    assert_eq!(
        GravityError::TokenPriceNotFound.describe(),
        "cannot find token price in map"
    );
    assert_eq!(
        GravityError::InvalidPriceValue.describe(),
        "token price is not a decimal integer in range"
    );
}
