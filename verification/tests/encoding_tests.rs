use relayer::address::parse_eth_address;
use relayer::encoding::format_eth_address;
use relayer::encoding::oracle_request_body;
use relayer::types::Erc20Token;
use relayer::types::GasCost;

#[test]
fn format_address_lowercase_round_trip() {
    let literal = "0x00112233445566778899AABBCCDDEEFF00112233";
    let a = parse_eth_address(literal).expect("literal");
    let formatted = format_eth_address(&a);
    assert_eq!(formatted, literal.to_lowercase());
    assert_eq!(parse_eth_address(&formatted), Some(a));
}

#[test]
fn format_address_pads_with_zeros() {
    let a = parse_eth_address("0x0000000000000000000000000000000000000001").expect("literal");
    assert_eq!(
        format_eth_address(&a),
        "0x0000000000000000000000000000000000000001"
    );
}

#[test]
fn oracle_request_body_shape() {
    let token = parse_eth_address("0x00112233445566778899aabbccddeeff00112233").expect("literal");
    let fee = Erc20Token { amount: 42, token_contract_address: token };
    let cost = GasCost { gas: 100000, gas_price: 7 };
    let body = oracle_request_body(&fee, &cost);
    assert_eq!(
        body,
        "{\"batchFee\":{\"amount\":42,\"tokenContractAddress\":\
         \"0x00112233445566778899aabbccddeeff00112233\"},\
         \"estimatedCost\":{\"gas\":100000,\"gasPrice\":7}}"
    );
    // The body decodes as the JSON object the oracle reads.
    let parsed: serde_json::Value = serde_json::from_str(&body).expect("json");
    assert_eq!(parsed["batchFee"]["amount"], 42);
    assert_eq!(parsed["estimatedCost"]["gasPrice"], 7);
}
