use relayer::address::parse_eth_address;
use relayer::batch_relaying::{group_batches, plan_token_pass};
use relayer::config::RelayerMode;
use relayer::fee_manager::FeeManager;
use relayer::types::{Erc20Token, FetchedBatch, GasCost, TransactionBatch};

// One full tick for one token, in file mode: select, screen, price, decide,
// submit, re-arm.
#[test]
fn file_mode_tick_end_to_end() {
    let token_hex = "0xaaaaaaaaaaaaaaaaaaaaaaaaaaaaaaaaaaaaaaaa";
    let token = parse_eth_address(token_hex).expect("address literal");
    let doc = format!("{{\"{}\":\"1000000000000000000\"}}", token_hex);
    let mut fm =
        FeeManager::new_fee_manager(RelayerMode::File, 3600, String::new(), &doc).expect("init");

    // The one pending batch: nonce 5, alive until block 100.
    let fetched = vec![FetchedBatch {
        batch: TransactionBatch {
            nonce: 5,
            token_contract: token,
            batch_timeout: 100,
            total_fee: Erc20Token { amount: 2, token_contract_address: token },
        },
        sigs: Vec::new(),
        sigs_valid: true,
    }];
    let groups = group_batches(&fetched);
    assert_eq!(groups.len(), 1);

    // The contract sits at nonce 4 and block 50: the batch passes the screen.
    let plan = plan_token_pass(&fetched, &groups[0].order, 4, 50);
    assert_eq!(plan, vec![0]);

    // 2 * 1e18 comfortably covers 100000 wei: submitted.
    let cost = GasCost { gas: 100000, gas_price: 1 };
    let candidate = &fetched[plan[0]];
    assert!(fm.can_send_batch(&cost, &candidate.batch.total_fee, &token, 1000, None));

    // The successful submission re-arms the cooldown to 1000 + 3600; an
    // unprofitable follow-up must now wait for it.
    fm.update_next_batch_send_time(token, 1000);
    let dear = GasCost { gas: u128::MAX, gas_price: u128::MAX };
    assert!(!fm.can_send_batch(&dear, &candidate.batch.total_fee, &token, 4600, None));
    assert!(fm.can_send_batch(&dear, &candidate.batch.total_fee, &token, 4601, None));
}
