use relayer::address::parse_eth_address;
use relayer::address::EthAddr;
use relayer::batch_relaying::group_batches;
use relayer::batch_relaying::plan_token_pass;
use relayer::types::Erc20Token;
use relayer::types::FetchedBatch;
use relayer::types::TransactionBatch;

fn addr(last: &str) -> EthAddr {
    let mut s = String::from("0x");
    for _ in 0..20 {
        s.push_str(last);
    }
    parse_eth_address(&s).expect("address literal")
}

fn fetched(token: EthAddr, nonce: u64, batch_timeout: u64, sigs_valid: bool) -> FetchedBatch {
    FetchedBatch {
        batch: TransactionBatch {
            nonce,
            token_contract: token,
            batch_timeout,
            total_fee: Erc20Token { amount: 1, token_contract_address: token },
        },
        sigs: Vec::new(),
        sigs_valid,
    }
}

#[test]
fn groups_by_token_oldest_first() {
    let a = addr("aa");
    let b = addr("bb");
    // Newest first, as the Cosmos module hands them out.
    let list = vec![
        fetched(a, 9, 100, true),
        fetched(b, 8, 100, true),
        fetched(a, 7, 100, true),
        fetched(a, 6, 100, false),
    ];
    let groups = group_batches(&list);
    assert_eq!(groups.len(), 2);
    assert_eq!(groups[0].token, a);
    // Oldest first: the reversed fetched order, without the invalid batch.
    assert_eq!(groups[0].order, vec![2, 0]);
    assert_eq!(groups[1].token, b);
    assert_eq!(groups[1].order, vec![1]);
}

#[test]
fn empty_fetch_is_a_no_op() {
    let groups = group_batches(&Vec::new());
    assert_eq!(groups.len(), 0);
}

#[test]
fn all_invalid_batches_land_nowhere() {
    let a = addr("aa");
    let list = vec![fetched(a, 9, 100, false), fetched(a, 8, 100, false)];
    let groups = group_batches(&list);
    assert_eq!(groups.len(), 0);
}

#[test]
fn plan_drops_timed_out_batches() {
    let a = addr("aa");
    // Timeout 40 at block height 50: timed out, dropped.
    let list = vec![fetched(a, 5, 40, true)];
    let groups = group_batches(&list);
    let plan = plan_token_pass(&list, &groups[0].order, 4, 50);
    assert_eq!(plan, Vec::<usize>::new());
}

#[test]
fn plan_keeps_live_batches() {
    let a = addr("aa");
    // Timeout 100 at block 50, nonce 5 above the contract's 4: kept.
    let list = vec![fetched(a, 5, 100, true)];
    let groups = group_batches(&list);
    let plan = plan_token_pass(&list, &groups[0].order, 4, 50);
    assert_eq!(plan, vec![0]);
}

#[test]
fn plan_drops_passed_nonces() {
    let a = addr("aa");
    // The contract has already reached nonce 7: batch nonce 5 is dropped.
    let list = vec![fetched(a, 5, 100, true)];
    let groups = group_batches(&list);
    let plan = plan_token_pass(&list, &groups[0].order, 7, 50);
    assert_eq!(plan, Vec::<usize>::new());
    // A nonce equal to the contract's is dropped too.
    let plan = plan_token_pass(&list, &groups[0].order, 5, 50);
    assert_eq!(plan, Vec::<usize>::new());
}

#[test]
fn plan_attempts_oldest_first() {
    let a = addr("aa");
    // Nonces 9, 7, 5 newest first; contract at 5; all live.
    let list = vec![fetched(a, 9, 100, true), fetched(a, 7, 100, true), fetched(a, 5, 100, true)];
    let groups = group_batches(&list);
    assert_eq!(groups[0].order, vec![2, 1, 0]);
    let plan = plan_token_pass(&list, &groups[0].order, 5, 50);
    // The batch at nonce 5 is dropped; the rest run oldest first.
    assert_eq!(plan, vec![1, 0]);
    let nonces: Vec<u64> = plan.iter().map(|&i| list[i].batch.nonce).collect();
    assert_eq!(nonces, vec![7, 9]);
}

