//! Selecting and ordering candidate batches for one tick.
//!
//! The caller fetches the latest batches from the Cosmos module (newest
//! first), fetches each batch's signatures, and checks them against the
//! current valset; what arrives here is that list with a validity flag per
//! batch. The library then decides everything about the pass: which batches
//! form a token's group, in which order they are attempted (oldest first,
//! so an older submission cannot invalidate a younger candidate), and which
//! are dropped for having timed out or for carrying a nonce the Ethereum
//! contract has already passed.
//!
//! Groups and plans are index lists into the fetched vector, so the caller
//! keeps one copy of the batches and their signatures.

use crate::address::EthAddr;
use crate::types::FetchedBatch;
use vstd::prelude::*;

verus! {

/// One token's candidates: indices into the fetched list, oldest first.
#[derive(Clone, Debug)]
pub struct TokenGroup {
    pub token: EthAddr,
    pub order: Vec<usize>,
}

/// Whether some element of `v` is the address `a`.
fn contains_addr(v: &Vec<EthAddr>, a: &EthAddr) -> (r: bool)
    ensures
        r == exists|i: int| 0 <= i < v@.len() && v@[i] == *a,
{
    let mut i: usize = 0;
    while i < v.len()
        invariant
            0 <= i <= v.len(),
            forall|j: int| 0 <= j < i ==> v@[j] != *a,
        decreases v.len() - i,
    {
        if v[i] == *a {
            return true;
        }
        i = i + 1;
    }
    false
}

/// The distinct token contracts among the valid fetched batches.
#[verifier::rlimit(100)]
fn collect_tokens(fetched: &Vec<FetchedBatch>) -> (tokens: Vec<EthAddr>)
    ensures
        forall|t1: int, t2: int|
            0 <= t1 < t2 < tokens@.len() ==> (#[trigger] tokens@[t1]) != (#[trigger] tokens@[t2]),
        forall|k: int|
            0 <= k < fetched@.len() && (#[trigger] fetched@[k]).sigs_valid ==> exists|t: int|
                0 <= t < tokens@.len() && tokens@[t] == fetched@[k].batch.token_contract,
{
    let mut tokens: Vec<EthAddr> = Vec::new();
    let mut i: usize = 0;
    while i < fetched.len()
        invariant
            0 <= i <= fetched.len(),
            forall|t1: int, t2: int|
                0 <= t1 < t2 < tokens@.len() ==> (#[trigger] tokens@[t1]) != (
                #[trigger] tokens@[t2]),
            forall|k: int|
                0 <= k < i && (#[trigger] fetched@[k]).sigs_valid ==> exists|t: int|
                    0 <= t < tokens@.len() && tokens@[t] == fetched@[k].batch.token_contract,
        decreases fetched.len() - i,
    {
        let ghost pre_tokens = tokens@;
        if fetched[i].sigs_valid {
            let tok = fetched[i].batch.token_contract;
            if !contains_addr(&tokens, &tok) {
                tokens.push(tok);
            }
            proof {
                assert(tokens@[tokens@.len() - 1] == tok || exists|t: int|
                    0 <= t < tokens@.len() && tokens@[t] == tok);
            }
        }
        proof {
            assert forall|k: int|
                0 <= k < i + 1 && (#[trigger] fetched@[k]).sigs_valid implies exists|t: int|
                0 <= t < tokens@.len() && tokens@[t] == fetched@[k].batch.token_contract by {
                if k < i {
                    let t = choose|t: int|
                        0 <= t < pre_tokens.len() && pre_tokens[t] == fetched@[
                            k
                        ].batch.token_contract;
                    assert(tokens@[t] == fetched@[k].batch.token_contract);
                } else {
                    let t = choose|t: int|
                        0 <= t < tokens@.len() && tokens@[t] == fetched@[i as int
                        ].batch.token_contract;
                    assert(tokens@[t] == fetched@[k].batch.token_contract);
                }
            }
        }
        i = i + 1;
    }
    tokens
}

/// The valid fetched indices carrying a token, newest-first order reversed:
/// strictly decreasing indices, so the oldest candidate comes first.
#[verifier::rlimit(100)]
fn collect_token_order(fetched: &Vec<FetchedBatch>, tok: &EthAddr) -> (order: Vec<usize>)
    ensures
        forall|j: int|
            0 <= j < order@.len() ==> {
                let idx = #[trigger] order@[j];
                &&& idx < fetched@.len()
                &&& fetched@[idx as int].sigs_valid
                &&& fetched@[idx as int].batch.token_contract == *tok
            },
        forall|j1: int, j2: int|
            0 <= j1 < j2 < order@.len() ==> (#[trigger] order@[j1]) > (#[trigger] order@[j2]),
        forall|x: int|
            0 <= x < fetched@.len() && (#[trigger] fetched@[x]).sigs_valid && fetched@[
                x
            ].batch.token_contract == *tok ==> exists|j: int|
                0 <= j < order@.len() && order@[j] == x,
{
    let mut order: Vec<usize> = Vec::new();
    let mut k: usize = fetched.len();
    while k > 0
        invariant
            0 <= k <= fetched.len(),
            forall|j: int|
                0 <= j < order@.len() ==> {
                    let idx = #[trigger] order@[j];
                    &&& k <= idx < fetched@.len()
                    &&& fetched@[idx as int].sigs_valid
                    &&& fetched@[idx as int].batch.token_contract == *tok
                },
            forall|j1: int, j2: int|
                0 <= j1 < j2 < order@.len() ==> (#[trigger] order@[j1]) > (#[trigger] order@[j2]),
            forall|x: int|
                k <= x < fetched@.len() && (#[trigger] fetched@[x]).sigs_valid && fetched@[
                    x
                ].batch.token_contract == *tok ==> exists|j: int|
                    0 <= j < order@.len() && order@[j] == x,
        decreases k,
    {
        k = k - 1;
        let ghost pre_order = order@;
        if fetched[k].sigs_valid && fetched[k].batch.token_contract == *tok {
            order.push(k);
        }
        proof {
            assert forall|x: int|
                k <= x < fetched@.len() && (#[trigger] fetched@[x]).sigs_valid && fetched@[
                    x
                ].batch.token_contract == *tok implies exists|j: int|
                0 <= j < order@.len() && order@[j] == x by {
                if x > k {
                    let j = choose|j: int| 0 <= j < pre_order.len() && pre_order[j] == x;
                    assert(order@[j] == x);
                } else {
                    assert(order@[order@.len() - 1] == x);
                }
            }
        }
    }
    order
}

/// Groups the valid fetched batches by token contract and orders each
/// group oldest first by reversing the fetched (newest-first) order:
/// within a group the indices are strictly decreasing. Every valid batch
/// lands in exactly the group of its token; invalid ones land nowhere.
#[verifier::rlimit(100)]
pub fn group_batches(fetched: &Vec<FetchedBatch>) -> (groups: Vec<TokenGroup>)
    ensures
        forall|g1: int, g2: int|
            0 <= g1 < g2 < groups@.len() ==> (#[trigger] groups@[g1]).token != (
            #[trigger] groups@[g2]).token,
        forall|g: int, j: int|
            0 <= g < groups@.len() && 0 <= j < (#[trigger] groups@[g]).order@.len() ==> {
                let idx = #[trigger] groups@[g].order@[j];
                &&& idx < fetched@.len()
                &&& fetched@[idx as int].sigs_valid
                &&& fetched@[idx as int].batch.token_contract == groups@[g].token
            },
        forall|g: int, j1: int, j2: int|
            0 <= g < groups@.len() && 0 <= j1 < j2 < (#[trigger] groups@[g]).order@.len() ==> (
            #[trigger] groups@[g].order@[j1]) > (#[trigger] groups@[g].order@[j2]),
        forall|i: int|
            0 <= i < fetched@.len() && (#[trigger] fetched@[i]).sigs_valid ==> exists|g: int|
                0 <= g < groups@.len() && (#[trigger] groups@[g]).token == fetched@[
                    i
                ].batch.token_contract,
        forall|i: int, g: int|
            0 <= i < fetched@.len() && (#[trigger] fetched@[i]).sigs_valid && 0 <= g
                < groups@.len() && (#[trigger] groups@[g]).token == fetched@[
                i
            ].batch.token_contract ==> exists|j: int|
                0 <= j < groups@[g].order@.len() && groups@[g].order@[j] == i,
{
    let tokens = collect_tokens(fetched);
    let mut groups: Vec<TokenGroup> = Vec::new();
    let mut t: usize = 0;
    while t < tokens.len()
        invariant
            0 <= t <= tokens.len(),
            groups@.len() == t,
            forall|t1: int, t2: int|
                0 <= t1 < t2 < tokens@.len() ==> (#[trigger] tokens@[t1]) != (
                #[trigger] tokens@[t2]),
            forall|k: int|
                0 <= k < fetched@.len() && (#[trigger] fetched@[k]).sigs_valid ==> exists|x: int|
                    0 <= x < tokens@.len() && tokens@[x] == fetched@[k].batch.token_contract,
            forall|g: int| 0 <= g < t ==> (#[trigger] groups@[g]).token == tokens@[g],
            forall|g: int, j: int|
                0 <= g < t && 0 <= j < (#[trigger] groups@[g]).order@.len() ==> {
                    let idx = #[trigger] groups@[g].order@[j];
                    &&& idx < fetched@.len()
                    &&& fetched@[idx as int].sigs_valid
                    &&& fetched@[idx as int].batch.token_contract == groups@[g].token
                },
            forall|g: int, j1: int, j2: int|
                0 <= g < t && 0 <= j1 < j2 < (#[trigger] groups@[g]).order@.len() ==> (
                #[trigger] groups@[g].order@[j1]) > (#[trigger] groups@[g].order@[j2]),
            forall|k: int, g: int|
                0 <= k < fetched@.len() && (#[trigger] fetched@[k]).sigs_valid && 0 <= g < t && (
                #[trigger] groups@[g]).token == fetched@[k].batch.token_contract ==> exists|j: int|
                    0 <= j < groups@[g].order@.len() && groups@[g].order@[j] == k,
        decreases tokens.len() - t,
    {
        let tok = tokens[t];
        let order = collect_token_order(fetched, &tok);
        let ghost full_order = order@;
        let ghost pre_groups = groups@;
        groups.push(TokenGroup { token: tok, order });
        proof {
            assert(groups@[t as int].order@ == full_order);
            assert(forall|g: int| 0 <= g < t ==> groups@[g] == pre_groups[g]);
            assert forall|k2: int, g: int|
                0 <= k2 < fetched@.len() && (#[trigger] fetched@[k2]).sigs_valid && 0 <= g < t + 1
                    && (#[trigger] groups@[g]).token == fetched@[k2].batch.token_contract implies
                exists|j: int| 0 <= j < groups@[g].order@.len() && groups@[g].order@[j] == k2 by {
                if g < t {
                    let j = choose|j: int|
                        0 <= j < pre_groups[g].order@.len() && pre_groups[g].order@[j] == k2;
                    assert(groups@[g].order@[j] == k2);
                } else {
                    let j = choose|j: int| 0 <= j < full_order.len() && full_order[j] == k2;
                    assert(groups@[g].order@[j] == k2);
                }
            }
        }
        t = t + 1;
    }
    proof {
        assert forall|i: int|
            0 <= i < fetched@.len() && (#[trigger] fetched@[i]).sigs_valid implies exists|g: int|
            0 <= g < groups@.len() && (#[trigger] groups@[g]).token == fetched@[
                i
            ].batch.token_contract by {
            let x = choose|x: int|
                0 <= x < tokens@.len() && tokens@[x] == fetched@[i].batch.token_contract;
            assert(groups@[x].token == fetched@[i].batch.token_contract);
        }
    }
    groups
}

/// A candidate passes this tick's screen when its timeout lies strictly
/// above the current Ethereum block height and its nonce strictly above
/// the token's latest nonce in the Ethereum contract.
pub open spec fn spec_submittable(
    fetched: Seq<FetchedBatch>,
    idx: int,
    latest_eth_nonce: u64,
    block_height: u64,
) -> bool {
    fetched[idx].batch.batch_timeout > block_height && fetched[idx].batch.nonce > latest_eth_nonce
}

/// The indices of `order` that pass the screen, kept in order.
pub open spec fn spec_plan(
    fetched: Seq<FetchedBatch>,
    order: Seq<usize>,
    latest_eth_nonce: u64,
    block_height: u64,
) -> Seq<usize>
    decreases order.len(),
{
    if order.len() == 0 {
        Seq::empty()
    } else {
        let rest = spec_plan(fetched, order.drop_last(), latest_eth_nonce, block_height);
        if spec_submittable(fetched, order.last() as int, latest_eth_nonce, block_height) {
            rest.push(order.last())
        } else {
            rest
        }
    }
}

/// Screens one token group against the chain state read this tick: keeps,
/// in their oldest-first order, exactly the candidates that have neither
/// timed out nor been overtaken by the contract's nonce.
pub fn plan_token_pass(
    fetched: &Vec<FetchedBatch>,
    order: &Vec<usize>,
    latest_eth_nonce: u64,
    block_height: u64,
) -> (plan: Vec<usize>)
    requires
        forall|j: int| 0 <= j < order@.len() ==> (#[trigger] order@[j]) < fetched@.len(),
    ensures
        plan@ == spec_plan(fetched@, order@, latest_eth_nonce, block_height),
{
    let mut plan: Vec<usize> = Vec::new();
    let mut j: usize = 0;
    while j < order.len()
        invariant
            0 <= j <= order.len(),
            forall|x: int| 0 <= x < order@.len() ==> (#[trigger] order@[x]) < fetched@.len(),
            plan@ == spec_plan(
                fetched@,
                order@.subrange(0, j as int),
                latest_eth_nonce,
                block_height,
            ),
        decreases order.len() - j,
    {
        proof {
            let pre = order@.subrange(0, j as int);
            let post = order@.subrange(0, j as int + 1);
            assert(post.drop_last() =~= pre);
            assert(post.last() == order@[j as int]);
        }
        let idx = order[j];
        let b = &fetched[idx];
        if b.batch.batch_timeout > block_height && b.batch.nonce > latest_eth_nonce {
            plan.push(idx);
        }
        j = j + 1;
    }
    proof {
        assert(order@.subrange(0, order@.len() as int) =~= order@);
    }
    plan
}

/// Everything a plan promises about what it keeps: each kept index stems
/// from the screened group, passes the nonce check (the submitter never
/// attempts a batch whose nonce the contract has passed) and the timeout
/// check (no batch is attempted at or past its timeout height).
pub proof fn lemma_plan_screens(
    fetched: Seq<FetchedBatch>,
    order: Seq<usize>,
    latest_eth_nonce: u64,
    block_height: u64,
)
    ensures
        forall|p: int|
            0 <= p < spec_plan(fetched, order, latest_eth_nonce, block_height).len() ==> {
                let idx = #[trigger] spec_plan(fetched, order, latest_eth_nonce, block_height)[p];
                &&& (exists|j: int| 0 <= j < order.len() && order[j] == idx)
                &&& fetched[idx as int].batch.nonce > latest_eth_nonce
                &&& fetched[idx as int].batch.batch_timeout > block_height
            },
    decreases order.len(),
{
    if order.len() > 0 {
        lemma_plan_screens(fetched, order.drop_last(), latest_eth_nonce, block_height);
        let plan = spec_plan(fetched, order, latest_eth_nonce, block_height);
        let rest = spec_plan(fetched, order.drop_last(), latest_eth_nonce, block_height);
        assert forall|p: int| 0 <= p < plan.len() implies {
            let idx = #[trigger] plan[p];
            &&& (exists|j: int| 0 <= j < order.len() && order[j] == idx)
            &&& fetched[idx as int].batch.nonce > latest_eth_nonce
            &&& fetched[idx as int].batch.batch_timeout > block_height
        } by {
            if p < rest.len() {
                assert(plan[p] == rest[p]);
                let j = choose|j: int| 0 <= j < order.drop_last().len() && order.drop_last()[j]
                    == rest[p];
                assert(order[j] == rest[p]);
            } else {
                assert(plan[p] == order.last());
                assert(order[order.len() - 1] == order.last());
            }
        }
    }
}

/// A group walks its token's batches oldest first: when the fetched list
/// comes newest first (per-token nonces non-increasing with the index),
/// the strictly decreasing indices of a group read off non-decreasing
/// nonces.
pub proof fn lemma_group_order_oldest_first(
    fetched: Seq<FetchedBatch>,
    token: EthAddr,
    order: Seq<usize>,
)
    requires
        forall|i1: int, i2: int|
            0 <= i1 < i2 < fetched.len() && fetched[i1].batch.token_contract == token && (
            #[trigger] fetched[i2]).batch.token_contract == token ==> (
            #[trigger] fetched[i1]).batch.nonce >= fetched[i2].batch.nonce,
        forall|j: int|
            0 <= j < order.len() ==> (#[trigger] order[j]) < fetched.len() && fetched[
                order[j] as int
            ].batch.token_contract == token,
        forall|j1: int, j2: int|
            0 <= j1 < j2 < order.len() ==> (#[trigger] order[j1]) > (#[trigger] order[j2]),
    ensures
        forall|j1: int, j2: int|
            0 <= j1 < j2 < order.len() ==> fetched[(#[trigger] order[j1]) as int].batch.nonce
                <= fetched[(#[trigger] order[j2]) as int].batch.nonce,
{
    assert forall|j1: int, j2: int| 0 <= j1 < j2 < order.len() implies fetched[(
    #[trigger] order[j1]) as int].batch.nonce <= fetched[(#[trigger] order[j2]) as int].batch.nonce
        by {
        assert(order[j1] > order[j2]);
        assert(fetched[order[j2] as int].batch.nonce >= fetched[order[j1] as int].batch.nonce);
    }
}

/// Within one tick and token, the planned sequence is attempted oldest
/// first: when the group's nonces are non-decreasing along its order, so
/// are the nonces along the plan.
pub proof fn lemma_plan_oldest_first(
    fetched: Seq<FetchedBatch>,
    order: Seq<usize>,
    latest_eth_nonce: u64,
    block_height: u64,
)
    requires
        forall|j1: int, j2: int|
            0 <= j1 < j2 < order.len() ==> fetched[(#[trigger] order[j1]) as int].batch.nonce
                <= fetched[(#[trigger] order[j2]) as int].batch.nonce,
    ensures
        forall|p: int|
            0 <= p < spec_plan(fetched, order, latest_eth_nonce, block_height).len() ==> exists|
                j: int,
            |
                0 <= j < order.len() && order[j] == (#[trigger] spec_plan(
                    fetched,
                    order,
                    latest_eth_nonce,
                    block_height,
                )[p]),
        forall|p1: int, p2: int|
            0 <= p1 < p2 < spec_plan(fetched, order, latest_eth_nonce, block_height).len()
                ==> fetched[(#[trigger] spec_plan(fetched, order, latest_eth_nonce, block_height)[
                p1]) as int].batch.nonce <= fetched[(#[trigger] spec_plan(
                fetched,
                order,
                latest_eth_nonce,
                block_height,
            )[p2]) as int].batch.nonce,
    decreases order.len(),
{
    if order.len() > 0 {
        assert forall|j1: int, j2: int| 0 <= j1 < j2 < order.drop_last().len() implies fetched[(
        #[trigger] order.drop_last()[j1]) as int].batch.nonce <= fetched[(#[trigger] order.drop_last()[
        j2]) as int].batch.nonce by {
            assert(order.drop_last()[j1] == order[j1] && order.drop_last()[j2] == order[j2]);
        }
        lemma_plan_oldest_first(fetched, order.drop_last(), latest_eth_nonce, block_height);
        let plan = spec_plan(fetched, order, latest_eth_nonce, block_height);
        let rest = spec_plan(fetched, order.drop_last(), latest_eth_nonce, block_height);
        assert forall|p: int| 0 <= p < plan.len() implies exists|j: int|
            0 <= j < order.len() && order[j] == (#[trigger] plan[p]) by {
            if p < rest.len() {
                assert(plan[p] == rest[p]);
                let j = choose|j: int| 0 <= j < order.drop_last().len() && order.drop_last()[j]
                    == rest[p];
                assert(order[j] == rest[p]);
            } else {
                assert(plan[p] == order.last());
                assert(order[order.len() - 1] == order.last());
            }
        }
        assert forall|p1: int, p2: int| 0 <= p1 < p2 < plan.len() implies fetched[(#[trigger] plan[
        p1]) as int].batch.nonce <= fetched[(#[trigger] plan[p2]) as int].batch.nonce by {
            if p2 < rest.len() {
                assert(plan[p1] == rest[p1] && plan[p2] == rest[p2]);
            } else if p2 == rest.len() && plan.len() == rest.len() + 1 {
                assert(plan[p2] == order.last());
                assert(plan[p1] == rest[p1]);
                let j = choose|j: int| 0 <= j < order.drop_last().len() && order.drop_last()[j]
                    == rest[p1];
                assert(order[j] == rest[p1]);
                assert(fetched[order[j] as int].batch.nonce <= fetched[order[order.len() - 1] as int].batch.nonce);
            }
        }
    }
}

} // verus!
