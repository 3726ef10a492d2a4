//! The fee manager: decides whether a batch is economically worth
//! submitting now, and meters per-token retries.
//!
//! The decision combines three modes. `AlwaysRelay` sends unconditionally
//! and keeps no state. `File` compares the batch's fee, valued through a
//! token-price table loaded at start-up, against the estimated gas cost —
//! unless the token's cooldown has elapsed, in which case one batch is sent
//! even at a loss so no token starves. `Api` defers the profitability call
//! to a remote oracle and applies the same cooldown override.
//!
//! Time enters as a plain monotonic instant (`now`, in seconds) and the
//! oracle's answer as the response text the caller fetched, so every
//! decision here is a function of its arguments and is verified as such.

use crate::addr_map::AddrMap;
use crate::address::EthAddr;
use crate::address::spec_parse_addr;
use crate::arith::dec_value;
use crate::arith::is_dec_literal;
use crate::arith::prod_ge;
use crate::config::RelayerMode;
use crate::error::GravityError;
use crate::types::Erc20Token;
use crate::types::GasCost;
use crate::types::OracleVerdict;
use vstd::prelude::*;

verus! {

use vstd::string::StringSliceAdditionalSpecFns;
use vstd::utf8::encode_utf8;

/// What the token-price document denotes: the JSON object's entries, when
/// the text is a JSON object whose values are all strings; nothing
/// otherwise. Named here because only the JSON parser defines it.
pub uninterp spec fn price_doc_of(s: Seq<char>) -> Option<Map<Seq<char>, Seq<char>>>;

/// Relies on `serde_json::from_str::<HashMap<String, String>>`: succeeds
/// exactly when the text is a JSON object with string values, and yields
/// that object's entries, each key once, in no promised order.
#[verifier::external_body]
fn parse_price_object(s: &str) -> (r: Option<Vec<(String, String)>>)
    ensures
        r is Some <==> price_doc_of(s@) is Some,
        r is Some ==> (forall|i: int|
            0 <= i < r->0@.len() ==> (#[trigger] price_doc_of(s@)->0.contains_pair(
                r->0@[i].0@,
                r->0@[i].1@,
            ))),
        r is Some ==> (forall|i: int, j: int|
            0 <= i < j < r->0@.len() ==> (#[trigger] r->0@[i]).0@ != (#[trigger] r->0@[j]).0@),
        r is Some ==> (forall|k: Seq<char>|
            #[trigger] price_doc_of(s@)->0.contains_key(k) ==> exists|i: int|
                0 <= i < r->0@.len() && (#[trigger] r->0@[i]).0@ == k),
{
    match serde_json::from_str::<std::collections::HashMap<String, String>>(s) {
        Ok(m) => Some(m.into_iter().collect()),
        Err(_) => None,
    }
}

/// What the oracle's response text denotes: the `profitable` and
/// `in_blacklist` fields, when the text is a JSON object holding both as
/// booleans; nothing otherwise. Named here because only the JSON parser
/// defines it.
pub uninterp spec fn verdict_of(s: Seq<char>) -> Option<OracleVerdict>;

/// Relies on `serde_json::from_str::<Value>`, `Value::get` and
/// `Value::as_bool`: reads the two boolean fields of the oracle's JSON
/// answer, refusing anything that lacks either.
#[verifier::external_body]
fn parse_oracle_verdict(s: &str) -> (r: Option<OracleVerdict>)
    ensures
        r == verdict_of(s@),
{
    let v: serde_json::Value = match serde_json::from_str(s) {
        Ok(v) => v,
        Err(_) => return None,
    };
    let profitable = match v.get("profitable").and_then(serde_json::Value::as_bool) {
        Some(b) => b,
        None => return None,
    };
    let in_blacklist = match v.get("in_blacklist").and_then(serde_json::Value::as_bool) {
        Some(b) => b,
        None => return None,
    };
    Some(OracleVerdict { profitable, in_blacklist })
}

/// The view of an optional response text.
pub open spec fn view_opt_str(o: Option<&str>) -> Option<Seq<char>> {
    match o {
        None => None,
        Some(t) => Some(t@),
    }
}

/// The address a price-table key denotes, if it is an address literal.
pub open spec fn key_addr(k: Seq<char>) -> Option<EthAddr> {
    spec_parse_addr(encode_utf8(k))
}

/// The price a price-table value denotes, if it is a decimal literal in
/// range.
pub open spec fn val_price(v: Seq<char>) -> Option<u128> {
    if is_dec_literal(encode_utf8(v)) && dec_value(encode_utf8(v)) <= u128::MAX {
        Some(dec_value(encode_utf8(v)) as u128)
    } else {
        None
    }
}

/// The price table a sequence of entries builds: keys that are no address
/// literal are ignored; a recognized key whose value is no decimal literal
/// in range fails the build; a key bound twice keeps the later binding.
pub open spec fn spec_build_table(s: Seq<(String, String)>) -> Result<
    Map<EthAddr, u128>,
    GravityError,
>
    decreases s.len(),
{
    if s.len() == 0 {
        Ok(Map::empty())
    } else {
        match spec_build_table(s.drop_last()) {
            Err(e) => Err(e),
            Ok(m) => match key_addr(s.last().0@) {
                None => Ok(m),
                Some(a) => match val_price(s.last().1@) {
                    None => Err(GravityError::InvalidPriceValue),
                    Some(p) => Ok(m.insert(a, p)),
                },
            },
        }
    }
}

/// The build fails exactly when some entry has a recognized key and a bad
/// value, and then with that one error.
proof fn lemma_build_table_err(s: Seq<(String, String)>)
    ensures
        spec_build_table(s) is Err <==> exists|i: int|
            0 <= i < s.len() && key_addr((#[trigger] s[i]).0@) is Some && val_price(s[i].1@)
                is None,
        spec_build_table(s) is Err ==> spec_build_table(s) == Err::<Map<EthAddr, u128>,
            GravityError,
        >(GravityError::InvalidPriceValue),
    decreases s.len(),
{
    if s.len() > 0 {
        lemma_build_table_err(s.drop_last());
        if spec_build_table(s.drop_last()) is Err {
            let i = choose|i: int|
                0 <= i < s.drop_last().len() && key_addr(
                    (#[trigger] s.drop_last()[i]).0@,
                ) is Some && val_price(s.drop_last()[i].1@) is None;
            assert(s[i] == s.drop_last()[i]);
        } else if key_addr(s.last().0@) is Some && val_price(s.last().1@) is None {
            assert(s[s.len() - 1] == s.last());
        } else if exists|i: int|
            0 <= i < s.len() && key_addr((#[trigger] s[i]).0@) is Some && val_price(s[i].1@)
                is None {
            let i = choose|i: int|
                0 <= i < s.len() && key_addr((#[trigger] s[i]).0@) is Some && val_price(s[i].1@)
                    is None;
            assert(i < s.len() - 1);
            assert(s.drop_last()[i] == s[i]);
        }
    }
}

/// What a successful build holds: exactly the recognized keys, each bound
/// to the price of some entry naming its address.
proof fn lemma_build_table_ok(s: Seq<(String, String)>)
    requires
        spec_build_table(s) is Ok,
    ensures
        forall|a: EthAddr|
            spec_build_table(s)->Ok_0.contains_key(a) <==> exists|i: int|
                0 <= i < s.len() && key_addr((#[trigger] s[i]).0@) == Some(a),
        forall|a: EthAddr|
            #[trigger] spec_build_table(s)->Ok_0.contains_key(a) ==> exists|i: int|
                0 <= i < s.len() && key_addr((#[trigger] s[i]).0@) == Some(a) && val_price(
                    s[i].1@,
                ) == Some(spec_build_table(s)->Ok_0[a]),
    decreases s.len(),
{
    if s.len() > 0 {
        lemma_build_table_ok(s.drop_last());
        assert forall|a: EthAddr|
            spec_build_table(s)->Ok_0.contains_key(a) implies exists|i: int|
            0 <= i < s.len() && key_addr((#[trigger] s[i]).0@) == Some(a) && val_price(s[i].1@)
                == Some(spec_build_table(s)->Ok_0[a]) by {
            let m = spec_build_table(s.drop_last())->Ok_0;
            if key_addr(s.last().0@) == Some(a) && val_price(s.last().1@) is Some
                && spec_build_table(s)->Ok_0[a] == val_price(s.last().1@)->0 {
                assert(s[s.len() - 1] == s.last());
            } else {
                assert(m.contains_key(a) && m[a] == spec_build_table(s)->Ok_0[a]);
                let i = choose|i: int|
                    0 <= i < s.drop_last().len() && key_addr(
                        (#[trigger] s.drop_last()[i]).0@,
                    ) == Some(a) && val_price(s.drop_last()[i].1@) == Some(m[a]);
                assert(s[i] == s.drop_last()[i]);
            }
        }
        assert forall|a: EthAddr|
            (exists|i: int| 0 <= i < s.len() && key_addr((#[trigger] s[i]).0@) == Some(a)) implies
            spec_build_table(s)->Ok_0.contains_key(a) by {
            let i = choose|i: int| 0 <= i < s.len() && key_addr((#[trigger] s[i]).0@) == Some(a);
            if i < s.len() - 1 {
                assert(s.drop_last()[i] == s[i]);
            }
        }
    }
}

/// Builds the token-price table from the parsed entries.
pub fn build_price_table(pairs: &Vec<(String, String)>) -> (r: Result<AddrMap<u128>, GravityError>)
    ensures
        match r {
            Ok(t) => t.wf() && spec_build_table(pairs@) == Ok::<Map<EthAddr, u128>, GravityError>(
                t@,
            ),
            Err(e) => spec_build_table(pairs@) == Err::<Map<EthAddr, u128>, GravityError>(e),
        },
{
    let mut table: AddrMap<u128> = AddrMap::new();
    let mut i: usize = 0;
    while i < pairs.len()
        invariant
            0 <= i <= pairs.len(),
            table.wf(),
            spec_build_table(pairs@.subrange(0, i as int)) == Ok::<Map<EthAddr, u128>,
                GravityError,
            >(table@),
        decreases pairs.len() - i,
    {
        let ghost pre = pairs@.subrange(0, i as int);
        let ghost post = pairs@.subrange(0, i as int + 1);
        proof {
            assert(post.drop_last() =~= pre);
            assert(post.last() == pairs@[i as int]);
        }
        match crate::address::parse_eth_address(pairs[i].0.as_str()) {
            None => {},
            Some(addr) => {
                match crate::arith::parse_dec_u128(pairs[i].1.as_str()) {
                    None => {
                        proof {
                            lemma_build_table_err(post);
                            lemma_build_err_persists(pairs@, i as int + 1);
                        }
                        return Err(GravityError::InvalidPriceValue);
                    },
                    Some(p) => {
                        table.insert(addr, p);
                    },
                }
            },
        }
        i = i + 1;
    }
    proof {
        assert(pairs@.subrange(0, pairs@.len() as int) =~= pairs@);
    }
    Ok(table)
}

/// Once a prefix fails the build, the whole sequence fails the same way.
proof fn lemma_build_err_persists(s: Seq<(String, String)>, n: int)
    requires
        0 <= n <= s.len(),
        spec_build_table(s.subrange(0, n)) is Err,
    ensures
        spec_build_table(s) == spec_build_table(s.subrange(0, n)),
    decreases s.len() - n,
{
    if n == s.len() {
        assert(s.subrange(0, n) =~= s);
    } else {
        let t = s.subrange(0, n + 1);
        assert(t.drop_last() =~= s.subrange(0, n));
        lemma_build_err_persists(s, n + 1);
    }
}

/// `a + b`, stopped at the top of the range.
pub open spec fn sat_add_u64(a: u64, b: u64) -> u64 {
    if a + b > u64::MAX {
        u64::MAX
    } else {
        (a + b) as u64
    }
}

/// A token's cooldown has elapsed: an entry exists and lies strictly in the
/// past. An absent entry is not elapsed.
pub open spec fn spec_cooldown_elapsed(dl: Map<EthAddr, u64>, tok: EthAddr, now: u64) -> bool {
    dl.contains_key(tok) && dl[tok] < now
}

/// Asking about an absent token arms its cooldown; a present entry is left
/// alone.
pub open spec fn spec_touch_cooldown(dl: Map<EthAddr, u64>, tok: EthAddr, now: u64, secs: u64) -> Map<
    EthAddr,
    u64,
> {
    if dl.contains_key(tok) {
        dl
    } else {
        dl.insert(tok, sat_add_u64(now, secs))
    }
}

/// The `File`-mode decision: send when the cooldown has elapsed; otherwise
/// send exactly when the fee, valued through the price table, covers the
/// estimated cost. An unpriced token cannot be valued and is not sent.
pub open spec fn spec_file_decision(
    prices: Map<EthAddr, u128>,
    cost: GasCost,
    fee: Erc20Token,
    elapsed: bool,
) -> bool {
    if elapsed {
        true
    } else if !prices.contains_key(fee.token_contract_address) {
        false
    } else {
        fee.amount * prices[fee.token_contract_address] >= cost.get_total()
    }
}

/// The `Api`-mode decision: no answer, or one that decodes to no verdict,
/// means no; a blacklisted token is never sent; otherwise the oracle's
/// verdict, with the cooldown override.
pub open spec fn spec_api_decision(oracle: Option<Seq<char>>, elapsed: bool) -> bool {
    match oracle {
        None => false,
        Some(s) => match verdict_of(s) {
            None => false,
            Some(v) => !v.in_blacklist && (v.profitable || elapsed),
        },
    }
}

/// The whole decision, as a function of the manager's state, the batch, the
/// clock and the oracle's answer.
pub open spec fn spec_can_send(
    mode: RelayerMode,
    prices: Map<EthAddr, u128>,
    dl: Map<EthAddr, u64>,
    cost: GasCost,
    fee: Erc20Token,
    tok: EthAddr,
    now: u64,
    oracle: Option<Seq<char>>,
) -> bool {
    match mode {
        RelayerMode::AlwaysRelay => true,
        RelayerMode::File => spec_file_decision(
            prices,
            cost,
            fee,
            spec_cooldown_elapsed(dl, tok, now),
        ),
        RelayerMode::Api => spec_api_decision(oracle, spec_cooldown_elapsed(dl, tok, now)),
    }
}

/// Decides, per token and tick, whether batches are worth submitting, and
/// meters forced retries. Owned by the relaying loop for the process's
/// lifetime; nothing here touches a disk or a network.
pub struct FeeManager {
    token_price_map: AddrMap<u128>,
    relayer_api_url: String,
    next_batch_send_time: AddrMap<u64>,
    mode: RelayerMode,
    batch_sending_secs: u64,
}

impl FeeManager {
    /// Both tables are well-formed.
    pub closed spec fn wf(&self) -> bool {
        self.token_price_map.wf() && self.next_batch_send_time.wf()
    }

    /// The mode this manager was built for.
    pub closed spec fn spec_mode(&self) -> RelayerMode {
        self.mode
    }

    /// The token-price table.
    pub closed spec fn prices(&self) -> Map<EthAddr, u128> {
        self.token_price_map@
    }

    /// The per-token cooldown deadlines.
    pub closed spec fn deadlines(&self) -> Map<EthAddr, u64> {
        self.next_batch_send_time@
    }

    /// The oracle endpoint, kept for the caller's HTTP requests.
    pub closed spec fn spec_api_url(&self) -> Seq<char> {
        self.relayer_api_url@
    }

    /// The cooldown length in seconds.
    pub closed spec fn cooldown_secs(&self) -> u64 {
        self.batch_sending_secs
    }

    /// Builds a manager for a mode. `AlwaysRelay` needs nothing. `Api`
    /// records the oracle endpoint. `File` builds the price table from the
    /// given document text; a text that is no JSON object of string values,
    /// or a recognized key with a malformed price, is fatal.
    ///
    /// The cooldown length and the endpoint come resolved by the caller;
    /// the document text is consulted in `File` mode alone.
    pub fn new_fee_manager(
        mode: RelayerMode,
        batch_sending_secs: u64,
        relayer_api_url: String,
        token_prices_json: &str,
    ) -> (r: Result<FeeManager, GravityError>)
        ensures
            r is Ok ==> {
                let fm = r->Ok_0;
                &&& fm.wf()
                &&& fm.spec_mode() == mode
                &&& fm.cooldown_secs() == batch_sending_secs
                &&& fm.deadlines() == Map::<EthAddr, u64>::empty()
            },
            mode != RelayerMode::File ==> r is Ok && r->Ok_0.prices() == Map::<
                EthAddr,
                u128,
            >::empty(),
            mode == RelayerMode::Api ==> r->Ok_0.spec_api_url() == relayer_api_url@,
            mode == RelayerMode::File ==> {
                let doc = price_doc_of(token_prices_json@);
                &&& (r is Ok <==> doc is Some && !(exists|k: Seq<char>|
                    #[trigger] doc->0.contains_key(k) && key_addr(k) is Some && val_price(doc->0[k])
                        is None))
                &&& r is Ok ==> (forall|a: EthAddr|
                    #[trigger] r->Ok_0.prices().contains_key(a) ==> exists|k: Seq<char>|
                        #[trigger] doc->0.contains_key(k) && key_addr(k) == Some(a) && val_price(
                            doc->0[k],
                        ) == Some(r->Ok_0.prices()[a]))
                &&& r is Ok ==> (forall|k: Seq<char>|
                    #[trigger] doc->0.contains_key(k) && key_addr(k) is Some
                        ==> r->Ok_0.prices().contains_key(key_addr(k)->0))
            },
    {
        match mode {
            RelayerMode::AlwaysRelay => Ok(
                FeeManager {
                    token_price_map: AddrMap::new(),
                    relayer_api_url: String::new(),
                    next_batch_send_time: AddrMap::new(),
                    mode,
                    batch_sending_secs,
                },
            ),
            RelayerMode::Api => Ok(
                FeeManager {
                    token_price_map: AddrMap::new(),
                    relayer_api_url,
                    next_batch_send_time: AddrMap::new(),
                    mode,
                    batch_sending_secs,
                },
            ),
            RelayerMode::File => {
                let pairs = match parse_price_object(token_prices_json) {
                    None => {
                        return Err(GravityError::InvalidPriceDocument);
                    },
                    Some(pairs) => pairs,
                };
                let table = match build_price_table(&pairs) {
                    Err(e) => {
                        proof {
                            lemma_build_table_err(pairs@);
                            let i = choose|i: int|
                                0 <= i < pairs@.len() && key_addr(
                                    (#[trigger] pairs@[i]).0@,
                                ) is Some && val_price(pairs@[i].1@) is None;
                            let doc = price_doc_of(token_prices_json@)->0;
                            assert(doc.contains_pair(pairs@[i].0@, pairs@[i].1@));
                            assert(doc.contains_key(pairs@[i].0@) && key_addr(pairs@[i].0@) is Some
                                && val_price(doc[pairs@[i].0@]) is None);
                        }
                        return Err(e);
                    },
                    Ok(t) => t,
                };
                proof {
                    lemma_build_table_err(pairs@);
                    lemma_build_table_ok(pairs@);
                    let doc = price_doc_of(token_prices_json@)->0;
                    assert forall|k: Seq<char>|
                        #[trigger] doc.contains_key(k) && key_addr(k) is Some implies !(val_price(
                        doc[k],
                    ) is None) by {
                        let i = choose|i: int|
                            0 <= i < pairs@.len() && (#[trigger] pairs@[i]).0@ == k;
                        assert(doc.contains_pair(pairs@[i].0@, pairs@[i].1@));
                    }
                    assert forall|a: EthAddr| #[trigger]
                        table@.contains_key(a) implies exists|k: Seq<char>|
                        #[trigger] doc.contains_key(k) && key_addr(k) == Some(a) && val_price(
                            doc[k],
                        ) == Some(table@[a]) by {
                        assert(spec_build_table(pairs@)->Ok_0 == table@);
                        assert(spec_build_table(pairs@)->Ok_0.contains_key(a));
                        let i = choose|i: int|
                            0 <= i < pairs@.len() && key_addr((#[trigger] pairs@[i]).0@) == Some(a)
                                && val_price(pairs@[i].1@) == Some(table@[a]);
                        assert(doc.contains_pair(pairs@[i].0@, pairs@[i].1@));
                        assert(doc.contains_key(pairs@[i].0@) && key_addr(pairs@[i].0@) == Some(a)
                            && val_price(doc[pairs@[i].0@]) == Some(table@[a]));
                    }
                    assert forall|k: Seq<char>|
                        #[trigger] doc.contains_key(k) && key_addr(k) is Some implies
                        table@.contains_key(key_addr(k)->0) by {
                        let i = choose|i: int|
                            0 <= i < pairs@.len() && (#[trigger] pairs@[i]).0@ == k;
                        assert(doc.contains_pair(pairs@[i].0@, pairs@[i].1@));
                        assert(key_addr(pairs@[i].0@) == key_addr(k));
                        assert(spec_build_table(pairs@)->Ok_0 == table@);
                        assert(exists|x: int|
                            0 <= x < pairs@.len() && key_addr((#[trigger] pairs@[x]).0@) == Some(
                                key_addr(k)->0,
                            ));
                        assert(spec_build_table(pairs@)->Ok_0.contains_key(key_addr(k)->0));
                    }
                }
                Ok(
                    FeeManager {
                        token_price_map: table,
                        relayer_api_url: String::new(),
                        next_batch_send_time: AddrMap::new(),
                        mode,
                        batch_sending_secs,
                    },
                )
            },
        }
    }

    /// The oracle endpoint, for the caller to post requests to.
    pub fn api_url(&self) -> (r: &String)
        ensures
            r@ == self.spec_api_url(),
    {
        &self.relayer_api_url
    }

    /// The mode this manager was built for.
    pub fn mode(&self) -> (r: RelayerMode)
        ensures
            r == self.spec_mode(),
    {
        self.mode
    }

    /// The price the table holds for a token.
    pub fn get_token_price(&self, contract_address: &EthAddr) -> (r: Result<u128, GravityError>)
        requires
            self.wf(),
        ensures
            r is Ok <==> self.prices().contains_key(*contract_address),
            r is Ok ==> r->Ok_0 == self.prices()[*contract_address],
            r is Err ==> r == Err::<u128, GravityError>(GravityError::TokenPriceNotFound),
    {
        match self.token_price_map.get(contract_address) {
            Some(p) => Ok(p),
            None => Err(GravityError::TokenPriceNotFound),
        }
    }

    /// Whether the token's cooldown has elapsed, arming it first when it
    /// was not armed: the first inquiry for a token answers `false` and
    /// starts the clock.
    fn should_send_at_non_profitable_cost(&mut self, contract_address: &EthAddr, now: u64) -> (r:
        bool)
        requires
            old(self).wf(),
        ensures
            final(self).wf(),
            r == spec_cooldown_elapsed(old(self).deadlines(), *contract_address, now),
            final(self).deadlines() == spec_touch_cooldown(
                old(self).deadlines(),
                *contract_address,
                now,
                old(self).cooldown_secs(),
            ),
            final(self).prices() == old(self).prices(),
            final(self).spec_mode() == old(self).spec_mode(),
            final(self).spec_api_url() == old(self).spec_api_url(),
            final(self).cooldown_secs() == old(self).cooldown_secs(),
    {
        match self.next_batch_send_time.get(contract_address) {
            Some(deadline) => deadline < now,
            None => {
                let deadline = match now.checked_add(self.batch_sending_secs) {
                    Some(d) => d,
                    None => u64::MAX,
                };
                self.next_batch_send_time.insert(*contract_address, deadline);
                false
            },
        }
    }

    /// The central predicate: whether to submit this batch now.
    ///
    /// `now` is the caller's monotonic clock; `oracle` is the body of the
    /// price oracle's answer for this batch, `None` when the call failed
    /// or was never made. It is decoded and consulted in `Api` mode alone.
    /// Outside `AlwaysRelay`, asking about a token arms its cooldown.
    pub fn can_send_batch(
        &mut self,
        estimated_cost: &GasCost,
        batch_fee: &Erc20Token,
        contract_address: &EthAddr,
        now: u64,
        oracle: Option<&str>,
    ) -> (r: bool)
        requires
            old(self).wf(),
        ensures
            final(self).wf(),
            r == spec_can_send(
                old(self).spec_mode(),
                old(self).prices(),
                old(self).deadlines(),
                *estimated_cost,
                *batch_fee,
                *contract_address,
                now,
                view_opt_str(oracle),
            ),
            final(self).deadlines() == (if old(self).spec_mode() == RelayerMode::AlwaysRelay {
                old(self).deadlines()
            } else {
                spec_touch_cooldown(
                    old(self).deadlines(),
                    *contract_address,
                    now,
                    old(self).cooldown_secs(),
                )
            }),
            final(self).prices() == old(self).prices(),
            final(self).spec_mode() == old(self).spec_mode(),
            final(self).spec_api_url() == old(self).spec_api_url(),
            final(self).cooldown_secs() == old(self).cooldown_secs(),
    {
        match self.mode {
            RelayerMode::AlwaysRelay => true,
            RelayerMode::File => {
                let elapsed = self.should_send_at_non_profitable_cost(contract_address, now);
                if elapsed {
                    true
                } else {
                    let token_price = match self.get_token_price(
                        &batch_fee.token_contract_address,
                    ) {
                        Ok(token_price) => token_price,
                        Err(_) => {
                            return false;
                        },
                    };
                    prod_ge(
                        batch_fee.amount,
                        token_price,
                        estimated_cost.gas,
                        estimated_cost.gas_price,
                    )
                }
            },
            RelayerMode::Api => {
                let elapsed = self.should_send_at_non_profitable_cost(contract_address, now);
                match oracle {
                    None => false,
                    Some(text) => match parse_oracle_verdict(text) {
                        None => false,
                        Some(verdict) => {
                            if verdict.in_blacklist {
                                false
                            } else {
                                verdict.profitable || elapsed
                            }
                        },
                    },
                }
            },
        }
    }

    /// Re-arms the token's cooldown after a successful submission, pushing
    /// its deadline to `now` plus the cooldown. `AlwaysRelay` keeps no
    /// cooldown state and is untouched.
    pub fn update_next_batch_send_time(&mut self, contract_address: EthAddr, now: u64)
        requires
            old(self).wf(),
        ensures
            final(self).wf(),
            final(self).deadlines() == (if old(self).spec_mode() == RelayerMode::AlwaysRelay {
                old(self).deadlines()
            } else {
                old(self).deadlines().insert(
                    contract_address,
                    sat_add_u64(now, old(self).cooldown_secs()),
                )
            }),
            final(self).prices() == old(self).prices(),
            final(self).spec_mode() == old(self).spec_mode(),
            final(self).spec_api_url() == old(self).spec_api_url(),
            final(self).cooldown_secs() == old(self).cooldown_secs(),
    {
        if matches!(self.mode, RelayerMode::AlwaysRelay) {
            return;
        }
        let deadline = match now.checked_add(self.batch_sending_secs) {
            Some(d) => d,
            None => u64::MAX,
        };
        self.next_batch_send_time.insert(contract_address, deadline);
    }
}

/// In `AlwaysRelay` the decision is `true` whatever the price table, the
/// cooldown state, the clock or the oracle hold: the price source is never
/// consulted and cannot change the answer.
pub proof fn lemma_always_relay_mode_purity(
    prices1: Map<EthAddr, u128>,
    prices2: Map<EthAddr, u128>,
    dl1: Map<EthAddr, u64>,
    dl2: Map<EthAddr, u64>,
    cost: GasCost,
    fee: Erc20Token,
    tok: EthAddr,
    now1: u64,
    now2: u64,
    oracle1: Option<Seq<char>>,
    oracle2: Option<Seq<char>>,
)
    ensures
        spec_can_send(RelayerMode::AlwaysRelay, prices1, dl1, cost, fee, tok, now1, oracle1),
        spec_can_send(RelayerMode::AlwaysRelay, prices1, dl1, cost, fee, tok, now1, oracle1)
            == spec_can_send(RelayerMode::AlwaysRelay, prices2, dl2, cost, fee, tok, now2, oracle2),
{
}

/// The decision never depends on how a token's address was spelled: two
/// hex literals that agree up to letter case parse to the same address,
/// and the decision is a function of that address value alone.
pub proof fn lemma_can_send_batch_address_normalization(
    s1: Seq<u8>,
    s2: Seq<u8>,
    a1: EthAddr,
    a2: EthAddr,
    mode: RelayerMode,
    prices: Map<EthAddr, u128>,
    dl: Map<EthAddr, u64>,
    cost: GasCost,
    fee: Erc20Token,
    now: u64,
    oracle: Option<Seq<char>>,
)
    requires
        crate::address::eq_ignore_ascii_case(s1, s2),
        spec_parse_addr(s1) == Some(a1),
        spec_parse_addr(s2) == Some(a2),
    ensures
        a1 == a2,
        spec_can_send(mode, prices, dl, cost, fee, a1, now, oracle) == spec_can_send(
            mode,
            prices,
            dl,
            cost,
            fee,
            a2,
            now,
            oracle,
        ),
{
    crate::address::lemma_parse_addr_case_insensitive(s1, s2);
}

/// Cooldown deadlines only move forward: whether a decision arms a token's
/// cooldown or a successful submission re-arms it, a deadline that was set
/// with the same cooldown at an earlier instant never moves back.
pub proof fn lemma_cooldown_monotonic(
    dl: Map<EthAddr, u64>,
    tok: EthAddr,
    earlier: u64,
    now: u64,
    secs: u64,
)
    requires
        dl.contains_key(tok) ==> dl[tok] <= sat_add_u64(earlier, secs),
        earlier <= now,
    ensures
        dl.contains_key(tok) ==> spec_touch_cooldown(dl, tok, now, secs)[tok] == dl[tok],
        spec_touch_cooldown(dl, tok, now, secs).contains_key(tok),
        spec_touch_cooldown(dl, tok, now, secs)[tok] >= (if dl.contains_key(tok) {
            dl[tok]
        } else {
            0
        }),
        dl.insert(tok, sat_add_u64(now, secs))[tok] >= (if dl.contains_key(tok) {
            dl[tok]
        } else {
            0
        }),
{
}

} // verus!
