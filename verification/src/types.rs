//! The bridge's data model, as plain values.
//!
//! Amounts, gas figures and nonces are raw on-chain integers; addresses are
//! the library's own [`EthAddr`]. Nothing here interprets decimals or units:
//! a batch's value and its gas cost are compared as exact products.

use crate::address::EthAddr;
use vstd::prelude::*;

verus! {

/// A quantity of one ERC-20 token: a raw amount and the token's contract.
#[derive(PartialEq, Eq, Structural, Clone, Copy, Debug)]
pub struct Erc20Token {
    pub amount: u128,
    pub token_contract_address: EthAddr,
}

/// The estimated cost of one Ethereum transaction.
#[derive(PartialEq, Eq, Structural, Clone, Copy, Debug)]
pub struct GasCost {
    pub gas: u128,
    pub gas_price: u128,
}

impl GasCost {
    /// Total cost in wei: `gas * gas_price`, exact.
    pub open spec fn get_total(&self) -> int {
        self.gas * self.gas_price
    }
}

/// One batch of pending outbound transfers, as read from the Cosmos module.
/// Submittable only while `batch_timeout` lies strictly above the current
/// Ethereum block height and `nonce` strictly above the token's latest
/// nonce in the Ethereum contract.
#[derive(PartialEq, Eq, Structural, Clone, Copy, Debug)]
pub struct TransactionBatch {
    pub nonce: u64,
    pub token_contract: EthAddr,
    pub batch_timeout: u64,
    pub total_fee: Erc20Token,
}

/// One validator's signature over the canonical hash of a batch. The
/// signature bytes are opaque to the library; whether a batch's signatures
/// order against the current valset is decided by the caller's cryptographic
/// collaborators.
#[derive(Clone, Debug)]
pub struct BatchConfirmResponse {
    pub ethereum_signer: EthAddr,
    pub signature: Vec<u8>,
}

/// A batch as fetched for one tick, with its signatures and the outcome of
/// checking them against the current valset. A batch whose signatures could
/// not be fetched, or do not order against the valset, carries
/// `sigs_valid == false` and is skipped this tick.
#[derive(Clone, Debug)]
pub struct FetchedBatch {
    pub batch: TransactionBatch,
    pub sigs: Vec<BatchConfirmResponse>,
    pub sigs_valid: bool,
}

/// One member of a validator set.
#[derive(PartialEq, Eq, Structural, Clone, Copy, Debug)]
pub struct ValsetMember {
    pub power: u64,
    pub eth_address: Option<EthAddr>,
}

/// The validator set installed in the Ethereum contract. Signatures can only
/// be verified against the currently installed set, so callers re-read it at
/// the start of every tick.
#[derive(Clone, Debug)]
pub struct Valset {
    pub nonce: u64,
    pub members: Vec<ValsetMember>,
}

/// The price oracle's answer for one batch, already decoded.
#[derive(PartialEq, Eq, Structural, Clone, Copy, Debug)]
pub struct OracleVerdict {
    pub profitable: bool,
    pub in_blacklist: bool,
}

} // verus!
