//! A verified model of the SugarFunge runtime pallets: a multi-class asset
//! ledger and the bag, escrow, bundle, market, dex, nft, currency, bridge and
//! validator-set logic built on top of it.
use vstd::prelude::*;

pub mod primitives;
pub mod traits;
pub mod balances;
pub mod ledger;
pub mod asset;
pub mod market;
pub mod wide;
pub mod hashing;
pub mod dex;
pub mod currency;
pub mod shares;
pub mod bag;
pub mod escrow;
pub mod bundle;
pub mod operator_asset;
pub mod token;
pub mod nft;
pub mod bridge;
pub mod validator_set;
pub mod rpc;

verus! {
} // verus!
