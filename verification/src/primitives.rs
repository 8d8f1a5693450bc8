//! Shared types: balances, origins, dispatch errors and pallet accounts.
use vstd::prelude::*;

verus! {

/// The balance type of every asset ledger.
pub type Balance = u128;

/// A signed amount, as used by market rates.
pub type Amount = i128;

/// A 160-bit account address of a foreign chain.
pub type H160 = [u8; 20];

/// Identifies a currency by the asset class and asset that back it.
#[derive(Clone, Copy, PartialEq, Eq, Debug, Structural)]
pub struct CurrencyId(pub u64, pub u64);

/// The kinds of asset that the runtime knows of.
#[derive(Clone, Copy, PartialEq, Eq, Debug)]
pub enum AssetId {
    Native,
    ETH,
    BTC,
    DOT,
    TOKEN(H160),
}

/// Who dispatched a call.
#[derive(Clone, Copy, PartialEq, Eq, Debug)]
pub enum Origin {
    Root,
    Signed(u64),
    Unsigned,
}

/// A pallet identifier: eight bytes from which the pallet's account is derived.
#[derive(Clone, Copy, PartialEq, Eq, Debug)]
pub struct PalletId(pub [u8; 8]);

/// Errors that a dispatched call can end with.
#[derive(Clone, Copy, PartialEq, Eq, Debug)]
pub enum DispatchError {
    /// The origin is not the one that the call requires.
    BadOrigin,
    /// The native or multi-currency implementation refused the operation.
    CurrencyFailure,
    Asset(crate::asset::Error),
    Market(crate::market::Error),
    Dex(crate::dex::Error),
    Currency(crate::currency::Error),
    Bag(crate::bag::Error),
    Escrow(crate::escrow::Error),
    Bundle(crate::bundle::Error),
    OperatorAsset(crate::operator_asset::Error),
    Token(crate::token::Error),
    Nft(crate::nft::Error),
    Bridge(crate::bridge::Error),
    ValidatorSet(crate::validator_set::Error),
}

/// The signer of a signed origin.
pub fn ensure_signed(origin: Origin) -> (r: Result<u64, DispatchError>)
    ensures
        r == match origin {
            Origin::Signed(who) => Ok::<u64, DispatchError>(who),
            _ => Err(DispatchError::BadOrigin),
        },
{
    match origin {
        Origin::Signed(who) => Ok(who),
        _ => Err(DispatchError::BadOrigin),
    }
}

/// The little-endian value of the first eight bytes of `seed`, zero-padded.
pub open spec fn account_from_seed(seed: Seq<u8>) -> u64 {
    let b = |i: int| if i < seed.len() { seed[i] as int } else { 0int };
    (b(0) + b(1) * 0x100 + b(2) * 0x1_0000 + b(3) * 0x100_0000 + b(4) * 0x1_0000_0000
        + b(5) * 0x100_0000_0000 + b(6) * 0x1_0000_0000_0000 + b(7) * 0x100_0000_0000_0000) as u64
}

/// The prefix of every pallet account seed.
pub open spec fn pallet_seed(id: [u8; 8]) -> Seq<u8> {
    seq![0x6du8, 0x6fu8, 0x64u8, 0x6cu8] + id@
}

/// The account of a pallet: the seed `b"modl" ++ id` decoded as a 64-bit account.
pub open spec fn pallet_account_spec(id: [u8; 8]) -> u64 {
    account_from_seed(pallet_seed(id))
}

impl PalletId {
    /// The pallet's own account.
    pub fn into_account_truncating(&self) -> (r: u64)
        ensures
            r == pallet_account_spec(self.0),
    {
        let id = self.0;
        let r: u64 = 0x6c64_6f6du64 + (id[0] as u64) * 0x1_0000_0000 + (id[1] as u64)
            * 0x100_0000_0000 + (id[2] as u64) * 0x1_0000_0000_0000 + (id[3] as u64)
            * 0x100_0000_0000_0000;
        proof {
            let s = pallet_seed(id);
            assert(s.len() == 12);
            assert(s[0] == 0x6du8 && s[1] == 0x6fu8 && s[2] == 0x64u8 && s[3] == 0x6cu8);
            assert(s[4] == id[0] && s[5] == id[1] && s[6] == id[2] && s[7] == id[3]);
        }
        r
    }

    /// The sub-account of the pallet for any sub-identifier: the seed
    /// `b"modl" ++ id ++ encode(sub)` decoded as a 64-bit account. The first
    /// eight bytes of that seed come from the pallet identifier alone, so for
    /// 64-bit accounts every sub-account of a pallet is its own account.
    pub fn into_sub_account_truncating(&self) -> (r: u64)
        ensures
            forall|sub: Seq<u8>| r == #[trigger] account_from_seed(pallet_seed(self.0) + sub),
            r == pallet_account_spec(self.0),
    {
        proof {
            let s = pallet_seed(self.0);
            assert forall|sub: Seq<u8>| pallet_account_spec(self.0) == #[trigger] account_from_seed(s + sub) by {
                let t = s + sub;
                assert forall|i: int| 0 <= i < 8 implies t[i] == s[i] by {}
            }
        }
        self.into_account_truncating()
    }
}

} // verus!
