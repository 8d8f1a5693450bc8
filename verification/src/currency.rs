//! The currency pallet: currencies of a multi-currency ledger issued as
//! assets of the asset pallet, one asset per currency, held one for one
//! against currency locked in the pallet's account.
use vstd::prelude::*;
use std::collections::BTreeMap;
use crate::asset;
use crate::ledger::{balance_in, lemma_apply_single, BalanceKey, Balances, LedgerOp};
use crate::primitives::{ensure_signed, pallet_account_spec, CurrencyId, DispatchError, Origin, PalletId};
use crate::traits::{multi_transfer_effect, reserve_effect, same_multi_funds, MultiCurrency, ReservableCurrency};

verus! {

broadcast use vstd::laws_cmp::group_laws_cmp;

#[derive(Clone, Copy, PartialEq, Eq, Debug)]
pub enum Event {
    Mint { currency_id: CurrencyId, amount: u128, who: u64 },
    Burn { currency_id: CurrencyId, amount: u128, who: u64 },
}

#[derive(Clone, Copy, PartialEq, Eq, Debug)]
pub enum Error {
    Unknown,
    NumOverflow,
    CurrencyAssetNotFound,
}

/// What the pallet records of a currency it issues.
#[derive(Clone, Copy, PartialEq, Eq, Debug, Structural)]
pub struct AssetInfo {
    pub total_supply: u128,
}

/// The currency that the chain issues at its start: the account that pays
/// the deposit, the class and asset of the currency, and the class metadata.
pub struct GenesisConfig {
    pub class: (u64, u64, u64, Vec<u8>),
}

/// The pallet's state and configuration.
pub struct Pallet {
    pub pallet_id: PalletId,
    /// The native currency paid to the pallet for each currency it issues.
    pub create_currency_class_deposit: u128,
    pub native_currency_id: CurrencyId,
    /// The supply issued of each currency, keyed by its (class, asset).
    pub currency_assets: BTreeMap<(u64, u64), u128>,
    pub events: Vec<Event>,
}

/// A dispatch error of this pallet.
pub open spec fn cerr<T>(e: Error) -> Result<T, DispatchError> {
    Err(DispatchError::Currency(e))
}

/// The (class, asset) of a currency.
pub open spec fn key_of(c: CurrencyId) -> (u64, u64) {
    (c.0, c.1)
}

/// The supply issued of a currency, zero where there is none.
pub open spec fn supply_in(m: Map<(u64, u64), u128>, k: (u64, u64)) -> u128 {
    if m.contains_key(k) { m[k] } else { 0 }
}

/// The supplies after `amount` more of the currency at `key` is issued.
pub open spec fn issued_after(m: Map<(u64, u64), u128>, key: (u64, u64), amount: u128) -> Map<(u64, u64), u128> {
    m.insert(key, (supply_in(m, key) + amount) as u128)
}

/// The supplies after `amount` of the currency at `key` is redeemed.
pub open spec fn redeemed_after(m: Map<(u64, u64), u128>, key: (u64, u64), amount: u128) -> Map<(u64, u64), u128> {
    m.insert(key, (supply_in(m, key) - amount) as u128)
}

/// Whether a mint of `currency_id` creates its asset: the currency has no
/// supply recorded yet and its asset does not exist.
pub open spec fn creates_asset(issued: Map<(u64, u64), u128>, assets: &asset::Pallet, currency_id: CurrencyId) -> bool {
    !issued.contains_key(key_of(currency_id)) && !assets.assets@.contains_key(key_of(currency_id))
}

/// Why issuing `amount` of `currency_id` to `who` fails once the currency is
/// locked: the asset cannot be created for it, or a balance or the supply
/// would overflow.
pub open spec fn mint_check(
    issued: Map<(u64, u64), u128>,
    assets: &asset::Pallet,
    module: u64,
    who: u64,
    currency_id: CurrencyId,
    amount: u128,
) -> Result<(), DispatchError> {
    let (class_id, asset_id) = key_of(currency_id);
    if creates_asset(issued, assets, currency_id) && asset::owner_check(assets.classes@, module, class_id) is Err {
        asset::owner_check(assets.classes@, module, class_id)
    } else if creates_asset(issued, assets, currency_id) && asset::count_in(assets.asset_count@, class_id) == u64::MAX {
        asset::err(asset::Error::NumOverflow)
    } else if balance_in(assets.balances@, (who, class_id, asset_id)) + amount > u128::MAX {
        asset::err(asset::Error::NumOverflow)
    } else if supply_in(issued, key_of(currency_id)) + amount > u128::MAX {
        cerr::<()>(Error::NumOverflow)
    } else {
        Ok(())
    }
}

/// Why redeeming `amount` of `currency_id` held by `who` fails once the
/// currency is released.
pub open spec fn burn_check(issued: Map<(u64, u64), u128>, assets: &asset::Pallet, who: u64, currency_id: CurrencyId, amount: u128) -> Result<(), DispatchError> {
    let (class_id, asset_id) = key_of(currency_id);
    if amount > balance_in(assets.balances@, (who, class_id, asset_id)) {
        asset::err(asset::Error::NumOverflow)
    } else if amount > supply_in(issued, key_of(currency_id)) {
        cerr::<()>(Error::NumOverflow)
    } else {
        Ok(())
    }
}

/// The asset registry of `new` is that of `old`, with the asset of a new
/// currency `(class_id, asset_id)` created by `module` where `created`.
pub open spec fn registry_after(old: &asset::Pallet, new: &asset::Pallet, created: bool, module: u64, class_id: u64, asset_id: u64) -> bool {
    &&& new.create_asset_class_deposit == old.create_asset_class_deposit
    &&& new.classes@ == old.classes@
    &&& !created ==> new.assets@ == old.assets@ && new.asset_count@ == old.asset_count@
    &&& created ==> {
        &&& new.assets@.dom() == old.assets@.dom().insert((class_id, asset_id))
        &&& forall|k: (u64, u64)| k != (class_id, asset_id) ==> #[trigger] new.assets@[k] == old.assets@[k]
        &&& new.assets@[(class_id, asset_id)].class_id == class_id
        &&& new.assets@[(class_id, asset_id)].creator == module
        &&& new.assets@[(class_id, asset_id)].metadata@ == Seq::<u8>::empty()
        &&& new.asset_count@ == old.asset_count@.insert(class_id, (asset::count_in(old.asset_count@, class_id) + 1) as u64)
    }
}

/// Every check of issuing currency `(class_id, asset_id)` passes: the
/// native deposit can move from `who` to the pallet's account `module`,
/// the class and asset are new, the class has room for an asset, and
/// whatever state the deposit leaves, the class deposit can be reserved
/// from `module` in it.
pub open spec fn creation_allowed<C: MultiCurrency + ReservableCurrency>(
    funds: C,
    assets: &asset::Pallet,
    module: u64,
    native: CurrencyId,
    who: u64,
    deposit: u128,
    class_id: u64,
    asset_id: u64,
) -> bool {
    &&& funds.multi_transfer_allowed(native, who, module, deposit)
    &&& !assets.classes@.contains_key(class_id)
    &&& !assets.assets@.contains_key((class_id, asset_id))
    &&& asset::count_in(assets.asset_count@, class_id) < u64::MAX
    &&& forall|mid: C| #[trigger] multi_transfer_effect(funds, mid, native, who, module, deposit)
        ==> mid.reserve_allowed(module, assets.create_asset_class_deposit)
}

/// The checks of issuing currency `(class_id, asset_id)` can all pass:
/// as `creation_allowed`, with the class deposit reservable in some state
/// that the native deposit can leave.
pub open spec fn creation_possible<C: MultiCurrency + ReservableCurrency>(
    funds: C,
    assets: &asset::Pallet,
    module: u64,
    native: CurrencyId,
    who: u64,
    deposit: u128,
    class_id: u64,
    asset_id: u64,
) -> bool {
    &&& funds.multi_transfer_allowed(native, who, module, deposit)
    &&& !assets.classes@.contains_key(class_id)
    &&& !assets.assets@.contains_key((class_id, asset_id))
    &&& asset::count_in(assets.asset_count@, class_id) < u64::MAX
    &&& exists|mid: C| #[trigger] multi_transfer_effect(funds, mid, native, who, module, deposit)
        && mid.reserve_allowed(module, assets.create_asset_class_deposit)
}

impl Pallet {
    /// An empty pallet.
    pub fn new(pallet_id: PalletId, create_currency_class_deposit: u128, native_currency_id: CurrencyId) -> (r: Pallet)
        ensures
            r.pallet_id == pallet_id,
            r.create_currency_class_deposit == create_currency_class_deposit,
            r.native_currency_id == native_currency_id,
            r.currency_assets@ == Map::<(u64, u64), u128>::empty(),
            r.events@ == Seq::<Event>::empty(),
    {
        Pallet { pallet_id, create_currency_class_deposit, native_currency_id, currency_assets: BTreeMap::new(), events: Vec::new() }
    }

    /// The pallet's account, which holds the currency behind the assets.
    pub fn account_id(&self) -> (r: u64)
        ensures
            r == pallet_account_spec(self.pallet_id.0),
    {
        self.pallet_id.into_account_truncating()
    }

    /// The (class, asset) that a currency is issued as, where it is issued.
    pub fn get_currency_asset(&self, currency_id: CurrencyId) -> (r: Result<(u64, u64), DispatchError>)
        ensures
            r == (if self.currency_assets@.contains_key(key_of(currency_id)) {
                Ok::<(u64, u64), DispatchError>(key_of(currency_id))
            } else {
                cerr::<(u64, u64)>(Error::CurrencyAssetNotFound)
            }),
    {
        let CurrencyId(class_id, asset_id) = currency_id;
        if self.currency_assets.contains_key(&(class_id, asset_id)) {
            Ok((class_id, asset_id))
        } else {
            Err(DispatchError::Currency(Error::CurrencyAssetNotFound))
        }
    }

    /// The supply issued of a currency.
    fn supply(&self, key: (u64, u64)) -> (r: u128)
        ensures
            r == supply_in(self.currency_assets@, key),
    {
        match self.currency_assets.get(&key) {
            Some(v) => *v,
            None => 0,
        }
    }

    /// Issues a new currency `(class_id, asset_id)`: `who` pays the deposit
    /// in native currency to the pallet, which creates the class and the
    /// asset and starts the supply at zero.
    pub fn create_currency<C: MultiCurrency + ReservableCurrency>(
        &mut self,
        assets: &mut asset::Pallet,
        currency: &mut C,
        who: u64,
        class_id: u64,
        asset_id: u64,
        data: Vec<u8>,
    ) -> (r: Result<(), DispatchError>)
        ensures
            final(self).pallet_id == old(self).pallet_id,
            final(self).create_currency_class_deposit == old(self).create_currency_class_deposit,
            final(self).native_currency_id == old(self).native_currency_id,
            final(self).events@ == old(self).events@,
            old(assets).classes@.contains_key(class_id) ==> r is Err,
            r is Err ==> final(self).currency_assets@ == old(self).currency_assets@,
            creation_allowed(*old(currency), old(assets), pallet_account_spec(old(self).pallet_id.0), old(self).native_currency_id,
                who, old(self).create_currency_class_deposit, class_id, asset_id) ==> r is Ok,
            r is Ok ==> creation_possible(*old(currency), old(assets), pallet_account_spec(old(self).pallet_id.0),
                old(self).native_currency_id, who, old(self).create_currency_class_deposit, class_id, asset_id),
            r is Ok ==> ({
                let module = pallet_account_spec(old(self).pallet_id.0);
                &&& !old(assets).classes@.contains_key(class_id)
                &&& final(self).currency_assets@ == old(self).currency_assets@.insert((class_id, asset_id), 0)
                &&& final(assets).classes@ == old(assets).classes@.insert(class_id, asset::Class { owner: module, metadata: final(assets).classes@[class_id].metadata })
                &&& final(assets).classes@[class_id].metadata@ == data@
                &&& final(assets).assets@.contains_key((class_id, asset_id))
                &&& final(assets).assets@[(class_id, asset_id)].creator == module
                &&& final(assets).balances@ == old(assets).balances@
            }),
    {
        let module = self.account_id();
        let deposit = self.create_currency_class_deposit;
        MultiCurrency::transfer(currency, self.native_currency_id, who, module, deposit)?;
        proof {
            assert(multi_transfer_effect(*old(currency), *currency, self.native_currency_id, who, module, deposit));
        }
        let meta = data.clone();
        assert(meta@ =~= data@);
        assets.do_create_class(currency, module, module, class_id, meta)?;
        assets.do_create_asset(module, class_id, asset_id, data)?;
        self.currency_assets.insert((class_id, asset_id), 0);
        Ok(())
    }

    /// Locks `amount` of `currency_id` from the signer in the pallet's
    /// account and mints as much of the currency's asset to the signer,
    /// creating the asset on its first issue where it does not exist yet.
    /// A failed call changes nothing.
    pub fn mint<C: MultiCurrency>(
        &mut self,
        assets: &mut asset::Pallet,
        currency: &mut C,
        origin: Origin,
        currency_id: CurrencyId,
        amount: u128,
    ) -> (r: Result<(), DispatchError>)
        ensures
            final(self).pallet_id == old(self).pallet_id,
            final(self).create_currency_class_deposit == old(self).create_currency_class_deposit,
            final(self).native_currency_id == old(self).native_currency_id,
            !(origin is Signed) ==> r == Err::<(), DispatchError>(DispatchError::BadOrigin),
            r is Err ==> final(self).currency_assets@ == old(self).currency_assets@ && final(self).events@ == old(self).events@
                && asset::unchanged(old(assets), final(assets)) && same_multi_funds(*old(currency), *final(currency)),
            origin is Signed ==> ({
                let who = origin->Signed_0;
                let module = pallet_account_spec(old(self).pallet_id.0);
                let (class_id, asset_id) = key_of(currency_id);
                let created = creates_asset(old(self).currency_assets@, old(assets), currency_id);
                let bal = balance_in(old(assets).balances@, (who, class_id, asset_id));
                &&& mint_check(old(self).currency_assets@, old(assets), module, who, currency_id, amount) is Err ==> r is Err
                &&& !old(currency).multi_transfer_allowed(currency_id, who, module, amount) ==> r is Err
                &&& mint_check(old(self).currency_assets@, old(assets), module, who, currency_id, amount) is Ok
                    && old(currency).multi_transfer_allowed(currency_id, who, module, amount) ==> r is Ok
                &&& r is Ok ==> {
                    &&& mint_check(old(self).currency_assets@, old(assets), module, who, currency_id, amount) is Ok
                    &&& multi_transfer_effect(*old(currency), *final(currency), currency_id, who, module, amount)
                    &&& final(self).currency_assets@ == issued_after(old(self).currency_assets@, key_of(currency_id), amount)
                    &&& registry_after(old(assets), final(assets), created, module, class_id, asset_id)
                    &&& final(assets).balances@ == old(assets).balances@.insert((who, class_id, asset_id), (bal + amount) as u128)
                    &&& final(assets).events@ == old(assets).events@
                        + (if created { seq![asset::Event::AssetCreated { class_id, asset_id, who: module }] } else { Seq::empty() })
                        + seq![asset::Event::Mint { who: module, to: who, class_id, asset_id, amount }]
                    &&& final(self).events@ == old(self).events@.push(Event::Mint { currency_id, amount, who })
                }
            }),
    {
        let who = ensure_signed(origin)?;
        let saved_funds = currency.duplicate();
        let module = self.account_id();
        MultiCurrency::transfer(currency, currency_id, who, module, amount)?;
        let saved_issued = self.currency_assets.clone();
        let saved_assets = assets.assets.clone();
        let saved_count = assets.asset_count.clone();
        let saved_balances = assets.balances.clone();
        let n_events = assets.events.len();
        let r = self.issue(assets, module, who, currency_id, amount);
        if r.is_err() {
            self.currency_assets = saved_issued;
            assets.assets = saved_assets;
            assets.asset_count = saved_count;
            assets.balances = saved_balances;
            assets.events.truncate(n_events);
            assert(assets.events@ =~= old(assets).events@);
            *currency = saved_funds;
        } else {
            self.events.push(Event::Mint { currency_id, amount, who });
        }
        r
    }

    /// The part of a mint after the currency is locked.
    fn issue(&mut self, assets: &mut asset::Pallet, module: u64, who: u64, currency_id: CurrencyId, amount: u128) -> (r: Result<(), DispatchError>)
        ensures
            final(self).pallet_id == old(self).pallet_id,
            final(self).create_currency_class_deposit == old(self).create_currency_class_deposit,
            final(self).native_currency_id == old(self).native_currency_id,
            final(self).events@ == old(self).events@,
            final(assets).classes@ == old(assets).classes@,
            final(assets).create_asset_class_deposit == old(assets).create_asset_class_deposit,
            old(assets).events@.len() <= final(assets).events@.len(),
            final(assets).events@.subrange(0, old(assets).events@.len() as int) == old(assets).events@,
            r == mint_check(old(self).currency_assets@, old(assets), module, who, currency_id, amount),
            r is Ok ==> ({
                let (class_id, asset_id) = key_of(currency_id);
                let created = creates_asset(old(self).currency_assets@, old(assets), currency_id);
                let bal = balance_in(old(assets).balances@, (who, class_id, asset_id));
                &&& final(self).currency_assets@ == issued_after(old(self).currency_assets@, key_of(currency_id), amount)
                &&& registry_after(old(assets), final(assets), created, module, class_id, asset_id)
                &&& final(assets).balances@ == old(assets).balances@.insert((who, class_id, asset_id), (bal + amount) as u128)
                &&& final(assets).events@ == old(assets).events@
                    + (if created { seq![asset::Event::AssetCreated { class_id, asset_id, who: module }] } else { Seq::empty() })
                    + seq![asset::Event::Mint { who: module, to: who, class_id, asset_id, amount }]
            }),
    {
        let CurrencyId(class_id, asset_id) = currency_id;
        assert(old(assets).events@.subrange(0, old(assets).events@.len() as int) =~= old(assets).events@);
        if !self.currency_assets.contains_key(&(class_id, asset_id)) {
            if !assets.asset_exists(class_id, asset_id) {
                let md: Vec<u8> = Vec::new();
                assert(md@ =~= Seq::<u8>::empty());
                assets.do_create_asset(module, class_id, asset_id, md)?;
            }
            self.currency_assets.insert((class_id, asset_id), 0);
        }
        let ghost mid = assets.events@;
        let ghost mid_balances = assets.balances@;
        let supply = self.supply((class_id, asset_id));
        proof {
            lemma_apply_single(mid_balances, LedgerOp::Credit { key: (who, class_id, asset_id), amount });
        }
        assets.do_mint(module, who, class_id, asset_id, amount)?;
        proof {
            assert(assets.events@.subrange(0, old(assets).events@.len() as int) =~= mid.subrange(0, old(assets).events@.len() as int));
            let created = creates_asset(old(self).currency_assets@, old(assets), currency_id);
            assert(assets.events@ =~= old(assets).events@
                + (if created { seq![asset::Event::AssetCreated { class_id, asset_id, who: module }] } else { Seq::empty() })
                + seq![asset::Event::Mint { who: module, to: who, class_id, asset_id, amount }]);
        }
        match supply.checked_add(amount) {
            Some(v) => {
                self.currency_assets.insert((class_id, asset_id), v);
            },
            None => {
                return Err(DispatchError::Currency(Error::NumOverflow));
            },
        }
        Ok(())
    }

    /// Releases `amount` of `currency_id` from the pallet's account to the
    /// signer and burns as much of the currency's asset from the signer. A
    /// failed call changes nothing.
    pub fn burn<C: MultiCurrency>(
        &mut self,
        assets: &mut asset::Pallet,
        currency: &mut C,
        origin: Origin,
        currency_id: CurrencyId,
        amount: u128,
    ) -> (r: Result<(), DispatchError>)
        ensures
            final(self).pallet_id == old(self).pallet_id,
            final(self).create_currency_class_deposit == old(self).create_currency_class_deposit,
            final(self).native_currency_id == old(self).native_currency_id,
            !(origin is Signed) ==> r == Err::<(), DispatchError>(DispatchError::BadOrigin),
            r is Err ==> final(self).currency_assets@ == old(self).currency_assets@ && final(self).events@ == old(self).events@
                && asset::unchanged(old(assets), final(assets)) && same_multi_funds(*old(currency), *final(currency)),
            origin is Signed ==> ({
                let who = origin->Signed_0;
                let module = pallet_account_spec(old(self).pallet_id.0);
                let (class_id, asset_id) = key_of(currency_id);
                let bal = balance_in(old(assets).balances@, (who, class_id, asset_id));
                &&& !old(self).currency_assets@.contains_key(key_of(currency_id)) ==> r == cerr::<()>(Error::CurrencyAssetNotFound)
                &&& burn_check(old(self).currency_assets@, old(assets), who, currency_id, amount) is Err ==> r is Err
                &&& !old(currency).multi_transfer_allowed(currency_id, module, who, amount) ==> r is Err
                &&& old(self).currency_assets@.contains_key(key_of(currency_id))
                    && burn_check(old(self).currency_assets@, old(assets), who, currency_id, amount) is Ok
                    && old(currency).multi_transfer_allowed(currency_id, module, who, amount) ==> r is Ok
                &&& r is Ok ==> {
                    &&& old(self).currency_assets@.contains_key(key_of(currency_id))
                    &&& burn_check(old(self).currency_assets@, old(assets), who, currency_id, amount) is Ok
                    &&& multi_transfer_effect(*old(currency), *final(currency), currency_id, module, who, amount)
                    &&& final(self).currency_assets@ == redeemed_after(old(self).currency_assets@, key_of(currency_id), amount)
                    &&& asset::same_registry(old(assets), final(assets))
                    &&& final(assets).balances@ == old(assets).balances@.insert((who, class_id, asset_id), (bal - amount) as u128)
                    &&& final(assets).events@ == old(assets).events@.push(asset::Event::Burn { who: module, from: who, class_id, asset_id, amount })
                    &&& final(self).events@ == old(self).events@.push(Event::Burn { currency_id, amount, who })
                }
            }),
    {
        let who = ensure_signed(origin)?;
        let CurrencyId(class_id, asset_id) = currency_id;
        if !self.currency_assets.contains_key(&(class_id, asset_id)) {
            return Err(DispatchError::Currency(Error::CurrencyAssetNotFound));
        }
        let saved_funds = currency.duplicate();
        let module = self.account_id();
        MultiCurrency::transfer(currency, currency_id, module, who, amount)?;
        let saved_balances = assets.balances.clone();
        let n_events = assets.events.len();
        proof {
            lemma_apply_single(old(assets).balances@, LedgerOp::Debit { key: (who, class_id, asset_id), amount });
        }
        let r = assets.do_burn(module, who, class_id, asset_id, amount);
        proof {
            if r.is_err() {
                assert(assets.events@ =~= old(assets).events@);
            }
        }
        if r.is_err() {
            assets.balances = saved_balances;
            assets.events.truncate(n_events);
            assert(assets.events@ =~= old(assets).events@);
            *currency = saved_funds;
            return r;
        }
        let supply = self.supply((class_id, asset_id));
        match supply.checked_sub(amount) {
            Some(v) => {
                self.currency_assets.insert((class_id, asset_id), v);
            },
            None => {
                assets.balances = saved_balances;
                assets.events.truncate(n_events);
                assert(assets.events@ =~= old(assets).events@);
                *currency = saved_funds;
                return Err(DispatchError::Currency(Error::NumOverflow));
            },
        }
        self.events.push(Event::Burn { currency_id, amount, who });
        Ok(())
    }
}

/// Moving an amount of a currency from one account to another and then back
/// restores every balance of every currency.
pub proof fn law_transfer_back<C: MultiCurrency>(f0: C, f1: C, f2: C, currency_id: CurrencyId, a: u64, b: u64, amount: u128)
    requires
        multi_transfer_effect(f0, f1, currency_id, a, b, amount),
        multi_transfer_effect(f1, f2, currency_id, b, a, amount),
    ensures
        same_multi_funds(f0, f2),
{
    assert forall|c: CurrencyId, w: u64| #[trigger] f2.free_balance(c, w) == f0.free_balance(c, w) by {
        if a != b && c == currency_id && (w == a || w == b) {
        } else {
            assert(f1.free_balance(c, w) == f0.free_balance(c, w));
        }
    }
}

/// Minting an amount of a currency to an account and then burning the same
/// amount from it restores the issued supply of every currency and every
/// asset balance, and the burn's checks pass after the mint.
pub proof fn law_mint_burn_round_trip(issued: Map<(u64, u64), u128>, balances: Balances, who: u64, currency_id: CurrencyId, amount: u128)
    requires
        supply_in(issued, key_of(currency_id)) + amount <= u128::MAX,
        balance_in(balances, (who, currency_id.0, currency_id.1)) + amount <= u128::MAX,
    ensures
        ({
            let k = (who, currency_id.0, currency_id.1);
            let s1 = issued_after(issued, key_of(currency_id), amount);
            let b1 = balances.insert(k, (balance_in(balances, k) + amount) as u128);
            let s2 = redeemed_after(s1, key_of(currency_id), amount);
            let b2 = b1.insert(k, (balance_in(b1, k) - amount) as u128);
            &&& amount <= supply_in(s1, key_of(currency_id))
            &&& amount <= balance_in(b1, k)
            &&& forall|key: (u64, u64)| #[trigger] supply_in(s2, key) == supply_in(issued, key)
            &&& forall|key: BalanceKey| #[trigger] balance_in(b2, key) == balance_in(balances, key)
        }),
{
}

impl Pallet {
    /// What the pallet records of `currency_id`, where it issues it.
    pub fn currency_assets(&self, currency_id: CurrencyId) -> (r: Option<AssetInfo>)
        ensures
            r == (if self.currency_assets@.contains_key(key_of(currency_id)) {
                Some(AssetInfo { total_supply: self.currency_assets@[key_of(currency_id)] })
            } else {
                None::<AssetInfo>
            }),
    {
        match self.currency_assets.get(&(currency_id.0, currency_id.1)) {
            Some(v) => Some(AssetInfo { total_supply: *v }),
            None => None,
        }
    }
}

impl GenesisConfig {
    /// Issues the genesis currency: `create_currency` with the configured
    /// account, class, asset and metadata.
    pub fn build<C: MultiCurrency + ReservableCurrency>(&self, pallet: &mut Pallet, assets: &mut asset::Pallet, currency: &mut C)
        -> (r: Result<(), DispatchError>)
        ensures
            final(pallet).pallet_id == old(pallet).pallet_id,
            final(pallet).native_currency_id == old(pallet).native_currency_id,
            old(assets).classes@.contains_key(self.class.1) ==> r is Err,
            r is Err ==> final(pallet).currency_assets@ == old(pallet).currency_assets@,
            r is Ok ==> final(pallet).currency_assets@ == old(pallet).currency_assets@.insert((self.class.1, self.class.2), 0),
            creation_allowed(*old(currency), old(assets), pallet_account_spec(old(pallet).pallet_id.0), old(pallet).native_currency_id,
                self.class.0, old(pallet).create_currency_class_deposit, self.class.1, self.class.2) ==> r is Ok,
            r is Ok ==> creation_possible(*old(currency), old(assets), pallet_account_spec(old(pallet).pallet_id.0),
                old(pallet).native_currency_id, self.class.0, old(pallet).create_currency_class_deposit, self.class.1, self.class.2),
    {
        let data = self.class.3.clone();
        pallet.create_currency(assets, currency, self.class.0, self.class.1, self.class.2, data)
    }
}

} // verus!
