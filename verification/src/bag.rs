//! The bag pallet: accounts that hold assets on behalf of share owners. A
//! bag is created in a registered bag class, its shares are minted to its
//! owners, anyone may deposit into it, and whoever holds all the shares may
//! sweep everything it holds to an account of their choice.
use vstd::prelude::*;
use std::collections::BTreeMap;
use crate::asset;
use crate::ledger::balance_in;
use crate::primitives::{ensure_signed, pallet_account_spec, DispatchError, Origin, PalletId};
use crate::shares::{group_balances, group_by_class, mint_shares, share_ops, total_of, wrapping_total};
use crate::traits::{reserve_effect, same_funds, transfer_effect, ReservableCurrency};

verus! {

broadcast use vstd::laws_cmp::group_laws_cmp;

/// A registered bag class and the account that registered it.
#[derive(Clone, Copy, PartialEq, Eq, Debug)]
pub struct BagClass {
    pub operator: u64,
    pub class_id: u64,
}

/// A bag: the asset of its shares and how many were minted.
#[derive(Clone, Copy, PartialEq, Eq, Debug)]
pub struct Bag {
    pub operator: u64,
    pub class_id: u64,
    pub asset_id: u64,
    pub total_shares: u128,
}

#[derive(Debug)]
pub enum Event {
    Register { who: u64, class_id: u64 },
    Created { bag: u64, who: u64, class_id: u64, asset_id: u64, owners: Vec<u64> },
    Deposit { bag: u64, who: u64 },
    Sweep { bag: u64, who: u64, to: u64 },
}

#[derive(Clone, Copy, PartialEq, Eq, Debug)]
pub enum Error {
    BagClassExists,
    BagExists,
    InvalidBagClass,
    InvalidBag,
    InvalidBagOperator,
    InvalidBagOwner,
    InvalidArrayLength,
    InsufficientShares,
}

/// The pallet's state and configuration.
pub struct Pallet {
    pub pallet_id: PalletId,
    /// The native deposit paid into each new bag.
    pub create_bag_deposit: u128,
    pub bag_classes: BTreeMap<u64, BagClass>,
    pub bags: BTreeMap<u64, Bag>,
    /// The next bag number of each class.
    pub next_bag_id: BTreeMap<u64, u64>,
    pub events: Vec<Event>,
}

/// A dispatch error of this pallet.
pub open spec fn berr<T>(e: Error) -> Result<T, DispatchError> {
    Err(DispatchError::Bag(e))
}

/// The number at `k`, zero where there is none.
pub open spec fn count_at(m: Map<u64, u64>, k: u64) -> u64 {
    if m.contains_key(k) { m[k] } else { 0 }
}

/// `n + 1`, wrapping around as the runtime's release build computes it.
pub open spec fn next_id(n: u64) -> u64 {
    if n == u64::MAX { 0 } else { (n + 1) as u64 }
}

/// The account of every bag. A bag account is derived from the pallet
/// identifier and the bag's block, class and number, but 64-bit accounts
/// keep only the pallet part of it.
pub open spec fn bag_account(p: &Pallet) -> u64 {
    pallet_account_spec(p.pallet_id.0)
}

/// Two states that hold the same bags and registry.
pub open spec fn same_bags(a: &Pallet, b: &Pallet) -> bool {
    &&& a.pallet_id == b.pallet_id
    &&& a.create_bag_deposit == b.create_bag_deposit
    &&& a.bag_classes@ == b.bag_classes@
    &&& a.bags@ == b.bags@
}

/// `e` records the creation of bag `bag`.
pub open spec fn created_event(e: Event, bag: u64, who: u64, class_id: u64, asset_id: u64, owners: Seq<u64>) -> bool {
    e matches Event::Created { bag: b, who: w, class_id: c, asset_id: a, owners: o }
        && b == bag && w == who && c == class_id && a == asset_id && o@ == owners
}

/// The moves of a sweep of `bag` to `to` from the balances `b`, given the
/// listing `v` of what the bag holds.
pub open spec fn sweep_moves(b: crate::ledger::Balances, bag: u64, to: u64, v: Seq<(u64, u64, u128)>) -> (crate::ledger::Balances, Result<(), DispatchError>) {
    let g = group_by_class(v);
    asset::moves_by_class(b, bag, to, g.0, g.1, g.2, g.0.len())
}

impl Pallet {
    /// An empty pallet.
    pub fn new(pallet_id: PalletId, create_bag_deposit: u128) -> (r: Pallet)
        ensures
            r.pallet_id == pallet_id,
            r.create_bag_deposit == create_bag_deposit,
            r.bag_classes@ == Map::<u64, BagClass>::empty(),
            r.bags@ == Map::<u64, Bag>::empty(),
            r.next_bag_id@ == Map::<u64, u64>::empty(),
            r.events@ == Seq::<Event>::empty(),
    {
        Pallet {
            pallet_id,
            create_bag_deposit,
            bag_classes: BTreeMap::new(),
            bags: BTreeMap::new(),
            next_bag_id: BTreeMap::new(),
            events: Vec::new(),
        }
    }

    /// The pallet's account: the operator of every bag, and the owner of
    /// every bag class.
    pub fn account_id(&self) -> (r: u64)
        ensures
            r == pallet_account_spec(self.pallet_id.0),
    {
        self.pallet_id.into_account_truncating()
    }

    /// Registers `class_id` as a bag class: the class is created in the
    /// asset pallet, owned by the pallet's account, with `who` paying its
    /// deposit.
    pub fn do_register<C: ReservableCurrency>(
        &mut self,
        assets: &mut asset::Pallet,
        currency: &mut C,
        who: u64,
        class_id: u64,
        metadata: Vec<u8>,
    ) -> (r: Result<(), DispatchError>)
        ensures
            final(self).pallet_id == old(self).pallet_id,
            final(self).create_bag_deposit == old(self).create_bag_deposit,
            final(self).bags@ == old(self).bags@,
            final(self).next_bag_id@ == old(self).next_bag_id@,
            old(self).bag_classes@.contains_key(class_id) ==> r == berr::<()>(Error::BagClassExists),
            !old(self).bag_classes@.contains_key(class_id) && old(assets).classes@.contains_key(class_id)
                ==> r == asset::err(asset::Error::InvalidClassId),
            !old(self).bag_classes@.contains_key(class_id) && !old(assets).classes@.contains_key(class_id)
                ==> (r is Ok <==> old(currency).reserve_allowed(who, old(assets).create_asset_class_deposit)),
            r is Err ==> final(self).bag_classes@ == old(self).bag_classes@ && final(self).events@ == old(self).events@
                && asset::unchanged(old(assets), final(assets)) && same_funds(*old(currency), *final(currency)),
            r is Ok ==> {
                &&& !old(self).bag_classes@.contains_key(class_id)
                &&& !old(assets).classes@.contains_key(class_id)
                &&& final(self).bag_classes@ == old(self).bag_classes@.insert(class_id, BagClass { operator: who, class_id })
                &&& final(self).events@.len() == old(self).events@.len() + 1
                &&& final(self).events@.drop_last() == old(self).events@
                &&& final(self).events@.last() matches Event::Register { who: w, class_id: c } && w == who && c == class_id
                &&& reserve_effect(*old(currency), *final(currency), who, old(assets).create_asset_class_deposit)
                &&& final(assets).classes@ == old(assets).classes@.insert(class_id, asset::Class {
                    owner: pallet_account_spec(old(self).pallet_id.0),
                    metadata,
                })
                &&& final(assets).assets@ == old(assets).assets@
                &&& final(assets).asset_count@ == old(assets).asset_count@
                &&& final(assets).balances@ == old(assets).balances@
                &&& final(assets).events@ == old(assets).events@.push(asset::Event::ClassCreated { class_id, who })
            },
    {
        if self.bag_classes.contains_key(&class_id) {
            return Err(DispatchError::Bag(Error::BagClassExists));
        }
        let owner = self.account_id();
        assets.do_create_class(currency, who, owner, class_id, metadata)?;
        self.bag_classes.insert(class_id, BagClass { operator: who, class_id });
        self.events.push(Event::Register { who, class_id });
        assert(self.events@.drop_last() =~= old(self).events@);
        Ok(())
    }

    /// Creates a bag in `class_id`: `who` pays the bag deposit into it and
    /// `shares[i]` of the bag's share asset are minted to each `owners[i]`.
    /// The bag number is taken before the bag is checked, and mints already
    /// made stay where a later one fails.
    pub fn do_create<C: ReservableCurrency>(
        &mut self,
        assets: &mut asset::Pallet,
        currency: &mut C,
        who: u64,
        class_id: u64,
        owners: &Vec<u64>,
        shares: &Vec<u128>,
    ) -> (r: Result<u64, DispatchError>)
        ensures
            final(self).pallet_id == old(self).pallet_id,
            final(self).create_bag_deposit == old(self).create_bag_deposit,
            final(self).bag_classes@ == old(self).bag_classes@,
            asset::same_registry(old(assets), final(assets)),
            asset::events_extended(old(assets).events@, final(assets).events@),
            !old(self).bag_classes@.contains_key(class_id) ==> r == berr::<u64>(Error::InvalidBagClass),
            old(self).bag_classes@.contains_key(class_id) && owners.len() != shares.len() ==> r == berr::<u64>(Error::InvalidArrayLength),
            !old(self).bag_classes@.contains_key(class_id) || owners.len() != shares.len() ==> {
                &&& final(self).next_bag_id@ == old(self).next_bag_id@
                &&& final(self).bags@ == old(self).bags@
                &&& final(self).events@ == old(self).events@
                &&& asset::unchanged(old(assets), final(assets))
                &&& same_funds(*old(currency), *final(currency))
            },
            old(self).bag_classes@.contains_key(class_id) && owners.len() == shares.len() ==> ({
                let bag_id = count_at(old(self).next_bag_id@, class_id);
                let bag = bag_account(old(self));
                let ops = share_ops(owners@, class_id, bag_id, shares@);
                &&& final(self).next_bag_id@ == old(self).next_bag_id@.insert(class_id, next_id(bag_id))
                &&& old(self).bags@.contains_key(bag) ==> r == berr::<u64>(Error::BagExists)
                    && asset::unchanged(old(assets), final(assets)) && same_funds(*old(currency), *final(currency))
                &&& !old(self).bags@.contains_key(bag) ==> (r is Ok <==> old(currency).transfer_allowed(who, bag, old(self).create_bag_deposit)
                    && asset::program_outcome(old(assets).balances@, ops).1 is Ok)
                &&& r is Err ==> final(self).bags@ == old(self).bags@ && final(self).events@ == old(self).events@
                    && (same_funds(*old(currency), *final(currency)) && asset::unchanged(old(assets), final(assets))
                        || transfer_effect(*old(currency), *final(currency), who, bag, old(self).create_bag_deposit)
                        && final(assets).balances@ == asset::program_outcome(old(assets).balances@, ops).0
                        && asset::program_outcome(old(assets).balances@, ops).1 is Err
                        && r == Err::<u64, DispatchError>(asset::program_outcome(old(assets).balances@, ops).1->Err_0))
                &&& r is Ok ==> {
                    &&& !old(self).bags@.contains_key(bag)
                    &&& r == Ok::<u64, DispatchError>(bag)
                    &&& transfer_effect(*old(currency), *final(currency), who, bag, old(self).create_bag_deposit)
                    &&& asset::program_outcome(old(assets).balances@, ops) == (final(assets).balances@, Ok::<(), DispatchError>(()))
                    &&& final(self).bags@ == old(self).bags@.insert(bag, Bag {
                        operator: pallet_account_spec(old(self).pallet_id.0),
                        class_id,
                        asset_id: bag_id,
                        total_shares: wrapping_total(shares@),
                    })
                    &&& final(self).events@.len() == old(self).events@.len() + 1
                    &&& final(self).events@.drop_last() == old(self).events@
                    &&& created_event(final(self).events@.last(), bag, who, class_id, bag_id, owners@)
                }
            }),
    {
        assert(old(assets).events@.subrange(0, old(assets).events@.len() as int) =~= old(assets).events@);
        if !self.bag_classes.contains_key(&class_id) {
            return Err(DispatchError::Bag(Error::InvalidBagClass));
        }
        if owners.len() != shares.len() {
            return Err(DispatchError::Bag(Error::InvalidArrayLength));
        }
        let bag_id: u64 = match self.next_bag_id.get(&class_id) {
            Some(v) => *v,
            None => 0,
        };
        self.next_bag_id.insert(class_id, bag_id.wrapping_add(1));
        let bag = self.pallet_id.into_sub_account_truncating();
        if self.bags.contains_key(&bag) {
            return Err(DispatchError::Bag(Error::BagExists));
        }
        let deposit = self.create_bag_deposit;
        let ghost funds_before = *currency;
        let t = currency.transfer(who, bag, deposit);
        if t.is_err() {
            assert(!funds_before.transfer_allowed(who, bag, deposit));
            return Err(t.unwrap_err());
        }
        assert(funds_before.transfer_allowed(who, bag, deposit));
        let asset_id = bag_id;
        let operator = self.account_id();
        let m = mint_shares(assets, operator, owners, class_id, asset_id, shares);
        if m.is_err() {
            assert(asset::program_outcome(old(assets).balances@, share_ops(owners@, class_id, bag_id, shares@)).1 is Err);
            return Err(m.unwrap_err());
        }
        let total_shares = total_of(shares);
        self.bags.insert(bag, Bag { operator, class_id, asset_id, total_shares });
        let listed = owners.clone();
        assert(listed@ =~= owners@);
        self.events.push(Event::Created { bag, who, class_id, asset_id, owners: listed });
        assert(self.events@.drop_last() =~= old(self).events@);
        Ok(bag)
    }

    /// Deposits into `bag`, class by class, `amounts[i][j]` of each asset
    /// `asset_ids[i][j]` of class `class_ids[i]` held by `who`. Classes
    /// already moved stay moved where a later one fails.
    pub fn do_deposit(
        &mut self,
        assets: &mut asset::Pallet,
        who: u64,
        bag: u64,
        class_ids: Vec<u64>,
        asset_ids: Vec<Vec<u64>>,
        amounts: Vec<Vec<u128>>,
    ) -> (r: Result<(), DispatchError>)
        ensures
            same_bags(old(self), final(self)),
            final(self).next_bag_id@ == old(self).next_bag_id@,
            asset::same_registry(old(assets), final(assets)),
            asset::events_extended(old(assets).events@, final(assets).events@),
            !old(self).bags@.contains_key(bag) ==> r == berr::<()>(Error::InvalidBag),
            old(self).bags@.contains_key(bag) && (class_ids.len() != amounts.len() || asset_ids.len() != amounts.len())
                ==> r == berr::<()>(Error::InvalidArrayLength),
            !old(self).bags@.contains_key(bag) || class_ids.len() != amounts.len() || asset_ids.len() != amounts.len()
                ==> asset::unchanged(old(assets), final(assets)) && final(self).events@ == old(self).events@,
            old(self).bags@.contains_key(bag) && class_ids.len() == amounts.len() && asset_ids.len() == amounts.len() ==> ({
                let (b, res) = asset::moves_by_class(
                    old(assets).balances@,
                    who,
                    bag,
                    class_ids@,
                    asset::vec_views(asset_ids@),
                    asset::vec_views(amounts@),
                    class_ids@.len(),
                );
                &&& final(assets).balances@ == b
                &&& r == res
                &&& res is Err ==> final(self).events@ == old(self).events@
                &&& res is Ok ==> final(self).events@.len() == old(self).events@.len() + 1
                    && final(self).events@.drop_last() == old(self).events@
                    && (final(self).events@.last() matches Event::Deposit { bag: x, who: w } && x == bag && w == who)
            }),
    {
        assert(old(assets).events@.subrange(0, old(assets).events@.len() as int) =~= old(assets).events@);
        if !self.bags.contains_key(&bag) {
            return Err(DispatchError::Bag(Error::InvalidBag));
        }
        if class_ids.len() != amounts.len() || asset_ids.len() != amounts.len() {
            return Err(DispatchError::Bag(Error::InvalidArrayLength));
        }
        assets.transfer_by_class(who, who, bag, &class_ids, &asset_ids, &amounts)?;
        self.events.push(Event::Deposit { bag, who });
        assert(self.events@.drop_last() =~= old(self).events@);
        Ok(())
    }

    /// Sweeps `bag` for `who`, who must hold all of its shares: the shares
    /// are burnt and everything the bag holds moves to `to`, class by class.
    /// Returns what was moved, grouped by class, in increasing (class,
    /// asset) order.
    pub fn do_sweep(&mut self, assets: &mut asset::Pallet, who: u64, to: u64, bag: u64)
        -> (r: Result<(Vec<u64>, Vec<Vec<u64>>, Vec<Vec<u128>>), DispatchError>)
        ensures
            same_bags(old(self), final(self)),
            final(self).next_bag_id@ == old(self).next_bag_id@,
            asset::same_registry(old(assets), final(assets)),
            asset::events_extended(old(assets).events@, final(assets).events@),
            r is Ok && to != bag ==> forall|c: u64, a: u64| #[trigger] balance_in(final(assets).balances@, (bag, c, a)) == 0,
            !old(self).bags@.contains_key(bag) ==> r == berr::<(Vec<u64>, Vec<Vec<u64>>, Vec<Vec<u128>>)>(Error::InvalidBag)
                && asset::unchanged(old(assets), final(assets)) && final(self).events@ == old(self).events@,
            old(self).bags@.contains_key(bag) ==> ({
                let info = old(self).bags@[bag];
                let key = (who, info.class_id, info.asset_id);
                let burnt = old(assets).balances@.insert(key, 0);
                &&& balance_in(old(assets).balances@, key) != info.total_shares
                    ==> r == berr::<(Vec<u64>, Vec<Vec<u64>>, Vec<Vec<u128>>)>(Error::InsufficientShares)
                    && asset::unchanged(old(assets), final(assets)) && final(self).events@ == old(self).events@
                &&& balance_in(old(assets).balances@, key) == info.total_shares ==> exists|v: Seq<(u64, u64, u128)>| {
                    let (b, res) = sweep_moves(burnt, bag, to, v);
                    &&& #[trigger] asset::owner_listing(burnt, bag, v)
                    &&& asset::pairs_increasing(v)
                    &&& final(assets).balances@ == b
                    &&& res is Err ==> r == Err::<(Vec<u64>, Vec<Vec<u64>>, Vec<Vec<u128>>), DispatchError>(res->Err_0)
                        && final(self).events@ == old(self).events@
                    &&& res is Ok ==> (r matches Ok(g) && (g.0@, asset::vec_views(g.1@), asset::vec_views(g.2@)) == group_by_class(v))
                        && final(self).events@.len() == old(self).events@.len() + 1
                        && final(self).events@.drop_last() == old(self).events@
                        && (final(self).events@.last() matches Event::Sweep { bag: x, who: w, to: t } && x == bag && w == who && t == to)
                }
            }),
    {
        assert(old(assets).events@.subrange(0, old(assets).events@.len() as int) =~= old(assets).events@);
        let info = match self.bags.get(&bag) {
            Some(b) => *b,
            None => {
                return Err(DispatchError::Bag(Error::InvalidBag));
            },
        };
        let shares = assets.balance_of(who, info.class_id, info.asset_id);
        if shares != info.total_shares {
            return Err(DispatchError::Bag(Error::InsufficientShares));
        }
        let operator = self.account_id();
        proof {
            crate::ledger::lemma_apply_single(
                old(assets).balances@,
                crate::ledger::LedgerOp::Debit { key: (who, info.class_id, info.asset_id), amount: info.total_shares },
            );
            assert(old(assets).balances@.insert((who, info.class_id, info.asset_id), 0)
                =~= old(assets).balances@.insert((who, info.class_id, info.asset_id), (shares - info.total_shares) as u128));
        }
        assets.do_burn(operator, who, info.class_id, info.asset_id, info.total_shares)?;
        assert(assets.events@.subrange(0, old(assets).events@.len() as int) =~= old(assets).events@);
        let listing = match assets.balances_of_owner(bag) {
            Ok(v) => v,
            Err(e) => {
                return Err(e);
            },
        };
        let grouped = group_balances(&listing);
        let ghost ev = assets.events@;
        let moved = assets.transfer_by_class(bag, bag, to, &grouped.0, &grouped.1, &grouped.2);
        proof {
            assert(assets.events@.subrange(0, old(assets).events@.len() as int) =~= ev.subrange(0, old(assets).events@.len() as int));
            assert(asset::owner_listing(old(assets).balances@.insert((who, info.class_id, info.asset_id), 0), bag, listing@));
        }
        if moved.is_err() {
            return Err(moved.unwrap_err());
        }
        proof {
            if to != bag {
                crate::shares::law_sweep_empties(old(assets).balances@.insert((who, info.class_id, info.asset_id), 0), bag, to, listing@);
            }
        }
        self.events.push(Event::Sweep { bag, who, to });
        assert(self.events@.drop_last() =~= old(self).events@);
        Ok(grouped)
    }

    /// `do_register` for the signer.
    pub fn register<C: ReservableCurrency>(
        &mut self,
        assets: &mut asset::Pallet,
        currency: &mut C,
        origin: Origin,
        class_id: u64,
        metadata: Vec<u8>,
    ) -> (r: Result<(), DispatchError>)
        ensures
            final(self).pallet_id == old(self).pallet_id,
            final(self).create_bag_deposit == old(self).create_bag_deposit,
            final(self).bags@ == old(self).bags@,
            final(self).next_bag_id@ == old(self).next_bag_id@,
            !(origin is Signed) ==> r == Err::<(), DispatchError>(DispatchError::BadOrigin),
            r is Err ==> final(self).bag_classes@ == old(self).bag_classes@ && final(self).events@ == old(self).events@
                && asset::unchanged(old(assets), final(assets)) && same_funds(*old(currency), *final(currency)),
            origin is Signed ==> ({
                let who = origin->Signed_0;
                &&& old(self).bag_classes@.contains_key(class_id) ==> r == berr::<()>(Error::BagClassExists)
                &&& !old(self).bag_classes@.contains_key(class_id) && old(assets).classes@.contains_key(class_id)
                    ==> r == asset::err(asset::Error::InvalidClassId)
                &&& !old(self).bag_classes@.contains_key(class_id) && !old(assets).classes@.contains_key(class_id)
                    ==> (r is Ok <==> old(currency).reserve_allowed(who, old(assets).create_asset_class_deposit))
                &&& r is Ok ==> {
                    &&& final(self).bag_classes@ == old(self).bag_classes@.insert(class_id, BagClass { operator: who, class_id })
                    &&& final(self).events@.len() == old(self).events@.len() + 1
                    &&& final(self).events@.drop_last() == old(self).events@
                    &&& reserve_effect(*old(currency), *final(currency), who, old(assets).create_asset_class_deposit)
                    &&& final(assets).classes@ == old(assets).classes@.insert(class_id, asset::Class {
                        owner: pallet_account_spec(old(self).pallet_id.0),
                        metadata,
                    })
                    &&& final(assets).balances@ == old(assets).balances@
                }
            }),
    {
        let who = ensure_signed(origin)?;
        self.do_register(assets, currency, who, class_id, metadata)
    }

    /// `do_create` for the signer; a failed call changes nothing.
    pub fn create<C: ReservableCurrency>(
        &mut self,
        assets: &mut asset::Pallet,
        currency: &mut C,
        origin: Origin,
        class_id: u64,
        owners: Vec<u64>,
        shares: Vec<u128>,
    ) -> (r: Result<(), DispatchError>)
        ensures
            final(self).pallet_id == old(self).pallet_id,
            final(self).create_bag_deposit == old(self).create_bag_deposit,
            final(self).bag_classes@ == old(self).bag_classes@,
            asset::same_registry(old(assets), final(assets)),
            !(origin is Signed) ==> r == Err::<(), DispatchError>(DispatchError::BadOrigin),
            r is Err ==> final(self).next_bag_id@ == old(self).next_bag_id@ && final(self).bags@ == old(self).bags@
                && final(self).events@ == old(self).events@ && asset::unchanged(old(assets), final(assets))
                && same_funds(*old(currency), *final(currency)),
            origin is Signed ==> ({
                let who = origin->Signed_0;
                let bag_id = count_at(old(self).next_bag_id@, class_id);
                let bag = bag_account(old(self));
                let ops = share_ops(owners@, class_id, bag_id, shares@);
                &&& !old(self).bag_classes@.contains_key(class_id) ==> r == berr::<()>(Error::InvalidBagClass)
                &&& old(self).bag_classes@.contains_key(class_id) && owners.len() != shares.len() ==> r == berr::<()>(Error::InvalidArrayLength)
                &&& old(self).bag_classes@.contains_key(class_id) && owners.len() == shares.len() && old(self).bags@.contains_key(bag)
                    ==> r == berr::<()>(Error::BagExists)
                &&& asset::program_outcome(old(assets).balances@, ops).1 is Err ==> r is Err
                &&& old(self).bag_classes@.contains_key(class_id) && owners.len() == shares.len() && !old(self).bags@.contains_key(bag)
                    ==> (r is Ok <==> old(currency).transfer_allowed(who, bag, old(self).create_bag_deposit)
                    && asset::program_outcome(old(assets).balances@, ops).1 is Ok)
                &&& r is Ok ==> {
                    &&& old(self).bag_classes@.contains_key(class_id)
                    &&& owners.len() == shares.len()
                    &&& !old(self).bags@.contains_key(bag)
                    &&& final(self).next_bag_id@ == old(self).next_bag_id@.insert(class_id, next_id(bag_id))
                    &&& transfer_effect(*old(currency), *final(currency), who, bag, old(self).create_bag_deposit)
                    &&& asset::program_outcome(old(assets).balances@, ops) == (final(assets).balances@, Ok::<(), DispatchError>(()))
                    &&& asset::events_extended(old(assets).events@, final(assets).events@)
                    &&& final(self).bags@ == old(self).bags@.insert(bag, Bag {
                        operator: pallet_account_spec(old(self).pallet_id.0),
                        class_id,
                        asset_id: bag_id,
                        total_shares: wrapping_total(shares@),
                    })
                    &&& final(self).events@.len() == old(self).events@.len() + 1
                    &&& final(self).events@.drop_last() == old(self).events@
                    &&& created_event(final(self).events@.last(), bag, who, class_id, bag_id, owners@)
                }
            }),
    {
        let who = ensure_signed(origin)?;
        let saved_ids = self.next_bag_id.clone();
        let saved_balances = assets.balances.clone();
        let n_events = assets.events.len();
        let saved_funds = currency.duplicate();
        let r = self.do_create(assets, currency, who, class_id, &owners, &shares);
        match r {
            Ok(_) => Ok(()),
            Err(e) => {
                self.next_bag_id = saved_ids;
                assets.balances = saved_balances;
                assets.events.truncate(n_events);
                assert(assets.events@ =~= old(assets).events@);
                assert(asset::unchanged(old(assets), assets));
                *currency = saved_funds;
                assert(same_funds(*old(currency), *currency));
                Err(e)
            },
        }
    }

    /// `do_deposit` for the signer; a failed call changes nothing.
    pub fn deposit(
        &mut self,
        assets: &mut asset::Pallet,
        origin: Origin,
        bag: u64,
        class_ids: Vec<u64>,
        asset_ids: Vec<Vec<u64>>,
        amounts: Vec<Vec<u128>>,
    ) -> (r: Result<(), DispatchError>)
        ensures
            same_bags(old(self), final(self)),
            final(self).next_bag_id@ == old(self).next_bag_id@,
            asset::same_registry(old(assets), final(assets)),
            !(origin is Signed) ==> r == Err::<(), DispatchError>(DispatchError::BadOrigin),
            r is Err ==> final(self).events@ == old(self).events@ && asset::unchanged(old(assets), final(assets)),
            origin is Signed ==> ({
                let who = origin->Signed_0;
                let (b, res) = asset::moves_by_class(
                    old(assets).balances@,
                    who,
                    bag,
                    class_ids@,
                    asset::vec_views(asset_ids@),
                    asset::vec_views(amounts@),
                    class_ids@.len(),
                );
                &&& !old(self).bags@.contains_key(bag) ==> r == berr::<()>(Error::InvalidBag)
                &&& old(self).bags@.contains_key(bag) && (class_ids.len() != amounts.len() || asset_ids.len() != amounts.len())
                    ==> r == berr::<()>(Error::InvalidArrayLength)
                &&& old(self).bags@.contains_key(bag) && class_ids.len() == amounts.len() && asset_ids.len() == amounts.len() ==> {
                    &&& r == res
                    &&& res is Ok ==> final(assets).balances@ == b
                        && asset::events_extended(old(assets).events@, final(assets).events@)
                        && final(self).events@.len() == old(self).events@.len() + 1
                        && final(self).events@.drop_last() == old(self).events@
                        && (final(self).events@.last() matches Event::Deposit { bag: x, who: w } && x == bag && w == who)
                }
            }),
    {
        let who = ensure_signed(origin)?;
        let saved_balances = assets.balances.clone();
        let n_events = assets.events.len();
        let r = self.do_deposit(assets, who, bag, class_ids, asset_ids, amounts);
        if r.is_err() {
            assets.balances = saved_balances;
            assets.events.truncate(n_events);
            assert(assets.events@ =~= old(assets).events@);
        }
        r
    }

    /// `do_sweep` for the signer; a failed call changes nothing.
    pub fn sweep(&mut self, assets: &mut asset::Pallet, origin: Origin, to: u64, bag: u64) -> (r: Result<(), DispatchError>)
        ensures
            same_bags(old(self), final(self)),
            final(self).next_bag_id@ == old(self).next_bag_id@,
            asset::same_registry(old(assets), final(assets)),
            !(origin is Signed) ==> r == Err::<(), DispatchError>(DispatchError::BadOrigin),
            r is Err ==> final(self).events@ == old(self).events@ && asset::unchanged(old(assets), final(assets)),
            r is Ok && to != bag ==> forall|c: u64, a: u64| #[trigger] balance_in(final(assets).balances@, (bag, c, a)) == 0,
            origin is Signed ==> ({
                let who = origin->Signed_0;
                &&& !old(self).bags@.contains_key(bag) ==> r == berr::<()>(Error::InvalidBag)
                &&& old(self).bags@.contains_key(bag) ==> {
                    let info = old(self).bags@[bag];
                    let key = (who, info.class_id, info.asset_id);
                    let burnt = old(assets).balances@.insert(key, 0);
                    &&& balance_in(old(assets).balances@, key) != info.total_shares ==> r == berr::<()>(Error::InsufficientShares)
                    &&& balance_in(old(assets).balances@, key) == info.total_shares ==> exists|v: Seq<(u64, u64, u128)>| {
                        let (b, res) = sweep_moves(burnt, bag, to, v);
                        &&& #[trigger] asset::owner_listing(burnt, bag, v)
                        &&& asset::pairs_increasing(v)
                        &&& r == res
                        &&& res is Ok ==> final(assets).balances@ == b
                            && asset::events_extended(old(assets).events@, final(assets).events@)
                            && final(self).events@.len() == old(self).events@.len() + 1
                            && final(self).events@.drop_last() == old(self).events@
                            && (final(self).events@.last() matches Event::Sweep { bag: x, who: w, to: t } && x == bag && w == who && t == to)
                    }
                }
            }),
    {
        let who = ensure_signed(origin)?;
        let saved_balances = assets.balances.clone();
        let n_events = assets.events.len();
        let r = self.do_sweep(assets, who, to, bag);
        match r {
            Ok(_) => Ok(()),
            Err(e) => {
                assets.balances = saved_balances;
                assets.events.truncate(n_events);
                assert(assets.events@ =~= old(assets).events@);
                Err(e)
            },
        }
    }
}

} // verus!
