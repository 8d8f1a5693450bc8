//! The asset pallet: classes of assets owned by an account, assets within a
//! class, and balances of every (account, class, asset).
use vstd::prelude::*;
use std::collections::BTreeMap;
use crate::ledger::{
    Balances, apply_all, apply_ops, balance_at, balance_in, credit_ops, debit_ops, lemma_apply_single, move_ops, BalanceKey,
    LedgerOp,
};
use crate::primitives::{ensure_signed, DispatchError, Origin};
use vstd::std_specs::btree::spec_btree_map_iter;
use vstd::std_specs::iter::IteratorSpec;
use crate::traits::{reserve_effect, same_funds, ReservableCurrency};

verus! {

broadcast use vstd::laws_cmp::group_laws_cmp;

/// A class of assets.
#[derive(Clone, Debug, PartialEq, Eq)]
pub struct Class {
    pub owner: u64,
    pub metadata: Vec<u8>,
}

/// An asset within a class.
#[derive(Clone, Debug, PartialEq, Eq)]
pub struct Asset {
    pub class_id: u64,
    pub creator: u64,
    pub metadata: Vec<u8>,
}

#[derive(Debug, PartialEq, Eq)]
pub enum Event {
    ClassCreated { class_id: u64, who: u64 },
    AssetCreated { class_id: u64, asset_id: u64, who: u64 },
    AssetMetadataUpdated { class_id: u64, asset_id: u64, who: u64, metadata: Vec<u8> },
    Mint { who: u64, to: u64, class_id: u64, asset_id: u64, amount: u128 },
    BatchMint { who: u64, to: u64, class_id: u64, asset_ids: Vec<u64>, amounts: Vec<u128> },
    Burn { who: u64, from: u64, class_id: u64, asset_id: u64, amount: u128 },
    BatchBurn { who: u64, from: u64, class_id: u64, asset_ids: Vec<u64>, amounts: Vec<u128> },
    Transferred { who: u64, from: u64, to: u64, class_id: u64, asset_id: u64, amount: u128 },
    BatchTransferred { who: u64, from: u64, to: u64, class_id: u64, asset_ids: Vec<u64>, amounts: Vec<u128> },
    OperatorApprovalForAll { who: u64, operator: u64, class_id: u64, approved: bool },
}

#[derive(Clone, Copy, PartialEq, Eq, Debug)]
pub enum Error {
    Unknown,
    InUse,
    InvalidAssetId,
    InsufficientBalance,
    NumOverflow,
    InvalidArrayLength,
    Overflow,
    InvalidClassId,
    NoPermission,
    ClassNotFound,
    AssetNotFound,
}

/// The pallet's state and configuration.
pub struct Pallet {
    /// The deposit reserved from the creator of a class.
    pub create_asset_class_deposit: u128,
    pub classes: BTreeMap<u64, Class>,
    /// Keyed by (class, asset).
    pub assets: BTreeMap<(u64, u64), Asset>,
    /// The number of assets created in each class.
    pub asset_count: BTreeMap<u64, u64>,
    /// Keyed by (account, class, asset).
    pub balances: BTreeMap<BalanceKey, u128>,
    pub events: Vec<Event>,
}

/// A dispatch error of this pallet.
pub open spec fn err(e: Error) -> Result<(), DispatchError> {
    Err(DispatchError::Asset(e))
}

/// Whether `who` may manage `class_id`: the class exists and `who` owns it.
pub open spec fn owner_check(classes: Map<u64, Class>, who: u64, class_id: u64) -> Result<(), DispatchError> {
    if !classes.contains_key(class_id) {
        err(Error::InvalidClassId)
    } else if classes[class_id].owner != who {
        err(Error::NoPermission)
    } else {
        Ok(())
    }
}

/// The number of assets counted for a class, zero where there is none.
pub open spec fn count_in(c: Map<u64, u64>, class_id: u64) -> u64 {
    if c.contains_key(class_id) { c[class_id] } else { 0 }
}

/// Two states that hold the same data.
pub open spec fn unchanged(a: &Pallet, b: &Pallet) -> bool {
    &&& a.create_asset_class_deposit == b.create_asset_class_deposit
    &&& a.classes@ == b.classes@
    &&& a.assets@ == b.assets@
    &&& a.asset_count@ == b.asset_count@
    &&& a.balances@ == b.balances@
    &&& a.events@ == b.events@
}

/// Two states that differ at most in their balances and events.
pub open spec fn same_registry(a: &Pallet, b: &Pallet) -> bool {
    &&& a.create_asset_class_deposit == b.create_asset_class_deposit
    &&& a.classes@ == b.classes@
    &&& a.assets@ == b.assets@
    &&& a.asset_count@ == b.asset_count@
}

/// Two states that differ at most in their classes, balances and events.
pub open spec fn same_registry_but_classes(a: &Pallet, b: &Pallet) -> bool {
    &&& a.create_asset_class_deposit == b.create_asset_class_deposit
    &&& a.assets@ == b.assets@
    &&& a.asset_count@ == b.asset_count@
}

/// The outcome of a ledger program on `old`'s balances: `new` holds its
/// balances, and `r` is `Ok` exactly where the program ran to the end and
/// `NumOverflow` otherwise; on success `e` is appended to the events.
pub open spec fn ledger_outcome(old: &Pallet, new: &Pallet, ops: Seq<LedgerOp>, e: Event, r: Result<(), DispatchError>) -> bool {
    let (b, ok) = apply_ops(old.balances@, ops);
    &&& same_registry(old, new)
    &&& new.balances@ == b
    &&& (ok <==> r is Ok)
    &&& (!ok ==> r == err(Error::NumOverflow) && new.events@ == old.events@)
    &&& (ok ==> new.events@ == old.events@.push(e))
}

/// `v` lists the balances of `owner` in `b`: each entry is a balance of the
/// owner, every balance of the owner is listed, and no (class, asset) twice.
pub open spec fn owner_listing(b: Map<BalanceKey, u128>, owner: u64, v: Seq<(u64, u64, u128)>) -> bool {
    &&& forall|i: int| 0 <= i < v.len() ==> b.contains_key((owner, #[trigger] v[i].0, v[i].1)) && b[(owner, v[i].0, v[i].1)] == v[i].2
    &&& forall|c: u64, a: u64| #[trigger] b.contains_key((owner, c, a)) ==> exists|i: int| 0 <= i < v.len() && v[i].0 == c && v[i].1 == a
    &&& forall|i: int, k: int| 0 <= i < k < v.len() ==> (v[i].0, v[i].1) != (v[k].0, v[k].1)
}

/// `v` lists (class, asset) pairs in increasing order: by class, then by
/// asset.
pub open spec fn pairs_increasing(v: Seq<(u64, u64, u128)>) -> bool {
    forall|i: int, k: int| 0 <= i < k < v.len() ==> #[trigger] v[i].0 < #[trigger] v[k].0 || (v[i].0 == v[k].0 && v[i].1 < v[k].1)
}

/// `v` lists assets in increasing order.
pub open spec fn assets_increasing(v: Seq<(u64, u128)>) -> bool {
    forall|i: int, k: int| 0 <= i < k < v.len() ==> #[trigger] v[i].0 < #[trigger] v[k].0
}

/// Balance keys in increasing order: by account, then class, then asset.
pub open spec fn key_lt(a: BalanceKey, b: BalanceKey) -> bool {
    a.0 < b.0 || (a.0 == b.0 && (a.1 < b.1 || (a.1 == b.1 && a.2 < b.2)))
}

/// A balance map is walked in increasing key order.
proof fn lemma_walk_increasing(s: Seq<(&BalanceKey, &u128)>)
    requires
        vstd::std_specs::btree::increasing_seq(s.map_values(|kv: (&BalanceKey, &u128)| *kv.0)),
    ensures
        forall|i: int, j: int| 0 <= i < j < s.len() ==> key_lt(*(#[trigger] s[i]).0, *(#[trigger] s[j]).0),
{
    let ks = s.map_values(|kv: (&BalanceKey, &u128)| *kv.0);
    assert forall|i: int, j: int| 0 <= i < j < s.len() implies key_lt(*(#[trigger] s[i]).0, *(#[trigger] s[j]).0) by {
        assert(ks[i] == *s[i].0);
        assert(ks[j] == *s[j].0);
        assert(vstd::std_specs::cmp::OrdSpec::cmp_spec(&ks[i], &ks[j]) is Less);
    }
}

/// `v` lists the balances of `owner` in class `class_id`, each asset once.
pub open spec fn class_listing(b: Map<BalanceKey, u128>, owner: u64, class_id: u64, v: Seq<(u64, u128)>) -> bool {
    &&& forall|i: int| 0 <= i < v.len() ==> b.contains_key((owner, class_id, #[trigger] v[i].0)) && b[(owner, class_id, v[i].0)] == v[i].1
    &&& forall|a: u64| #[trigger] b.contains_key((owner, class_id, a)) ==> exists|i: int| 0 <= i < v.len() && v[i].0 == a
    &&& forall|i: int, k: int| 0 <= i < k < v.len() ==> v[i].0 != v[k].0
}

/// The all-or-nothing outcome of a ledger program run by a dispatched call:
/// either every step succeeds and `e` is recorded, or nothing changes and the
/// call fails with `NumOverflow`.
pub open spec fn atomic_outcome(old: &Pallet, new: &Pallet, ops: Seq<LedgerOp>, e: Event, r: Result<(), DispatchError>) -> bool {
    let (b, ok) = apply_ops(old.balances@, ops);
    &&& ok ==> r is Ok && same_registry(old, new) && new.balances@ == b && new.events@ == old.events@.push(e)
    &&& !ok ==> r == err(Error::NumOverflow) && unchanged(old, new)
}

/// Builds the credits of `amounts[i]` of `asset_ids[i]` to `to`.
pub fn credit_program(to: u64, class_id: u64, asset_ids: &Vec<u64>, amounts: &Vec<u128>) -> (r: Vec<LedgerOp>)
    requires
        asset_ids.len() == amounts.len(),
    ensures
        r@ == credit_ops(to, class_id, asset_ids@, amounts@),
{
    let mut r: Vec<LedgerOp> = Vec::new();
    let n = asset_ids.len();
    for i in 0..n
        invariant
            n == asset_ids.len(),
            n == amounts.len(),
            r@ == credit_ops(to, class_id, asset_ids@, amounts@).take(i as int),
    {
        r.push(LedgerOp::Credit { key: (to, class_id, asset_ids[i]), amount: amounts[i] });
        assert(r@ =~= credit_ops(to, class_id, asset_ids@, amounts@).take(i + 1));
    }
    assert(r@ =~= credit_ops(to, class_id, asset_ids@, amounts@));
    r
}

/// Builds the debits of `amounts[i]` of `asset_ids[i]` from `from`.
pub fn debit_program(from: u64, class_id: u64, asset_ids: &Vec<u64>, amounts: &Vec<u128>) -> (r: Vec<LedgerOp>)
    requires
        asset_ids.len() == amounts.len(),
    ensures
        r@ == debit_ops(from, class_id, asset_ids@, amounts@),
{
    let mut r: Vec<LedgerOp> = Vec::new();
    let n = asset_ids.len();
    for i in 0..n
        invariant
            n == asset_ids.len(),
            n == amounts.len(),
            r@ == debit_ops(from, class_id, asset_ids@, amounts@).take(i as int),
    {
        r.push(LedgerOp::Debit { key: (from, class_id, asset_ids[i]), amount: amounts[i] });
        assert(r@ =~= debit_ops(from, class_id, asset_ids@, amounts@).take(i + 1));
    }
    assert(r@ =~= debit_ops(from, class_id, asset_ids@, amounts@));
    r
}

/// Builds the moves of `amounts[i]` of `asset_ids[i]` from `from` to `to`.
pub fn move_program(from: u64, to: u64, class_id: u64, asset_ids: &Vec<u64>, amounts: &Vec<u128>) -> (r: Vec<LedgerOp>)
    requires
        asset_ids.len() == amounts.len(),
    ensures
        r@ == move_ops(from, to, class_id, asset_ids@, amounts@),
{
    let mut r: Vec<LedgerOp> = Vec::new();
    let n = asset_ids.len();
    for i in 0..n
        invariant
            n == asset_ids.len(),
            n == amounts.len(),
            r@ == move_ops(from, to, class_id, asset_ids@, amounts@).take(i as int),
    {
        r.push(LedgerOp::Move { from: (from, class_id, asset_ids[i]), to: (to, class_id, asset_ids[i]), amount: amounts[i] });
        assert(r@ =~= move_ops(from, to, class_id, asset_ids@, amounts@).take(i + 1));
    }
    assert(r@ =~= move_ops(from, to, class_id, asset_ids@, amounts@));
    r
}

/// `new` extends `old`: the events already recorded stay first.
pub open spec fn events_extended(old: Seq<Event>, new: Seq<Event>) -> bool {
    old.len() <= new.len() && new.subrange(0, old.len() as int) == old
}

/// The balances and result of a ledger program run by one call.
pub open spec fn program_outcome(b: Balances, ops: Seq<LedgerOp>) -> (Balances, Result<(), DispatchError>) {
    (apply_ops(b, ops).0, if apply_ops(b, ops).1 { Ok(()) } else { err(Error::NumOverflow) })
}

/// Runs `next` on the balances that `first` left, where `first` succeeded.
pub open spec fn then_run(
    first: (Balances, Result<(), DispatchError>),
    next: spec_fn(Balances) -> (Balances, Result<(), DispatchError>),
) -> (Balances, Result<(), DispatchError>) {
    if first.1 is Ok { next(first.0) } else { first }
}

/// The balances and result of `do_transfer_from`.
pub open spec fn transfer_outcome(b: Balances, from: u64, to: u64, class_id: u64, asset_id: u64, amount: u128)
    -> (Balances, Result<(), DispatchError>)
{
    if from == to || amount == 0 {
        (b, Ok(()))
    } else {
        program_outcome(b, seq![LedgerOp::Move { from: (from, class_id, asset_id), to: (to, class_id, asset_id), amount }])
    }
}

/// The balances and result of `do_batch_transfer_from`.
pub open spec fn batch_transfer_outcome(b: Balances, from: u64, to: u64, class_id: u64, asset_ids: Seq<u64>, amounts: Seq<u128>)
    -> (Balances, Result<(), DispatchError>)
{
    if from == to {
        (b, Ok(()))
    } else if asset_ids.len() != amounts.len() {
        (b, err(Error::InvalidArrayLength))
    } else {
        program_outcome(b, move_ops(from, to, class_id, asset_ids, amounts))
    }
}

/// The balances and result of `do_batch_mint`.
pub open spec fn batch_mint_outcome(b: Balances, to: u64, class_id: u64, asset_ids: Seq<u64>, amounts: Seq<u128>)
    -> (Balances, Result<(), DispatchError>)
{
    if asset_ids.len() != amounts.len() {
        (b, err(Error::InvalidArrayLength))
    } else {
        program_outcome(b, credit_ops(to, class_id, asset_ids, amounts))
    }
}

/// The balances and result of `do_batch_burn`.
pub open spec fn batch_burn_outcome(b: Balances, from: u64, class_id: u64, asset_ids: Seq<u64>, amounts: Seq<u128>)
    -> (Balances, Result<(), DispatchError>)
{
    if asset_ids.len() != amounts.len() {
        (b, err(Error::InvalidArrayLength))
    } else {
        program_outcome(b, debit_ops(from, class_id, asset_ids, amounts))
    }
}

/// Moves, class by class, `amounts[i]` of `asset_ids[i]` in class
/// `class_ids[i]` from `from` to `to`, through the first `n` classes: the
/// balances reached and how the run ended. A class whose two lists differ in
/// length stops the run; nothing moves where `from` and `to` are the same.
pub open spec fn moves_by_class(
    b: Balances,
    from: u64,
    to: u64,
    class_ids: Seq<u64>,
    asset_ids: Seq<Seq<u64>>,
    amounts: Seq<Seq<u128>>,
    n: nat,
) -> (Balances, Result<(), DispatchError>)
    decreases n,
{
    if n == 0 {
        (b, Ok(()))
    } else {
        let (m, r) = moves_by_class(b, from, to, class_ids, asset_ids, amounts, (n - 1) as nat);
        let i = n - 1;
        if r is Err {
            (m, r)
        } else if asset_ids[i].len() != amounts[i].len() {
            (m, Err(DispatchError::Asset(Error::InvalidArrayLength)))
        } else if from == to {
            (m, Ok(()))
        } else {
            let (m2, ok) = apply_ops(m, move_ops(from, to, class_ids[i], asset_ids[i], amounts[i]));
            (m2, if ok { Ok(()) } else { Err(DispatchError::Asset(Error::NumOverflow)) })
        }
    }
}

/// Runs `do_batch_transfer_from` from `from` to `to` for the first `n`
/// classes in turn, as long as each succeeds: the balances reached and how
/// the run ended.
pub open spec fn batches_outcome(
    b: Balances,
    from: u64,
    to: u64,
    class_ids: Seq<u64>,
    asset_ids: Seq<Seq<u64>>,
    amounts: Seq<Seq<u128>>,
    n: nat,
) -> (Balances, Result<(), DispatchError>)
    decreases n,
{
    if n == 0 {
        (b, Ok(()))
    } else {
        let (m, r) = batches_outcome(b, from, to, class_ids, asset_ids, amounts, (n - 1) as nat);
        if r is Err {
            (m, r)
        } else {
            batch_transfer_outcome(m, from, to, class_ids[n - 1], asset_ids[n - 1], amounts[n - 1])
        }
    }
}

pub open spec fn vec_views<T>(v: Seq<Vec<T>>) -> Seq<Seq<T>> {
    v.map_values(|x: Vec<T>| x@)
}

impl Pallet {
    /// An empty pallet that takes `create_asset_class_deposit` for each class.
    pub fn new(create_asset_class_deposit: u128) -> (r: Pallet)
        ensures
            r.create_asset_class_deposit == create_asset_class_deposit,
            r.classes@ == Map::<u64, Class>::empty(),
            r.assets@ == Map::<(u64, u64), Asset>::empty(),
            r.asset_count@ == Map::<u64, u64>::empty(),
            r.balances@ == Map::<BalanceKey, u128>::empty(),
            r.events@ == Seq::<Event>::empty(),
    {
        Pallet {
            create_asset_class_deposit,
            classes: BTreeMap::new(),
            assets: BTreeMap::new(),
            asset_count: BTreeMap::new(),
            balances: BTreeMap::new(),
            events: Vec::new(),
        }
    }

    /// Runs a ledger program on the balances and records `e` on success.
    fn run_program(&mut self, ops: &Vec<LedgerOp>, e: Event) -> (r: Result<(), DispatchError>)
        ensures
            ledger_outcome(old(self), final(self), ops@, e, r),
            final(self).events@.len() <= old(self).events@.len() + 1,
            events_extended(old(self).events@, final(self).events@),
            (final(self).balances@, r) == program_outcome(old(self).balances@, ops@),
    {
        let ok = apply_all(&mut self.balances, ops);
        assert(self.events@.subrange(0, self.events@.len() as int) =~= self.events@);
        if ok {
            self.events.push(e);
            assert(self.events@.subrange(0, old(self).events@.len() as int) =~= old(self).events@);
            Ok(())
        } else {
            Err(DispatchError::Asset(Error::NumOverflow))
        }
    }

    fn maybe_check_owner(&self, who: u64, class_id: u64) -> (r: Result<(), DispatchError>)
        ensures
            r == owner_check(self.classes@, who, class_id),
    {
        match self.classes.get(&class_id) {
            None => Err(DispatchError::Asset(Error::InvalidClassId)),
            Some(class) => {
                if who == class.owner {
                    Ok(())
                } else {
                    Err(DispatchError::Asset(Error::NoPermission))
                }
            },
        }
    }

    /// Creates class `class_id` owned by `owner`, reserving the class deposit
    /// from `who`.
    pub fn do_create_class<C: ReservableCurrency>(
        &mut self,
        currency: &mut C,
        who: u64,
        owner: u64,
        class_id: u64,
        metadata: Vec<u8>,
    ) -> (r: Result<(), DispatchError>)
        ensures
            old(self).classes@.contains_key(class_id) ==> r == err(Error::InvalidClassId),
            !old(self).classes@.contains_key(class_id) ==> (r is Ok <==> old(currency).reserve_allowed(who, old(self).create_asset_class_deposit)),
            r is Ok ==> {
                &&& !old(self).classes@.contains_key(class_id)
                &&& reserve_effect(*old(currency), *final(currency), who, old(self).create_asset_class_deposit)
                &&& final(self).classes@ == old(self).classes@.insert(class_id, Class { owner, metadata })
                &&& final(self).events@ == old(self).events@.push(Event::ClassCreated { class_id, who })
                &&& final(self).assets@ == old(self).assets@
                &&& final(self).asset_count@ == old(self).asset_count@
                &&& final(self).balances@ == old(self).balances@
                &&& final(self).create_asset_class_deposit == old(self).create_asset_class_deposit
            },
            r is Err ==> unchanged(old(self), final(self)) && same_funds(*old(currency), *final(currency)),
    {
        if self.classes.contains_key(&class_id) {
            return Err(DispatchError::Asset(Error::InvalidClassId));
        }
        let deposit = self.create_asset_class_deposit;
        currency.reserve(who, deposit)?;
        self.classes.insert(class_id, Class { owner, metadata });
        self.events.push(Event::ClassCreated { class_id, who });
        Ok(())
    }

    /// Creates asset `asset_id` in `class_id`; only the class owner may.
    pub fn do_create_asset(&mut self, who: u64, class_id: u64, asset_id: u64, metadata: Vec<u8>) -> (r: Result<(), DispatchError>)
        ensures
            owner_check(old(self).classes@, who, class_id) is Err ==> r == owner_check(old(self).classes@, who, class_id)
                && unchanged(old(self), final(self)),
            owner_check(old(self).classes@, who, class_id) is Ok && old(self).assets@.contains_key((class_id, asset_id))
                ==> r == err(Error::InUse) && unchanged(old(self), final(self)),
            owner_check(old(self).classes@, who, class_id) is Ok && !old(self).assets@.contains_key((class_id, asset_id))
                ==> {
                &&& final(self).assets@ == old(self).assets@.insert((class_id, asset_id), Asset { class_id, creator: who, metadata })
                &&& final(self).classes@ == old(self).classes@
                &&& final(self).balances@ == old(self).balances@
                &&& final(self).create_asset_class_deposit == old(self).create_asset_class_deposit
                &&& if count_in(old(self).asset_count@, class_id) < u64::MAX {
                    &&& r is Ok
                    &&& final(self).asset_count@ == old(self).asset_count@.insert(class_id, (count_in(old(self).asset_count@, class_id) + 1) as u64)
                    &&& final(self).events@ == old(self).events@.push(Event::AssetCreated { class_id, asset_id, who })
                } else {
                    &&& r == err(Error::NumOverflow)
                    &&& final(self).asset_count@ == old(self).asset_count@
                    &&& final(self).events@ == old(self).events@
                }
            },
    {
        self.maybe_check_owner(who, class_id)?;
        if self.assets.contains_key(&(class_id, asset_id)) {
            return Err(DispatchError::Asset(Error::InUse));
        }
        self.assets.insert((class_id, asset_id), Asset { class_id, creator: who, metadata });
        let count: u64 = match self.asset_count.get(&class_id) {
            Some(c) => *c,
            None => 0,
        };
        match count.checked_add(1) {
            Some(c) => {
                self.asset_count.insert(class_id, c);
            },
            None => {
                return Err(DispatchError::Asset(Error::NumOverflow));
            },
        }
        self.events.push(Event::AssetCreated { class_id, asset_id, who });
        Ok(())
    }

    /// Replaces the metadata of `class_id`; only the class owner may.
    pub fn do_update_class_metadata(&mut self, who: u64, class_id: u64, metadata: Vec<u8>) -> (r: Result<(), DispatchError>)
        ensures
            r == owner_check(old(self).classes@, who, class_id),
            r is Err ==> unchanged(old(self), final(self)),
            r is Ok ==> {
                &&& final(self).classes@ == old(self).classes@.insert(
                    class_id,
                    Class { owner: old(self).classes@[class_id].owner, metadata },
                )
                &&& final(self).assets@ == old(self).assets@
                &&& final(self).asset_count@ == old(self).asset_count@
                &&& final(self).balances@ == old(self).balances@
                &&& final(self).events@ == old(self).events@
                &&& final(self).create_asset_class_deposit == old(self).create_asset_class_deposit
            },
    {
        self.maybe_check_owner(who, class_id)?;
        let owner = match self.classes.get(&class_id) {
            Some(class) => class.owner,
            None => {
                return Err(DispatchError::Asset(Error::InvalidClassId));
            },
        };
        self.classes.insert(class_id, Class { owner, metadata });
        Ok(())
    }

    /// Replaces the metadata of an asset; only the class owner may.
    pub fn do_update_asset_metadata(&mut self, who: u64, class_id: u64, asset_id: u64, metadata: Vec<u8>) -> (r: Result<(), DispatchError>)
        ensures
            owner_check(old(self).classes@, who, class_id) is Err ==> r == owner_check(old(self).classes@, who, class_id),
            owner_check(old(self).classes@, who, class_id) is Ok && !old(self).assets@.contains_key((class_id, asset_id))
                ==> r == err(Error::InvalidAssetId),
            owner_check(old(self).classes@, who, class_id) is Ok && old(self).assets@.contains_key((class_id, asset_id)) ==> r is Ok,
            r is Err ==> unchanged(old(self), final(self)),
            r is Ok ==> {
                let a = old(self).assets@[(class_id, asset_id)];
                &&& owner_check(old(self).classes@, who, class_id) is Ok
                &&& old(self).assets@.contains_key((class_id, asset_id))
                &&& final(self).assets@.dom() == old(self).assets@.dom()
                &&& forall|k: (u64, u64)| k != (class_id, asset_id) ==> #[trigger] final(self).assets@[k] == old(self).assets@[k]
                &&& final(self).assets@[(class_id, asset_id)].class_id == a.class_id
                &&& final(self).assets@[(class_id, asset_id)].creator == a.creator
                &&& final(self).assets@[(class_id, asset_id)].metadata@ == metadata@
                &&& final(self).events@ == old(self).events@.push(Event::AssetMetadataUpdated { class_id, asset_id, who, metadata })
                &&& final(self).classes@ == old(self).classes@
                &&& final(self).asset_count@ == old(self).asset_count@
                &&& final(self).balances@ == old(self).balances@
                &&& final(self).create_asset_class_deposit == old(self).create_asset_class_deposit
            },
    {
        self.maybe_check_owner(who, class_id)?;
        let (c, creator) = match self.assets.get(&(class_id, asset_id)) {
            Some(a) => (a.class_id, a.creator),
            None => {
                return Err(DispatchError::Asset(Error::InvalidAssetId));
            },
        };
        let copy = metadata.clone();
        assert(copy@ =~= metadata@);
        self.assets.insert((class_id, asset_id), Asset { class_id: c, creator, metadata: copy });
        self.events.push(Event::AssetMetadataUpdated { class_id, asset_id, who, metadata });
        Ok(())
    }

    /// Whether class `class_id` exists.
    pub fn class_exists(&self, class_id: u64) -> (r: bool)
        ensures
            r == self.classes@.contains_key(class_id),
    {
        self.classes.contains_key(&class_id)
    }

    /// Whether class `class_id` exists and `who` owns it.
    pub fn account_is_owner(&self, who: u64, class_id: u64) -> (r: bool)
        ensures
            r == (self.classes@.contains_key(class_id) && self.classes@[class_id].owner == who),
    {
        match self.classes.get(&class_id) {
            Some(class) => class.owner == who,
            None => false,
        }
    }

    /// Whether asset `asset_id` exists in class `class_id`.
    pub fn asset_exists(&self, class_id: u64, asset_id: u64) -> (r: bool)
        ensures
            r == self.assets@.contains_key((class_id, asset_id)),
    {
        self.assets.contains_key(&(class_id, asset_id))
    }

    /// Adds `amount` of an asset to `to`.
    pub fn do_mint(&mut self, who: u64, to: u64, class_id: u64, asset_id: u64, amount: u128) -> (r: Result<(), DispatchError>)
        ensures
            ledger_outcome(
                old(self),
                final(self),
                seq![LedgerOp::Credit { key: (to, class_id, asset_id), amount }],
                Event::Mint { who, to, class_id, asset_id, amount },
                r,
            ),
            final(self).events@.len() <= old(self).events@.len() + 1,
            (final(self).balances@, r) == program_outcome(old(self).balances@, seq![LedgerOp::Credit { key: (to, class_id, asset_id), amount }]),
            events_extended(old(self).events@, final(self).events@),
    {
        let ops = vec![LedgerOp::Credit { key: (to, class_id, asset_id), amount }];
        assert(ops@ =~= seq![LedgerOp::Credit { key: (to, class_id, asset_id), amount }]);
        self.run_program(&ops, Event::Mint { who, to, class_id, asset_id, amount })
    }

    /// Adds `amounts[i]` of `asset_ids[i]` to `to`, in order.
    pub fn do_batch_mint(&mut self, who: u64, to: u64, class_id: u64, asset_ids: Vec<u64>, amounts: Vec<u128>) -> (r: Result<(), DispatchError>)
        ensures
            asset_ids.len() != amounts.len() ==> r == err(Error::InvalidArrayLength) && unchanged(old(self), final(self)),
            asset_ids.len() == amounts.len() ==> ledger_outcome(
                old(self),
                final(self),
                credit_ops(to, class_id, asset_ids@, amounts@),
                Event::BatchMint { who, to, class_id, asset_ids, amounts },
                r,
            ),
            final(self).events@.len() <= old(self).events@.len() + 1,
            (final(self).balances@, r) == batch_mint_outcome(old(self).balances@, to, class_id, asset_ids@, amounts@),
            same_registry(old(self), final(self)),
            events_extended(old(self).events@, final(self).events@),
    {
        assert(self.events@.subrange(0, self.events@.len() as int) =~= self.events@);
        if asset_ids.len() != amounts.len() {
            return Err(DispatchError::Asset(Error::InvalidArrayLength));
        }
        let ops = credit_program(to, class_id, &asset_ids, &amounts);
        self.run_program(&ops, Event::BatchMint { who, to, class_id, asset_ids, amounts })
    }

    /// Removes `amount` of an asset from `from`.
    pub fn do_burn(&mut self, who: u64, from: u64, class_id: u64, asset_id: u64, amount: u128) -> (r: Result<(), DispatchError>)
        ensures
            ledger_outcome(
                old(self),
                final(self),
                seq![LedgerOp::Debit { key: (from, class_id, asset_id), amount }],
                Event::Burn { who, from, class_id, asset_id, amount },
                r,
            ),
            final(self).events@.len() <= old(self).events@.len() + 1,
            (final(self).balances@, r) == program_outcome(old(self).balances@, seq![LedgerOp::Debit { key: (from, class_id, asset_id), amount }]),
            events_extended(old(self).events@, final(self).events@),
    {
        let ops = vec![LedgerOp::Debit { key: (from, class_id, asset_id), amount }];
        assert(ops@ =~= seq![LedgerOp::Debit { key: (from, class_id, asset_id), amount }]);
        self.run_program(&ops, Event::Burn { who, from, class_id, asset_id, amount })
    }

    /// Removes `amounts[i]` of `asset_ids[i]` from `from`, in order.
    pub fn do_batch_burn(&mut self, who: u64, from: u64, class_id: u64, asset_ids: Vec<u64>, amounts: Vec<u128>) -> (r: Result<(), DispatchError>)
        ensures
            asset_ids.len() != amounts.len() ==> r == err(Error::InvalidArrayLength) && unchanged(old(self), final(self)),
            asset_ids.len() == amounts.len() ==> ledger_outcome(
                old(self),
                final(self),
                debit_ops(from, class_id, asset_ids@, amounts@),
                Event::BatchBurn { who, from, class_id, asset_ids, amounts },
                r,
            ),
            final(self).events@.len() <= old(self).events@.len() + 1,
            (final(self).balances@, r) == batch_burn_outcome(old(self).balances@, from, class_id, asset_ids@, amounts@),
            same_registry(old(self), final(self)),
            events_extended(old(self).events@, final(self).events@),
    {
        assert(self.events@.subrange(0, self.events@.len() as int) =~= self.events@);
        if asset_ids.len() != amounts.len() {
            return Err(DispatchError::Asset(Error::InvalidArrayLength));
        }
        let ops = debit_program(from, class_id, &asset_ids, &amounts);
        self.run_program(&ops, Event::BatchBurn { who, from, class_id, asset_ids, amounts })
    }

    /// Moves `amount` of an asset from `from` to `to`; nothing happens where
    /// the two are the same account or the amount is zero.
    pub fn do_transfer_from(&mut self, who: u64, from: u64, to: u64, class_id: u64, asset_id: u64, amount: u128) -> (r: Result<(), DispatchError>)
        ensures
            from == to || amount == 0 ==> r is Ok && unchanged(old(self), final(self)),
            from != to && amount != 0 ==> ledger_outcome(
                old(self),
                final(self),
                seq![LedgerOp::Move { from: (from, class_id, asset_id), to: (to, class_id, asset_id), amount }],
                Event::Transferred { who, from, to, class_id, asset_id, amount },
                r,
            ),
            final(self).events@.len() <= old(self).events@.len() + 1,
            (final(self).balances@, r) == transfer_outcome(old(self).balances@, from, to, class_id, asset_id, amount),
            same_registry(old(self), final(self)),
            events_extended(old(self).events@, final(self).events@),
    {
        assert(self.events@.subrange(0, self.events@.len() as int) =~= self.events@);
        if from == to || amount == 0 {
            return Ok(());
        }
        let ops = vec![LedgerOp::Move { from: (from, class_id, asset_id), to: (to, class_id, asset_id), amount }];
        assert(ops@ =~= seq![LedgerOp::Move { from: (from, class_id, asset_id), to: (to, class_id, asset_id), amount }]);
        self.run_program(&ops, Event::Transferred { who, from, to, class_id, asset_id, amount })
    }

    /// Moves `amounts[i]` of `asset_ids[i]` from `from` to `to`, in order;
    /// nothing happens where the two are the same account.
    pub fn do_batch_transfer_from(
        &mut self,
        who: u64,
        from: u64,
        to: u64,
        class_id: u64,
        asset_ids: Vec<u64>,
        amounts: Vec<u128>,
    ) -> (r: Result<(), DispatchError>)
        ensures
            from == to ==> r is Ok && unchanged(old(self), final(self)),
            from != to && asset_ids.len() != amounts.len() ==> r == err(Error::InvalidArrayLength) && unchanged(old(self), final(self)),
            from != to && asset_ids.len() == amounts.len() ==> ledger_outcome(
                old(self),
                final(self),
                move_ops(from, to, class_id, asset_ids@, amounts@),
                Event::BatchTransferred { who, from, to, class_id, asset_ids, amounts },
                r,
            ),
            final(self).events@.len() <= old(self).events@.len() + 1,
            (final(self).balances@, r) == batch_transfer_outcome(old(self).balances@, from, to, class_id, asset_ids@, amounts@),
            same_registry(old(self), final(self)),
            events_extended(old(self).events@, final(self).events@),
    {
        assert(self.events@.subrange(0, self.events@.len() as int) =~= self.events@);
        if from == to {
            return Ok(());
        }
        if asset_ids.len() != amounts.len() {
            return Err(DispatchError::Asset(Error::InvalidArrayLength));
        }
        let ops = move_program(from, to, class_id, &asset_ids, &amounts);
        self.run_program(&ops, Event::BatchTransferred { who, from, to, class_id, asset_ids, amounts })
    }

    /// The balance of `owner` in an asset.
    pub fn balance_of(&self, owner: u64, class_id: u64, asset_id: u64) -> (r: u128)
        ensures
            r == balance_in(self.balances@, (owner, class_id, asset_id)),
    {
        balance_at(&self.balances, (owner, class_id, asset_id))
    }

    /// The balances of `owners[i]` in `asset_ids[i]`.
    pub fn balance_of_batch(&self, owners: &Vec<u64>, class_id: u64, asset_ids: Vec<u64>) -> (r: Result<Vec<u128>, DispatchError>)
        ensures
            owners.len() != asset_ids.len() ==> r == Err::<Vec<u128>, DispatchError>(DispatchError::Asset(Error::InvalidArrayLength)),
            owners.len() == asset_ids.len() ==> (r matches Ok(v) && v@ == Seq::new(
                owners@.len(),
                |i: int| balance_in(self.balances@, (owners@[i], class_id, asset_ids@[i])),
            )),
    {
        if owners.len() != asset_ids.len() {
            return Err(DispatchError::Asset(Error::InvalidArrayLength));
        }
        let n = owners.len();
        let mut v: Vec<u128> = Vec::new();
        for i in 0..n
            invariant
                n == owners.len(),
                n == asset_ids.len(),
                v@ == Seq::new(i as nat, |j: int| balance_in(self.balances@, (owners@[j], class_id, asset_ids@[j]))),
        {
            v.push(balance_at(&self.balances, (owners[i], class_id, asset_ids[i])));
            assert(v@ =~= Seq::new((i + 1) as nat, |j: int| balance_in(self.balances@, (owners@[j], class_id, asset_ids@[j]))));
        }
        Ok(v)
    }

    /// The balances of `owner` in each of `asset_ids`.
    pub fn balance_of_single_owner_batch(&self, owner: u64, class_id: u64, asset_ids: Vec<u64>) -> (r: Result<Vec<u128>, DispatchError>)
        ensures
            r matches Ok(v) && v@ == Seq::new(asset_ids@.len(), |i: int| balance_in(self.balances@, (owner, class_id, asset_ids@[i]))),
    {
        let n = asset_ids.len();
        let mut v: Vec<u128> = Vec::new();
        for i in 0..n
            invariant
                n == asset_ids.len(),
                v@ == Seq::new(i as nat, |j: int| balance_in(self.balances@, (owner, class_id, asset_ids@[j]))),
        {
            v.push(balance_at(&self.balances, (owner, class_id, asset_ids[i])));
            assert(v@ =~= Seq::new((i + 1) as nat, |j: int| balance_in(self.balances@, (owner, class_id, asset_ids@[j]))));
        }
        Ok(v)
    }

    /// Every balance of `owner`, as (class, asset, balance), each key once,
    /// in increasing (class, asset) order.
    pub fn balances_of_owner(&self, owner: u64) -> (r: Result<Vec<(u64, u64, u128)>, DispatchError>)
        ensures
            r matches Ok(v) && owner_listing(self.balances@, owner, v@) && pairs_increasing(v@),
    {
        let mut v: Vec<(u64, u64, u128)> = Vec::new();
        let ghost m = self.balances@;
        let ghost mut idx: Seq<int> = Seq::empty();
        let ghost s = spec_btree_map_iter(&self.balances).remaining();
        // The map's own walk gives its keys in increasing order.
        let _in_order = self.balances.iter();
        proof {
            lemma_walk_increasing(s);
        }
        let ghost mut done: int = 0;
        for x in it: self.balances.iter()
            invariant
                m == self.balances@,
                it.seq() == s,
                s == spec_btree_map_iter(&self.balances).remaining(),
                s.no_duplicates(),
                done == it.index(),
                idx.len() == v@.len(),
                forall|i: int| 0 <= i < idx.len() ==> 0 <= #[trigger] idx[i] < done,
                forall|i: int, k: int| 0 <= i < k < idx.len() ==> idx[i] < idx[k],
                forall|i: int| #![trigger v@[i]] 0 <= i < v@.len() ==> {
                    let (key, val) = s[idx[i]];
                    &&& *key == (owner, v@[i].0, v@[i].1)
                    &&& *val == v@[i].2
                },
                forall|j: int| 0 <= j < done && (#[trigger] s[j]).0.0 == owner
                    ==> exists|i: int| 0 <= i < idx.len() && idx[i] == j,
        {
            let ghost old_idx = idx;
            let (key, val) = x;
            assert(x == s[done]);
            if key.0 == owner {
                proof {
                    idx = idx.push(it.index() as int);
                }
                v.push((key.1, key.2, *val));
            }
            proof {
                assert forall|j: int| 0 <= j < done + 1 && (#[trigger] s[j]).0.0 == owner
                    implies exists|i: int| 0 <= i < idx.len() && idx[i] == j by {
                    if j < done {
                        let i = choose|i: int| 0 <= i < old_idx.len() && old_idx[i] == j;
                        assert(idx[i] == j);
                    } else {
                        assert(idx[idx.len() - 1] == j);
                    }
                }
                done = done + 1;
            }
        }
        proof {
            assert(done == s.len());
            assert forall|i: int| 0 <= i < v@.len() implies m.contains_key((owner, v@[i].0, v@[i].1))
                && m[(owner, v@[i].0, v@[i].1)] == v@[i].2 by {
                let (key, val) = s[idx[i]];
                assert(m.contains_key(*s[idx[i]].0) && m[*s[idx[i]].0] == *s[idx[i]].1);
            }
            assert forall|c: u64, a: u64| m.contains_key((owner, c, a)) implies exists|i: int|
                0 <= i < v@.len() && v@[i].0 == c && v@[i].1 == a by {
                let k = (owner, c, a);
                assert(s.contains((&k, &m[k])));
                let j = choose|j: int| 0 <= j < s.len() && s[j] == (&k, &m[k]);
                assert(s[j].0.0 == owner);
                let i = choose|i: int| 0 <= i < idx.len() && idx[i] == j;
                assert(v@[i].0 == c && v@[i].1 == a);
            }
            assert forall|i: int, k: int| 0 <= i < k < v@.len() implies (v@[i].0, v@[i].1) != (v@[k].0, v@[k].1) by {
                if v@[i].0 == v@[k].0 && v@[i].1 == v@[k].1 {
                    let ki = *s[idx[i]].0;
                    assert(m[ki] == *s[idx[i]].1);
                    assert(m[*s[idx[k]].0] == *s[idx[k]].1);
                    assert(s[idx[i]] == s[idx[k]]);
                }
            }
        }
        Ok(v)
    }

    /// Every balance of `owner` in `class_id`, as (asset, balance), each asset
    /// once, in increasing asset order.
    pub fn class_balances_of_owner(&self, owner: u64, class_id: u64) -> (r: Result<Vec<(u64, u128)>, DispatchError>)
        ensures
            r matches Ok(v) && class_listing(self.balances@, owner, class_id, v@) && assets_increasing(v@),
    {
        let mut v: Vec<(u64, u128)> = Vec::new();
        let ghost m = self.balances@;
        let ghost mut idx: Seq<int> = Seq::empty();
        let ghost s = spec_btree_map_iter(&self.balances).remaining();
        // The map's own walk gives its keys in increasing order.
        let _in_order = self.balances.iter();
        proof {
            lemma_walk_increasing(s);
        }
        let ghost mut done: int = 0;
        for x in it: self.balances.iter()
            invariant
                m == self.balances@,
                it.seq() == s,
                s == spec_btree_map_iter(&self.balances).remaining(),
                s.no_duplicates(),
                done == it.index(),
                idx.len() == v@.len(),
                forall|i: int| 0 <= i < idx.len() ==> 0 <= #[trigger] idx[i] < done,
                forall|i: int, k: int| 0 <= i < k < idx.len() ==> idx[i] < idx[k],
                forall|i: int| #![trigger v@[i]] 0 <= i < v@.len() ==> {
                    let (key, val) = s[idx[i]];
                    &&& *key == (owner, class_id, v@[i].0)
                    &&& *val == v@[i].1
                },
                forall|j: int| 0 <= j < done && (#[trigger] s[j]).0.0 == owner && s[j].0.1 == class_id
                    ==> exists|i: int| 0 <= i < idx.len() && idx[i] == j,
        {
            let ghost old_idx = idx;
            let (key, val) = x;
            assert(x == s[done]);
            if key.0 == owner && key.1 == class_id {
                proof {
                    idx = idx.push(it.index() as int);
                }
                v.push((key.2, *val));
            }
            proof {
                assert forall|j: int| 0 <= j < done + 1 && (#[trigger] s[j]).0.0 == owner && s[j].0.1 == class_id
                    implies exists|i: int| 0 <= i < idx.len() && idx[i] == j by {
                    if j < done {
                        let i = choose|i: int| 0 <= i < old_idx.len() && old_idx[i] == j;
                        assert(idx[i] == j);
                    } else {
                        assert(idx[idx.len() - 1] == j);
                    }
                }
                done = done + 1;
            }
        }
        proof {
            assert(done == s.len());
            assert forall|i: int| 0 <= i < v@.len() implies m.contains_key((owner, class_id, v@[i].0))
                && m[(owner, class_id, v@[i].0)] == v@[i].1 by {
                let (key, val) = s[idx[i]];
                assert(m.contains_key(*s[idx[i]].0) && m[*s[idx[i]].0] == *s[idx[i]].1);
            }
            assert forall|a: u64| m.contains_key((owner, class_id, a)) implies exists|i: int|
                0 <= i < v@.len() && v@[i].0 == a by {
                let k = (owner, class_id, a);
                assert(s.contains((&k, &m[k])));
                let j = choose|j: int| 0 <= j < s.len() && s[j] == (&k, &m[k]);
                assert(s[j].0.0 == owner && s[j].0.1 == class_id);
                let i = choose|i: int| 0 <= i < idx.len() && idx[i] == j;
                assert(v@[i].0 == a);
            }
            assert forall|i: int, k: int| 0 <= i < k < v@.len() implies v@[i].0 != v@[k].0 by {
                if v@[i].0 == v@[k].0 {
                    let ki = *s[idx[i]].0;
                    assert(m[ki] == *s[idx[i]].1);
                    assert(m[*s[idx[k]].0] == *s[idx[k]].1);
                    assert(s[idx[i]] == s[idx[k]]);
                }
            }
        }
        Ok(v)
    }

    /// Creates class `class_id` for `owner`; the signer pays the deposit.
    pub fn create_class<C: ReservableCurrency>(&mut self, currency: &mut C, origin: Origin, owner: u64, class_id: u64, metadata: Vec<u8>)
        -> (r: Result<(), DispatchError>)
        ensures
            origin is Signed ==> ({
                let who = origin->Signed_0;
                &&& old(self).classes@.contains_key(class_id) ==> r == err(Error::InvalidClassId)
                &&& !old(self).classes@.contains_key(class_id) ==> (r is Ok <==> old(currency).reserve_allowed(who, old(self).create_asset_class_deposit))
                &&& r is Ok ==> {
                    &&& !old(self).classes@.contains_key(class_id)
                    &&& reserve_effect(*old(currency), *final(currency), who, old(self).create_asset_class_deposit)
                    &&& final(self).classes@ == old(self).classes@.insert(class_id, Class { owner, metadata })
                    &&& final(self).events@ == old(self).events@.push(Event::ClassCreated { class_id, who })
                    &&& same_registry_but_classes(old(self), final(self))
                    &&& final(self).balances@ == old(self).balances@
                }
            }),
            !(origin is Signed) ==> r == Err::<(), DispatchError>(DispatchError::BadOrigin),
            r is Err ==> unchanged(old(self), final(self)) && same_funds(*old(currency), *final(currency)),
    {
        let who = ensure_signed(origin)?;
        self.do_create_class(currency, who, owner, class_id, metadata)
    }

    /// Creates an asset in a class that the signer owns.
    pub fn create_asset(&mut self, origin: Origin, class_id: u64, asset_id: u64, metadata: Vec<u8>) -> (r: Result<(), DispatchError>)
        ensures
            origin is Signed ==> ({
                let who = origin->Signed_0;
                let chk = owner_check(old(self).classes@, who, class_id);
                &&& chk is Err ==> r == chk
                &&& chk is Ok && old(self).assets@.contains_key((class_id, asset_id)) ==> r == err(Error::InUse)
                &&& chk is Ok && !old(self).assets@.contains_key((class_id, asset_id)) && count_in(old(self).asset_count@, class_id) == u64::MAX
                    ==> r == err(Error::NumOverflow)
                &&& chk is Ok && !old(self).assets@.contains_key((class_id, asset_id)) && count_in(old(self).asset_count@, class_id) < u64::MAX
                    ==> {
                    &&& r is Ok
                    &&& final(self).assets@ == old(self).assets@.insert((class_id, asset_id), Asset { class_id, creator: who, metadata })
                    &&& final(self).asset_count@ == old(self).asset_count@.insert(class_id, (count_in(old(self).asset_count@, class_id) + 1) as u64)
                    &&& final(self).events@ == old(self).events@.push(Event::AssetCreated { class_id, asset_id, who })
                    &&& final(self).classes@ == old(self).classes@
                    &&& final(self).balances@ == old(self).balances@
                    &&& final(self).create_asset_class_deposit == old(self).create_asset_class_deposit
                }
            }),
            !(origin is Signed) ==> r == Err::<(), DispatchError>(DispatchError::BadOrigin),
            r is Err ==> unchanged(old(self), final(self)),
    {
        let who = ensure_signed(origin)?;
        self.maybe_check_owner(who, class_id)?;
        let saved_assets = self.assets.clone();
        let saved_count = self.asset_count.clone();
        let r = self.do_create_asset(who, class_id, asset_id, metadata);
        if r.is_err() {
            self.assets = saved_assets;
            self.asset_count = saved_count;
        }
        r
    }

    /// Moves an asset between accounts: a holder may move its own assets,
    /// and the class owner those of any holder.
    pub fn transfer_from(&mut self, origin: Origin, from: u64, to: u64, class_id: u64, asset_id: u64, amount: u128)
        -> (r: Result<(), DispatchError>)
        ensures
            origin is Signed ==> ({
                let who = origin->Signed_0;
                let chk = if who == from { Ok::<(), DispatchError>(()) } else { owner_check(old(self).classes@, who, class_id) };
                &&& chk is Err ==> r == chk && unchanged(old(self), final(self))
                &&& chk is Ok && (from == to || amount == 0) ==> r is Ok && unchanged(old(self), final(self))
                &&& chk is Ok && from != to && amount != 0 ==> atomic_outcome(
                    old(self),
                    final(self),
                    seq![LedgerOp::Move { from: (from, class_id, asset_id), to: (to, class_id, asset_id), amount }],
                    Event::Transferred { who, from, to, class_id, asset_id, amount },
                    r,
                )
            }),
            !(origin is Signed) ==> r == Err::<(), DispatchError>(DispatchError::BadOrigin) && unchanged(old(self), final(self)),
    {
        let who = ensure_signed(origin)?;
        if who != from {
            self.maybe_check_owner(who, class_id)?;
        }
        let saved = self.balances.clone();
        let r = self.do_transfer_from(who, from, to, class_id, asset_id, amount);
        if r.is_err() {
            self.balances = saved;
        }
        r
    }

    /// Moves several assets of a class between accounts; only the class owner may.
    pub fn batch_transfer_from(&mut self, origin: Origin, from: u64, to: u64, class_id: u64, asset_ids: Vec<u64>, amounts: Vec<u128>)
        -> (r: Result<(), DispatchError>)
        ensures
            origin is Signed ==> ({
                let who = origin->Signed_0;
                let chk = owner_check(old(self).classes@, who, class_id);
                &&& chk is Err ==> r == chk && unchanged(old(self), final(self))
                &&& chk is Ok && from == to ==> r is Ok && unchanged(old(self), final(self))
                &&& chk is Ok && from != to && asset_ids.len() != amounts.len() ==> r == err(Error::InvalidArrayLength)
                    && unchanged(old(self), final(self))
                &&& chk is Ok && from != to && asset_ids.len() == amounts.len() ==> atomic_outcome(
                    old(self),
                    final(self),
                    move_ops(from, to, class_id, asset_ids@, amounts@),
                    Event::BatchTransferred { who, from, to, class_id, asset_ids, amounts },
                    r,
                )
            }),
            !(origin is Signed) ==> r == Err::<(), DispatchError>(DispatchError::BadOrigin) && unchanged(old(self), final(self)),
    {
        let who = ensure_signed(origin)?;
        self.maybe_check_owner(who, class_id)?;
        let saved = self.balances.clone();
        let r = self.do_batch_transfer_from(who, from, to, class_id, asset_ids, amounts);
        if r.is_err() {
            self.balances = saved;
        }
        r
    }

    /// Mints an asset to `to`; only the class owner may.
    pub fn mint(&mut self, origin: Origin, to: u64, class_id: u64, asset_id: u64, amount: u128) -> (r: Result<(), DispatchError>)
        ensures
            origin is Signed ==> ({
                let who = origin->Signed_0;
                let chk = owner_check(old(self).classes@, who, class_id);
                &&& chk is Err ==> r == chk && unchanged(old(self), final(self))
                &&& chk is Ok ==> atomic_outcome(
                    old(self),
                    final(self),
                    seq![LedgerOp::Credit { key: (to, class_id, asset_id), amount }],
                    Event::Mint { who, to, class_id, asset_id, amount },
                    r,
                )
            }),
            !(origin is Signed) ==> r == Err::<(), DispatchError>(DispatchError::BadOrigin) && unchanged(old(self), final(self)),
    {
        let who = ensure_signed(origin)?;
        self.maybe_check_owner(who, class_id)?;
        let saved = self.balances.clone();
        let r = self.do_mint(who, to, class_id, asset_id, amount);
        if r.is_err() {
            self.balances = saved;
        }
        r
    }

    /// Mints several assets of a class to `to`; only the class owner may.
    pub fn batch_mint(&mut self, origin: Origin, to: u64, class_id: u64, asset_ids: Vec<u64>, amounts: Vec<u128>)
        -> (r: Result<(), DispatchError>)
        ensures
            origin is Signed ==> ({
                let who = origin->Signed_0;
                let chk = owner_check(old(self).classes@, who, class_id);
                &&& chk is Err ==> r == chk && unchanged(old(self), final(self))
                &&& chk is Ok && asset_ids.len() != amounts.len() ==> r == err(Error::InvalidArrayLength) && unchanged(old(self), final(self))
                &&& chk is Ok && asset_ids.len() == amounts.len() ==> atomic_outcome(
                    old(self),
                    final(self),
                    credit_ops(to, class_id, asset_ids@, amounts@),
                    Event::BatchMint { who, to, class_id, asset_ids, amounts },
                    r,
                )
            }),
            !(origin is Signed) ==> r == Err::<(), DispatchError>(DispatchError::BadOrigin) && unchanged(old(self), final(self)),
    {
        let who = ensure_signed(origin)?;
        self.maybe_check_owner(who, class_id)?;
        let saved = self.balances.clone();
        let r = self.do_batch_mint(who, to, class_id, asset_ids, amounts);
        if r.is_err() {
            self.balances = saved;
        }
        r
    }

    /// Burns an asset of `from`; only the class owner may.
    pub fn burn(&mut self, origin: Origin, from: u64, class_id: u64, asset_id: u64, amount: u128) -> (r: Result<(), DispatchError>)
        ensures
            origin is Signed ==> ({
                let who = origin->Signed_0;
                let chk = owner_check(old(self).classes@, who, class_id);
                &&& chk is Err ==> r == chk && unchanged(old(self), final(self))
                &&& chk is Ok ==> atomic_outcome(
                    old(self),
                    final(self),
                    seq![LedgerOp::Debit { key: (from, class_id, asset_id), amount }],
                    Event::Burn { who, from, class_id, asset_id, amount },
                    r,
                )
            }),
            !(origin is Signed) ==> r == Err::<(), DispatchError>(DispatchError::BadOrigin) && unchanged(old(self), final(self)),
    {
        let who = ensure_signed(origin)?;
        self.maybe_check_owner(who, class_id)?;
        let saved = self.balances.clone();
        let r = self.do_burn(who, from, class_id, asset_id, amount);
        if r.is_err() {
            self.balances = saved;
        }
        r
    }

    /// Burns several assets of a class of `from`; only the class owner may.
    pub fn batch_burn(&mut self, origin: Origin, from: u64, class_id: u64, asset_ids: Vec<u64>, amounts: Vec<u128>)
        -> (r: Result<(), DispatchError>)
        ensures
            origin is Signed ==> ({
                let who = origin->Signed_0;
                let chk = owner_check(old(self).classes@, who, class_id);
                &&& chk is Err ==> r == chk && unchanged(old(self), final(self))
                &&& chk is Ok && asset_ids.len() != amounts.len() ==> r == err(Error::InvalidArrayLength) && unchanged(old(self), final(self))
                &&& chk is Ok && asset_ids.len() == amounts.len() ==> atomic_outcome(
                    old(self),
                    final(self),
                    debit_ops(from, class_id, asset_ids@, amounts@),
                    Event::BatchBurn { who, from, class_id, asset_ids, amounts },
                    r,
                )
            }),
            !(origin is Signed) ==> r == Err::<(), DispatchError>(DispatchError::BadOrigin) && unchanged(old(self), final(self)),
    {
        let who = ensure_signed(origin)?;
        self.maybe_check_owner(who, class_id)?;
        let saved = self.balances.clone();
        let r = self.do_batch_burn(who, from, class_id, asset_ids, amounts);
        if r.is_err() {
            self.balances = saved;
        }
        r
    }

    /// Replaces the metadata of a class that the signer owns.
    pub fn update_class_metadata(&mut self, origin: Origin, class_id: u64, metadata: Vec<u8>) -> (r: Result<(), DispatchError>)
        ensures
            origin is Signed ==> ({
                let who = origin->Signed_0;
                &&& r == owner_check(old(self).classes@, who, class_id)
                &&& r is Ok ==> {
                    &&& final(self).classes@ == old(self).classes@.insert(
                        class_id,
                        Class { owner: old(self).classes@[class_id].owner, metadata },
                    )
                    &&& same_registry_but_classes(old(self), final(self))
                    &&& final(self).balances@ == old(self).balances@
                    &&& final(self).events@ == old(self).events@
                }
            }),
            !(origin is Signed) ==> r == Err::<(), DispatchError>(DispatchError::BadOrigin),
            r is Err ==> unchanged(old(self), final(self)),
    {
        let who = ensure_signed(origin)?;
        self.do_update_class_metadata(who, class_id, metadata)
    }

    /// Replaces the metadata of an asset in a class that the signer owns.
    pub fn update_asset_metadata(&mut self, origin: Origin, class_id: u64, asset_id: u64, metadata: Vec<u8>) -> (r: Result<(), DispatchError>)
        ensures
            origin is Signed ==> ({
                let who = origin->Signed_0;
                let chk = owner_check(old(self).classes@, who, class_id);
                &&& chk is Err ==> r == chk
                &&& chk is Ok && !old(self).assets@.contains_key((class_id, asset_id)) ==> r == err(Error::InvalidAssetId)
                &&& chk is Ok && old(self).assets@.contains_key((class_id, asset_id)) ==> r is Ok
                &&& r is Ok ==> {
                    let a = old(self).assets@[(class_id, asset_id)];
                    &&& chk is Ok
                    &&& old(self).assets@.contains_key((class_id, asset_id))
                    &&& final(self).assets@.dom() == old(self).assets@.dom()
                    &&& forall|k: (u64, u64)| k != (class_id, asset_id) ==> #[trigger] final(self).assets@[k] == old(self).assets@[k]
                    &&& final(self).assets@[(class_id, asset_id)].class_id == a.class_id
                    &&& final(self).assets@[(class_id, asset_id)].creator == a.creator
                    &&& final(self).assets@[(class_id, asset_id)].metadata@ == metadata@
                    &&& final(self).events@ == old(self).events@.push(Event::AssetMetadataUpdated { class_id, asset_id, who, metadata })
                    &&& final(self).classes@ == old(self).classes@
                    &&& final(self).asset_count@ == old(self).asset_count@
                    &&& final(self).balances@ == old(self).balances@
                }
            }),
            !(origin is Signed) ==> r == Err::<(), DispatchError>(DispatchError::BadOrigin),
            r is Err ==> unchanged(old(self), final(self)),
    {
        let who = ensure_signed(origin)?;
        self.do_update_asset_metadata(who, class_id, asset_id, metadata)
    }

    /// Moves assets class by class, as `moves_by_class` describes, with
    /// `who` as the account that orders each batch.
    pub fn transfer_by_class(
        &mut self,
        who: u64,
        from: u64,
        to: u64,
        class_ids: &Vec<u64>,
        asset_ids: &Vec<Vec<u64>>,
        amounts: &Vec<Vec<u128>>,
    ) -> (r: Result<(), DispatchError>)
        requires
            class_ids.len() == asset_ids.len(),
            class_ids.len() == amounts.len(),
        ensures
            ({
                let (b, res) = moves_by_class(
                    old(self).balances@,
                    from,
                    to,
                    class_ids@,
                    vec_views(asset_ids@),
                    vec_views(amounts@),
                    class_ids@.len(),
                );
                &&& final(self).balances@ == b
                &&& r == res
            }),
            same_registry(old(self), final(self)),
            events_extended(old(self).events@, final(self).events@),
    {
        let n = class_ids.len();
        assert(self.events@.subrange(0, self.events@.len() as int) =~= self.events@);
        for idx in 0..n
            invariant
                n == class_ids.len(),
                n == asset_ids.len(),
                n == amounts.len(),
                same_registry(old(self), self),
                events_extended(old(self).events@, self.events@),
                moves_by_class(old(self).balances@, from, to, class_ids@, vec_views(asset_ids@), vec_views(amounts@), idx as nat)
                    == (self.balances@, Ok::<(), DispatchError>(())),
        {
            let ghost before = self.balances@;
            assert(vec_views(asset_ids@)[idx as int] == asset_ids@[idx as int]@);
            assert(vec_views(amounts@)[idx as int] == amounts@[idx as int]@);
            if asset_ids[idx].len() != amounts[idx].len() {
                proof {
                    lemma_moves_by_class_failed(old(self).balances@, from, to, class_ids@, vec_views(asset_ids@), vec_views(amounts@), (idx + 1) as nat, n as nat);
                }
                return Err(DispatchError::Asset(Error::InvalidArrayLength));
            }
            let ids = asset_ids[idx].clone();
            let amts = amounts[idx].clone();
            assert(ids@ =~= asset_ids@[idx as int]@);
            assert(amts@ =~= amounts@[idx as int]@);
            let ghost ev = self.events@;
            let res = self.do_batch_transfer_from(who, from, to, class_ids[idx], ids, amts);
            proof {
                assert(self.events@.subrange(0, old(self).events@.len() as int) =~= ev.subrange(0, old(self).events@.len() as int));
            }
            if res.is_err() {
                proof {
                    lemma_moves_by_class_failed(old(self).balances@, from, to, class_ids@, vec_views(asset_ids@), vec_views(amounts@), (idx + 1) as nat, n as nat);
                }
                return res;
            }
        }
        Ok(())
    }
}



impl Pallet {
    /// Calls `do_batch_transfer_from` for each class in turn, stopping at
    /// the first that fails, as `batches_outcome` describes.
    pub fn transfer_batches(
        &mut self,
        who: u64,
        from: u64,
        to: u64,
        class_ids: &Vec<u64>,
        asset_ids: &Vec<Vec<u64>>,
        amounts: &Vec<Vec<u128>>,
    ) -> (r: Result<(), DispatchError>)
        requires
            class_ids.len() == asset_ids.len(),
            class_ids.len() == amounts.len(),
        ensures
            (final(self).balances@, r) == batches_outcome(
                old(self).balances@,
                from,
                to,
                class_ids@,
                vec_views(asset_ids@),
                vec_views(amounts@),
                class_ids@.len(),
            ),
            same_registry(old(self), final(self)),
            events_extended(old(self).events@, final(self).events@),
    {
        let n = class_ids.len();
        assert(self.events@.subrange(0, self.events@.len() as int) =~= self.events@);
        for idx in 0..n
            invariant
                n == class_ids.len(),
                n == asset_ids.len(),
                n == amounts.len(),
                same_registry(old(self), self),
                events_extended(old(self).events@, self.events@),
                batches_outcome(old(self).balances@, from, to, class_ids@, vec_views(asset_ids@), vec_views(amounts@), idx as nat)
                    == (self.balances@, Ok::<(), DispatchError>(())),
        {
            assert(vec_views(asset_ids@)[idx as int] == asset_ids@[idx as int]@);
            assert(vec_views(amounts@)[idx as int] == amounts@[idx as int]@);
            let ids = asset_ids[idx].clone();
            let amts = amounts[idx].clone();
            assert(ids@ =~= asset_ids@[idx as int]@);
            assert(amts@ =~= amounts@[idx as int]@);
            let ghost ev = self.events@;
            let res = self.do_batch_transfer_from(who, from, to, class_ids[idx], ids, amts);
            proof {
                assert(self.events@.subrange(0, old(self).events@.len() as int) =~= ev.subrange(0, old(self).events@.len() as int));
            }
            if res.is_err() {
                proof {
                    lemma_batches_failed(old(self).balances@, from, to, class_ids@, vec_views(asset_ids@), vec_views(amounts@), (idx + 1) as nat, n as nat);
                }
                return res;
            }
        }
        Ok(())
    }
}

/// Once a run of batches fails, the classes after it change nothing.
pub proof fn lemma_batches_failed(
    b: Balances,
    from: u64,
    to: u64,
    class_ids: Seq<u64>,
    asset_ids: Seq<Seq<u64>>,
    amounts: Seq<Seq<u128>>,
    k: nat,
    n: nat,
)
    requires
        k <= n,
        batches_outcome(b, from, to, class_ids, asset_ids, amounts, k).1 is Err,
    ensures
        batches_outcome(b, from, to, class_ids, asset_ids, amounts, n) == batches_outcome(b, from, to, class_ids, asset_ids, amounts, k),
    decreases n - k,
{
    if k < n {
        lemma_batches_failed(b, from, to, class_ids, asset_ids, amounts, k, (n - 1) as nat);
    }
}

/// Once a run by class fails, the classes after it change nothing.
pub proof fn lemma_moves_by_class_failed(
    b: Balances,
    from: u64,
    to: u64,
    class_ids: Seq<u64>,
    asset_ids: Seq<Seq<u64>>,
    amounts: Seq<Seq<u128>>,
    k: nat,
    n: nat,
)
    requires
        k <= n,
        moves_by_class(b, from, to, class_ids, asset_ids, amounts, k).1 is Err,
    ensures
        moves_by_class(b, from, to, class_ids, asset_ids, amounts, n) == moves_by_class(b, from, to, class_ids, asset_ids, amounts, k),
    decreases n - k,
{
    if k < n {
        lemma_moves_by_class_failed(b, from, to, class_ids, asset_ids, amounts, k, (n - 1) as nat);
    }
}

/// A successful transfer keeps the sum of the two accounts' balances of the
/// asset, and every other balance.
pub proof fn law_transfer_conserves(b: Balances, from: u64, to: u64, class_id: u64, asset_id: u64, amount: u128)
    ensures
        ({
            let (b2, r) = transfer_outcome(b, from, to, class_id, asset_id, amount);
            let kf = (from, class_id, asset_id);
            let kt = (to, class_id, asset_id);
            &&& r is Ok ==> balance_in(b2, kf) + balance_in(b2, kt) == balance_in(b, kf) + balance_in(b, kt)
            &&& r is Ok ==> forall|k: BalanceKey| k != kf && k != kt ==> #[trigger] balance_in(b2, k) == balance_in(b, k)
        }),
{
    let kf = (from, class_id, asset_id);
    let kt = (to, class_id, asset_id);
    lemma_apply_single(b, LedgerOp::Move { from: kf, to: kt, amount });
}

/// Transferring an amount and then transferring it back succeeds and
/// restores every balance.
pub proof fn law_transfer_round_trip(b: Balances, from: u64, to: u64, class_id: u64, asset_id: u64, amount: u128)
    requires
        transfer_outcome(b, from, to, class_id, asset_id, amount).1 is Ok,
    ensures
        ({
            let b1 = transfer_outcome(b, from, to, class_id, asset_id, amount).0;
            let (b2, r) = transfer_outcome(b1, to, from, class_id, asset_id, amount);
            &&& r is Ok
            &&& forall|k: BalanceKey| #[trigger] balance_in(b2, k) == balance_in(b, k)
        }),
{
    let kf = (from, class_id, asset_id);
    let kt = (to, class_id, asset_id);
    lemma_apply_single(b, LedgerOp::Move { from: kf, to: kt, amount });
    let b1 = transfer_outcome(b, from, to, class_id, asset_id, amount).0;
    lemma_apply_single(b1, LedgerOp::Move { from: kt, to: kf, amount });
}

/// Minting an amount to an account and then burning it from the same
/// account succeeds and restores every balance.
pub proof fn law_mint_burn_round_trip(b: Balances, who: u64, class_id: u64, asset_id: u64, amount: u128)
    requires
        program_outcome(b, seq![LedgerOp::Credit { key: (who, class_id, asset_id), amount }]).1 is Ok,
    ensures
        ({
            let b1 = program_outcome(b, seq![LedgerOp::Credit { key: (who, class_id, asset_id), amount }]).0;
            let (b2, r) = program_outcome(b1, seq![LedgerOp::Debit { key: (who, class_id, asset_id), amount }]);
            &&& r is Ok
            &&& forall|k: BalanceKey| #[trigger] balance_in(b2, k) == balance_in(b, k)
        }),
{
    let k0 = (who, class_id, asset_id);
    lemma_apply_single(b, LedgerOp::Credit { key: k0, amount });
    let b1 = program_outcome(b, seq![LedgerOp::Credit { key: k0, amount }]).0;
    lemma_apply_single(b1, LedgerOp::Debit { key: k0, amount });
}

/// `m` is `b` with amounts moved between `from` and `to` alone: for every
/// (class, asset) the two accounts' balances add up as before, and every
/// other account's balances are as before.
pub open spec fn moved_between(b: Balances, m: Balances, from: u64, to: u64) -> bool {
    &&& forall|c: u64, a: u64| #[trigger] balance_in(m, (from, c, a)) + balance_in(m, (to, c, a))
        == balance_in(b, (from, c, a)) + balance_in(b, (to, c, a))
    &&& forall|k: BalanceKey| k.0 != from && k.0 != to ==> #[trigger] balance_in(m, k) == balance_in(b, k)
}

/// A successful batch transfer moves amounts between its two accounts
/// alone, keeping what they hold together of each asset.
pub proof fn law_batch_transfer_conserves(b: Balances, from: u64, to: u64, class_id: u64, asset_ids: Seq<u64>, amounts: Seq<u128>)
    ensures
        batch_transfer_outcome(b, from, to, class_id, asset_ids, amounts).1 is Ok
            ==> moved_between(b, batch_transfer_outcome(b, from, to, class_id, asset_ids, amounts).0, from, to),
{
    if from != to && asset_ids.len() == amounts.len() {
        crate::ledger::lemma_move_ops_between(from, to, class_id, asset_ids, amounts);
        if apply_ops(b, move_ops(from, to, class_id, asset_ids, amounts)).1 {
            crate::ledger::lemma_moves_conserve(b, move_ops(from, to, class_id, asset_ids, amounts), from, to);
        }
    }
}

/// A run of batch transfers by class that succeeds moves amounts between
/// its two accounts alone, keeping what they hold together of each asset.
pub proof fn law_moves_by_class_conserve(
    b: Balances,
    from: u64,
    to: u64,
    class_ids: Seq<u64>,
    asset_ids: Seq<Seq<u64>>,
    amounts: Seq<Seq<u128>>,
    n: nat,
)
    ensures
        moves_by_class(b, from, to, class_ids, asset_ids, amounts, n).1 is Ok
            ==> moved_between(b, moves_by_class(b, from, to, class_ids, asset_ids, amounts, n).0, from, to),
    decreases n,
{
    if n > 0 {
        law_moves_by_class_conserve(b, from, to, class_ids, asset_ids, amounts, (n - 1) as nat);
        let (m, r) = moves_by_class(b, from, to, class_ids, asset_ids, amounts, (n - 1) as nat);
        let i = n - 1;
        if r is Ok && asset_ids[i].len() == amounts[i].len() && from != to {
            let ops = move_ops(from, to, class_ids[i], asset_ids[i], amounts[i]);
            crate::ledger::lemma_move_ops_between(from, to, class_ids[i], asset_ids[i], amounts[i]);
            if apply_ops(m, ops).1 {
                crate::ledger::lemma_moves_conserve(m, ops, from, to);
                let m2 = apply_ops(m, ops).0;
                assert forall|c: u64, a: u64| #[trigger] balance_in(m2, (from, c, a)) + balance_in(m2, (to, c, a))
                    == balance_in(b, (from, c, a)) + balance_in(b, (to, c, a)) by {
                    assert(balance_in(m, (from, c, a)) + balance_in(m, (to, c, a)) == balance_in(b, (from, c, a)) + balance_in(b, (to, c, a)));
                }
            }
        }
    }
}

/// Batch transfers class by class that all succeed move amounts between
/// their two accounts alone, keeping what they hold together of each asset.
pub proof fn law_batches_conserve(
    b: Balances,
    from: u64,
    to: u64,
    class_ids: Seq<u64>,
    asset_ids: Seq<Seq<u64>>,
    amounts: Seq<Seq<u128>>,
    n: nat,
)
    ensures
        batches_outcome(b, from, to, class_ids, asset_ids, amounts, n).1 is Ok
            ==> moved_between(b, batches_outcome(b, from, to, class_ids, asset_ids, amounts, n).0, from, to),
    decreases n,
{
    if n > 0 {
        law_batches_conserve(b, from, to, class_ids, asset_ids, amounts, (n - 1) as nat);
        let (m, r) = batches_outcome(b, from, to, class_ids, asset_ids, amounts, (n - 1) as nat);
        if r is Ok {
            let i = n - 1;
            law_batch_transfer_conserves(m, from, to, class_ids[i], asset_ids[i], amounts[i]);
            let m2 = batch_transfer_outcome(m, from, to, class_ids[i], asset_ids[i], amounts[i]).0;
            if batch_transfer_outcome(m, from, to, class_ids[i], asset_ids[i], amounts[i]).1 is Ok {
                assert forall|c: u64, a: u64| #[trigger] balance_in(m2, (from, c, a)) + balance_in(m2, (to, c, a))
                    == balance_in(b, (from, c, a)) + balance_in(b, (to, c, a)) by {
                    assert(balance_in(m, (from, c, a)) + balance_in(m, (to, c, a)) == balance_in(b, (from, c, a)) + balance_in(b, (to, c, a)));
                }
            }
        }
    }
}

/// The debits of a list succeed on balances that the credits of the same
/// list raised, step by step.
proof fn lemma_debits_succeed(b: Balances, b1: Balances, who: u64, class_id: u64, asset_ids: Seq<u64>, amounts: Seq<u128>, j: int)
    requires
        asset_ids.len() == amounts.len(),
        0 <= j <= asset_ids.len(),
        forall|k: BalanceKey| #[trigger] balance_in(b1, k) == balance_in(b, k) + crate::ledger::ops_delta(k, credit_ops(who, class_id, asset_ids, amounts)),
    ensures
        apply_ops(b1, debit_ops(who, class_id, asset_ids, amounts).take(j)).1,
        forall|k: BalanceKey| #[trigger] balance_in(apply_ops(b1, debit_ops(who, class_id, asset_ids, amounts).take(j)).0, k)
            == balance_in(b1, k) + crate::ledger::ops_delta(k, debit_ops(who, class_id, asset_ids, amounts).take(j)),
    decreases j,
{
    let c = credit_ops(who, class_id, asset_ids, amounts);
    let d = debit_ops(who, class_id, asset_ids, amounts);
    if j == 0 {
        assert(d.take(0) =~= Seq::<LedgerOp>::empty());
    } else {
        lemma_debits_succeed(b, b1, who, class_id, asset_ids, amounts, j - 1);
        crate::ledger::lemma_apply_ops_step(b1, d, j - 1);
        let m = apply_ops(b1, d.take(j - 1)).0;
        let key = (who, class_id, asset_ids[j - 1]);
        let amt = amounts[j - 1];
        assert(c.take(asset_ids.len() as int) =~= c);
        crate::ledger::lemma_credits_grow(key, who, class_id, asset_ids, amounts, j, asset_ids.len() as int);
        crate::ledger::lemma_delta_step(key, c, j - 1);
        crate::ledger::lemma_debits_undo_credits(key, who, class_id, asset_ids, amounts, j - 1);
        assert(balance_in(m, key) >= amt);
        crate::ledger::lemma_op_delta(m, d[j - 1]);
        assert forall|k: BalanceKey| #[trigger] balance_in(apply_ops(b1, d.take(j)).0, k)
            == balance_in(b1, k) + crate::ledger::ops_delta(k, d.take(j)) by {
            crate::ledger::lemma_delta_step(k, d, j - 1);
            assert(balance_in(m, k) == balance_in(b1, k) + crate::ledger::ops_delta(k, d.take(j - 1)));
        }
    }
}

/// Minting a batch to an account and then burning the same batch from it
/// succeeds and restores every balance.
pub proof fn law_batch_mint_burn_round_trip(b: Balances, who: u64, class_id: u64, asset_ids: Seq<u64>, amounts: Seq<u128>)
    requires
        batch_mint_outcome(b, who, class_id, asset_ids, amounts).1 is Ok,
    ensures
        ({
            let b1 = batch_mint_outcome(b, who, class_id, asset_ids, amounts).0;
            let (b2, r) = batch_burn_outcome(b1, who, class_id, asset_ids, amounts);
            &&& r is Ok
            &&& forall|k: BalanceKey| #[trigger] balance_in(b2, k) == balance_in(b, k)
        }),
{
    let c = credit_ops(who, class_id, asset_ids, amounts);
    let d = debit_ops(who, class_id, asset_ids, amounts);
    assert(asset_ids.len() == amounts.len());
    crate::ledger::lemma_ops_delta(b, c);
    let b1 = apply_ops(b, c).0;
    let n = asset_ids.len() as int;
    lemma_debits_succeed(b, b1, who, class_id, asset_ids, amounts, n);
    assert(d.take(n) =~= d);
    assert(c.take(n) =~= c);
    assert forall|k: BalanceKey| #[trigger] balance_in(apply_ops(b1, d).0, k) == balance_in(b, k) by {
        crate::ledger::lemma_debits_undo_credits(k, who, class_id, asset_ids, amounts, n);
    }
}

/// How much batch transfers class by class from `from` to `to`, through the
/// first `n` classes, change the balance at `k` where they all succeed.
pub open spec fn batches_delta(
    k: BalanceKey,
    from: u64,
    to: u64,
    class_ids: Seq<u64>,
    asset_ids: Seq<Seq<u64>>,
    amounts: Seq<Seq<u128>>,
    n: nat,
) -> int
    decreases n,
{
    if n == 0 {
        0
    } else {
        batches_delta(k, from, to, class_ids, asset_ids, amounts, (n - 1) as nat) + if from == to {
            0
        } else {
            crate::ledger::ops_delta(k, move_ops(from, to, class_ids[n - 1], asset_ids[n - 1], amounts[n - 1]))
        }
    }
}

/// Batch transfers that all succeed change each balance by their delta.
pub proof fn lemma_batches_delta(
    b: Balances,
    from: u64,
    to: u64,
    class_ids: Seq<u64>,
    asset_ids: Seq<Seq<u64>>,
    amounts: Seq<Seq<u128>>,
    n: nat,
)
    requires
        batches_outcome(b, from, to, class_ids, asset_ids, amounts, n).1 is Ok,
    ensures
        forall|k: BalanceKey| #[trigger] balance_in(batches_outcome(b, from, to, class_ids, asset_ids, amounts, n).0, k)
            == balance_in(b, k) + batches_delta(k, from, to, class_ids, asset_ids, amounts, n),
    decreases n,
{
    if n > 0 {
        let (m, r) = batches_outcome(b, from, to, class_ids, asset_ids, amounts, (n - 1) as nat);
        assert(r is Ok);
        lemma_batches_delta(b, from, to, class_ids, asset_ids, amounts, (n - 1) as nat);
        let i = n - 1;
        if from != to {
            let ops = move_ops(from, to, class_ids[i], asset_ids[i], amounts[i]);
            assert(asset_ids[i].len() == amounts[i].len());
            assert(apply_ops(m, ops).1);
            crate::ledger::lemma_ops_delta(m, ops);
        }
    }
}

/// Moves of a list back the other way undo its moves.
pub proof fn lemma_moves_reverse(k: BalanceKey, from: u64, to: u64, class_id: u64, asset_ids: Seq<u64>, amounts: Seq<u128>, j: int)
    requires
        0 <= j <= asset_ids.len(),
    ensures
        crate::ledger::ops_delta(k, move_ops(to, from, class_id, asset_ids, amounts).take(j))
            == -crate::ledger::ops_delta(k, move_ops(from, to, class_id, asset_ids, amounts).take(j)),
    decreases j,
{
    let f = move_ops(from, to, class_id, asset_ids, amounts);
    let g = move_ops(to, from, class_id, asset_ids, amounts);
    if j == 0 {
        assert(f.take(0) =~= Seq::<LedgerOp>::empty());
        assert(g.take(0) =~= Seq::<LedgerOp>::empty());
    } else {
        lemma_moves_reverse(k, from, to, class_id, asset_ids, amounts, j - 1);
        crate::ledger::lemma_delta_step(k, f, j - 1);
        crate::ledger::lemma_delta_step(k, g, j - 1);
    }
}

/// Batch transfers back the other way undo batch transfers.
pub proof fn lemma_batches_reverse(
    k: BalanceKey,
    from: u64,
    to: u64,
    class_ids: Seq<u64>,
    asset_ids: Seq<Seq<u64>>,
    amounts: Seq<Seq<u128>>,
    n: nat,
)
    ensures
        batches_delta(k, to, from, class_ids, asset_ids, amounts, n) == -batches_delta(k, from, to, class_ids, asset_ids, amounts, n),
    decreases n,
{
    if n > 0 {
        lemma_batches_reverse(k, from, to, class_ids, asset_ids, amounts, (n - 1) as nat);
        let i = n - 1;
        let len = asset_ids[i].len() as int;
        lemma_moves_reverse(k, from, to, class_ids[i], asset_ids[i], amounts[i], len);
        assert(move_ops(from, to, class_ids[i], asset_ids[i], amounts[i]).take(len) =~= move_ops(from, to, class_ids[i], asset_ids[i], amounts[i]));
        assert(move_ops(to, from, class_ids[i], asset_ids[i], amounts[i]).take(len) =~= move_ops(to, from, class_ids[i], asset_ids[i], amounts[i]));
    }
}

} // verus!
