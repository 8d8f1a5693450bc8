//! The asset pallet with operator approvals: classes numbered in order of
//! creation, assets within a class, balances of every (account, class,
//! asset), and operators that an owner approves to move its assets.
use vstd::prelude::*;
use std::collections::BTreeMap;
use crate::ledger::{apply_all, apply_ops, balance_at, balance_in, credit_ops, debit_ops, move_ops, BalanceKey, Balances, LedgerOp};
use crate::asset::{credit_program, debit_program, move_program};
use crate::primitives::{ensure_signed, DispatchError, Origin};
use crate::traits::{reserve_effect, same_funds, ReservableCurrency};

verus! {

broadcast use vstd::laws_cmp::group_laws_cmp;

/// A class of assets.
#[derive(Clone, Debug)]
pub struct Class {
    pub owner: u64,
    pub metadata: Vec<u8>,
}

/// An asset within a class.
#[derive(Clone, Debug)]
pub struct Asset {
    pub class_id: u64,
    pub creator: u64,
    pub metadata: Vec<u8>,
}

/// An owner and an operator it may approve.
#[derive(Clone, Copy, PartialEq, Eq, Debug)]
pub struct ApprovalKey {
    pub owner: u64,
    pub operator: u64,
}

#[derive(Debug)]
pub enum Event {
    ClassCreated(u64, u64),
    AssetCreated(u64, u64, u64),
    Mint(u64, u64, u64, u128),
    BatchMint(u64, u64, Vec<u64>, Vec<u128>),
    Burn(u64, u64, u64, u128),
    BatchBurn(u64, u64, Vec<u64>, Vec<u128>),
    Transferred(u64, u64, u64, u64, u128),
    BatchTransferred(u64, u64, u64, Vec<u64>, Vec<u128>),
    ApprovalForAll(u64, u64, u64, bool),
}

#[derive(Clone, Copy, PartialEq, Eq, Debug)]
pub enum Error {
    Unknown,
    InUse,
    InvalidAssetId,
    InsufficientBalance,
    NumOverflow,
    InvalidArrayLength,
    Overflow,
    NoAvailableClassId,
    InvalidClassId,
    NoPermission,
    ClassNotFound,
    AssetNotFound,
}

/// Keyed by (class, owner, operator).
pub type ApprovalSlot = (u64, u64, u64);

/// The pallet's state and configuration.
pub struct Pallet {
    /// The deposit reserved from the creator of a class.
    pub create_asset_class_deposit: u128,
    pub classes: BTreeMap<u64, Class>,
    /// The number that the next class gets.
    pub next_class_id: u64,
    /// Keyed by (class, asset).
    pub assets: BTreeMap<(u64, u64), Asset>,
    /// The number of assets created in each class.
    pub asset_count: BTreeMap<u64, u64>,
    /// Keyed by (account, class, asset).
    pub balances: BTreeMap<BalanceKey, u128>,
    /// Whether an owner approved an operator for a class.
    pub operator_approvals: BTreeMap<ApprovalSlot, bool>,
    pub events: Vec<Event>,
}

/// A dispatch error of this pallet.
pub open spec fn oerr(e: Error) -> Result<(), DispatchError> {
    Err(DispatchError::OperatorAsset(e))
}

/// Whether `who` may manage `class_id`: the class exists and `who` owns it.
pub open spec fn owner_check(classes: Map<u64, Class>, who: u64, class_id: u64) -> Result<(), DispatchError> {
    if !classes.contains_key(class_id) {
        oerr(Error::InvalidClassId)
    } else if classes[class_id].owner != who {
        oerr(Error::NoPermission)
    } else {
        Ok(())
    }
}

/// Whether `owner` approved `operator` for all its assets of `class_id`.
pub open spec fn approved(approvals: Map<ApprovalSlot, bool>, owner: u64, operator: u64, class_id: u64) -> bool {
    approvals.contains_key((class_id, owner, operator)) && approvals[(class_id, owner, operator)]
}

/// Whether `who` may move the assets of `account` in `class_id`.
pub open spec fn may_move(approvals: Map<ApprovalSlot, bool>, who: u64, account: u64, class_id: u64) -> bool {
    who == account || approved(approvals, account, who, class_id)
}

/// The number of assets counted for a class, zero where there is none.
pub open spec fn count_in(c: Map<u64, u64>, class_id: u64) -> u64 {
    if c.contains_key(class_id) { c[class_id] } else { 0 }
}

/// The balances and result of a ledger program run by one call.
pub open spec fn outcome(b: Balances, ops: Seq<LedgerOp>) -> (Balances, Result<(), DispatchError>) {
    (apply_ops(b, ops).0, if apply_ops(b, ops).1 { Ok(()) } else { oerr(Error::NumOverflow) })
}

/// Two states that hold the same data.
pub open spec fn unchanged(a: &Pallet, b: &Pallet) -> bool {
    &&& same_registry(a, b)
    &&& a.balances@ == b.balances@
    &&& a.events@ == b.events@
}

/// Two states that differ at most in their balances and events.
pub open spec fn same_registry(a: &Pallet, b: &Pallet) -> bool {
    &&& a.create_asset_class_deposit == b.create_asset_class_deposit
    &&& a.classes@ == b.classes@
    &&& a.next_class_id == b.next_class_id
    &&& a.assets@ == b.assets@
    &&& a.asset_count@ == b.asset_count@
    &&& a.operator_approvals@ == b.operator_approvals@
}

/// The outcome of a ledger program run by a call: `new` holds its balances,
/// the call's result is that of the program, and on success `e` is recorded.
pub open spec fn ran(old: &Pallet, new: &Pallet, ops: Seq<LedgerOp>, e: Event, r: Result<(), DispatchError>) -> bool {
    &&& same_registry(old, new)
    &&& (new.balances@, r) == outcome(old.balances@, ops)
    &&& r is Ok ==> new.events@ == old.events@.push(e)
    &&& r is Err ==> new.events@ == old.events@
}

/// The all-or-nothing outcome of a ledger program run by a dispatched call.
pub open spec fn ran_atomically(old: &Pallet, new: &Pallet, ops: Seq<LedgerOp>, e: Event, r: Result<(), DispatchError>) -> bool {
    &&& r == outcome(old.balances@, ops).1
    &&& r is Ok ==> same_registry(old, new) && new.balances@ == outcome(old.balances@, ops).0 && new.events@ == old.events@.push(e)
    &&& r is Err ==> unchanged(old, new)
}

impl Pallet {
    /// An empty pallet that takes `create_asset_class_deposit` for each class.
    pub fn new(create_asset_class_deposit: u128) -> (r: Pallet)
        ensures
            r.create_asset_class_deposit == create_asset_class_deposit,
            r.classes@ == Map::<u64, Class>::empty(),
            r.next_class_id == 0,
            r.assets@ == Map::<(u64, u64), Asset>::empty(),
            r.asset_count@ == Map::<u64, u64>::empty(),
            r.balances@ == Map::<BalanceKey, u128>::empty(),
            r.operator_approvals@ == Map::<ApprovalSlot, bool>::empty(),
            r.events@ == Seq::<Event>::empty(),
    {
        Pallet {
            create_asset_class_deposit,
            classes: BTreeMap::new(),
            next_class_id: 0,
            assets: BTreeMap::new(),
            asset_count: BTreeMap::new(),
            balances: BTreeMap::new(),
            operator_approvals: BTreeMap::new(),
            events: Vec::new(),
        }
    }

    /// Runs a ledger program on the balances and records `e` on success.
    fn run(&mut self, ops: &Vec<LedgerOp>, e: Event) -> (r: Result<(), DispatchError>)
        ensures
            ran(old(self), final(self), ops@, e, r),
    {
        let ok = apply_all(&mut self.balances, ops);
        if ok {
            self.events.push(e);
            Ok(())
        } else {
            Err(DispatchError::OperatorAsset(Error::NumOverflow))
        }
    }

    /// Whether `who` owns `class_id`.
    fn maybe_check_owner(&self, who: u64, class_id: u64) -> (r: Result<(), DispatchError>)
        ensures
            r == owner_check(self.classes@, who, class_id),
    {
        match self.classes.get(&class_id) {
            None => Err(DispatchError::OperatorAsset(Error::InvalidClassId)),
            Some(class) => {
                if who == class.owner {
                    Ok(())
                } else {
                    Err(DispatchError::OperatorAsset(Error::NoPermission))
                }
            },
        }
    }

    /// The number that the next class gets.
    pub fn next_class_id(&self) -> (r: u64)
        ensures
            r == self.next_class_id,
    {
        self.next_class_id
    }

    /// The number of assets created in `class_id`.
    pub fn asset_count(&self, class_id: u64) -> (r: u64)
        ensures
            r == count_in(self.asset_count@, class_id),
    {
        match self.asset_count.get(&class_id) {
            Some(c) => *c,
            None => 0,
        }
    }

    /// The balance of `owner` in an asset.
    pub fn balance_of(&self, owner: u64, class_id: u64, asset_id: u64) -> (r: u128)
        ensures
            r == balance_in(self.balances@, (owner, class_id, asset_id)),
    {
        balance_at(&self.balances, (owner, class_id, asset_id))
    }

    /// Whether `owner` approved `operator` for all its assets of `class_id`.
    pub fn is_approved_for_all(&self, owner: u64, operator: u64, class_id: u64) -> (r: bool)
        ensures
            r == approved(self.operator_approvals@, owner, operator, class_id),
    {
        match self.operator_approvals.get(&(class_id, owner, operator)) {
            Some(b) => *b,
            None => false,
        }
    }

    /// Whether `who` may move the assets of `account` in `class_id`: it is
    /// the account itself or an approved operator.
    pub fn approved_or_owner(&self, who: u64, account: u64, class_id: u64) -> (r: bool)
        ensures
            r == may_move(self.operator_approvals@, who, account, class_id),
    {
        who == account || self.is_approved_for_all(account, who, class_id)
    }

    /// The balances of `owners[i]` in `asset_ids[i]`.
    pub fn balance_of_batch(&self, owners: &Vec<u64>, class_id: u64, asset_ids: Vec<u64>) -> (r: Result<Vec<u128>, DispatchError>)
        ensures
            owners.len() != asset_ids.len() ==> r == Err::<Vec<u128>, DispatchError>(DispatchError::OperatorAsset(Error::InvalidArrayLength)),
            owners.len() == asset_ids.len() ==> (r matches Ok(v) && v@ == Seq::new(
                owners@.len(),
                |i: int| balance_in(self.balances@, (owners@[i], class_id, asset_ids@[i])),
            )),
    {
        if owners.len() != asset_ids.len() {
            return Err(DispatchError::OperatorAsset(Error::InvalidArrayLength));
        }
        let n = owners.len();
        let mut v: Vec<u128> = Vec::new();
        for i in 0..n
            invariant
                n == owners.len(),
                n == asset_ids.len(),
                v@ == Seq::new(i as nat, |j: int| balance_in(self.balances@, (owners@[j], class_id, asset_ids@[j]))),
        {
            v.push(balance_at(&self.balances, (owners[i], class_id, asset_ids[i])));
            assert(v@ =~= Seq::new((i + 1) as nat, |j: int| balance_in(self.balances@, (owners@[j], class_id, asset_ids@[j]))));
        }
        Ok(v)
    }

    /// The balances of `owner` in each of `asset_ids`.
    pub fn balance_of_single_owner_batch(&self, owner: u64, class_id: u64, asset_ids: Vec<u64>) -> (r: Result<Vec<u128>, DispatchError>)
        ensures
            r matches Ok(v) && v@ == Seq::new(asset_ids@.len(), |i: int| balance_in(self.balances@, (owner, class_id, asset_ids@[i]))),
    {
        let n = asset_ids.len();
        let mut v: Vec<u128> = Vec::new();
        for i in 0..n
            invariant
                n == asset_ids.len(),
                v@ == Seq::new(i as nat, |j: int| balance_in(self.balances@, (owner, class_id, asset_ids@[j]))),
        {
            v.push(balance_at(&self.balances, (owner, class_id, asset_ids[i])));
            assert(v@ =~= Seq::new((i + 1) as nat, |j: int| balance_in(self.balances@, (owner, class_id, asset_ids@[j]))));
        }
        Ok(v)
    }

    /// Creates a class owned by `who`, numbered `next_class_id`, reserving
    /// the class deposit from `who`. The deposit stays reserved where the
    /// class numbers are exhausted.
    pub fn do_create_class<C: ReservableCurrency>(&mut self, currency: &mut C, who: u64, metadata: Vec<u8>) -> (r: Result<u64, DispatchError>)
        ensures
            final(self).create_asset_class_deposit == old(self).create_asset_class_deposit,
            final(self).assets@ == old(self).assets@,
            final(self).asset_count@ == old(self).asset_count@,
            final(self).balances@ == old(self).balances@,
            final(self).operator_approvals@ == old(self).operator_approvals@,
            old(self).next_class_id == u64::MAX ==> r is Err,
            !old(currency).reserve_allowed(who, old(self).create_asset_class_deposit) ==> r is Err && same_funds(*old(currency), *final(currency)),
            old(currency).reserve_allowed(who, old(self).create_asset_class_deposit) && old(self).next_class_id == u64::MAX
                ==> r == Err::<u64, DispatchError>(DispatchError::OperatorAsset(Error::NoAvailableClassId)),
            old(currency).reserve_allowed(who, old(self).create_asset_class_deposit) && old(self).next_class_id < u64::MAX ==> r is Ok,
            r is Err ==> final(self).classes@ == old(self).classes@ && final(self).next_class_id == old(self).next_class_id
                && final(self).events@ == old(self).events@
                && (same_funds(*old(currency), *final(currency)) || (old(self).next_class_id == u64::MAX
                    && r == Err::<u64, DispatchError>(DispatchError::OperatorAsset(Error::NoAvailableClassId))
                    && reserve_effect(*old(currency), *final(currency), who, old(self).create_asset_class_deposit))),
            r is Ok ==> {
                let id = old(self).next_class_id;
                &&& r == Ok::<u64, DispatchError>(id)
                &&& id < u64::MAX
                &&& final(self).next_class_id == id + 1
                &&& reserve_effect(*old(currency), *final(currency), who, old(self).create_asset_class_deposit)
                &&& final(self).classes@.dom() == old(self).classes@.dom().insert(id)
                &&& forall|c: u64| c != id ==> #[trigger] final(self).classes@[c] == old(self).classes@[c]
                &&& final(self).classes@[id].owner == who
                &&& final(self).classes@[id].metadata@ == metadata@
                &&& final(self).events@.len() == old(self).events@.len() + 1
                &&& final(self).events@.drop_last() == old(self).events@
                &&& final(self).events@.last() matches Event::ClassCreated(c, w) && c == id && w == who
            },
    {
        let deposit = self.create_asset_class_deposit;
        currency.reserve(who, deposit)?;
        let class_id = self.next_class_id;
        match class_id.checked_add(1) {
            Some(n) => {
                self.next_class_id = n;
            },
            None => {
                return Err(DispatchError::OperatorAsset(Error::NoAvailableClassId));
            },
        }
        self.classes.insert(class_id, Class { owner: who, metadata });
        self.events.push(Event::ClassCreated(class_id, who));
        assert(self.events@.drop_last() =~= old(self).events@);
        Ok(class_id)
    }

    /// Creates asset `asset_id` in `class_id`; only the class owner may. The
    /// asset stays created where its class count overflows.
    pub fn do_create_asset(&mut self, who: u64, class_id: u64, asset_id: u64, metadata: Vec<u8>) -> (r: Result<(), DispatchError>)
        ensures
            final(self).create_asset_class_deposit == old(self).create_asset_class_deposit,
            final(self).classes@ == old(self).classes@,
            final(self).next_class_id == old(self).next_class_id,
            final(self).balances@ == old(self).balances@,
            final(self).operator_approvals@ == old(self).operator_approvals@,
            owner_check(old(self).classes@, who, class_id) is Err ==> r == owner_check(old(self).classes@, who, class_id)
                && unchanged(old(self), final(self)),
            owner_check(old(self).classes@, who, class_id) is Ok && old(self).assets@.contains_key((class_id, asset_id))
                ==> r == oerr(Error::InUse) && unchanged(old(self), final(self)),
            owner_check(old(self).classes@, who, class_id) is Ok && !old(self).assets@.contains_key((class_id, asset_id)) ==> {
                &&& final(self).assets@.dom() == old(self).assets@.dom().insert((class_id, asset_id))
                &&& forall|k: (u64, u64)| k != (class_id, asset_id) ==> #[trigger] final(self).assets@[k] == old(self).assets@[k]
                &&& final(self).assets@[(class_id, asset_id)].class_id == class_id
                &&& final(self).assets@[(class_id, asset_id)].creator == who
                &&& final(self).assets@[(class_id, asset_id)].metadata@ == metadata@
                &&& if count_in(old(self).asset_count@, class_id) < u64::MAX {
                    &&& r is Ok
                    &&& final(self).asset_count@ == old(self).asset_count@.insert(class_id, (count_in(old(self).asset_count@, class_id) + 1) as u64)
                    &&& final(self).events@.len() == old(self).events@.len() + 1
                    &&& final(self).events@.drop_last() == old(self).events@
                    &&& final(self).events@.last() matches Event::AssetCreated(c, a, w) && c == class_id && a == asset_id && w == who
                } else {
                    &&& r == oerr(Error::NumOverflow)
                    &&& final(self).asset_count@ == old(self).asset_count@
                    &&& final(self).events@ == old(self).events@
                }
            },
    {
        self.maybe_check_owner(who, class_id)?;
        if self.assets.contains_key(&(class_id, asset_id)) {
            return Err(DispatchError::OperatorAsset(Error::InUse));
        }
        self.assets.insert((class_id, asset_id), Asset { class_id, creator: who, metadata });
        let count = self.asset_count(class_id);
        match count.checked_add(1) {
            Some(c) => {
                self.asset_count.insert(class_id, c);
            },
            None => {
                return Err(DispatchError::OperatorAsset(Error::NumOverflow));
            },
        }
        self.events.push(Event::AssetCreated(class_id, asset_id, who));
        assert(self.events@.drop_last() =~= old(self).events@);
        Ok(())
    }

    /// Replaces the metadata of `class_id`; only the class owner may.
    pub fn do_update_class_metadata(&mut self, who: u64, class_id: u64, metadata: Vec<u8>) -> (r: Result<(), DispatchError>)
        ensures
            r == owner_check(old(self).classes@, who, class_id),
            r is Err ==> unchanged(old(self), final(self)),
            r is Ok ==> {
                &&& final(self).classes@.dom() == old(self).classes@.dom()
                &&& forall|c: u64| c != class_id ==> #[trigger] final(self).classes@[c] == old(self).classes@[c]
                &&& final(self).classes@[class_id].owner == old(self).classes@[class_id].owner
                &&& final(self).classes@[class_id].metadata@ == metadata@
                &&& final(self).next_class_id == old(self).next_class_id
                &&& final(self).assets@ == old(self).assets@
                &&& final(self).asset_count@ == old(self).asset_count@
                &&& final(self).balances@ == old(self).balances@
                &&& final(self).operator_approvals@ == old(self).operator_approvals@
                &&& final(self).events@ == old(self).events@
                &&& final(self).create_asset_class_deposit == old(self).create_asset_class_deposit
            },
    {
        self.maybe_check_owner(who, class_id)?;
        let owner = match self.classes.get(&class_id) {
            Some(c) => c.owner,
            None => {
                return Err(DispatchError::OperatorAsset(Error::InvalidClassId));
            },
        };
        self.classes.insert(class_id, Class { owner, metadata });
        Ok(())
    }

    /// Replaces the metadata of an asset; only the class owner may.
    pub fn do_update_asset_metadata(&mut self, who: u64, class_id: u64, asset_id: u64, metadata: Vec<u8>) -> (r: Result<(), DispatchError>)
        ensures
            owner_check(old(self).classes@, who, class_id) is Err ==> r == owner_check(old(self).classes@, who, class_id),
            owner_check(old(self).classes@, who, class_id) is Ok && !old(self).assets@.contains_key((class_id, asset_id))
                ==> r == oerr(Error::InvalidAssetId),
            owner_check(old(self).classes@, who, class_id) is Ok && old(self).assets@.contains_key((class_id, asset_id)) ==> r is Ok,
            r is Err ==> unchanged(old(self), final(self)),
            r is Ok ==> {
                let a = old(self).assets@[(class_id, asset_id)];
                &&& owner_check(old(self).classes@, who, class_id) is Ok
                &&& final(self).assets@.dom() == old(self).assets@.dom()
                &&& forall|k: (u64, u64)| k != (class_id, asset_id) ==> #[trigger] final(self).assets@[k] == old(self).assets@[k]
                &&& final(self).assets@[(class_id, asset_id)].class_id == a.class_id
                &&& final(self).assets@[(class_id, asset_id)].creator == a.creator
                &&& final(self).assets@[(class_id, asset_id)].metadata@ == metadata@
                &&& final(self).classes@ == old(self).classes@
                &&& final(self).next_class_id == old(self).next_class_id
                &&& final(self).asset_count@ == old(self).asset_count@
                &&& final(self).balances@ == old(self).balances@
                &&& final(self).operator_approvals@ == old(self).operator_approvals@
                &&& final(self).events@ == old(self).events@
                &&& final(self).create_asset_class_deposit == old(self).create_asset_class_deposit
            },
    {
        self.maybe_check_owner(who, class_id)?;
        let (c, creator) = match self.assets.get(&(class_id, asset_id)) {
            Some(a) => (a.class_id, a.creator),
            None => {
                return Err(DispatchError::OperatorAsset(Error::InvalidAssetId));
            },
        };
        self.assets.insert((class_id, asset_id), Asset { class_id: c, creator, metadata });
        Ok(())
    }

    /// Sets whether `operator` may move all of `who`'s assets of `class_id`.
    pub fn do_set_approval_for_all(&mut self, who: u64, operator: u64, class_id: u64, approved: bool) -> (r: Result<(), DispatchError>)
        ensures
            !old(self).classes@.contains_key(class_id) ==> r == oerr(Error::ClassNotFound) && unchanged(old(self), final(self)),
            old(self).classes@.contains_key(class_id) ==> {
                &&& r is Ok
                &&& final(self).operator_approvals@ == old(self).operator_approvals@.insert((class_id, who, operator), approved)
                &&& final(self).classes@ == old(self).classes@
                &&& final(self).next_class_id == old(self).next_class_id
                &&& final(self).assets@ == old(self).assets@
                &&& final(self).asset_count@ == old(self).asset_count@
                &&& final(self).balances@ == old(self).balances@
                &&& final(self).create_asset_class_deposit == old(self).create_asset_class_deposit
                &&& final(self).events@.len() == old(self).events@.len() + 1
                &&& final(self).events@.drop_last() == old(self).events@
                &&& final(self).events@.last() matches Event::ApprovalForAll(w, o, c, a) && w == who && o == operator && c == class_id && a == approved
            },
    {
        if !self.classes.contains_key(&class_id) {
            return Err(DispatchError::OperatorAsset(Error::ClassNotFound));
        }
        self.operator_approvals.insert((class_id, who, operator), approved);
        self.events.push(Event::ApprovalForAll(who, operator, class_id, approved));
        assert(self.events@.drop_last() =~= old(self).events@);
        Ok(())
    }

    /// Adds `amount` of an asset to `to`; only the class owner may.
    pub fn do_mint(&mut self, who: u64, to: u64, class_id: u64, asset_id: u64, amount: u128) -> (r: Result<(), DispatchError>)
        ensures
            owner_check(old(self).classes@, who, class_id) is Err ==> r == owner_check(old(self).classes@, who, class_id)
                && unchanged(old(self), final(self)),
            owner_check(old(self).classes@, who, class_id) is Ok ==> ran(
                old(self),
                final(self),
                seq![LedgerOp::Credit { key: (to, class_id, asset_id), amount }],
                Event::Mint(to, class_id, asset_id, amount),
                r,
            ),
    {
        self.maybe_check_owner(who, class_id)?;
        let ops = vec![LedgerOp::Credit { key: (to, class_id, asset_id), amount }];
        assert(ops@ =~= seq![LedgerOp::Credit { key: (to, class_id, asset_id), amount }]);
        self.run(&ops, Event::Mint(to, class_id, asset_id, amount))
    }

    /// Adds `amounts[i]` of `asset_ids[i]` to `to`, in order; only the class
    /// owner may. Credits already made stay where a later one fails.
    pub fn do_batch_mint(&mut self, who: u64, to: u64, class_id: u64, asset_ids: Vec<u64>, amounts: Vec<u128>) -> (r: Result<(), DispatchError>)
        ensures
            owner_check(old(self).classes@, who, class_id) is Err ==> r == owner_check(old(self).classes@, who, class_id)
                && unchanged(old(self), final(self)),
            owner_check(old(self).classes@, who, class_id) is Ok && asset_ids.len() != amounts.len()
                ==> r == oerr(Error::InvalidArrayLength) && unchanged(old(self), final(self)),
            owner_check(old(self).classes@, who, class_id) is Ok && asset_ids.len() == amounts.len() ==> ran(
                old(self),
                final(self),
                credit_ops(to, class_id, asset_ids@, amounts@),
                Event::BatchMint(to, class_id, asset_ids, amounts),
                r,
            ),
    {
        self.maybe_check_owner(who, class_id)?;
        if asset_ids.len() != amounts.len() {
            return Err(DispatchError::OperatorAsset(Error::InvalidArrayLength));
        }
        let ops = credit_program(to, class_id, &asset_ids, &amounts);
        self.run(&ops, Event::BatchMint(to, class_id, asset_ids, amounts))
    }

    /// Removes `amount` of an asset from `from`; only the class owner may.
    pub fn do_burn(&mut self, who: u64, from: u64, class_id: u64, asset_id: u64, amount: u128) -> (r: Result<(), DispatchError>)
        ensures
            owner_check(old(self).classes@, who, class_id) is Err ==> r == owner_check(old(self).classes@, who, class_id)
                && unchanged(old(self), final(self)),
            owner_check(old(self).classes@, who, class_id) is Ok ==> ran(
                old(self),
                final(self),
                seq![LedgerOp::Debit { key: (from, class_id, asset_id), amount }],
                Event::Burn(from, class_id, asset_id, amount),
                r,
            ),
    {
        self.maybe_check_owner(who, class_id)?;
        let ops = vec![LedgerOp::Debit { key: (from, class_id, asset_id), amount }];
        assert(ops@ =~= seq![LedgerOp::Debit { key: (from, class_id, asset_id), amount }]);
        self.run(&ops, Event::Burn(from, class_id, asset_id, amount))
    }

    /// Removes `amounts[i]` of `asset_ids[i]` from `from`, in order; only the
    /// class owner may. Debits already made stay where a later one fails.
    pub fn do_batch_burn(&mut self, who: u64, from: u64, class_id: u64, asset_ids: Vec<u64>, amounts: Vec<u128>) -> (r: Result<(), DispatchError>)
        ensures
            owner_check(old(self).classes@, who, class_id) is Err ==> r == owner_check(old(self).classes@, who, class_id)
                && unchanged(old(self), final(self)),
            owner_check(old(self).classes@, who, class_id) is Ok && asset_ids.len() != amounts.len()
                ==> r == oerr(Error::InvalidArrayLength) && unchanged(old(self), final(self)),
            owner_check(old(self).classes@, who, class_id) is Ok && asset_ids.len() == amounts.len() ==> ran(
                old(self),
                final(self),
                debit_ops(from, class_id, asset_ids@, amounts@),
                Event::BatchBurn(from, class_id, asset_ids, amounts),
                r,
            ),
    {
        self.maybe_check_owner(who, class_id)?;
        if asset_ids.len() != amounts.len() {
            return Err(DispatchError::OperatorAsset(Error::InvalidArrayLength));
        }
        let ops = debit_program(from, class_id, &asset_ids, &amounts);
        self.run(&ops, Event::BatchBurn(from, class_id, asset_ids, amounts))
    }

    /// Moves `amount` of an asset from `from` to `to`; `who` must be `from`
    /// or an operator it approved. Nothing happens where the two accounts
    /// are the same or the amount is zero.
    pub fn do_transfer_from(&mut self, who: u64, from: u64, to: u64, class_id: u64, asset_id: u64, amount: u128) -> (r: Result<(), DispatchError>)
        ensures
            !may_move(old(self).operator_approvals@, who, from, class_id) ==> r == oerr(Error::NoPermission) && unchanged(old(self), final(self)),
            may_move(old(self).operator_approvals@, who, from, class_id) && (from == to || amount == 0) ==> r is Ok && unchanged(old(self), final(self)),
            may_move(old(self).operator_approvals@, who, from, class_id) && from != to && amount != 0 ==> ran(
                old(self),
                final(self),
                seq![LedgerOp::Move { from: (from, class_id, asset_id), to: (to, class_id, asset_id), amount }],
                Event::Transferred(from, to, class_id, asset_id, amount),
                r,
            ),
    {
        if !self.approved_or_owner(who, from, class_id) {
            return Err(DispatchError::OperatorAsset(Error::NoPermission));
        }
        if from == to || amount == 0 {
            return Ok(());
        }
        let ops = vec![LedgerOp::Move { from: (from, class_id, asset_id), to: (to, class_id, asset_id), amount }];
        assert(ops@ =~= seq![LedgerOp::Move { from: (from, class_id, asset_id), to: (to, class_id, asset_id), amount }]);
        self.run(&ops, Event::Transferred(from, to, class_id, asset_id, amount))
    }

    /// Moves `amounts[i]` of `asset_ids[i]` from `from` to `to`, in order;
    /// `who` must be `from` or an operator it approved. Nothing happens where
    /// the two accounts are the same; moves already made stay where a later
    /// one fails.
    pub fn do_batch_transfer_from(
        &mut self,
        who: u64,
        from: u64,
        to: u64,
        class_id: u64,
        asset_ids: Vec<u64>,
        amounts: Vec<u128>,
    ) -> (r: Result<(), DispatchError>)
        ensures
            !may_move(old(self).operator_approvals@, who, from, class_id) ==> r == oerr(Error::NoPermission) && unchanged(old(self), final(self)),
            may_move(old(self).operator_approvals@, who, from, class_id) && from == to ==> r is Ok && unchanged(old(self), final(self)),
            may_move(old(self).operator_approvals@, who, from, class_id) && from != to && asset_ids.len() != amounts.len()
                ==> r == oerr(Error::InvalidArrayLength) && unchanged(old(self), final(self)),
            may_move(old(self).operator_approvals@, who, from, class_id) && from != to && asset_ids.len() == amounts.len() ==> ran(
                old(self),
                final(self),
                move_ops(from, to, class_id, asset_ids@, amounts@),
                Event::BatchTransferred(from, to, class_id, asset_ids, amounts),
                r,
            ),
    {
        if !self.approved_or_owner(who, from, class_id) {
            return Err(DispatchError::OperatorAsset(Error::NoPermission));
        }
        if from == to {
            return Ok(());
        }
        if asset_ids.len() != amounts.len() {
            return Err(DispatchError::OperatorAsset(Error::InvalidArrayLength));
        }
        let ops = move_program(from, to, class_id, &asset_ids, &amounts);
        self.run(&ops, Event::BatchTransferred(from, to, class_id, asset_ids, amounts))
    }

    /// `do_mint` for the signer; a failed call changes nothing.
    pub fn mint(&mut self, origin: Origin, to: u64, class_id: u64, asset_id: u64, amount: u128) -> (r: Result<(), DispatchError>)
        ensures
            !(origin is Signed) ==> r == Err::<(), DispatchError>(DispatchError::BadOrigin) && unchanged(old(self), final(self)),
            r is Err ==> unchanged(old(self), final(self)),
            origin is Signed ==> ({
                let who = origin->Signed_0;
                let chk = owner_check(old(self).classes@, who, class_id);
                &&& chk is Err ==> r == chk
                &&& chk is Ok ==> ran_atomically(old(self), final(self), seq![LedgerOp::Credit { key: (to, class_id, asset_id), amount }],
                    Event::Mint(to, class_id, asset_id, amount), r)
            }),
    {
        let who = ensure_signed(origin)?;
        let saved = self.balances.clone();
        let r = self.do_mint(who, to, class_id, asset_id, amount);
        if r.is_err() {
            self.balances = saved;
        }
        r
    }

    /// `do_batch_mint` for the signer; a failed call changes nothing.
    pub fn batch_mint(&mut self, origin: Origin, to: u64, class_id: u64, asset_ids: Vec<u64>, amounts: Vec<u128>) -> (r: Result<(), DispatchError>)
        ensures
            !(origin is Signed) ==> r == Err::<(), DispatchError>(DispatchError::BadOrigin) && unchanged(old(self), final(self)),
            r is Err ==> unchanged(old(self), final(self)),
            origin is Signed ==> ({
                let who = origin->Signed_0;
                let chk = owner_check(old(self).classes@, who, class_id);
                &&& chk is Err ==> r == chk
                &&& chk is Ok && asset_ids.len() != amounts.len() ==> r == oerr(Error::InvalidArrayLength)
                &&& chk is Ok && asset_ids.len() == amounts.len() ==> ran_atomically(old(self), final(self), credit_ops(to, class_id, asset_ids@, amounts@),
                    Event::BatchMint(to, class_id, asset_ids, amounts), r)
            }),
    {
        let who = ensure_signed(origin)?;
        let saved = self.balances.clone();
        let r = self.do_batch_mint(who, to, class_id, asset_ids, amounts);
        if r.is_err() {
            self.balances = saved;
        }
        r
    }

    /// `do_burn` for the signer; a failed call changes nothing.
    pub fn burn(&mut self, origin: Origin, from: u64, class_id: u64, asset_id: u64, amount: u128) -> (r: Result<(), DispatchError>)
        ensures
            !(origin is Signed) ==> r == Err::<(), DispatchError>(DispatchError::BadOrigin) && unchanged(old(self), final(self)),
            r is Err ==> unchanged(old(self), final(self)),
            origin is Signed ==> ({
                let who = origin->Signed_0;
                let chk = owner_check(old(self).classes@, who, class_id);
                &&& chk is Err ==> r == chk
                &&& chk is Ok ==> ran_atomically(old(self), final(self), seq![LedgerOp::Debit { key: (from, class_id, asset_id), amount }],
                    Event::Burn(from, class_id, asset_id, amount), r)
            }),
    {
        let who = ensure_signed(origin)?;
        let saved = self.balances.clone();
        let r = self.do_burn(who, from, class_id, asset_id, amount);
        if r.is_err() {
            self.balances = saved;
        }
        r
    }

    /// `do_batch_burn` for the signer; a failed call changes nothing.
    pub fn batch_burn(&mut self, origin: Origin, from: u64, class_id: u64, asset_ids: Vec<u64>, amounts: Vec<u128>) -> (r: Result<(), DispatchError>)
        ensures
            !(origin is Signed) ==> r == Err::<(), DispatchError>(DispatchError::BadOrigin) && unchanged(old(self), final(self)),
            r is Err ==> unchanged(old(self), final(self)),
            origin is Signed ==> ({
                let who = origin->Signed_0;
                let chk = owner_check(old(self).classes@, who, class_id);
                &&& chk is Err ==> r == chk
                &&& chk is Ok && asset_ids.len() != amounts.len() ==> r == oerr(Error::InvalidArrayLength)
                &&& chk is Ok && asset_ids.len() == amounts.len() ==> ran_atomically(old(self), final(self), debit_ops(from, class_id, asset_ids@, amounts@),
                    Event::BatchBurn(from, class_id, asset_ids, amounts), r)
            }),
    {
        let who = ensure_signed(origin)?;
        let saved = self.balances.clone();
        let r = self.do_batch_burn(who, from, class_id, asset_ids, amounts);
        if r.is_err() {
            self.balances = saved;
        }
        r
    }

    /// `do_transfer_from` for the signer; a failed call changes nothing.
    pub fn transfer_from(&mut self, origin: Origin, from: u64, to: u64, class_id: u64, asset_id: u64, amount: u128) -> (r: Result<(), DispatchError>)
        ensures
            !(origin is Signed) ==> r == Err::<(), DispatchError>(DispatchError::BadOrigin) && unchanged(old(self), final(self)),
            r is Err ==> unchanged(old(self), final(self)),
            origin is Signed ==> ({
                let who = origin->Signed_0;
                let ok = may_move(old(self).operator_approvals@, who, from, class_id);
                &&& !ok ==> r == oerr(Error::NoPermission)
                &&& ok && (from == to || amount == 0) ==> r is Ok && unchanged(old(self), final(self))
                &&& ok && from != to && amount != 0 ==> ran_atomically(old(self), final(self),
                    seq![LedgerOp::Move { from: (from, class_id, asset_id), to: (to, class_id, asset_id), amount }],
                    Event::Transferred(from, to, class_id, asset_id, amount), r)
            }),
    {
        let who = ensure_signed(origin)?;
        let saved = self.balances.clone();
        let r = self.do_transfer_from(who, from, to, class_id, asset_id, amount);
        if r.is_err() {
            self.balances = saved;
        }
        r
    }

    /// `do_batch_transfer_from` for the signer; a failed call changes nothing.
    pub fn batch_transfer_from(&mut self, origin: Origin, from: u64, to: u64, class_id: u64, asset_ids: Vec<u64>, amounts: Vec<u128>) -> (r: Result<(), DispatchError>)
        ensures
            !(origin is Signed) ==> r == Err::<(), DispatchError>(DispatchError::BadOrigin) && unchanged(old(self), final(self)),
            r is Err ==> unchanged(old(self), final(self)),
            origin is Signed ==> ({
                let who = origin->Signed_0;
                let ok = may_move(old(self).operator_approvals@, who, from, class_id);
                &&& !ok ==> r == oerr(Error::NoPermission)
                &&& ok && from == to ==> r is Ok && unchanged(old(self), final(self))
                &&& ok && from != to && asset_ids.len() != amounts.len() ==> r == oerr(Error::InvalidArrayLength)
                &&& ok && from != to && asset_ids.len() == amounts.len() ==> ran_atomically(old(self), final(self),
                    move_ops(from, to, class_id, asset_ids@, amounts@),
                    Event::BatchTransferred(from, to, class_id, asset_ids, amounts), r)
            }),
    {
        let who = ensure_signed(origin)?;
        let saved = self.balances.clone();
        let r = self.do_batch_transfer_from(who, from, to, class_id, asset_ids, amounts);
        if r.is_err() {
            self.balances = saved;
        }
        r
    }

    /// `do_create_class` for the signer; a failed call changes nothing.
    pub fn create_class<C: ReservableCurrency>(&mut self, currency: &mut C, origin: Origin, metadata: Vec<u8>) -> (r: Result<(), DispatchError>)
        ensures
            final(self).create_asset_class_deposit == old(self).create_asset_class_deposit,
            final(self).assets@ == old(self).assets@,
            final(self).asset_count@ == old(self).asset_count@,
            final(self).balances@ == old(self).balances@,
            final(self).operator_approvals@ == old(self).operator_approvals@,
            !(origin is Signed) ==> r == Err::<(), DispatchError>(DispatchError::BadOrigin),
            origin is Signed && old(self).next_class_id == u64::MAX ==> r is Err,
            origin is Signed && old(currency).reserve_allowed(origin->Signed_0, old(self).create_asset_class_deposit)
                && old(self).next_class_id == u64::MAX ==> r == Err::<(), DispatchError>(DispatchError::OperatorAsset(Error::NoAvailableClassId)),
            origin is Signed && old(self).next_class_id < u64::MAX
                ==> (r is Ok <==> old(currency).reserve_allowed(origin->Signed_0, old(self).create_asset_class_deposit)),
            r is Err ==> final(self).classes@ == old(self).classes@ && final(self).next_class_id == old(self).next_class_id
                && final(self).events@ == old(self).events@ && same_funds(*old(currency), *final(currency)),
            r is Ok ==> ({
                let id = old(self).next_class_id;
                let who = origin->Signed_0;
                &&& origin is Signed
                &&& final(self).next_class_id == id + 1
                &&& reserve_effect(*old(currency), *final(currency), who, old(self).create_asset_class_deposit)
                &&& final(self).classes@.dom() == old(self).classes@.dom().insert(id)
                &&& forall|c: u64| c != id ==> #[trigger] final(self).classes@[c] == old(self).classes@[c]
                &&& final(self).classes@[id].owner == who
                &&& final(self).classes@[id].metadata@ == metadata@
                &&& final(self).events@.len() == old(self).events@.len() + 1
                &&& final(self).events@.drop_last() == old(self).events@
            }),
    {
        let who = match ensure_signed(origin) {
            Ok(w) => w,
            Err(e) => {
                assert(same_funds(*old(currency), *currency));
                return Err(e);
            },
        };
        let saved_funds = currency.duplicate();
        match self.do_create_class(currency, who, metadata) {
            Ok(_) => Ok(()),
            Err(e) => {
                *currency = saved_funds;
                assert(same_funds(*old(currency), *currency));
                Err(e)
            },
        }
    }

    /// `do_create_asset` for the signer; a failed call changes nothing.
    pub fn create_asset(&mut self, origin: Origin, class_id: u64, asset_id: u64, metadata: Vec<u8>) -> (r: Result<(), DispatchError>)
        ensures
            !(origin is Signed) ==> r == Err::<(), DispatchError>(DispatchError::BadOrigin),
            r is Err ==> unchanged(old(self), final(self)),
            origin is Signed ==> ({
                let who = origin->Signed_0;
                let chk = owner_check(old(self).classes@, who, class_id);
                &&& chk is Err ==> r == chk
                &&& chk is Ok && old(self).assets@.contains_key((class_id, asset_id)) ==> r == oerr(Error::InUse)
                &&& chk is Ok && !old(self).assets@.contains_key((class_id, asset_id)) && count_in(old(self).asset_count@, class_id) == u64::MAX
                    ==> r == oerr(Error::NumOverflow)
                &&& chk is Ok && !old(self).assets@.contains_key((class_id, asset_id)) && count_in(old(self).asset_count@, class_id) < u64::MAX ==> {
                    &&& r is Ok
                    &&& final(self).assets@.dom() == old(self).assets@.dom().insert((class_id, asset_id))
                    &&& final(self).assets@[(class_id, asset_id)].creator == who
                    &&& final(self).assets@[(class_id, asset_id)].metadata@ == metadata@
                    &&& final(self).asset_count@ == old(self).asset_count@.insert(class_id, (count_in(old(self).asset_count@, class_id) + 1) as u64)
                    &&& final(self).events@.len() == old(self).events@.len() + 1
                    &&& final(self).classes@ == old(self).classes@
                    &&& final(self).balances@ == old(self).balances@
                }
            }),
    {
        let who = ensure_signed(origin)?;
        let saved_assets = self.assets.clone();
        let saved_count = self.asset_count.clone();
        let r = self.do_create_asset(who, class_id, asset_id, metadata);
        if r.is_err() {
            self.assets = saved_assets;
            self.asset_count = saved_count;
        }
        r
    }

    /// `do_set_approval_for_all` for the signer.
    pub fn set_approval_for_all(&mut self, origin: Origin, operator: u64, class_id: u64, approved: bool) -> (r: Result<(), DispatchError>)
        ensures
            !(origin is Signed) ==> r == Err::<(), DispatchError>(DispatchError::BadOrigin) && unchanged(old(self), final(self)),
            origin is Signed && !old(self).classes@.contains_key(class_id) ==> r == oerr(Error::ClassNotFound) && unchanged(old(self), final(self)),
            origin is Signed && old(self).classes@.contains_key(class_id) ==> r is Ok
                && final(self).operator_approvals@ == old(self).operator_approvals@.insert((class_id, origin->Signed_0, operator), approved)
                && final(self).balances@ == old(self).balances@ && final(self).classes@ == old(self).classes@
                && final(self).events@.len() == old(self).events@.len() + 1,
    {
        let who = ensure_signed(origin)?;
        self.do_set_approval_for_all(who, operator, class_id, approved)
    }

    /// `do_update_class_metadata` for the signer.
    pub fn update_class_metadata(&mut self, origin: Origin, class_id: u64, metadata: Vec<u8>) -> (r: Result<(), DispatchError>)
        ensures
            !(origin is Signed) ==> r == Err::<(), DispatchError>(DispatchError::BadOrigin),
            origin is Signed ==> r == owner_check(old(self).classes@, origin->Signed_0, class_id),
            r is Err ==> unchanged(old(self), final(self)),
            r is Ok ==> final(self).classes@.dom() == old(self).classes@.dom() && final(self).classes@[class_id].metadata@ == metadata@
                && final(self).balances@ == old(self).balances@ && final(self).events@ == old(self).events@,
    {
        let who = ensure_signed(origin)?;
        self.do_update_class_metadata(who, class_id, metadata)
    }

    /// `do_update_asset_metadata` for the signer.
    pub fn update_asset_metadata(&mut self, origin: Origin, class_id: u64, asset_id: u64, metadata: Vec<u8>) -> (r: Result<(), DispatchError>)
        ensures
            !(origin is Signed) ==> r == Err::<(), DispatchError>(DispatchError::BadOrigin),
            origin is Signed && owner_check(old(self).classes@, origin->Signed_0, class_id) is Err
                ==> r == owner_check(old(self).classes@, origin->Signed_0, class_id),
            origin is Signed && owner_check(old(self).classes@, origin->Signed_0, class_id) is Ok
                && !old(self).assets@.contains_key((class_id, asset_id)) ==> r == oerr(Error::InvalidAssetId),
            origin is Signed && owner_check(old(self).classes@, origin->Signed_0, class_id) is Ok
                && old(self).assets@.contains_key((class_id, asset_id)) ==> r is Ok,
            r is Err ==> unchanged(old(self), final(self)),
            r is Ok ==> final(self).assets@.dom() == old(self).assets@.dom()
                && (forall|k: (u64, u64)| k != (class_id, asset_id) ==> #[trigger] final(self).assets@[k] == old(self).assets@[k])
                && final(self).assets@[(class_id, asset_id)].metadata@ == metadata@
                && final(self).balances@ == old(self).balances@ && final(self).events@ == old(self).events@,
    {
        let who = ensure_signed(origin)?;
        self.do_update_asset_metadata(who, class_id, asset_id, metadata)
    }
}

} // verus!
