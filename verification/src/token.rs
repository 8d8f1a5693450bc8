//! The token pallet: collections numbered in order of creation, tokens
//! within a collection, balances of every (account, collection, token), and
//! operators that an owner approves to move its tokens.
use vstd::prelude::*;
use std::collections::BTreeMap;
use crate::ledger::{apply_all, apply_ops, balance_at, balance_in, credit_ops, debit_ops, move_ops, BalanceKey, Balances, LedgerOp};
use crate::asset::{credit_program, debit_program, move_program};
use crate::primitives::{ensure_signed, DispatchError, Origin};
use crate::traits::{reserve_effect, same_funds, ReservableCurrency};

verus! {

broadcast use vstd::laws_cmp::group_laws_cmp;

/// A collection of tokens.
#[derive(Clone, Debug)]
pub struct Collection {
    pub owner: u64,
    pub metadata: Vec<u8>,
}

/// A token within a collection.
#[derive(Clone, Debug)]
pub struct Token {
    pub collection_id: u64,
    pub creator: u64,
    pub metadata: Vec<u8>,
}

/// An owner and an operator it may approve.
#[derive(Clone, Copy, PartialEq, Eq, Debug)]
pub struct ApprovalKey {
    pub owner: u64,
    pub operator: u64,
}

#[derive(Debug)]
pub enum Event {
    CollectionCreated(u64, u64),
    TokenCreated(u64, u64, u64),
    Mint(u64, u64, u64, u128),
    BatchMint(u64, u64, Vec<u64>, Vec<u128>),
    Burn(u64, u64, u64, u128),
    BatchBurn(u64, u64, Vec<u64>, Vec<u128>),
    Transferred(u64, u64, u64, u64, u128),
    BatchTransferred(u64, u64, u64, Vec<u64>, Vec<u128>),
    ApprovalForAll(u64, u64, u64, bool),
}

#[derive(Clone, Copy, PartialEq, Eq, Debug)]
pub enum Error {
    Unknown,
    InUse,
    InvalidTokenId,
    InsufficientBalance,
    NumOverflow,
    InvalidArrayLength,
    Overflow,
    NoAvailableCollectionId,
    InvalidCollectionId,
    NoPermission,
    CollectionNotFound,
    TokenNotFound,
}

/// Keyed by (collection, owner, operator).
pub type ApprovalSlot = (u64, u64, u64);

/// The pallet's state and configuration.
pub struct Pallet {
    /// The deposit reserved from the creator of a collection.
    pub create_token_collection_deposit: u128,
    pub collections: BTreeMap<u64, Collection>,
    /// The number that the next collection gets.
    pub next_collection_id: u64,
    /// Keyed by (collection, token).
    pub tokens: BTreeMap<(u64, u64), Token>,
    /// The number of tokens created in each collection.
    pub token_count: BTreeMap<u64, u64>,
    /// Keyed by (account, collection, token).
    pub balances: BTreeMap<BalanceKey, u128>,
    /// Whether an owner approved an operator for a collection.
    pub operator_approvals: BTreeMap<ApprovalSlot, bool>,
    pub events: Vec<Event>,
}

/// A dispatch error of this pallet.
pub open spec fn oerr(e: Error) -> Result<(), DispatchError> {
    Err(DispatchError::Token(e))
}

/// Whether `who` may manage `collection_id`: the collection exists and `who` owns it.
pub open spec fn owner_check(collections: Map<u64, Collection>, who: u64, collection_id: u64) -> Result<(), DispatchError> {
    if !collections.contains_key(collection_id) {
        oerr(Error::InvalidCollectionId)
    } else if collections[collection_id].owner != who {
        oerr(Error::NoPermission)
    } else {
        Ok(())
    }
}

/// Whether `owner` approved `operator` for all its tokens of `collection_id`.
pub open spec fn approved(approvals: Map<ApprovalSlot, bool>, owner: u64, operator: u64, collection_id: u64) -> bool {
    approvals.contains_key((collection_id, owner, operator)) && approvals[(collection_id, owner, operator)]
}

/// Whether `who` may move the tokens of `account` in `collection_id`.
pub open spec fn may_move(approvals: Map<ApprovalSlot, bool>, who: u64, account: u64, collection_id: u64) -> bool {
    who == account || approved(approvals, account, who, collection_id)
}

/// The number of tokens counted for a collection, zero where there is none.
pub open spec fn count_in(c: Map<u64, u64>, collection_id: u64) -> u64 {
    if c.contains_key(collection_id) { c[collection_id] } else { 0 }
}

/// The balances and result of a ledger program run by one call.
pub open spec fn outcome(b: Balances, ops: Seq<LedgerOp>) -> (Balances, Result<(), DispatchError>) {
    (apply_ops(b, ops).0, if apply_ops(b, ops).1 { Ok(()) } else { oerr(Error::NumOverflow) })
}

/// Two states that hold the same data.
pub open spec fn unchanged(a: &Pallet, b: &Pallet) -> bool {
    &&& same_registry(a, b)
    &&& a.balances@ == b.balances@
    &&& a.events@ == b.events@
}

/// Two states that differ at most in their balances and events.
pub open spec fn same_registry(a: &Pallet, b: &Pallet) -> bool {
    &&& a.create_token_collection_deposit == b.create_token_collection_deposit
    &&& a.collections@ == b.collections@
    &&& a.next_collection_id == b.next_collection_id
    &&& a.tokens@ == b.tokens@
    &&& a.token_count@ == b.token_count@
    &&& a.operator_approvals@ == b.operator_approvals@
}

/// The outcome of a ledger program run by a call: `new` holds its balances,
/// the call's result is that of the program, and on success `e` is recorded.
pub open spec fn ran(old: &Pallet, new: &Pallet, ops: Seq<LedgerOp>, e: Event, r: Result<(), DispatchError>) -> bool {
    &&& same_registry(old, new)
    &&& (new.balances@, r) == outcome(old.balances@, ops)
    &&& r is Ok ==> new.events@ == old.events@.push(e)
    &&& r is Err ==> new.events@ == old.events@
}

/// The all-or-nothing outcome of a ledger program run by a dispatched call.
pub open spec fn ran_atomically(old: &Pallet, new: &Pallet, ops: Seq<LedgerOp>, e: Event, r: Result<(), DispatchError>) -> bool {
    &&& r == outcome(old.balances@, ops).1
    &&& r is Ok ==> same_registry(old, new) && new.balances@ == outcome(old.balances@, ops).0 && new.events@ == old.events@.push(e)
    &&& r is Err ==> unchanged(old, new)
}

impl Pallet {
    /// An empty pallet that takes `create_token_collection_deposit` for each collection.
    pub fn new(create_token_collection_deposit: u128) -> (r: Pallet)
        ensures
            r.create_token_collection_deposit == create_token_collection_deposit,
            r.collections@ == Map::<u64, Collection>::empty(),
            r.next_collection_id == 0,
            r.tokens@ == Map::<(u64, u64), Token>::empty(),
            r.token_count@ == Map::<u64, u64>::empty(),
            r.balances@ == Map::<BalanceKey, u128>::empty(),
            r.operator_approvals@ == Map::<ApprovalSlot, bool>::empty(),
            r.events@ == Seq::<Event>::empty(),
    {
        Pallet {
            create_token_collection_deposit,
            collections: BTreeMap::new(),
            next_collection_id: 0,
            tokens: BTreeMap::new(),
            token_count: BTreeMap::new(),
            balances: BTreeMap::new(),
            operator_approvals: BTreeMap::new(),
            events: Vec::new(),
        }
    }

    /// Runs a ledger program on the balances and records `e` on success.
    fn run(&mut self, ops: &Vec<LedgerOp>, e: Event) -> (r: Result<(), DispatchError>)
        ensures
            ran(old(self), final(self), ops@, e, r),
    {
        let ok = apply_all(&mut self.balances, ops);
        if ok {
            self.events.push(e);
            Ok(())
        } else {
            Err(DispatchError::Token(Error::NumOverflow))
        }
    }

    /// Whether `who` owns `collection_id`.
    fn maybe_check_owner(&self, who: u64, collection_id: u64) -> (r: Result<(), DispatchError>)
        ensures
            r == owner_check(self.collections@, who, collection_id),
    {
        match self.collections.get(&collection_id) {
            None => Err(DispatchError::Token(Error::InvalidCollectionId)),
            Some(collection) => {
                if who == collection.owner {
                    Ok(())
                } else {
                    Err(DispatchError::Token(Error::NoPermission))
                }
            },
        }
    }

    /// The number that the next collection gets.
    pub fn next_collection_id(&self) -> (r: u64)
        ensures
            r == self.next_collection_id,
    {
        self.next_collection_id
    }

    /// The number of tokens created in `collection_id`.
    pub fn token_count(&self, collection_id: u64) -> (r: u64)
        ensures
            r == count_in(self.token_count@, collection_id),
    {
        match self.token_count.get(&collection_id) {
            Some(c) => *c,
            None => 0,
        }
    }

    /// The balance of `owner` in a token.
    pub fn balance_of(&self, owner: u64, collection_id: u64, token_id: u64) -> (r: u128)
        ensures
            r == balance_in(self.balances@, (owner, collection_id, token_id)),
    {
        balance_at(&self.balances, (owner, collection_id, token_id))
    }

    /// Whether `owner` approved `operator` for all its tokens of `collection_id`.
    pub fn is_approved_for_all(&self, owner: u64, operator: u64, collection_id: u64) -> (r: bool)
        ensures
            r == approved(self.operator_approvals@, owner, operator, collection_id),
    {
        match self.operator_approvals.get(&(collection_id, owner, operator)) {
            Some(b) => *b,
            None => false,
        }
    }

    /// Whether `who` may move the tokens of `account` in `collection_id`: it is
    /// the account itself or an approved operator.
    pub fn approved_or_owner(&self, who: u64, account: u64, collection_id: u64) -> (r: bool)
        ensures
            r == may_move(self.operator_approvals@, who, account, collection_id),
    {
        who == account || self.is_approved_for_all(account, who, collection_id)
    }

    /// The balances of `owners[i]` in `token_ids[i]`.
    pub fn balance_of_batch(&self, owners: &Vec<u64>, collection_id: u64, token_ids: Vec<u64>) -> (r: Result<Vec<u128>, DispatchError>)
        ensures
            owners.len() != token_ids.len() ==> r == Err::<Vec<u128>, DispatchError>(DispatchError::Token(Error::InvalidArrayLength)),
            owners.len() == token_ids.len() ==> (r matches Ok(v) && v@ == Seq::new(
                owners@.len(),
                |i: int| balance_in(self.balances@, (owners@[i], collection_id, token_ids@[i])),
            )),
    {
        if owners.len() != token_ids.len() {
            return Err(DispatchError::Token(Error::InvalidArrayLength));
        }
        let n = owners.len();
        let mut v: Vec<u128> = Vec::new();
        for i in 0..n
            invariant
                n == owners.len(),
                n == token_ids.len(),
                v@ == Seq::new(i as nat, |j: int| balance_in(self.balances@, (owners@[j], collection_id, token_ids@[j]))),
        {
            v.push(balance_at(&self.balances, (owners[i], collection_id, token_ids[i])));
            assert(v@ =~= Seq::new((i + 1) as nat, |j: int| balance_in(self.balances@, (owners@[j], collection_id, token_ids@[j]))));
        }
        Ok(v)
    }

    /// The balances of `owner` in each of `token_ids`.
    pub fn balance_of_single_owner_batch(&self, owner: u64, collection_id: u64, token_ids: Vec<u64>) -> (r: Result<Vec<u128>, DispatchError>)
        ensures
            r matches Ok(v) && v@ == Seq::new(token_ids@.len(), |i: int| balance_in(self.balances@, (owner, collection_id, token_ids@[i]))),
    {
        let n = token_ids.len();
        let mut v: Vec<u128> = Vec::new();
        for i in 0..n
            invariant
                n == token_ids.len(),
                v@ == Seq::new(i as nat, |j: int| balance_in(self.balances@, (owner, collection_id, token_ids@[j]))),
        {
            v.push(balance_at(&self.balances, (owner, collection_id, token_ids[i])));
            assert(v@ =~= Seq::new((i + 1) as nat, |j: int| balance_in(self.balances@, (owner, collection_id, token_ids@[j]))));
        }
        Ok(v)
    }

    /// Creates a collection owned by `who`, numbered `next_collection_id`, reserving
    /// the collection deposit from `who`. The deposit stays reserved where the
    /// collection numbers are exhausted.
    pub fn do_create_collection<C: ReservableCurrency>(&mut self, currency: &mut C, who: u64, metadata: Vec<u8>) -> (r: Result<u64, DispatchError>)
        ensures
            final(self).create_token_collection_deposit == old(self).create_token_collection_deposit,
            final(self).tokens@ == old(self).tokens@,
            final(self).token_count@ == old(self).token_count@,
            final(self).balances@ == old(self).balances@,
            final(self).operator_approvals@ == old(self).operator_approvals@,
            old(self).next_collection_id == u64::MAX ==> r is Err,
            !old(currency).reserve_allowed(who, old(self).create_token_collection_deposit) ==> r is Err && same_funds(*old(currency), *final(currency)),
            old(currency).reserve_allowed(who, old(self).create_token_collection_deposit) && old(self).next_collection_id == u64::MAX
                ==> r == Err::<u64, DispatchError>(DispatchError::Token(Error::NoAvailableCollectionId)),
            old(currency).reserve_allowed(who, old(self).create_token_collection_deposit) && old(self).next_collection_id < u64::MAX ==> r is Ok,
            r is Err ==> final(self).collections@ == old(self).collections@ && final(self).next_collection_id == old(self).next_collection_id
                && final(self).events@ == old(self).events@
                && (same_funds(*old(currency), *final(currency)) || (old(self).next_collection_id == u64::MAX
                    && r == Err::<u64, DispatchError>(DispatchError::Token(Error::NoAvailableCollectionId))
                    && reserve_effect(*old(currency), *final(currency), who, old(self).create_token_collection_deposit))),
            r is Ok ==> {
                let id = old(self).next_collection_id;
                &&& r == Ok::<u64, DispatchError>(id)
                &&& id < u64::MAX
                &&& final(self).next_collection_id == id + 1
                &&& reserve_effect(*old(currency), *final(currency), who, old(self).create_token_collection_deposit)
                &&& final(self).collections@.dom() == old(self).collections@.dom().insert(id)
                &&& forall|c: u64| c != id ==> #[trigger] final(self).collections@[c] == old(self).collections@[c]
                &&& final(self).collections@[id].owner == who
                &&& final(self).collections@[id].metadata@ == metadata@
                &&& final(self).events@.len() == old(self).events@.len() + 1
                &&& final(self).events@.drop_last() == old(self).events@
                &&& final(self).events@.last() matches Event::CollectionCreated(c, w) && c == id && w == who
            },
    {
        let deposit = self.create_token_collection_deposit;
        currency.reserve(who, deposit)?;
        let collection_id = self.next_collection_id;
        match collection_id.checked_add(1) {
            Some(n) => {
                self.next_collection_id = n;
            },
            None => {
                return Err(DispatchError::Token(Error::NoAvailableCollectionId));
            },
        }
        self.collections.insert(collection_id, Collection { owner: who, metadata });
        self.events.push(Event::CollectionCreated(collection_id, who));
        assert(self.events@.drop_last() =~= old(self).events@);
        Ok(collection_id)
    }

    /// Creates token `token_id` in `collection_id`; only the collection owner may. The
    /// token stays created where its collection count overflows.
    pub fn do_create_token(&mut self, who: u64, collection_id: u64, token_id: u64, metadata: Vec<u8>) -> (r: Result<(), DispatchError>)
        ensures
            final(self).create_token_collection_deposit == old(self).create_token_collection_deposit,
            final(self).collections@ == old(self).collections@,
            final(self).next_collection_id == old(self).next_collection_id,
            final(self).balances@ == old(self).balances@,
            final(self).operator_approvals@ == old(self).operator_approvals@,
            owner_check(old(self).collections@, who, collection_id) is Err ==> r == owner_check(old(self).collections@, who, collection_id)
                && unchanged(old(self), final(self)),
            owner_check(old(self).collections@, who, collection_id) is Ok && old(self).tokens@.contains_key((collection_id, token_id))
                ==> r == oerr(Error::InUse) && unchanged(old(self), final(self)),
            owner_check(old(self).collections@, who, collection_id) is Ok && !old(self).tokens@.contains_key((collection_id, token_id)) ==> {
                &&& final(self).tokens@.dom() == old(self).tokens@.dom().insert((collection_id, token_id))
                &&& forall|k: (u64, u64)| k != (collection_id, token_id) ==> #[trigger] final(self).tokens@[k] == old(self).tokens@[k]
                &&& final(self).tokens@[(collection_id, token_id)].collection_id == collection_id
                &&& final(self).tokens@[(collection_id, token_id)].creator == who
                &&& final(self).tokens@[(collection_id, token_id)].metadata@ == metadata@
                &&& if count_in(old(self).token_count@, collection_id) < u64::MAX {
                    &&& r is Ok
                    &&& final(self).token_count@ == old(self).token_count@.insert(collection_id, (count_in(old(self).token_count@, collection_id) + 1) as u64)
                    &&& final(self).events@.len() == old(self).events@.len() + 1
                    &&& final(self).events@.drop_last() == old(self).events@
                    &&& final(self).events@.last() matches Event::TokenCreated(c, a, w) && c == collection_id && a == token_id && w == who
                } else {
                    &&& r == oerr(Error::NumOverflow)
                    &&& final(self).token_count@ == old(self).token_count@
                    &&& final(self).events@ == old(self).events@
                }
            },
    {
        self.maybe_check_owner(who, collection_id)?;
        if self.tokens.contains_key(&(collection_id, token_id)) {
            return Err(DispatchError::Token(Error::InUse));
        }
        self.tokens.insert((collection_id, token_id), Token { collection_id, creator: who, metadata });
        let count = self.token_count(collection_id);
        match count.checked_add(1) {
            Some(c) => {
                self.token_count.insert(collection_id, c);
            },
            None => {
                return Err(DispatchError::Token(Error::NumOverflow));
            },
        }
        self.events.push(Event::TokenCreated(collection_id, token_id, who));
        assert(self.events@.drop_last() =~= old(self).events@);
        Ok(())
    }

    /// Sets whether `operator` may move all of `who`'s tokens of `collection_id`.
    pub fn do_set_approval_for_all(&mut self, who: u64, operator: u64, collection_id: u64, approved: bool) -> (r: Result<(), DispatchError>)
        ensures
            !old(self).collections@.contains_key(collection_id) ==> r == oerr(Error::CollectionNotFound) && unchanged(old(self), final(self)),
            old(self).collections@.contains_key(collection_id) ==> {
                &&& r is Ok
                &&& final(self).operator_approvals@ == old(self).operator_approvals@.insert((collection_id, who, operator), approved)
                &&& final(self).collections@ == old(self).collections@
                &&& final(self).next_collection_id == old(self).next_collection_id
                &&& final(self).tokens@ == old(self).tokens@
                &&& final(self).token_count@ == old(self).token_count@
                &&& final(self).balances@ == old(self).balances@
                &&& final(self).create_token_collection_deposit == old(self).create_token_collection_deposit
                &&& final(self).events@.len() == old(self).events@.len() + 1
                &&& final(self).events@.drop_last() == old(self).events@
                &&& final(self).events@.last() matches Event::ApprovalForAll(w, o, c, a) && w == who && o == operator && c == collection_id && a == approved
            },
    {
        if !self.collections.contains_key(&collection_id) {
            return Err(DispatchError::Token(Error::CollectionNotFound));
        }
        self.operator_approvals.insert((collection_id, who, operator), approved);
        self.events.push(Event::ApprovalForAll(who, operator, collection_id, approved));
        assert(self.events@.drop_last() =~= old(self).events@);
        Ok(())
    }

    /// Adds `amount` of a token to `to`; only the collection owner may.
    pub fn do_mint(&mut self, who: u64, to: u64, collection_id: u64, token_id: u64, amount: u128) -> (r: Result<(), DispatchError>)
        ensures
            owner_check(old(self).collections@, who, collection_id) is Err ==> r == owner_check(old(self).collections@, who, collection_id)
                && unchanged(old(self), final(self)),
            owner_check(old(self).collections@, who, collection_id) is Ok ==> ran(
                old(self),
                final(self),
                seq![LedgerOp::Credit { key: (to, collection_id, token_id), amount }],
                Event::Mint(to, collection_id, token_id, amount),
                r,
            ),
    {
        self.maybe_check_owner(who, collection_id)?;
        let ops = vec![LedgerOp::Credit { key: (to, collection_id, token_id), amount }];
        assert(ops@ =~= seq![LedgerOp::Credit { key: (to, collection_id, token_id), amount }]);
        self.run(&ops, Event::Mint(to, collection_id, token_id, amount))
    }

    /// Adds `amounts[i]` of `token_ids[i]` to `to`, in order; only the collection
    /// owner may. Credits already made stay where a later one fails.
    pub fn do_batch_mint(&mut self, who: u64, to: u64, collection_id: u64, token_ids: Vec<u64>, amounts: Vec<u128>) -> (r: Result<(), DispatchError>)
        ensures
            owner_check(old(self).collections@, who, collection_id) is Err ==> r == owner_check(old(self).collections@, who, collection_id)
                && unchanged(old(self), final(self)),
            owner_check(old(self).collections@, who, collection_id) is Ok && token_ids.len() != amounts.len()
                ==> r == oerr(Error::InvalidArrayLength) && unchanged(old(self), final(self)),
            owner_check(old(self).collections@, who, collection_id) is Ok && token_ids.len() == amounts.len() ==> ran(
                old(self),
                final(self),
                credit_ops(to, collection_id, token_ids@, amounts@),
                Event::BatchMint(to, collection_id, token_ids, amounts),
                r,
            ),
    {
        self.maybe_check_owner(who, collection_id)?;
        if token_ids.len() != amounts.len() {
            return Err(DispatchError::Token(Error::InvalidArrayLength));
        }
        let ops = credit_program(to, collection_id, &token_ids, &amounts);
        self.run(&ops, Event::BatchMint(to, collection_id, token_ids, amounts))
    }

    /// Removes `amount` of a token from `from`; only the collection owner may.
    pub fn do_burn(&mut self, who: u64, from: u64, collection_id: u64, token_id: u64, amount: u128) -> (r: Result<(), DispatchError>)
        ensures
            owner_check(old(self).collections@, who, collection_id) is Err ==> r == owner_check(old(self).collections@, who, collection_id)
                && unchanged(old(self), final(self)),
            owner_check(old(self).collections@, who, collection_id) is Ok ==> ran(
                old(self),
                final(self),
                seq![LedgerOp::Debit { key: (from, collection_id, token_id), amount }],
                Event::Burn(from, collection_id, token_id, amount),
                r,
            ),
    {
        self.maybe_check_owner(who, collection_id)?;
        let ops = vec![LedgerOp::Debit { key: (from, collection_id, token_id), amount }];
        assert(ops@ =~= seq![LedgerOp::Debit { key: (from, collection_id, token_id), amount }]);
        self.run(&ops, Event::Burn(from, collection_id, token_id, amount))
    }

    /// Removes `amounts[i]` of `token_ids[i]` from `from`, in order; only the
    /// collection owner may. Debits already made stay where a later one fails.
    pub fn do_batch_burn(&mut self, who: u64, from: u64, collection_id: u64, token_ids: Vec<u64>, amounts: Vec<u128>) -> (r: Result<(), DispatchError>)
        ensures
            owner_check(old(self).collections@, who, collection_id) is Err ==> r == owner_check(old(self).collections@, who, collection_id)
                && unchanged(old(self), final(self)),
            owner_check(old(self).collections@, who, collection_id) is Ok && token_ids.len() != amounts.len()
                ==> r == oerr(Error::InvalidArrayLength) && unchanged(old(self), final(self)),
            owner_check(old(self).collections@, who, collection_id) is Ok && token_ids.len() == amounts.len() ==> ran(
                old(self),
                final(self),
                debit_ops(from, collection_id, token_ids@, amounts@),
                Event::BatchBurn(from, collection_id, token_ids, amounts),
                r,
            ),
    {
        self.maybe_check_owner(who, collection_id)?;
        if token_ids.len() != amounts.len() {
            return Err(DispatchError::Token(Error::InvalidArrayLength));
        }
        let ops = debit_program(from, collection_id, &token_ids, &amounts);
        self.run(&ops, Event::BatchBurn(from, collection_id, token_ids, amounts))
    }

    /// Moves `amount` of a token from `from` to `to`; `who` must be `from`
    /// or an operator it approved. Nothing happens where the two accounts
    /// are the same or the amount is zero.
    pub fn do_transfer_from(&mut self, who: u64, from: u64, to: u64, collection_id: u64, token_id: u64, amount: u128) -> (r: Result<(), DispatchError>)
        ensures
            !may_move(old(self).operator_approvals@, who, from, collection_id) ==> r == oerr(Error::NoPermission) && unchanged(old(self), final(self)),
            may_move(old(self).operator_approvals@, who, from, collection_id) && (from == to || amount == 0) ==> r is Ok && unchanged(old(self), final(self)),
            may_move(old(self).operator_approvals@, who, from, collection_id) && from != to && amount != 0 ==> ran(
                old(self),
                final(self),
                seq![LedgerOp::Move { from: (from, collection_id, token_id), to: (to, collection_id, token_id), amount }],
                Event::Transferred(from, to, collection_id, token_id, amount),
                r,
            ),
    {
        if !self.approved_or_owner(who, from, collection_id) {
            return Err(DispatchError::Token(Error::NoPermission));
        }
        if from == to || amount == 0 {
            return Ok(());
        }
        let ops = vec![LedgerOp::Move { from: (from, collection_id, token_id), to: (to, collection_id, token_id), amount }];
        assert(ops@ =~= seq![LedgerOp::Move { from: (from, collection_id, token_id), to: (to, collection_id, token_id), amount }]);
        self.run(&ops, Event::Transferred(from, to, collection_id, token_id, amount))
    }

    /// Moves `amounts[i]` of `token_ids[i]` from `from` to `to`, in order;
    /// `who` must be `from` or an operator it approved. Nothing happens where
    /// the two accounts are the same; moves already made stay where a later
    /// one fails.
    pub fn do_batch_transfer_from(
        &mut self,
        who: u64,
        from: u64,
        to: u64,
        collection_id: u64,
        token_ids: Vec<u64>,
        amounts: Vec<u128>,
    ) -> (r: Result<(), DispatchError>)
        ensures
            !may_move(old(self).operator_approvals@, who, from, collection_id) ==> r == oerr(Error::NoPermission) && unchanged(old(self), final(self)),
            may_move(old(self).operator_approvals@, who, from, collection_id) && from == to ==> r is Ok && unchanged(old(self), final(self)),
            may_move(old(self).operator_approvals@, who, from, collection_id) && from != to && token_ids.len() != amounts.len()
                ==> r == oerr(Error::InvalidArrayLength) && unchanged(old(self), final(self)),
            may_move(old(self).operator_approvals@, who, from, collection_id) && from != to && token_ids.len() == amounts.len() ==> ran(
                old(self),
                final(self),
                move_ops(from, to, collection_id, token_ids@, amounts@),
                Event::BatchTransferred(from, to, collection_id, token_ids, amounts),
                r,
            ),
    {
        if !self.approved_or_owner(who, from, collection_id) {
            return Err(DispatchError::Token(Error::NoPermission));
        }
        if from == to {
            return Ok(());
        }
        if token_ids.len() != amounts.len() {
            return Err(DispatchError::Token(Error::InvalidArrayLength));
        }
        let ops = move_program(from, to, collection_id, &token_ids, &amounts);
        self.run(&ops, Event::BatchTransferred(from, to, collection_id, token_ids, amounts))
    }

    /// `do_mint` for the signer; a failed call changes nothing.
    pub fn mint(&mut self, origin: Origin, to: u64, collection_id: u64, token_id: u64, amount: u128) -> (r: Result<(), DispatchError>)
        ensures
            !(origin is Signed) ==> r == Err::<(), DispatchError>(DispatchError::BadOrigin) && unchanged(old(self), final(self)),
            r is Err ==> unchanged(old(self), final(self)),
            origin is Signed ==> ({
                let who = origin->Signed_0;
                let chk = owner_check(old(self).collections@, who, collection_id);
                &&& chk is Err ==> r == chk
                &&& chk is Ok ==> ran_atomically(old(self), final(self), seq![LedgerOp::Credit { key: (to, collection_id, token_id), amount }],
                    Event::Mint(to, collection_id, token_id, amount), r)
            }),
    {
        let who = ensure_signed(origin)?;
        let saved = self.balances.clone();
        let r = self.do_mint(who, to, collection_id, token_id, amount);
        if r.is_err() {
            self.balances = saved;
        }
        r
    }

    /// `do_batch_mint` for the signer; a failed call changes nothing.
    pub fn batch_mint(&mut self, origin: Origin, to: u64, collection_id: u64, token_ids: Vec<u64>, amounts: Vec<u128>) -> (r: Result<(), DispatchError>)
        ensures
            !(origin is Signed) ==> r == Err::<(), DispatchError>(DispatchError::BadOrigin) && unchanged(old(self), final(self)),
            r is Err ==> unchanged(old(self), final(self)),
            origin is Signed ==> ({
                let who = origin->Signed_0;
                let chk = owner_check(old(self).collections@, who, collection_id);
                &&& chk is Err ==> r == chk
                &&& chk is Ok && token_ids.len() != amounts.len() ==> r == oerr(Error::InvalidArrayLength)
                &&& chk is Ok && token_ids.len() == amounts.len() ==> ran_atomically(old(self), final(self), credit_ops(to, collection_id, token_ids@, amounts@),
                    Event::BatchMint(to, collection_id, token_ids, amounts), r)
            }),
    {
        let who = ensure_signed(origin)?;
        let saved = self.balances.clone();
        let r = self.do_batch_mint(who, to, collection_id, token_ids, amounts);
        if r.is_err() {
            self.balances = saved;
        }
        r
    }

    /// `do_burn` for the signer; a failed call changes nothing.
    pub fn burn(&mut self, origin: Origin, from: u64, collection_id: u64, token_id: u64, amount: u128) -> (r: Result<(), DispatchError>)
        ensures
            !(origin is Signed) ==> r == Err::<(), DispatchError>(DispatchError::BadOrigin) && unchanged(old(self), final(self)),
            r is Err ==> unchanged(old(self), final(self)),
            origin is Signed ==> ({
                let who = origin->Signed_0;
                let chk = owner_check(old(self).collections@, who, collection_id);
                &&& chk is Err ==> r == chk
                &&& chk is Ok ==> ran_atomically(old(self), final(self), seq![LedgerOp::Debit { key: (from, collection_id, token_id), amount }],
                    Event::Burn(from, collection_id, token_id, amount), r)
            }),
    {
        let who = ensure_signed(origin)?;
        let saved = self.balances.clone();
        let r = self.do_burn(who, from, collection_id, token_id, amount);
        if r.is_err() {
            self.balances = saved;
        }
        r
    }

    /// `do_batch_burn` for the signer; a failed call changes nothing.
    pub fn batch_burn(&mut self, origin: Origin, from: u64, collection_id: u64, token_ids: Vec<u64>, amounts: Vec<u128>) -> (r: Result<(), DispatchError>)
        ensures
            !(origin is Signed) ==> r == Err::<(), DispatchError>(DispatchError::BadOrigin) && unchanged(old(self), final(self)),
            r is Err ==> unchanged(old(self), final(self)),
            origin is Signed ==> ({
                let who = origin->Signed_0;
                let chk = owner_check(old(self).collections@, who, collection_id);
                &&& chk is Err ==> r == chk
                &&& chk is Ok && token_ids.len() != amounts.len() ==> r == oerr(Error::InvalidArrayLength)
                &&& chk is Ok && token_ids.len() == amounts.len() ==> ran_atomically(old(self), final(self), debit_ops(from, collection_id, token_ids@, amounts@),
                    Event::BatchBurn(from, collection_id, token_ids, amounts), r)
            }),
    {
        let who = ensure_signed(origin)?;
        let saved = self.balances.clone();
        let r = self.do_batch_burn(who, from, collection_id, token_ids, amounts);
        if r.is_err() {
            self.balances = saved;
        }
        r
    }

    /// `do_transfer_from` for the signer; a failed call changes nothing.
    pub fn transfer_from(&mut self, origin: Origin, from: u64, to: u64, collection_id: u64, token_id: u64, amount: u128) -> (r: Result<(), DispatchError>)
        ensures
            !(origin is Signed) ==> r == Err::<(), DispatchError>(DispatchError::BadOrigin) && unchanged(old(self), final(self)),
            r is Err ==> unchanged(old(self), final(self)),
            origin is Signed ==> ({
                let who = origin->Signed_0;
                let ok = may_move(old(self).operator_approvals@, who, from, collection_id);
                &&& !ok ==> r == oerr(Error::NoPermission)
                &&& ok && (from == to || amount == 0) ==> r is Ok && unchanged(old(self), final(self))
                &&& ok && from != to && amount != 0 ==> ran_atomically(old(self), final(self),
                    seq![LedgerOp::Move { from: (from, collection_id, token_id), to: (to, collection_id, token_id), amount }],
                    Event::Transferred(from, to, collection_id, token_id, amount), r)
            }),
    {
        let who = ensure_signed(origin)?;
        let saved = self.balances.clone();
        let r = self.do_transfer_from(who, from, to, collection_id, token_id, amount);
        if r.is_err() {
            self.balances = saved;
        }
        r
    }

    /// `do_batch_transfer_from` for the signer; a failed call changes nothing.
    pub fn batch_transfer_from(&mut self, origin: Origin, from: u64, to: u64, collection_id: u64, token_ids: Vec<u64>, amounts: Vec<u128>) -> (r: Result<(), DispatchError>)
        ensures
            !(origin is Signed) ==> r == Err::<(), DispatchError>(DispatchError::BadOrigin) && unchanged(old(self), final(self)),
            r is Err ==> unchanged(old(self), final(self)),
            origin is Signed ==> ({
                let who = origin->Signed_0;
                let ok = may_move(old(self).operator_approvals@, who, from, collection_id);
                &&& !ok ==> r == oerr(Error::NoPermission)
                &&& ok && from == to ==> r is Ok && unchanged(old(self), final(self))
                &&& ok && from != to && token_ids.len() != amounts.len() ==> r == oerr(Error::InvalidArrayLength)
                &&& ok && from != to && token_ids.len() == amounts.len() ==> ran_atomically(old(self), final(self),
                    move_ops(from, to, collection_id, token_ids@, amounts@),
                    Event::BatchTransferred(from, to, collection_id, token_ids, amounts), r)
            }),
    {
        let who = ensure_signed(origin)?;
        let saved = self.balances.clone();
        let r = self.do_batch_transfer_from(who, from, to, collection_id, token_ids, amounts);
        if r.is_err() {
            self.balances = saved;
        }
        r
    }

    /// `do_create_collection` for the signer; a failed call changes nothing.
    pub fn create_collection<C: ReservableCurrency>(&mut self, currency: &mut C, origin: Origin, metadata: Vec<u8>) -> (r: Result<(), DispatchError>)
        ensures
            final(self).create_token_collection_deposit == old(self).create_token_collection_deposit,
            final(self).tokens@ == old(self).tokens@,
            final(self).token_count@ == old(self).token_count@,
            final(self).balances@ == old(self).balances@,
            final(self).operator_approvals@ == old(self).operator_approvals@,
            !(origin is Signed) ==> r == Err::<(), DispatchError>(DispatchError::BadOrigin),
            origin is Signed && old(self).next_collection_id == u64::MAX ==> r is Err,
            origin is Signed && old(currency).reserve_allowed(origin->Signed_0, old(self).create_token_collection_deposit)
                && old(self).next_collection_id == u64::MAX ==> r == Err::<(), DispatchError>(DispatchError::Token(Error::NoAvailableCollectionId)),
            origin is Signed && old(self).next_collection_id < u64::MAX
                ==> (r is Ok <==> old(currency).reserve_allowed(origin->Signed_0, old(self).create_token_collection_deposit)),
            r is Err ==> final(self).collections@ == old(self).collections@ && final(self).next_collection_id == old(self).next_collection_id
                && final(self).events@ == old(self).events@ && same_funds(*old(currency), *final(currency)),
            r is Ok ==> ({
                let id = old(self).next_collection_id;
                let who = origin->Signed_0;
                &&& origin is Signed
                &&& final(self).next_collection_id == id + 1
                &&& reserve_effect(*old(currency), *final(currency), who, old(self).create_token_collection_deposit)
                &&& final(self).collections@.dom() == old(self).collections@.dom().insert(id)
                &&& forall|c: u64| c != id ==> #[trigger] final(self).collections@[c] == old(self).collections@[c]
                &&& final(self).collections@[id].owner == who
                &&& final(self).collections@[id].metadata@ == metadata@
                &&& final(self).events@.len() == old(self).events@.len() + 1
                &&& final(self).events@.drop_last() == old(self).events@
            }),
    {
        let who = match ensure_signed(origin) {
            Ok(w) => w,
            Err(e) => {
                assert(same_funds(*old(currency), *currency));
                return Err(e);
            },
        };
        let saved_funds = currency.duplicate();
        match self.do_create_collection(currency, who, metadata) {
            Ok(_) => Ok(()),
            Err(e) => {
                *currency = saved_funds;
                assert(same_funds(*old(currency), *currency));
                Err(e)
            },
        }
    }

    /// `do_create_token` for the signer; a failed call changes nothing.
    pub fn create_token(&mut self, origin: Origin, collection_id: u64, token_id: u64, metadata: Vec<u8>) -> (r: Result<(), DispatchError>)
        ensures
            !(origin is Signed) ==> r == Err::<(), DispatchError>(DispatchError::BadOrigin),
            r is Err ==> unchanged(old(self), final(self)),
            origin is Signed ==> ({
                let who = origin->Signed_0;
                let chk = owner_check(old(self).collections@, who, collection_id);
                &&& chk is Err ==> r == chk
                &&& chk is Ok && old(self).tokens@.contains_key((collection_id, token_id)) ==> r == oerr(Error::InUse)
                &&& chk is Ok && !old(self).tokens@.contains_key((collection_id, token_id)) && count_in(old(self).token_count@, collection_id) == u64::MAX
                    ==> r == oerr(Error::NumOverflow)
                &&& chk is Ok && !old(self).tokens@.contains_key((collection_id, token_id)) && count_in(old(self).token_count@, collection_id) < u64::MAX ==> {
                    &&& r is Ok
                    &&& final(self).tokens@.dom() == old(self).tokens@.dom().insert((collection_id, token_id))
                    &&& final(self).tokens@[(collection_id, token_id)].creator == who
                    &&& final(self).tokens@[(collection_id, token_id)].metadata@ == metadata@
                    &&& final(self).token_count@ == old(self).token_count@.insert(collection_id, (count_in(old(self).token_count@, collection_id) + 1) as u64)
                    &&& final(self).events@.len() == old(self).events@.len() + 1
                    &&& final(self).collections@ == old(self).collections@
                    &&& final(self).balances@ == old(self).balances@
                }
            }),
    {
        let who = ensure_signed(origin)?;
        let saved_tokens = self.tokens.clone();
        let saved_count = self.token_count.clone();
        let r = self.do_create_token(who, collection_id, token_id, metadata);
        if r.is_err() {
            self.tokens = saved_tokens;
            self.token_count = saved_count;
        }
        r
    }

    /// `do_set_approval_for_all` for the signer.
    pub fn set_approval_for_all(&mut self, origin: Origin, operator: u64, collection_id: u64, approved: bool) -> (r: Result<(), DispatchError>)
        ensures
            !(origin is Signed) ==> r == Err::<(), DispatchError>(DispatchError::BadOrigin) && unchanged(old(self), final(self)),
            origin is Signed && !old(self).collections@.contains_key(collection_id) ==> r == oerr(Error::CollectionNotFound) && unchanged(old(self), final(self)),
            origin is Signed && old(self).collections@.contains_key(collection_id) ==> r is Ok
                && final(self).operator_approvals@ == old(self).operator_approvals@.insert((collection_id, origin->Signed_0, operator), approved)
                && final(self).balances@ == old(self).balances@ && final(self).collections@ == old(self).collections@
                && final(self).events@.len() == old(self).events@.len() + 1,
    {
        let who = ensure_signed(origin)?;
        self.do_set_approval_for_all(who, operator, collection_id, approved)
    }
}

} // verus!
