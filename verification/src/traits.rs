//! The currencies that the runtime configures for the pallets.
use vstd::prelude::*;
use crate::primitives::{CurrencyId, DispatchError};

verus! {

/// The runtime's native currency, with free and reserved balances, as the
/// pallets use it to take deposits. The runtime chooses the implementation.
pub trait ReservableCurrency: Sized {
    /// The free balance of an account.
    spec fn free_balance(&self, who: u64) -> nat;

    /// The reserved balance of an account.
    spec fn reserved_balance(&self, who: u64) -> nat;

    /// A copy of the currency state, used to undo a failed call.
    fn duplicate(&self) -> (r: Self)
        ensures
            forall|w: u64| #[trigger] r.free_balance(w) == self.free_balance(w) && r.reserved_balance(w) == self.reserved_balance(w),
    ;

    /// Whether reserving `amount` for `who` succeeds on this state: each
    /// implementation decides it from the state and arguments.
    spec fn reserve_allowed(&self, who: u64, amount: u128) -> bool;

    /// Moves `amount` of `who`'s free balance to its reserved balance.
    fn reserve(&mut self, who: u64, amount: u128) -> (r: Result<(), DispatchError>)
        ensures
            r is Ok <==> old(self).reserve_allowed(who, amount),
            r is Ok ==> {
                &&& old(self).free_balance(who) >= amount
                &&& final(self).free_balance(who) == old(self).free_balance(who) - amount
                &&& final(self).reserved_balance(who) == old(self).reserved_balance(who) + amount
                &&& forall|a: u64| a != who ==> #[trigger] final(self).free_balance(a) == old(self).free_balance(a)
                    && final(self).reserved_balance(a) == old(self).reserved_balance(a)
            },
            r is Err ==> forall|w: u64| #[trigger] final(self).free_balance(w) == old(self).free_balance(w) && final(self).reserved_balance(w) == old(self).reserved_balance(w),
    ;

    /// Moves up to `amount` of `who`'s reserved balance back to its free
    /// balance and returns the part of `amount` that could not be moved.
    fn unreserve(&mut self, who: u64, amount: u128) -> (r: u128)
        ensures
            ({
                let moved = if amount <= old(self).reserved_balance(who) { amount as nat } else {
                    old(self).reserved_balance(who)
                };
                &&& r == amount - moved
                &&& final(self).reserved_balance(who) == old(self).reserved_balance(who) - moved
                &&& final(self).free_balance(who) == old(self).free_balance(who) + moved
                &&& forall|a: u64| a != who ==> #[trigger] final(self).free_balance(a) == old(self).free_balance(a)
                    && final(self).reserved_balance(a) == old(self).reserved_balance(a)
            }),
    ;

    /// Whether a transfer of `amount` from `from` to `to` succeeds on this
    /// state: each implementation decides it from the state and arguments.
    spec fn transfer_allowed(&self, from: u64, to: u64, amount: u128) -> bool;

    /// Moves `amount` of free balance from `from` to `to`; the sender's
    /// account may be reaped.
    fn transfer(&mut self, from: u64, to: u64, amount: u128) -> (r: Result<(), DispatchError>)
        ensures
            r is Ok <==> old(self).transfer_allowed(from, to, amount),
            r is Ok && from != to ==> {
                &&& old(self).free_balance(from) >= amount
                &&& final(self).free_balance(from) == old(self).free_balance(from) - amount
                &&& final(self).free_balance(to) == old(self).free_balance(to) + amount
                &&& forall|a: u64| a != from && a != to ==> #[trigger] final(self).free_balance(a)
                    == old(self).free_balance(a)
                &&& forall|a: u64| #[trigger] final(self).reserved_balance(a) == old(self).reserved_balance(a)
            },
            r is Ok && from == to ==> forall|w: u64| #[trigger] final(self).free_balance(w) == old(self).free_balance(w) && final(self).reserved_balance(w) == old(self).reserved_balance(w),
            r is Err ==> forall|w: u64| #[trigger] final(self).free_balance(w) == old(self).free_balance(w) && final(self).reserved_balance(w) == old(self).reserved_balance(w),
    ;
}

/// Two states of a native currency hold the same free and reserved balances.
pub open spec fn same_funds<C: ReservableCurrency>(a: C, b: C) -> bool {
    forall|w: u64| #[trigger] a.free_balance(w) == b.free_balance(w) && a.reserved_balance(w) == b.reserved_balance(w)
}

/// A ledger of several currencies, as the currency pallet uses it. The
/// runtime chooses the implementation.
pub trait MultiCurrency: Sized {
    /// The free balance of an account in a currency.
    spec fn free_balance(&self, currency_id: CurrencyId, who: u64) -> nat;

    /// A copy of the ledger state, used to undo a failed call.
    fn duplicate(&self) -> (r: Self)
        ensures
            forall|c: CurrencyId, w: u64| #[trigger] r.free_balance(c, w) == self.free_balance(c, w),
    ;

    /// Whether a transfer of `amount` of `currency_id` from `from` to `to`
    /// succeeds on this state: each implementation decides it from the state
    /// and arguments.
    spec fn multi_transfer_allowed(&self, currency_id: CurrencyId, from: u64, to: u64, amount: u128) -> bool;

    /// Moves `amount` of `currency_id` from `from` to `to`.
    fn transfer(&mut self, currency_id: CurrencyId, from: u64, to: u64, amount: u128) -> (r: Result<(), DispatchError>)
        ensures
            r is Ok <==> old(self).multi_transfer_allowed(currency_id, from, to, amount),
            r is Ok && from != to ==> {
                &&& old(self).free_balance(currency_id, from) >= amount
                &&& final(self).free_balance(currency_id, from) == old(self).free_balance(currency_id, from) - amount
                &&& final(self).free_balance(currency_id, to) == old(self).free_balance(currency_id, to) + amount
                &&& forall|c: CurrencyId, a: u64| (c != currency_id || (a != from && a != to)) ==>
                    #[trigger] final(self).free_balance(c, a) == old(self).free_balance(c, a)
            },
            r is Ok && from == to ==> forall|c: CurrencyId, w: u64| #[trigger] final(self).free_balance(c, w) == old(self).free_balance(c, w),
            r is Err ==> forall|c: CurrencyId, w: u64| #[trigger] final(self).free_balance(c, w) == old(self).free_balance(c, w),
    ;
}

/// Two states of a multi-currency ledger hold the same balances.
pub open spec fn same_multi_funds<C: MultiCurrency>(a: C, b: C) -> bool {
    forall|c: CurrencyId, w: u64| #[trigger] a.free_balance(c, w) == b.free_balance(c, w)
}

} // verus!

verus! {

/// `new` is `old` after `amount` moved from `who`'s free to reserved balance.
pub open spec fn reserve_effect<C: ReservableCurrency>(old: C, new: C, who: u64, amount: u128) -> bool {
    &&& old.free_balance(who) >= amount
    &&& new.free_balance(who) == old.free_balance(who) - amount
    &&& new.reserved_balance(who) == old.reserved_balance(who) + amount
    &&& forall|a: u64| a != who ==> #[trigger] new.free_balance(a) == old.free_balance(a)
        && new.reserved_balance(a) == old.reserved_balance(a)
}

/// `new` is `old` after `amount` of free balance moved from `from` to `to`.
pub open spec fn transfer_effect<C: ReservableCurrency>(old: C, new: C, from: u64, to: u64, amount: u128) -> bool {
    if from == to {
        same_funds(old, new)
    } else {
        &&& old.free_balance(from) >= amount
        &&& new.free_balance(from) == old.free_balance(from) - amount
        &&& new.free_balance(to) == old.free_balance(to) + amount
        &&& forall|a: u64| a != from && a != to ==> #[trigger] new.free_balance(a) == old.free_balance(a)
        &&& forall|a: u64| #[trigger] new.reserved_balance(a) == old.reserved_balance(a)
    }
}

/// `new` is `old` after `amount` of `currency_id` moved from `from` to `to`.
pub open spec fn multi_transfer_effect<C: MultiCurrency>(old: C, new: C, currency_id: CurrencyId, from: u64, to: u64, amount: u128) -> bool {
    if from == to {
        same_multi_funds(old, new)
    } else {
        &&& old.free_balance(currency_id, from) >= amount
        &&& new.free_balance(currency_id, from) == old.free_balance(currency_id, from) - amount
        &&& new.free_balance(currency_id, to) == old.free_balance(currency_id, to) + amount
        &&& forall|c: CurrencyId, a: u64| (c != currency_id || (a != from && a != to)) ==>
            #[trigger] new.free_balance(c, a) == old.free_balance(c, a)
    }
}

} // verus!
