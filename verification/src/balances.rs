//! The runtime's currencies: native balances, free and reserved, and the
//! balances of every other currency, which the pallets use through the
//! traits of `traits`.
use vstd::prelude::*;
use std::collections::BTreeMap;
use crate::primitives::{CurrencyId, DispatchError};
use crate::traits::{MultiCurrency, ReservableCurrency};

verus! {

broadcast use vstd::laws_cmp::group_laws_cmp;

/// The amount at `k`, zero where there is none.
pub open spec fn amount_in<K>(m: Map<K, u128>, k: K) -> nat {
    if m.contains_key(k) { m[k] as nat } else { 0 }
}

/// The key of a balance of a currency other than the native one.
pub open spec fn token_key(currency_id: CurrencyId, who: u64) -> (u64, u64, u64) {
    (currency_id.0, currency_id.1, who)
}

/// Native balances with reserves, and balances of the other currencies. An
/// account's free and reserved native balances together fit 128 bits.
pub struct Funds {
    native: CurrencyId,
    free: BTreeMap<u64, u128>,
    reserved: BTreeMap<u64, u128>,
    tokens: BTreeMap<(u64, u64, u64), u128>,
}

/// The amount at `k` of a map.
fn amount_at<K: Ord + Copy>(m: &BTreeMap<K, u128>, k: K) -> (r: u128)
    requires
        vstd::laws_cmp::obeys_cmp::<K>(),
    ensures
        r == amount_in(m@, k),
{
    match m.get(&k) {
        Some(v) => *v,
        None => 0,
    }
}

impl Funds {
    #[verifier::type_invariant]
    spec fn totals_fit(self) -> bool {
        forall|w: u64| #[trigger] amount_in(self.free@, w) + amount_in(self.reserved@, w) <= u128::MAX
    }

    /// The free native balance of an account.
    pub closed spec fn native_free(self, who: u64) -> nat {
        amount_in(self.free@, who)
    }

    /// The reserved native balance of an account.
    pub closed spec fn native_reserved(self, who: u64) -> nat {
        amount_in(self.reserved@, who)
    }

    /// The native currency.
    pub closed spec fn native_id(self) -> CurrencyId {
        self.native
    }

    /// The balance of an account in a currency other than the native one.
    pub closed spec fn token_balance(self, currency_id: CurrencyId, who: u64) -> nat {
        amount_in(self.tokens@, token_key(currency_id, who))
    }

    /// Whether `amount` of native free balance can move from `from` to `to`:
    /// the sender holds it and the receiver's free and reserved balances
    /// still fit 128 bits with it.
    pub closed spec fn native_move_ok(self, from: u64, to: u64, amount: u128) -> bool {
        from == to || (amount_in(self.free@, from) >= amount
            && amount_in(self.free@, to) + amount_in(self.reserved@, to) + amount <= u128::MAX)
    }

    /// Whether `amount` of `currency_id` can move from `from` to `to`.
    pub closed spec fn move_ok(self, currency_id: CurrencyId, from: u64, to: u64, amount: u128) -> bool {
        if currency_id == self.native {
            self.native_move_ok(from, to, amount)
        } else {
            from == to || (self.token_balance(currency_id, from) >= amount
                && self.token_balance(currency_id, to) + amount <= u128::MAX)
        }
    }

    /// No balances at all, with `native` as the native currency.
    pub fn new(native: CurrencyId) -> (r: Funds)
        ensures
            r.native_id() == native,
            forall|w: u64| #[trigger] r.native_free(w) == 0 && r.native_reserved(w) == 0,
            forall|c: CurrencyId, w: u64| #[trigger] r.token_balance(c, w) == 0,
    {
        Funds { native, free: BTreeMap::new(), reserved: BTreeMap::new(), tokens: BTreeMap::new() }
    }

    /// Sets the free native balance of `who`, as far as its reserved balance
    /// leaves room; returns whether it was set.
    pub fn set_free(&mut self, who: u64, amount: u128) -> (r: bool)
        ensures
            r == (old(self).native_reserved(who) + amount <= u128::MAX),
            final(self).native_id() == old(self).native_id(),
            final(self).native_free(who) == if r { amount as nat } else { old(self).native_free(who) },
            forall|w: u64| w != who ==> #[trigger] final(self).native_free(w) == old(self).native_free(w),
            forall|w: u64| #[trigger] final(self).native_reserved(w) == old(self).native_reserved(w),
            forall|c: CurrencyId, w: u64| #[trigger] final(self).token_balance(c, w) == old(self).token_balance(c, w),
    {
        proof {
            use_type_invariant(&*self);
        }
        let reserved = amount_at(&self.reserved, who);
        if reserved > u128::MAX - amount {
            return false;
        }
        let mut free = self.free.clone();
        free.insert(who, amount);
        proof {
            assert forall|w: u64| #[trigger] amount_in(free@, w) + amount_in(self.reserved@, w) <= u128::MAX by {
                if w != who {
                    assert(amount_in(free@, w) == amount_in(self.free@, w));
                    assert(amount_in(self.free@, w) + amount_in(self.reserved@, w) <= u128::MAX);
                }
            }
        }
        self.free = free;
        true
    }

    /// Sets the balance of `who` in a currency other than the native one.
    pub fn set_token(&mut self, currency_id: CurrencyId, who: u64, amount: u128)
        ensures
            final(self).native_id() == old(self).native_id(),
            final(self).token_balance(currency_id, who) == amount,
            forall|c: CurrencyId, w: u64| (c != currency_id || w != who) ==> #[trigger] final(self).token_balance(c, w)
                == old(self).token_balance(c, w),
            forall|w: u64| #[trigger] final(self).native_free(w) == old(self).native_free(w)
                && final(self).native_reserved(w) == old(self).native_reserved(w),
    {
        proof {
            use_type_invariant(&*self);
        }
        let mut tokens = self.tokens.clone();
        tokens.insert((currency_id.0, currency_id.1, who), amount);
        self.tokens = tokens;
    }

    /// The free native balance of `who`.
    pub fn free_of(&self, who: u64) -> (r: u128)
        ensures
            r == self.native_free(who),
    {
        amount_at(&self.free, who)
    }

    /// The reserved native balance of `who`.
    pub fn reserved_of(&self, who: u64) -> (r: u128)
        ensures
            r == self.native_reserved(who),
    {
        amount_at(&self.reserved, who)
    }

    /// The balance of `who` in `currency_id`, native or not.
    pub fn balance_of(&self, currency_id: CurrencyId, who: u64) -> (r: u128)
        ensures
            r == MultiCurrency::free_balance(self, currency_id, who),
    {
        if currency_id == self.native {
            amount_at(&self.free, who)
        } else {
            amount_at(&self.tokens, (currency_id.0, currency_id.1, who))
        }
    }

    /// Moves `amount` of native free balance from `from` to `to`.
    fn move_native(&mut self, from: u64, to: u64, amount: u128) -> (r: Result<(), DispatchError>)
        ensures
            r is Ok <==> old(self).native_move_ok(from, to, amount),
            r is Err ==> r == Err::<(), DispatchError>(DispatchError::CurrencyFailure),
            final(self).native_id() == old(self).native_id(),
            forall|c: CurrencyId, w: u64| #[trigger] final(self).token_balance(c, w) == old(self).token_balance(c, w),
            r is Ok && from != to ==> {
                &&& old(self).native_free(from) >= amount
                &&& final(self).native_free(from) == old(self).native_free(from) - amount
                &&& final(self).native_free(to) == old(self).native_free(to) + amount
                &&& forall|a: u64| a != from && a != to ==> #[trigger] final(self).native_free(a) == old(self).native_free(a)
                &&& forall|a: u64| #[trigger] final(self).native_reserved(a) == old(self).native_reserved(a)
            },
            r is Ok && from == to ==> forall|w: u64| #[trigger] final(self).native_free(w) == old(self).native_free(w)
                && final(self).native_reserved(w) == old(self).native_reserved(w),
            r is Err ==> forall|w: u64| #[trigger] final(self).native_free(w) == old(self).native_free(w)
                && final(self).native_reserved(w) == old(self).native_reserved(w),
    {
        proof {
            use_type_invariant(&*self);
        }
        if from == to {
            return Ok(());
        }
        let free_from = amount_at(&self.free, from);
        if free_from < amount {
            return Err(DispatchError::CurrencyFailure);
        }
        let free_to = amount_at(&self.free, to);
        let reserved_to = amount_at(&self.reserved, to);
        assert(amount_in(self.free@, to) + amount_in(self.reserved@, to) <= u128::MAX);
        if reserved_to > u128::MAX - amount || free_to > u128::MAX - amount - reserved_to {
            return Err(DispatchError::CurrencyFailure);
        }
        let mut free = self.free.clone();
        free.insert(from, free_from - amount);
        free.insert(to, free_to + amount);
        proof {
            assert forall|w: u64| #[trigger] amount_in(free@, w) + amount_in(self.reserved@, w) <= u128::MAX by {
                assert(amount_in(self.free@, w) + amount_in(self.reserved@, w) <= u128::MAX);
            }
        }
        self.free = free;
        Ok(())
    }
}

impl ReservableCurrency for Funds {
    open spec fn free_balance(&self, who: u64) -> nat {
        self.native_free(who)
    }

    open spec fn reserved_balance(&self, who: u64) -> nat {
        self.native_reserved(who)
    }

    fn duplicate(&self) -> (r: Self) {
        proof {
            use_type_invariant(self);
        }
        Funds { native: self.native, free: self.free.clone(), reserved: self.reserved.clone(), tokens: self.tokens.clone() }
    }

    open spec fn reserve_allowed(&self, who: u64, amount: u128) -> bool {
        self.native_free(who) >= amount
    }

    fn reserve(&mut self, who: u64, amount: u128) -> (r: Result<(), DispatchError>)
        ensures
            r is Ok <==> old(self).native_free(who) >= amount,
            r is Err ==> r == Err::<(), DispatchError>(DispatchError::CurrencyFailure),
            final(self).native_id() == old(self).native_id(),
            forall|c: CurrencyId, w: u64| #[trigger] final(self).token_balance(c, w) == old(self).token_balance(c, w),
    {
        proof {
            use_type_invariant(&*self);
        }
        let free = amount_at(&self.free, who);
        if free < amount {
            return Err(DispatchError::CurrencyFailure);
        }
        let reserved = amount_at(&self.reserved, who);
        assert(amount_in(self.free@, who) + amount_in(self.reserved@, who) <= u128::MAX);
        let mut free_map = self.free.clone();
        free_map.insert(who, free - amount);
        proof {
            assert forall|w: u64| #[trigger] amount_in(free_map@, w) + amount_in(self.reserved@, w) <= u128::MAX by {
                assert(amount_in(self.free@, w) + amount_in(self.reserved@, w) <= u128::MAX);
            }
        }
        let ghost before = self.free@;
        self.free = free_map;
        let mut reserved_map = self.reserved.clone();
        reserved_map.insert(who, reserved + amount);
        proof {
            assert forall|w: u64| #[trigger] amount_in(self.free@, w) + amount_in(reserved_map@, w) <= u128::MAX by {
                assert(amount_in(before, w) + amount_in(self.reserved@, w) <= u128::MAX);
                assert(amount_in(self.free@, w) + amount_in(self.reserved@, w) <= u128::MAX);
            }
        }
        self.reserved = reserved_map;
        Ok(())
    }

    fn unreserve(&mut self, who: u64, amount: u128) -> (r: u128) {
        proof {
            use_type_invariant(&*self);
        }
        let reserved = amount_at(&self.reserved, who);
        let moved = if amount <= reserved { amount } else { reserved };
        let free = amount_at(&self.free, who);
        assert(amount_in(self.free@, who) + amount_in(self.reserved@, who) <= u128::MAX);
        let mut reserved_map = self.reserved.clone();
        reserved_map.insert(who, reserved - moved);
        proof {
            assert forall|w: u64| #[trigger] amount_in(self.free@, w) + amount_in(reserved_map@, w) <= u128::MAX by {
                assert(amount_in(self.free@, w) + amount_in(self.reserved@, w) <= u128::MAX);
            }
        }
        let ghost before = self.reserved@;
        self.reserved = reserved_map;
        let mut free_map = self.free.clone();
        free_map.insert(who, free + moved);
        proof {
            assert forall|w: u64| #[trigger] amount_in(free_map@, w) + amount_in(self.reserved@, w) <= u128::MAX by {
                assert(amount_in(self.free@, w) + amount_in(before, w) <= u128::MAX);
                assert(amount_in(self.free@, w) + amount_in(self.reserved@, w) <= u128::MAX);
            }
        }
        self.free = free_map;
        amount - moved
    }

    open spec fn transfer_allowed(&self, from: u64, to: u64, amount: u128) -> bool {
        self.native_move_ok(from, to, amount)
    }

    fn transfer(&mut self, from: u64, to: u64, amount: u128) -> (r: Result<(), DispatchError>) {
        self.move_native(from, to, amount)
    }
}

impl MultiCurrency for Funds {
    open spec fn free_balance(&self, currency_id: CurrencyId, who: u64) -> nat {
        if currency_id == self.native_id() {
            self.native_free(who)
        } else {
            self.token_balance(currency_id, who)
        }
    }

    fn duplicate(&self) -> (r: Self) {
        proof {
            use_type_invariant(self);
        }
        Funds { native: self.native, free: self.free.clone(), reserved: self.reserved.clone(), tokens: self.tokens.clone() }
    }

    open spec fn multi_transfer_allowed(&self, currency_id: CurrencyId, from: u64, to: u64, amount: u128) -> bool {
        self.move_ok(currency_id, from, to, amount)
    }

    fn transfer(&mut self, currency_id: CurrencyId, from: u64, to: u64, amount: u128) -> (r: Result<(), DispatchError>) {
        if currency_id == self.native {
            return self.move_native(from, to, amount);
        }
        if from == to {
            return Ok(());
        }
        let from_key = (currency_id.0, currency_id.1, from);
        let to_key = (currency_id.0, currency_id.1, to);
        let have = amount_at(&self.tokens, from_key);
        if have < amount {
            return Err(DispatchError::CurrencyFailure);
        }
        let dest = amount_at(&self.tokens, to_key);
        if dest > u128::MAX - amount {
            return Err(DispatchError::CurrencyFailure);
        }
        proof {
            use_type_invariant(&*self);
        }
        let mut tokens = self.tokens.clone();
        tokens.insert(from_key, have - amount);
        tokens.insert(to_key, dest + amount);
        self.tokens = tokens;
        proof {
            assert forall|c: CurrencyId, a: u64| (c != currency_id || (a != from && a != to))
                implies #[trigger] self.token_balance(c, a) == old(self).token_balance(c, a) by {
                assert(token_key(c, a) != from_key && token_key(c, a) != to_key);
            }
        }
        Ok(())
    }
}

} // verus!
