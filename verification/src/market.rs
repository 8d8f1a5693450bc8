//! The market pallet: markets owned by an account, each with a vault, and
//! market rates that list what a buyer gives, receives and must hold.
use vstd::prelude::*;
use std::collections::BTreeMap;
use crate::asset;
use crate::ledger::{apply_op, apply_ops, balance_in, move_ops, BalanceKey, Balances, LedgerOp};
use crate::primitives::{ensure_signed, Amount, DispatchError, Origin, PalletId};
use crate::wide::{checked_add, checked_div, from_u128, lemma_pow64, saturate, saturating_mul, saturating_sub, to_u128, wide_max, wide_value};

verus! {

broadcast use vstd::laws_cmp::group_laws_cmp;

#[derive(Clone, Copy, PartialEq, Eq, Debug, Structural)]
pub enum AmountOp {
    Equal,
    LessThan,
    LessEqualThan,
    GreaterThan,
    GreaterEqualThan,
}

#[derive(Clone, Copy, PartialEq, Eq, Debug, Structural)]
pub enum AMM {
    Constant,
}

#[derive(Clone, Copy, PartialEq, Eq, Debug, Structural)]
pub enum RateAction {
    Transfer(Amount),
    MarketTransfer(AMM, u64, u64),
    Mint(Amount),
    Burn(Amount),
    Has(AmountOp, Amount),
}

#[derive(Clone, Copy, PartialEq, Eq, Debug, Structural)]
pub enum RateAccount {
    Market,
    Account(u64),
    Buyer,
}

/// One line of a market rate: an action on an asset between two parties.
#[derive(Clone, Copy, PartialEq, Eq, Debug, Structural)]
pub struct AssetRate {
    pub class_id: u64,
    pub asset_id: u64,
    pub action: RateAction,
    pub from: RateAccount,
    pub to: RateAccount,
}

/// A rate line with the amount that a quote computed for it.
#[derive(Clone, Copy, PartialEq, Eq, Debug, Structural)]
pub struct RateBalance {
    pub rate: AssetRate,
    pub balance: Amount,
}

/// A market: its owner and the vault that holds its stock.
#[derive(Clone, Copy, PartialEq, Eq, Debug, Structural)]
pub struct Market {
    pub owner: u64,
    pub vault: u64,
}

#[derive(Debug, PartialEq, Eq)]
pub enum Event {
    Created { market_id: u64, who: u64 },
    RateCreated { market_id: u64, market_rate_id: u64, who: u64 },
    LiquidityAdded {
        who: u64,
        market_id: u64,
        market_rate_id: u64,
        class_ids: Vec<u64>,
        asset_ids: Vec<Vec<u64>>,
        amounts: Vec<Vec<u128>>,
    },
    LiquidityRemoved {
        who: u64,
        market_id: u64,
        market_rate_id: u64,
        class_ids: Vec<u64>,
        asset_ids: Vec<Vec<u64>>,
        amounts: Vec<Vec<u128>>,
    },
    Deposit { who: u64, market_id: u64, market_rate_id: u64, amount: u128, balances: Vec<RateBalance>, success: bool },
    Exchanged { buyer: u64, market_id: u64, market_rate_id: u64, amount: u128, balances: Vec<RateBalance>, success: bool },
}

#[derive(Clone, Copy, PartialEq, Eq, Debug, Structural)]
pub enum Error {
    Overflow,
    InsufficientAmount,
    InsufficientLiquidity,
    InvalidMarket,
    InvalidMarketRate,
    InvalidMarketOwner,
    NotAuthorizedToMintAsset,
    MarketExists,
    MarketRateExists,
    InvalidAsset,
    InvalidAssetRate,
    InvalidRateAccount,
    InvalidRateAmount,
    InvalidBurnPrice,
    InvalidBurnBalance,
    InvalidTransferPrice,
    InvalidTransferBalance,
    InvalidBuyer,
    InvalidArrayLength,
}

/// The pallet's state and configuration.
pub struct Pallet {
    pub pallet_id: PalletId,
    pub markets: BTreeMap<u64, Market>,
    /// Keyed by (market, market rate).
    pub market_rates: BTreeMap<(u64, u64), Vec<AssetRate>>,
    pub events: Vec<Event>,
}

/// A dispatch error of this pallet.
/// The price in of `amount_out` from a pool with reserves `reserve_in` and
/// `reserve_out`: `reserve_in * amount_out * 1000` over
/// `(reserve_out - amount_out) * 995` rounded down, plus one, each step on
/// 256-bit integers that saturate, and 0 where the divisor is 0 or the
/// result does not fit 128 bits.
pub open spec fn buy_price(amount_out: u128, reserve_in: u128, reserve_out: u128) -> u128 {
    let numerator = saturate(saturate((reserve_in * amount_out) as nat) * 1000);
    let left: nat = if reserve_out >= amount_out { (reserve_out - amount_out) as nat } else { 0 };
    let denominator = saturate(left * 995);
    if denominator == 0 {
        0
    } else {
        let q = numerator / denominator + 1;
        if q <= u128::MAX { q as u128 } else { 0 }
    }
}

pub open spec fn merr<T>(e: Error) -> Result<T, DispatchError> {
    Err(DispatchError::Market(e))
}

// ---------------------------------------------------------------------------
// The order of rate lines: the lexicographic order of their fields, variants
// in declaration order.
// ---------------------------------------------------------------------------

/// The integers that order an action: variant, then its fields.
pub open spec fn action_code(a: RateAction) -> Seq<int> {
    match a {
        RateAction::Transfer(x) => seq![0int, x as int, 0int, 0int],
        RateAction::MarketTransfer(_amm, c, s) => seq![1int, 0int, c as int, s as int],
        RateAction::Mint(x) => seq![2int, x as int, 0int, 0int],
        RateAction::Burn(x) => seq![3int, x as int, 0int, 0int],
        RateAction::Has(op, x) => seq![4int, op_code(op), x as int, 0int],
    }
}

pub open spec fn op_code(op: AmountOp) -> int {
    match op {
        AmountOp::Equal => 0,
        AmountOp::LessThan => 1,
        AmountOp::LessEqualThan => 2,
        AmountOp::GreaterThan => 3,
        AmountOp::GreaterEqualThan => 4,
    }
}

pub open spec fn account_code(a: RateAccount) -> Seq<int> {
    match a {
        RateAccount::Market => seq![0int, 0int],
        RateAccount::Account(x) => seq![1int, x as int],
        RateAccount::Buyer => seq![2int, 0int],
    }
}

/// The integers that order a rate line.
pub open spec fn rate_code(r: AssetRate) -> Seq<int> {
    seq![r.class_id as int, r.asset_id as int] + action_code(r.action) + account_code(r.from) + account_code(r.to)
}

/// Lexicographic order of two integer sequences of the same length.
pub open spec fn lex_lt(a: Seq<int>, b: Seq<int>) -> bool
    decreases a.len(),
{
    if a.len() == 0 || b.len() == 0 {
        false
    } else if a[0] < b[0] {
        true
    } else if a[0] > b[0] {
        false
    } else {
        lex_lt(a.drop_first(), b.drop_first())
    }
}

/// `a` orders before `b`.
pub open spec fn rate_lt(a: AssetRate, b: AssetRate) -> bool {
    lex_lt(rate_code(a), rate_code(b))
}

proof fn lemma_lex_lt_irrefl(a: Seq<int>)
    ensures
        !lex_lt(a, a),
    decreases a.len(),
{
    if a.len() > 0 {
        lemma_lex_lt_irrefl(a.drop_first());
    }
}

proof fn lemma_lex_total(a: Seq<int>, b: Seq<int>)
    requires
        a.len() == b.len(),
    ensures
        a == b || lex_lt(a, b) || lex_lt(b, a),
    decreases a.len(),
{
    if a.len() > 0 && a[0] == b[0] {
        lemma_lex_total(a.drop_first(), b.drop_first());
        if a.drop_first() == b.drop_first() {
            assert(a =~= seq![a[0]] + a.drop_first());
            assert(b =~= seq![b[0]] + b.drop_first());
        }
    } else if a.len() == 0 {
        assert(a =~= b);
    }
}

proof fn lemma_lex_asym(a: Seq<int>, b: Seq<int>)
    ensures
        lex_lt(a, b) ==> !lex_lt(b, a),
    decreases a.len(),
{
    if a.len() > 0 && b.len() > 0 && a[0] == b[0] {
        lemma_lex_asym(a.drop_first(), b.drop_first());
    }
}

proof fn lemma_rate_code_injective(a: AssetRate, b: AssetRate)
    requires
        rate_code(a) == rate_code(b),
    ensures
        a == b,
{
    let ca = rate_code(a);
    let cb = rate_code(b);
    assert(ca[0] == cb[0] && ca[1] == cb[1]);
    assert(ca[2] == cb[2] && ca[3] == cb[3] && ca[4] == cb[4] && ca[5] == cb[5]);
    assert(ca[6] == cb[6] && ca[7] == cb[7] && ca[8] == cb[8] && ca[9] == cb[9]);
    assert(action_code(a.action) =~= ca.subrange(2, 6));
    assert(action_code(b.action) =~= cb.subrange(2, 6));
    assert(account_code(a.from) =~= ca.subrange(6, 8));
    assert(account_code(b.from) =~= cb.subrange(6, 8));
    assert(account_code(a.to) =~= ca.subrange(8, 10));
    assert(account_code(b.to) =~= cb.subrange(8, 10));
    match a.action {
        RateAction::Has(op, _) => {
            match b.action {
                RateAction::Has(op2, _) => {
                    assert(op_code(op) == op_code(op2));
                    assert(op == op2);
                },
                _ => {},
            }
        },
        _ => {},
    }
}

/// The rate lines of `v` in strictly increasing order.
pub open spec fn sorted_rates(v: Seq<(AssetRate, Amount)>) -> bool {
    forall|i: int| 0 <= i < v.len() - 1 ==> rate_lt(#[trigger] v[i].0, v[i + 1].0)
}

/// No rate line occurs twice in `v`.
pub open spec fn distinct_rates(v: Seq<(AssetRate, Amount)>) -> bool {
    forall|i: int, j: int| 0 <= i < j < v.len() ==> v[i].0 != v[j].0
}

/// The map from rate lines to amounts that `v` lists.
pub open spec fn entries_map(v: Seq<(AssetRate, Amount)>) -> Map<AssetRate, Amount>
    decreases v.len(),
{
    if v.len() == 0 {
        Map::empty()
    } else {
        entries_map(v.drop_last()).insert(v.last().0, v.last().1)
    }
}

fn action_code_exec(a: RateAction) -> (r: [i128; 4])
    ensures
        r@.map_values(|x: i128| x as int) == action_code(a),
{
    let r: [i128; 4] = match a {
        RateAction::Transfer(x) => [0, x, 0, 0],
        RateAction::MarketTransfer(_amm, c, s) => [1, 0, c as i128, s as i128],
        RateAction::Mint(x) => [2, x, 0, 0],
        RateAction::Burn(x) => [3, x, 0, 0],
        RateAction::Has(op, x) => {
            let o: i128 = match op {
                AmountOp::Equal => 0,
                AmountOp::LessThan => 1,
                AmountOp::LessEqualThan => 2,
                AmountOp::GreaterThan => 3,
                AmountOp::GreaterEqualThan => 4,
            };
            [4, o, x, 0]
        },
    };
    assert(r@.map_values(|x: i128| x as int) =~= action_code(a));
    r
}

fn account_code_exec(a: RateAccount) -> (r: [i128; 2])
    ensures
        r@.map_values(|x: i128| x as int) == account_code(a),
{
    let r: [i128; 2] = match a {
        RateAccount::Market => [0, 0],
        RateAccount::Account(x) => [1, x as i128],
        RateAccount::Buyer => [2, 0],
    };
    assert(r@.map_values(|x: i128| x as int) =~= account_code(a));
    r
}

fn rate_code_exec(r: &AssetRate) -> (c: Vec<i128>)
    ensures
        c@.map_values(|x: i128| x as int) == rate_code(*r),
        c@.len() == 10,
{
    let a = action_code_exec(r.action);
    let f = account_code_exec(r.from);
    let t = account_code_exec(r.to);
    let c: Vec<i128> = vec![r.class_id as i128, r.asset_id as i128, a[0], a[1], a[2], a[3], f[0], f[1], t[0], t[1]];
    proof {
        let ac = action_code(r.action);
        let fc = account_code(r.from);
        let tc = account_code(r.to);
        assert(a@.map_values(|x: i128| x as int)[0] == ac[0]);
        assert(a@.map_values(|x: i128| x as int)[1] == ac[1]);
        assert(a@.map_values(|x: i128| x as int)[2] == ac[2]);
        assert(a@.map_values(|x: i128| x as int)[3] == ac[3]);
        assert(f@.map_values(|x: i128| x as int)[0] == fc[0]);
        assert(f@.map_values(|x: i128| x as int)[1] == fc[1]);
        assert(t@.map_values(|x: i128| x as int)[0] == tc[0]);
        assert(t@.map_values(|x: i128| x as int)[1] == tc[1]);
        assert(c@.map_values(|x: i128| x as int) =~= rate_code(*r));
    }
    c
}

/// Whether `a` orders before `b`.
fn rate_less(a: &AssetRate, b: &AssetRate) -> (r: bool)
    ensures
        r == rate_lt(*a, *b),
{
    let ca = rate_code_exec(a);
    let cb = rate_code_exec(b);
    let ghost sa = rate_code(*a);
    let ghost sb = rate_code(*b);
    proof {
        assert(sa.len() == 10 && sb.len() == 10);
        assert(sa.subrange(0, 10) =~= sa);
        assert(sb.subrange(0, 10) =~= sb);
    }
    let mut i: usize = 0;
    while i < 10
        invariant
            0 <= i <= 10,
            ca@.len() == 10,
            cb@.len() == 10,
            sa.len() == 10,
            sb.len() == 10,
            ca@.map_values(|x: i128| x as int) == sa,
            cb@.map_values(|x: i128| x as int) == sb,
            sa == rate_code(*a),
            sb == rate_code(*b),
            lex_lt(sa, sb) == lex_lt(sa.subrange(i as int, 10), sb.subrange(i as int, 10)),
        decreases 10 - i,
    {
        let x = ca[i];
        let y = cb[i];
        assert(sa[i as int] == x as int);
        assert(sb[i as int] == y as int);
        assert(sa.subrange(i as int, 10).drop_first() =~= sa.subrange(i + 1, 10));
        assert(sb.subrange(i as int, 10).drop_first() =~= sb.subrange(i + 1, 10));
        if x < y {
            return true;
        }
        if x > y {
            return false;
        }
        i += 1;
    }
    false
}

/// The amounts that a quote assigns to rate lines, kept in rate order.
#[derive(Debug, PartialEq, Eq)]
pub struct RateBalances {
    pub entries: Vec<(AssetRate, Amount)>,
}

impl RateBalances {
    /// The rate lines and their amounts.
    pub open spec fn view_map(&self) -> Map<AssetRate, Amount> {
        entries_map(self.entries@)
    }

    /// The entries are in strictly increasing rate order.
    pub open spec fn well_formed(&self) -> bool {
        sorted_rates(self.entries@) && distinct_rates(self.entries@)
    }

    /// No entries.
    pub fn new() -> (r: RateBalances)
        ensures
            r.entries@ == Seq::<(AssetRate, Amount)>::empty(),
            r.well_formed(),
    {
        RateBalances { entries: Vec::new() }
    }

    /// The amount assigned to `rate`, if any.
    pub fn get(&self, rate: &AssetRate) -> (r: Option<Amount>)
        requires
            self.well_formed(),
        ensures
            r == (if self.view_map().contains_key(*rate) { Some(self.view_map()[*rate]) } else { None::<Amount> }),
    {
        let n = self.entries.len();
        let mut i: usize = 0;
        while i < n
            invariant
                n == self.entries@.len(),
                0 <= i <= n,
                self.well_formed(),
                forall|j: int| 0 <= j < i ==> self.entries@[j].0 != *rate,
            decreases n - i,
        {
            if self.entries[i].0 == *rate {
                proof {
                    lemma_entries_map_lookup(self.entries@, i as int);
                }
                return Some(self.entries[i].1);
            }
            i += 1;
        }
        proof {
            lemma_entries_map_absent(self.entries@, *rate);
        }
        None
    }

    /// Sets the amount of `rate`, keeping rate order.
    pub fn insert(&mut self, rate: AssetRate, amount: Amount)
        requires
            old(self).well_formed(),
        ensures
            final(self).well_formed(),
            final(self).view_map() == old(self).view_map().insert(rate, amount),
    {
        let n = self.entries.len();
        let mut i: usize = 0;
        while i < n
            invariant
                n == self.entries@.len(),
                0 <= i <= n,
                self.entries == old(self).entries,
                old(self).well_formed(),
                forall|j: int| 0 <= j < i ==> self.entries@[j].0 != rate,
            decreases n - i,
        {
            if self.entries[i].0 == rate {
                let ghost before = self.entries@;
                self.entries.set(i, (rate, amount));
                proof {
                    lemma_entries_map_update(before, i as int, amount);
                    assert forall|j: int| 0 <= j < self.entries@.len() - 1 implies
                        rate_lt(#[trigger] self.entries@[j].0, self.entries@[j + 1].0) by {
                        assert(before[j].0 == self.entries@[j].0);
                        assert(before[j + 1].0 == self.entries@[j + 1].0);
                    }
                }
                return;
            }
            i += 1;
        }
        let mut k: usize = 0;
        while k < n && rate_less(&self.entries[k].0, &rate)
            invariant
                n == self.entries@.len(),
                0 <= k <= n,
                self.entries == old(self).entries,
                old(self).well_formed(),
                forall|j: int| 0 <= j < n ==> self.entries@[j].0 != rate,
                forall|j: int| 0 <= j < k ==> rate_lt(self.entries@[j].0, rate),
            decreases n - k,
        {
            k += 1;
        }
        let ghost before = self.entries@;
        proof {
            assert forall|j: int| 0 <= j < n implies before[j].0 != rate by {}
            if k < n {
                assert(!rate_lt(before[k as int].0, rate));
                lemma_lex_total(rate_code(before[k as int].0), rate_code(rate));
                if rate_code(before[k as int].0) == rate_code(rate) {
                    lemma_rate_code_injective(before[k as int].0, rate);
                }
            }
        }
        self.entries.insert(k, (rate, amount));
        proof {
            assert(self.entries@ =~= before.insert(k as int, (rate, amount)));
            lemma_entries_map_insert(before, k as int, rate, amount);
        }
    }
}

proof fn lemma_entries_map_lookup(v: Seq<(AssetRate, Amount)>, i: int)
    requires
        distinct_rates(v),
        0 <= i < v.len(),
    ensures
        entries_map(v).contains_key(v[i].0),
        entries_map(v)[v[i].0] == v[i].1,
    decreases v.len(),
{
    if i < v.len() - 1 {
        lemma_entries_map_lookup(v.drop_last(), i);
        assert(v.drop_last()[i] == v[i]);
        assert(v.last().0 != v[i].0);
    }
}

proof fn lemma_entries_map_absent(v: Seq<(AssetRate, Amount)>, r: AssetRate)
    requires
        forall|j: int| 0 <= j < v.len() ==> v[j].0 != r,
    ensures
        !entries_map(v).contains_key(r),
    decreases v.len(),
{
    if v.len() > 0 {
        lemma_entries_map_absent(v.drop_last(), r);
    }
}

proof fn lemma_entries_map_dom(v: Seq<(AssetRate, Amount)>, r: AssetRate)
    ensures
        entries_map(v).contains_key(r) <==> exists|j: int| 0 <= j < v.len() && v[j].0 == r,
    decreases v.len(),
{
    if v.len() > 0 {
        lemma_entries_map_dom(v.drop_last(), r);
        if exists|j: int| 0 <= j < v.drop_last().len() && v.drop_last()[j].0 == r {
            let j = choose|j: int| 0 <= j < v.drop_last().len() && v.drop_last()[j].0 == r;
            assert(v[j].0 == r);
        }
        if exists|j: int| 0 <= j < v.len() && v[j].0 == r {
            let j = choose|j: int| 0 <= j < v.len() && v[j].0 == r;
            if j < v.len() - 1 {
                assert(v.drop_last()[j].0 == r);
            }
        }
    } else {
        lemma_entries_map_absent(v, r);
    }
}

/// The map of a distinct listing is the map of its entries, in any order.
proof fn lemma_entries_map_ext(v: Seq<(AssetRate, Amount)>, w: Seq<(AssetRate, Amount)>)
    requires
        distinct_rates(v),
        distinct_rates(w),
        v.to_set() == w.to_set(),
    ensures
        entries_map(v) == entries_map(w),
{
    assert forall|r: AssetRate| entries_map(v).contains_key(r) <==> entries_map(w).contains_key(r) by {
        lemma_entries_map_dom(v, r);
        lemma_entries_map_dom(w, r);
        if exists|j: int| 0 <= j < v.len() && v[j].0 == r {
            let j = choose|j: int| 0 <= j < v.len() && v[j].0 == r;
            assert(v.to_set().contains(v[j]));
            assert(w.to_set().contains(v[j]));
            let k = choose|k: int| 0 <= k < w.len() && w[k] == v[j];
            assert(w[k].0 == r);
        }
        if exists|j: int| 0 <= j < w.len() && w[j].0 == r {
            let j = choose|j: int| 0 <= j < w.len() && w[j].0 == r;
            assert(w.to_set().contains(w[j]));
            assert(v.to_set().contains(w[j]));
            let k = choose|k: int| 0 <= k < v.len() && v[k] == w[j];
            assert(v[k].0 == r);
        }
    }
    assert forall|r: AssetRate| entries_map(v).contains_key(r) implies entries_map(v)[r] == entries_map(w)[r] by {
        lemma_entries_map_dom(v, r);
        let j = choose|j: int| 0 <= j < v.len() && v[j].0 == r;
        lemma_entries_map_lookup(v, j);
        assert(v.to_set().contains(v[j]));
        assert(w.to_set().contains(v[j]));
        let k = choose|k: int| 0 <= k < w.len() && w[k] == v[j];
        lemma_entries_map_lookup(w, k);
    }
    assert(entries_map(v) =~= entries_map(w));
}

proof fn lemma_entries_map_update(v: Seq<(AssetRate, Amount)>, i: int, a: Amount)
    requires
        distinct_rates(v),
        0 <= i < v.len(),
    ensures
        distinct_rates(v.update(i, (v[i].0, a))),
        entries_map(v.update(i, (v[i].0, a))) == entries_map(v).insert(v[i].0, a),
{
    let w = v.update(i, (v[i].0, a));
    assert forall|x: int, y: int| 0 <= x < y < w.len() implies w[x].0 != w[y].0 by {
        assert(w[x].0 == v[x].0 && w[y].0 == v[y].0);
    }
    let v2 = v.remove(i).push(v[i]);
    let w2 = v.remove(i).push((v[i].0, a));
    assert(distinct_rates(v2)) by {
        assert forall|x: int, y: int| 0 <= x < y < v2.len() implies v2[x].0 != v2[y].0 by {
            let xo = if x < i { x } else { x + 1 };
            let yo = if y == v2.len() - 1 { i } else if y < i { y } else { y + 1 };
            assert(v2[x] == v[xo]);
            assert(v2[y] == v[yo]);
        }
    }
    assert(distinct_rates(w2)) by {
        assert forall|x: int, y: int| 0 <= x < y < w2.len() implies w2[x].0 != w2[y].0 by {
            let xo = if x < i { x } else { x + 1 };
            let yo = if y == w2.len() - 1 { i } else if y < i { y } else { y + 1 };
            assert(w2[x].0 == v[xo].0);
            assert(w2[y].0 == v[yo].0);
        }
    }
    assert(v2.to_set() =~= v.to_set()) by {
        assert forall|e| v2.to_set().contains(e) <==> v.to_set().contains(e) by {
            if v2.to_set().contains(e) {
                let k = choose|k: int| 0 <= k < v2.len() && v2[k] == e;
                if k == v2.len() - 1 {
                    assert(v[i] == e);
                } else if k < i {
                    assert(v[k] == e);
                } else {
                    assert(v[k + 1] == e);
                }
            }
            if v.to_set().contains(e) {
                let k = choose|k: int| 0 <= k < v.len() && v[k] == e;
                if k == i {
                    assert(v2[v2.len() - 1] == e);
                } else if k < i {
                    assert(v2[k] == e);
                } else {
                    assert(v2[k - 1] == e);
                }
            }
        }
    }
    assert(w2.to_set() =~= w.to_set()) by {
        assert forall|e| w2.to_set().contains(e) <==> w.to_set().contains(e) by {
            if w2.to_set().contains(e) {
                let k = choose|k: int| 0 <= k < w2.len() && w2[k] == e;
                if k == w2.len() - 1 {
                    assert(w[i] == e);
                } else if k < i {
                    assert(w[k] == e);
                } else {
                    assert(w[k + 1] == e);
                }
            }
            if w.to_set().contains(e) {
                let k = choose|k: int| 0 <= k < w.len() && w[k] == e;
                if k == i {
                    assert(w2[w2.len() - 1] == e);
                } else if k < i {
                    assert(w2[k] == e);
                } else {
                    assert(w2[k - 1] == e);
                }
            }
        }
    }
    lemma_entries_map_ext(v, v2);
    lemma_entries_map_ext(w, w2);
    assert(v2.drop_last() =~= v.remove(i));
    assert(w2.drop_last() =~= v.remove(i));
    assert(entries_map(v2) == entries_map(v.remove(i)).insert(v[i].0, v[i].1));
    assert(entries_map(w2) == entries_map(v.remove(i)).insert(v[i].0, a));
    assert(entries_map(w) =~= entries_map(v).insert(v[i].0, a));
}

proof fn lemma_entries_map_insert(v: Seq<(AssetRate, Amount)>, k: int, r: AssetRate, a: Amount)
    requires
        sorted_rates(v),
        distinct_rates(v),
        0 <= k <= v.len(),
        forall|j: int| 0 <= j < v.len() ==> v[j].0 != r,
        forall|j: int| 0 <= j < k ==> rate_lt(v[j].0, r),
        k < v.len() ==> rate_lt(r, v[k].0),
    ensures
        sorted_rates(v.insert(k, (r, a))),
        distinct_rates(v.insert(k, (r, a))),
        entries_map(v.insert(k, (r, a))) == entries_map(v).insert(r, a),
{
    let w = v.insert(k, (r, a));
    assert forall|j: int| 0 <= j < w.len() - 1 implies rate_lt(#[trigger] w[j].0, w[j + 1].0) by {
        if j + 1 < k {
            assert(w[j] == v[j] && w[j + 1] == v[j + 1]);
        } else if j + 1 == k {
            assert(w[j] == v[j] && w[j + 1] == (r, a));
        } else if j == k {
            assert(w[j] == (r, a) && w[j + 1] == v[k]);
        } else {
            assert(w[j] == v[j - 1] && w[j + 1] == v[j]);
        }
    }
    assert forall|x: int, y: int| 0 <= x < y < w.len() implies w[x].0 != w[y].0 by {
        if x == k {
            assert(w[y] == v[y - 1]);
        } else if y == k {
            assert(w[x] == v[x]);
        } else {
            let xo = if x < k { x } else { x - 1 };
            let yo = if y < k { y } else { y - 1 };
            assert(w[x] == v[xo] && w[y] == v[yo]);
        }
    }
    let w2 = v.push((r, a));
    assert(distinct_rates(w2)) by {
        assert forall|x: int, y: int| 0 <= x < y < w2.len() implies w2[x].0 != w2[y].0 by {
            if y == w2.len() - 1 {
                assert(w2[x] == v[x]);
            } else {
                assert(w2[x] == v[x] && w2[y] == v[y]);
            }
        }
    }
    assert(w2.to_set() =~= w.to_set()) by {
        assert forall|e| w2.to_set().contains(e) <==> w.to_set().contains(e) by {
            if w2.to_set().contains(e) {
                let j = choose|j: int| 0 <= j < w2.len() && w2[j] == e;
                if j == w2.len() - 1 {
                    assert(w[k] == e);
                } else if j < k {
                    assert(w[j] == e);
                } else {
                    assert(w[j + 1] == e);
                }
            }
            if w.to_set().contains(e) {
                let j = choose|j: int| 0 <= j < w.len() && w[j] == e;
                if j == k {
                    assert(w2[w2.len() - 1] == e);
                } else if j < k {
                    assert(w2[j] == e);
                } else {
                    assert(w2[j - 1] == e);
                }
            }
        }
    }
    lemma_entries_map_ext(w, w2);
    assert(w2.drop_last() =~= v);
}


// ---------------------------------------------------------------------------
// Quotes
// ---------------------------------------------------------------------------

/// (party, class, asset): the key under which a quote tallies balances and
/// prices; the party is (variant, account) of a rate account.
pub type PriceKey = ((u8, u64), u64, u64);

/// Balances or prices by party and asset.
pub type Tally = Map<PriceKey, Amount>;

pub open spec fn account_key(a: RateAccount) -> (u8, u64) {
    match a {
        RateAccount::Market => (0u8, 0u64),
        RateAccount::Account(x) => (1u8, x),
        RateAccount::Buyer => (2u8, 0u64),
    }
}

pub open spec fn price_key(r: AssetRate) -> PriceKey {
    (account_key(r.from), r.class_id, r.asset_id)
}

/// The amount of a rate action: that of a transfer, mint or burn, else zero.
pub open spec fn action_amount(a: RateAction) -> Amount {
    match a {
        RateAction::Burn(x) => x,
        RateAction::Mint(x) => x,
        RateAction::Transfer(x) => x,
        _ => 0,
    }
}

pub open spec fn is_transfer_or_burn(a: RateAction) -> bool {
    a is Transfer || a is Burn
}

/// Whose balances a quote reads: a fixed account for every line, or the
/// account that each line's source names.
#[derive(Clone, Copy, PartialEq, Eq, Debug, Structural)]
pub struct Parties {
    pub fixed: Option<u64>,
    pub buyer: u64,
    pub vault: u64,
}

pub open spec fn party_account(p: Parties, a: RateAccount) -> u64 {
    match p.fixed {
        Some(x) => x,
        None => match a {
            RateAccount::Account(x) => x,
            RateAccount::Buyer => p.buyer,
            RateAccount::Market => p.vault,
        },
    }
}

pub open spec fn fits_i128(x: int) -> bool {
    i128::MIN <= x <= i128::MAX
}

/// One line of the tally: record the balance of a transfer or burn line's
/// source, and add the line's amount times `total` to its price.
pub open spec fn tally_step(st: (Tally, Tally), r: AssetRate, b: Balances, p: Parties, total: Amount) -> Result<(Tally, Tally), Error> {
    let (bals, prices) = st;
    let k = price_key(r);
    let bal = balance_in(b, (party_account(p, r.from), r.class_id, r.asset_id));
    let amt = action_amount(r.action) * total;
    if is_transfer_or_burn(r.action) && bal > i128::MAX {
        Err(Error::Overflow)
    } else if !fits_i128(amt) {
        Err(Error::Overflow)
    } else {
        let bals2 = if is_transfer_or_burn(r.action) { bals.insert(k, bal as i128) } else { bals };
        if prices.contains_key(k) {
            if !fits_i128(prices[k] + amt) {
                Err(Error::Overflow)
            } else {
                Ok((bals2, prices.insert(k, (prices[k] + amt) as i128)))
            }
        } else {
            Ok((bals2, prices.insert(k, amt as i128)))
        }
    }
}

/// The balances and prices of a quote after tallying `rates` in order.
pub open spec fn tally(rates: Seq<AssetRate>, b: Balances, p: Parties, total: Amount) -> Result<(Tally, Tally), Error>
    decreases rates.len(),
{
    if rates.len() == 0 {
        Ok((Map::empty(), Map::empty()))
    } else {
        match tally(rates.drop_last(), b, p, total) {
            Ok(st) => tally_step(st, rates.last(), b, p, total),
            Err(e) => Err(e),
        }
    }
}

/// The state of a quote while it settles lines: balances left, amount of
/// each line, and whether every line so far can be met.
pub type Settlement = (Tally, Map<AssetRate, Amount>, bool);

pub open spec fn selected(a: RateAction, burn: bool) -> bool {
    if burn { a is Burn } else { a is Transfer }
}

/// One line of settling burns (`burn`) or transfers: take the line's price
/// from its source's balance; the line gets the price, or the shortfall
/// where the balance goes negative.
pub open spec fn settle_step(st: Settlement, r: AssetRate, prices: Tally, burn: bool) -> Result<Settlement, Error> {
    let (bals, out, ok) = st;
    let k = price_key(r);
    if !selected(r.action, burn) {
        Ok(st)
    } else if !prices.contains_key(k) {
        Err(if burn { Error::InvalidBurnPrice } else { Error::InvalidTransferPrice })
    } else if !bals.contains_key(k) {
        Err(if burn { Error::InvalidBurnBalance } else { Error::InvalidTransferBalance })
    } else if !fits_i128(bals[k] - prices[k]) {
        Err(Error::Overflow)
    } else {
        let nb = (bals[k] - prices[k]) as i128;
        Ok((bals.insert(k, nb), out.insert(r, if nb < 0 { nb } else { prices[k] }), ok && nb >= 0))
    }
}

pub open spec fn settle(rates: Seq<AssetRate>, init: Settlement, prices: Tally, burn: bool) -> Result<Settlement, Error>
    decreases rates.len(),
{
    if rates.len() == 0 {
        Ok(init)
    } else {
        match settle(rates.drop_last(), init, prices, burn) {
            Ok(st) => settle_step(st, rates.last(), prices, burn),
            Err(e) => Err(e),
        }
    }
}

/// Whether `balance` meets `op` against `amount`: the amount where it does,
/// the (wrapping) difference where it does not.
pub open spec fn holds_eval(op: AmountOp, balance: Amount, amount: Amount) -> (Amount, bool) {
    match op {
        AmountOp::Equal => if balance == amount { (amount, true) } else { (balance.wrapping_sub(amount), false) },
        AmountOp::GreaterEqualThan => if balance >= amount { (amount, true) } else { (balance.wrapping_sub(amount), false) },
        AmountOp::GreaterThan => if balance > amount { (amount, true) } else { (balance.wrapping_sub(amount), false) },
        AmountOp::LessEqualThan => if balance <= amount { (amount, true) } else { (amount.wrapping_sub(balance), false) },
        AmountOp::LessThan => if balance < amount { (amount, true) } else { (amount.wrapping_sub(balance), false) },
    }
}

/// One line of checking holdings: a `Has` line gets its verdict.
pub open spec fn holds_step(st: (Map<AssetRate, Amount>, bool), r: AssetRate, b: Balances, p: Parties) -> Result<(Map<AssetRate, Amount>, bool), Error> {
    match r.action {
        RateAction::Has(op, amount) => {
            let bal = balance_in(b, (party_account(p, r.from), r.class_id, r.asset_id));
            if bal > i128::MAX {
                Err(Error::Overflow)
            } else {
                let (v, good) = holds_eval(op, bal as i128, amount);
                Ok((st.0.insert(r, v), st.1 && good))
            }
        },
        _ => Ok(st),
    }
}

pub open spec fn holds(rates: Seq<AssetRate>, b: Balances, p: Parties) -> Result<(Map<AssetRate, Amount>, bool), Error>
    decreases rates.len(),
{
    if rates.len() == 0 {
        Ok((Map::empty(), true))
    } else {
        match holds(rates.drop_last(), b, p) {
            Ok(st) => holds_step(st, rates.last(), b, p),
            Err(e) => Err(e),
        }
    }
}

/// One line of pricing mints: a `Mint` line gets its price.
pub open spec fn mints_step(out: Map<AssetRate, Amount>, r: AssetRate, prices: Tally) -> Result<Map<AssetRate, Amount>, Error> {
    if r.action is Mint {
        if prices.contains_key(price_key(r)) {
            Ok(out.insert(r, prices[price_key(r)]))
        } else {
            Err(Error::InvalidBurnPrice)
        }
    } else {
        Ok(out)
    }
}

pub open spec fn mints(rates: Seq<AssetRate>, out: Map<AssetRate, Amount>, prices: Tally) -> Result<Map<AssetRate, Amount>, Error>
    decreases rates.len(),
{
    if rates.len() == 0 {
        Ok(out)
    } else {
        match mints(rates.drop_last(), out, prices) {
            Ok(o) => mints_step(o, rates.last(), prices),
            Err(e) => Err(e),
        }
    }
}

/// The lines that a deposit quotes: transfers and burns out of the market.
pub open spec fn deposit_rates(rates: Seq<AssetRate>) -> Seq<AssetRate>
    decreases rates.len(),
{
    if rates.len() == 0 {
        Seq::empty()
    } else if rates.last().from == RateAccount::Market && is_transfer_or_burn(rates.last().action) {
        deposit_rates(rates.drop_last()).push(rates.last())
    } else {
        deposit_rates(rates.drop_last())
    }
}

pub open spec fn all_nonneg(m: Map<AssetRate, Amount>) -> bool {
    forall|r: AssetRate| #[trigger] m.contains_key(r) ==> m[r] >= 0
}

/// What a deposit of `amount` units of a rate needs from the market owner,
/// line by line, and whether the owner holds all of it.
pub open spec fn quote_deposit(market: Market, rates: Seq<AssetRate>, b: Balances, amount: u128) -> Result<(bool, Map<AssetRate, Amount>), Error> {
    if amount > i128::MAX {
        Err(Error::Overflow)
    } else {
        let rs = deposit_rates(rates);
        let p = Parties { fixed: Some(market.owner), buyer: 0, vault: market.vault };
        match tally(rs, b, p, amount as i128) {
            Err(e) => Err(e),
            Ok((bals, prices)) => match settle(rs, (bals, Map::empty(), true), prices, true) {
                Err(e) => Err(e),
                Ok(s1) => match settle(rs, s1, prices, false) {
                    Err(e) => Err(e),
                    Ok(s2) => Ok((all_nonneg(s2.1), s2.1)),
                },
            },
        }
    }
}

/// What an exchange of `amount` units of a rate moves, line by line, and
/// whether every party can meet its lines.
pub open spec fn quote_exchange(buyer: u64, market: Market, rates: Seq<AssetRate>, b: Balances, amount: u128) -> Result<(bool, Map<AssetRate, Amount>), Error> {
    let p = Parties { fixed: None, buyer, vault: market.vault };
    match holds(rates, b, p) {
        Err(e) => Err(e),
        Ok((out0, ok0)) => if amount > i128::MAX {
            Err(Error::Overflow)
        } else {
            match tally(rates, b, p, amount as i128) {
                Err(e) => Err(e),
                Ok((bals, prices)) => match settle(rates, (bals, out0, ok0), prices, true) {
                    Err(e) => Err(e),
                    Ok(s1) => match settle(rates, s1, prices, false) {
                        Err(e) => Err(e),
                        Ok(s2) => match mints(rates, s2.1, prices) {
                            Err(e) => Err(e),
                            Ok(out) => Ok((s2.2, out)),
                        },
                    },
                },
            }
        },
    }
}

fn account_key_exec(a: RateAccount) -> (r: (u8, u64))
    ensures
        r == account_key(a),
{
    match a {
        RateAccount::Market => (0u8, 0u64),
        RateAccount::Account(x) => (1u8, x),
        RateAccount::Buyer => (2u8, 0u64),
    }
}

fn price_key_exec(r: &AssetRate) -> (k: PriceKey)
    ensures
        k == price_key(*r),
{
    (account_key_exec(r.from), r.class_id, r.asset_id)
}

/// The amount of a rate action: that of a transfer, mint or burn, else zero.
pub fn get_amount(a: &RateAction) -> (r: Amount)
    ensures
        r == action_amount(*a),
{
    match *a {
        RateAction::Burn(x) => x,
        RateAction::Mint(x) => x,
        RateAction::Transfer(x) => x,
        _ => 0,
    }
}

fn party_account_exec(p: &Parties, a: RateAccount) -> (r: u64)
    ensures
        r == party_account(*p, a),
{
    match p.fixed {
        Some(x) => x,
        None => match a {
            RateAccount::Account(x) => x,
            RateAccount::Buyer => p.buyer,
            RateAccount::Market => p.vault,
        },
    }
}

fn to_amount(x: u128) -> (r: Option<Amount>)
    ensures
        x <= i128::MAX ==> r == Some(x as i128),
        x > i128::MAX ==> r is None,
{
    if x <= 0x7fff_ffff_ffff_ffff_ffff_ffff_ffff_ffffu128 {
        Some(x as i128)
    } else {
        None
    }
}

fn tally_exec(rates: &Vec<AssetRate>, b: &BTreeMap<BalanceKey, u128>, p: Parties, total: Amount)
    -> (r: Result<(BTreeMap<PriceKey, Amount>, BTreeMap<PriceKey, Amount>), Error>)
    ensures
        match (r, tally(rates@, b@, p, total)) {
            (Ok((x, y)), Ok((sx, sy))) => x@ == sx && y@ == sy,
            (Err(e), Err(se)) => e == se,
            _ => false,
        },
{
    let mut bals: BTreeMap<PriceKey, Amount> = BTreeMap::new();
    let mut prices: BTreeMap<PriceKey, Amount> = BTreeMap::new();
    let n = rates.len();
    for i in 0..n
        invariant
            n == rates@.len(),
            tally(rates@.take(i as int), b@, p, total) == Ok::<(Tally, Tally), Error>((bals@, prices@)),
    {
        let r = rates[i];
        assert(rates@.take(i + 1).drop_last() =~= rates@.take(i as int));
        assert(rates@.take(i + 1).last() == r);
        let k = price_key_exec(&r);
        let tb = match r.action {
            RateAction::Transfer(_) | RateAction::Burn(_) => true,
            _ => false,
        };
        if tb {
            let bal = crate::ledger::balance_at(b, (party_account_exec(&p, r.from), r.class_id, r.asset_id));
            match to_amount(bal) {
                Some(v) => {
                    bals.insert(k, v);
                },
                None => {
                    proof {
                        lemma_tally_failed(rates@, b@, p, total, i + 1);
                    }
                    return Err(Error::Overflow);
                },
            }
        }
        let amt = match get_amount(&r.action).checked_mul(total) {
            Some(a) => a,
            None => {
                proof {
                    lemma_tally_failed(rates@, b@, p, total, i + 1);
                }
                return Err(Error::Overflow);
            },
        };
        let cur: Option<Amount> = match prices.get(&k) {
            Some(v) => Some(*v),
            None => None,
        };
        match cur {
            Some(c) => match c.checked_add(amt) {
                Some(s) => {
                    prices.insert(k, s);
                },
                None => {
                    proof {
                        lemma_tally_failed(rates@, b@, p, total, i + 1);
                    }
                    return Err(Error::Overflow);
                },
            },
            None => {
                prices.insert(k, amt);
            },
        }
    }
    assert(rates@.take(n as int) =~= rates@);
    Ok((bals, prices))
}

proof fn lemma_tally_failed(rates: Seq<AssetRate>, b: Balances, p: Parties, total: Amount, n: int)
    requires
        0 <= n <= rates.len(),
        tally(rates.take(n), b, p, total) is Err,
    ensures
        tally(rates, b, p, total) == tally(rates.take(n), b, p, total),
    decreases rates.len() - n,
{
    if n < rates.len() {
        assert(rates.take(n + 1).drop_last() =~= rates.take(n));
        lemma_tally_failed(rates, b, p, total, n + 1);
    } else {
        assert(rates.take(n) =~= rates);
    }
}


fn settle_exec(
    rates: &Vec<AssetRate>,
    bals: &mut BTreeMap<PriceKey, Amount>,
    out: &mut RateBalances,
    ok: &mut bool,
    prices: &BTreeMap<PriceKey, Amount>,
    burn: bool,
) -> (r: Result<(), Error>)
    requires
        old(out).well_formed(),
    ensures
        final(out).well_formed(),
        match (r, settle(rates@, (old(bals)@, old(out).view_map(), *old(ok)), prices@, burn)) {
            (Ok(_), Ok(st)) => st == (final(bals)@, final(out).view_map(), *final(ok)),
            (Err(e), Err(se)) => e == se,
            _ => false,
        },
{
    let ghost init = (old(bals)@, old(out).view_map(), *old(ok));
    let n = rates.len();
    for i in 0..n
        invariant
            n == rates@.len(),
            out.well_formed(),
            init == (old(bals)@, old(out).view_map(), *old(ok)),
            settle(rates@.take(i as int), init, prices@, burn) == Ok::<Settlement, Error>((bals@, out.view_map(), *ok)),
    {
        let r = rates[i];
        assert(rates@.take(i + 1).drop_last() =~= rates@.take(i as int));
        assert(rates@.take(i + 1).last() == r);
        let sel = match r.action {
            RateAction::Burn(_) => burn,
            RateAction::Transfer(_) => !burn,
            _ => false,
        };
        if sel {
            let k = price_key_exec(&r);
            let price: Amount = match prices.get(&k) {
                Some(v) => *v,
                None => {
                    proof {
                        lemma_settle_failed(rates@, init, prices@, burn, i + 1);
                    }
                    return Err(if burn { Error::InvalidBurnPrice } else { Error::InvalidTransferPrice });
                },
            };
            let bal: Amount = match bals.get(&k) {
                Some(v) => *v,
                None => {
                    proof {
                        lemma_settle_failed(rates@, init, prices@, burn, i + 1);
                    }
                    return Err(if burn { Error::InvalidBurnBalance } else { Error::InvalidTransferBalance });
                },
            };
            let nb = match bal.checked_sub(price) {
                Some(x) => x,
                None => {
                    proof {
                        lemma_settle_failed(rates@, init, prices@, burn, i + 1);
                    }
                    return Err(Error::Overflow);
                },
            };
            bals.insert(k, nb);
            if nb < 0 {
                out.insert(r, nb);
                *ok = false;
            } else {
                out.insert(r, price);
            }
        }
    }
    assert(rates@.take(n as int) =~= rates@);
    Ok(())
}

proof fn lemma_settle_failed(rates: Seq<AssetRate>, init: Settlement, prices: Tally, burn: bool, n: int)
    requires
        0 <= n <= rates.len(),
        settle(rates.take(n), init, prices, burn) is Err,
    ensures
        settle(rates, init, prices, burn) == settle(rates.take(n), init, prices, burn),
    decreases rates.len() - n,
{
    if n < rates.len() {
        assert(rates.take(n + 1).drop_last() =~= rates.take(n));
        lemma_settle_failed(rates, init, prices, burn, n + 1);
    } else {
        assert(rates.take(n) =~= rates);
    }
}

fn holds_eval_exec(op: AmountOp, balance: Amount, amount: Amount) -> (r: (Amount, bool))
    ensures
        r == holds_eval(op, balance, amount),
{
    match op {
        AmountOp::Equal => if balance == amount { (amount, true) } else { (balance.wrapping_sub(amount), false) },
        AmountOp::GreaterEqualThan => if balance >= amount { (amount, true) } else { (balance.wrapping_sub(amount), false) },
        AmountOp::GreaterThan => if balance > amount { (amount, true) } else { (balance.wrapping_sub(amount), false) },
        AmountOp::LessEqualThan => if balance <= amount { (amount, true) } else { (amount.wrapping_sub(balance), false) },
        AmountOp::LessThan => if balance < amount { (amount, true) } else { (amount.wrapping_sub(balance), false) },
    }
}

fn holds_exec(rates: &Vec<AssetRate>, b: &BTreeMap<BalanceKey, u128>, p: Parties, out: &mut RateBalances, ok: &mut bool) -> (r: Result<(), Error>)
    requires
        old(out).entries@.len() == 0,
        *old(ok),
    ensures
        final(out).well_formed(),
        match (r, holds(rates@, b@, p)) {
            (Ok(_), Ok(st)) => st == (final(out).view_map(), *final(ok)),
            (Err(e), Err(se)) => e == se,
            _ => false,
        },
{
    assert(old(out).view_map() =~= Map::<AssetRate, Amount>::empty());
    let n = rates.len();
    for i in 0..n
        invariant
            n == rates@.len(),
            out.well_formed(),
            holds(rates@.take(i as int), b@, p) == Ok::<(Map<AssetRate, Amount>, bool), Error>((out.view_map(), *ok)),
    {
        let r = rates[i];
        assert(rates@.take(i + 1).drop_last() =~= rates@.take(i as int));
        assert(rates@.take(i + 1).last() == r);
        match r.action {
            RateAction::Has(op, amount) => {
                let bal = crate::ledger::balance_at(b, (party_account_exec(&p, r.from), r.class_id, r.asset_id));
                let bal_i = match to_amount(bal) {
                    Some(v) => v,
                    None => {
                        proof {
                            lemma_holds_failed(rates@, b@, p, i + 1);
                        }
                        return Err(Error::Overflow);
                    },
                };
                let (v, good) = holds_eval_exec(op, bal_i, amount);
                out.insert(r, v);
                if !good {
                    *ok = false;
                }
            },
            _ => {},
        }
    }
    assert(rates@.take(n as int) =~= rates@);
    Ok(())
}

proof fn lemma_holds_failed(rates: Seq<AssetRate>, b: Balances, p: Parties, n: int)
    requires
        0 <= n <= rates.len(),
        holds(rates.take(n), b, p) is Err,
    ensures
        holds(rates, b, p) == holds(rates.take(n), b, p),
    decreases rates.len() - n,
{
    if n < rates.len() {
        assert(rates.take(n + 1).drop_last() =~= rates.take(n));
        lemma_holds_failed(rates, b, p, n + 1);
    } else {
        assert(rates.take(n) =~= rates);
    }
}

fn mints_exec(rates: &Vec<AssetRate>, out: &mut RateBalances, prices: &BTreeMap<PriceKey, Amount>) -> (r: Result<(), Error>)
    requires
        old(out).well_formed(),
    ensures
        final(out).well_formed(),
        match (r, mints(rates@, old(out).view_map(), prices@)) {
            (Ok(_), Ok(m)) => m == final(out).view_map(),
            (Err(e), Err(se)) => e == se,
            _ => false,
        },
{
    let ghost init = old(out).view_map();
    let n = rates.len();
    for i in 0..n
        invariant
            n == rates@.len(),
            out.well_formed(),
            init == old(out).view_map(),
            mints(rates@.take(i as int), init, prices@) == Ok::<Map<AssetRate, Amount>, Error>(out.view_map()),
    {
        let r = rates[i];
        assert(rates@.take(i + 1).drop_last() =~= rates@.take(i as int));
        assert(rates@.take(i + 1).last() == r);
        match r.action {
            RateAction::Mint(_) => {
                let k = price_key_exec(&r);
                match prices.get(&k) {
                    Some(v) => {
                        out.insert(r, *v);
                    },
                    None => {
                        proof {
                            lemma_mints_failed(rates@, init, prices@, i + 1);

                        }
                        return Err(Error::InvalidBurnPrice);
                    },
                }
            },
            _ => {},
        }
    }
    assert(rates@.take(n as int) =~= rates@);
    Ok(())
}

proof fn lemma_mints_failed(rates: Seq<AssetRate>, out: Map<AssetRate, Amount>, prices: Tally, n: int)
    requires
        0 <= n <= rates.len(),
        mints(rates.take(n), out, prices) is Err,
    ensures
        mints(rates, out, prices) == mints(rates.take(n), out, prices),
    decreases rates.len() - n,
{
    if n < rates.len() {
        assert(rates.take(n + 1).drop_last() =~= rates.take(n));
        lemma_mints_failed(rates, out, prices, n + 1);
    } else {
        assert(rates.take(n) =~= rates);
    }
}

fn deposit_rates_exec(rates: &Vec<AssetRate>) -> (r: Vec<AssetRate>)
    ensures
        r@ == deposit_rates(rates@),
{
    let mut r: Vec<AssetRate> = Vec::new();
    let n = rates.len();
    for i in 0..n
        invariant
            n == rates@.len(),
            r@ == deposit_rates(rates@.take(i as int)),
    {
        let x = rates[i];
        assert(rates@.take(i + 1).drop_last() =~= rates@.take(i as int));
        assert(rates@.take(i + 1).last() == x);
        let keep = match x.from {
            RateAccount::Market => match x.action {
                RateAction::Transfer(_) | RateAction::Burn(_) => true,
                _ => false,
            },
            _ => false,
        };
        if keep {
            r.push(x);
        }
    }
    assert(rates@.take(n as int) =~= rates@);
    r
}

fn all_nonneg_exec(m: &RateBalances) -> (r: bool)
    requires
        m.well_formed(),
    ensures
        r == all_nonneg(m.view_map()),
{
    let n = m.entries.len();
    let mut i: usize = 0;
    while i < n
        invariant
            n == m.entries@.len(),
            0 <= i <= n,
            m.well_formed(),
            forall|j: int| 0 <= j < i ==> m.entries@[j].1 >= 0,
        decreases n - i,
    {
        if m.entries[i].1 < 0 {
            proof {
                lemma_entries_map_lookup(m.entries@, i as int);
            }
            return false;
        }
        i += 1;
    }
    proof {
        assert forall|r: AssetRate| #[trigger] m.view_map().contains_key(r) implies m.view_map()[r] >= 0 by {
            lemma_entries_map_dom(m.entries@, r);
            let j = choose|j: int| 0 <= j < m.entries@.len() && m.entries@[j].0 == r;
            lemma_entries_map_lookup(m.entries@, j);
        }
    }
    true
}


// ---------------------------------------------------------------------------
// Carrying out a quote
// ---------------------------------------------------------------------------

/// Runs, entry by entry, the ledger step that `op_of` gives for each quoted
/// amount: the balances reached and how the run ended. A negative amount
/// stops the run with `Overflow`; an entry without a step changes nothing.
pub open spec fn run_entries(
    b: Balances,
    entries: Seq<(AssetRate, Amount)>,
    op_of: spec_fn(AssetRate, u128) -> Option<LedgerOp>,
) -> (Balances, Result<(), DispatchError>)
    decreases entries.len(),
{
    if entries.len() == 0 {
        (b, Ok(()))
    } else {
        let (m, r) = run_entries(b, entries.drop_last(), op_of);
        let (rate, amt) = entries.last();
        if r is Err {
            (m, r)
        } else if amt < 0 {
            (m, merr(Error::Overflow))
        } else {
            match op_of(rate, amt as u128) {
                None => (m, Ok(())),
                Some(op) => {
                    let (m2, ok) = apply_op(m, op);
                    (m2, if ok { Ok(()) } else { Err(DispatchError::Asset(asset::Error::NumOverflow)) })
                },
            }
        }
    }
}

/// The step of a deposit line: the owner moves the quoted amount to the vault.
pub open spec fn deposit_op(owner: u64, vault: u64) -> spec_fn(AssetRate, u128) -> Option<LedgerOp> {
    |rate: AssetRate, amt: u128|
        if owner == vault || amt == 0 {
            None
        } else {
            Some(LedgerOp::Move { from: (owner, rate.class_id, rate.asset_id), to: (vault, rate.class_id, rate.asset_id), amount: amt })
        }
}

/// The account that a rate account names in an exchange.
pub open spec fn exchange_account(a: RateAccount, buyer: u64, vault: u64) -> u64 {
    match a {
        RateAccount::Account(x) => x,
        RateAccount::Buyer => buyer,
        RateAccount::Market => vault,
    }
}

/// The step of an exchange line: a transfer moves, a burn debits the source,
/// a mint credits the destination; other lines do nothing.
pub open spec fn exchange_op(buyer: u64, vault: u64) -> spec_fn(AssetRate, u128) -> Option<LedgerOp> {
    |rate: AssetRate, amt: u128| {
        let from = exchange_account(rate.from, buyer, vault);
        let to = exchange_account(rate.to, buyer, vault);
        match rate.action {
            RateAction::Transfer(_) => if from == to || amt == 0 {
                None
            } else {
                Some(LedgerOp::Move { from: (from, rate.class_id, rate.asset_id), to: (to, rate.class_id, rate.asset_id), amount: amt })
            },
            RateAction::Burn(_) => Some(LedgerOp::Debit { key: (from, rate.class_id, rate.asset_id), amount: amt }),
            RateAction::Mint(_) => Some(LedgerOp::Credit { key: (to, rate.class_id, rate.asset_id), amount: amt }),
            _ => None,
        }
    }
}

/// The quoted lines as the events report them.
pub open spec fn rate_balances(entries: Seq<(AssetRate, Amount)>) -> Seq<RateBalance> {
    entries.map_values(|e: (AssetRate, Amount)| RateBalance { rate: e.0, balance: e.1 })
}

proof fn lemma_run_entries_failed(b: Balances, entries: Seq<(AssetRate, Amount)>, op_of: spec_fn(AssetRate, u128) -> Option<LedgerOp>, n: int)
    requires
        0 <= n <= entries.len(),
        run_entries(b, entries.take(n), op_of).1 is Err,
    ensures
        run_entries(b, entries, op_of) == run_entries(b, entries.take(n), op_of),
    decreases entries.len() - n,
{
    if n < entries.len() {
        assert(entries.take(n + 1).drop_last() =~= entries.take(n));
        lemma_run_entries_failed(b, entries, op_of, n + 1);
    } else {
        assert(entries.take(n) =~= entries);
    }
}

fn to_balance(x: Amount) -> (r: Option<u128>)
    ensures
        x >= 0 ==> r == Some(x as u128),
        x < 0 ==> r is None,
{
    if x >= 0 {
        Some(x as u128)
    } else {
        None
    }
}

fn rate_balance_list(b: &RateBalances) -> (r: Vec<RateBalance>)
    ensures
        r@ == rate_balances(b.entries@),
{
    let mut r: Vec<RateBalance> = Vec::new();
    let n = b.entries.len();
    for i in 0..n
        invariant
            n == b.entries@.len(),
            r@ == rate_balances(b.entries@.take(i as int)),
    {
        let (rate, balance) = b.entries[i];
        r.push(RateBalance { rate, balance });
        assert(r@ =~= rate_balances(b.entries@.take(i + 1)));
    }
    assert(b.entries@.take(n as int) =~= b.entries@);
    r
}

/// Whether a rate line's action has an amount below zero.
pub open spec fn negative_amount(r: AssetRate) -> bool {
    action_amount(r.action) < 0
}

/// `r` is the quote `q` in executable form.
pub open spec fn quote_matches(r: Result<(bool, RateBalances), DispatchError>, q: Result<(bool, Map<AssetRate, Amount>), DispatchError>) -> bool {
    match (r, q) {
        (Ok((c, rb)), Ok((qc, qm))) => c == qc && rb.view_map() == qm && rb.well_formed(),
        (Err(e), Err(qe)) => e == qe,
        _ => false,
    }
}

/// `e` reports a deposit quote whose lines are `entries`.
pub open spec fn deposit_event(e: Event, who: u64, market_id: u64, market_rate_id: u64, amount: u128, entries: Seq<(AssetRate, Amount)>, success: bool) -> bool {
    match e {
        Event::Deposit { who: w, market_id: m, market_rate_id: mr, amount: a, balances, success: s } =>
            w == who && m == market_id && mr == market_rate_id && a == amount && balances@ == rate_balances(entries) && s == success,
        _ => false,
    }
}

/// `e` reports an exchange quote whose lines are `entries`.
pub open spec fn exchange_event(e: Event, buyer: u64, market_id: u64, market_rate_id: u64, amount: u128, entries: Seq<(AssetRate, Amount)>, success: bool) -> bool {
    match e {
        Event::Exchanged { buyer: w, market_id: m, market_rate_id: mr, amount: a, balances, success: s } =>
            w == buyer && m == market_id && mr == market_rate_id && a == amount && balances@ == rate_balances(entries) && s == success,
        _ => false,
    }
}

impl Pallet {
    /// An empty pallet whose accounts derive from `pallet_id`.
    pub fn new(pallet_id: PalletId) -> (r: Pallet)
        ensures
            r.pallet_id == pallet_id,
            r.markets@ == Map::<u64, Market>::empty(),
            r.market_rates@ == Map::<(u64, u64), Vec<AssetRate>>::empty(),
            r.events@ == Seq::<Event>::empty(),
    {
        Pallet { pallet_id, markets: BTreeMap::new(), market_rates: BTreeMap::new(), events: Vec::new() }
    }

    /// Creates market `market_id` owned by `who`, with the pallet's
    /// sub-account as its vault.
    pub fn do_create_market(&mut self, who: u64, market_id: u64) -> (r: Result<(), DispatchError>)
        ensures
            old(self).markets@.contains_key(market_id) ==> r == merr::<()>(Error::MarketExists) && final(self).markets@ == old(self).markets@
                && final(self).events@ == old(self).events@,
            !old(self).markets@.contains_key(market_id) ==> {
                &&& r is Ok
                &&& final(self).markets@ == old(self).markets@.insert(
                    market_id,
                    Market { owner: who, vault: crate::primitives::pallet_account_spec(old(self).pallet_id.0) },
                )
                &&& final(self).events@ == old(self).events@.push(Event::Created { market_id, who })
            },
            final(self).market_rates@ == old(self).market_rates@,
            final(self).pallet_id == old(self).pallet_id,
    {
        if self.markets.contains_key(&market_id) {
            return Err(DispatchError::Market(Error::MarketExists));
        }
        let vault = self.pallet_id.into_sub_account_truncating();
        self.markets.insert(market_id, Market { owner: who, vault });
        self.events.push(Event::Created { market_id, who });
        Ok(())
    }

    /// Stores the rate `market_rate_id` of a market that `who` owns; every
    /// transfer, mint and burn amount must be at least zero.
    #[verifier::loop_isolation(false)]
    pub fn do_create_market_rate(&mut self, who: u64, market_id: u64, market_rate_id: u64, rates: &Vec<AssetRate>) -> (r: Result<(), DispatchError>)
        ensures
            !old(self).markets@.contains_key(market_id) ==> r == merr::<()>(Error::InvalidMarket),
            old(self).markets@.contains_key(market_id) && old(self).markets@[market_id].owner != who ==> r == merr::<()>(Error::InvalidMarketOwner),
            old(self).markets@.contains_key(market_id) && old(self).markets@[market_id].owner == who
                && old(self).market_rates@.contains_key((market_id, market_rate_id)) ==> r == merr::<()>(Error::MarketRateExists),
            old(self).markets@.contains_key(market_id) && old(self).markets@[market_id].owner == who
                && !old(self).market_rates@.contains_key((market_id, market_rate_id))
                && (exists|i: int| 0 <= i < rates@.len() && negative_amount(#[trigger] rates@[i])) ==> r == merr::<()>(Error::InvalidRateAmount),
            old(self).markets@.contains_key(market_id) && old(self).markets@[market_id].owner == who
                && !old(self).market_rates@.contains_key((market_id, market_rate_id))
                && (forall|i: int| 0 <= i < rates@.len() ==> !negative_amount(#[trigger] rates@[i])) ==> r is Ok,
            r is Err ==> final(self).market_rates@ == old(self).market_rates@ && final(self).events@ == old(self).events@,
            r is Ok ==> {
                &&& old(self).markets@.contains_key(market_id)
                &&& old(self).markets@[market_id].owner == who
                &&& !old(self).market_rates@.contains_key((market_id, market_rate_id))
                &&& forall|i: int| 0 <= i < rates@.len() ==> !negative_amount(#[trigger] rates@[i])
                &&& final(self).market_rates@.dom() == old(self).market_rates@.dom().insert((market_id, market_rate_id))
                &&& final(self).market_rates@[(market_id, market_rate_id)]@ == rates@
                &&& forall|k: (u64, u64)| k != (market_id, market_rate_id) ==> #[trigger] final(self).market_rates@[k] == old(self).market_rates@[k]
                &&& final(self).events@ == old(self).events@.push(Event::RateCreated { market_id, market_rate_id, who })
            },
            final(self).markets@ == old(self).markets@,
            final(self).pallet_id == old(self).pallet_id,
    {
        let market = match self.markets.get(&market_id) {
            Some(m) => *m,
            None => {
                return Err(DispatchError::Market(Error::InvalidMarket));
            },
        };
        if who != market.owner {
            return Err(DispatchError::Market(Error::InvalidMarketOwner));
        }
        if self.market_rates.contains_key(&(market_id, market_rate_id)) {
            return Err(DispatchError::Market(Error::MarketRateExists));
        }
        let n = rates.len();
        let mut copy: Vec<AssetRate> = Vec::new();
        for i in 0..n
            invariant
                n == rates@.len(),
                copy@ == rates@.take(i as int),
                forall|j: int| 0 <= j < i ==> !negative_amount(#[trigger] rates@[j]),
        {
            let amount = get_amount(&rates[i].action);
            if amount < 0 {
                return Err(DispatchError::Market(Error::InvalidRateAmount));
            }
            copy.push(rates[i]);
            assert(copy@ =~= rates@.take(i + 1));
        }
        assert(copy@ =~= rates@);
        self.market_rates.insert((market_id, market_rate_id), copy);
        self.events.push(Event::RateCreated { market_id, market_rate_id, who });
        Ok(())
    }

    /// The market and its rate lines, or why there are none.
    fn market_and_rates(&self, market_id: u64, market_rate_id: u64) -> (r: Result<(Market, &Vec<AssetRate>), DispatchError>)
        ensures
            !self.markets@.contains_key(market_id) ==> r == merr::<(Market, &Vec<AssetRate>)>(Error::InvalidMarket),
            self.markets@.contains_key(market_id) && !self.market_rates@.contains_key((market_id, market_rate_id))
                ==> r == merr::<(Market, &Vec<AssetRate>)>(Error::InvalidMarketRate),
            self.markets@.contains_key(market_id) && self.market_rates@.contains_key((market_id, market_rate_id)) ==> (r matches Ok(
                (m, rs),
            ) && m == self.markets@[market_id] && *rs == self.market_rates@[(market_id, market_rate_id)]),
    {
        let market = match self.markets.get(&market_id) {
            Some(m) => *m,
            None => {
                return Err(DispatchError::Market(Error::InvalidMarket));
            },
        };
        match self.market_rates.get(&(market_id, market_rate_id)) {
            Some(rs) => Ok((market, rs)),
            None => Err(DispatchError::Market(Error::InvalidMarketRate)),
        }
    }

    /// What a buyer pays in for `amount_out`, from the two reserves of a
    /// constant-product pool with a 0.5% fee; see `buy_price`.
    pub fn get_buy_price(amount_out: u128, reserve_in: u128, reserve_out: u128) -> (r: Result<u128, DispatchError>)
        ensures
            r == (if reserve_in == 0 || reserve_out == 0 {
                merr::<u128>(Error::InsufficientLiquidity)
            } else {
                Ok(buy_price(amount_out, reserve_in, reserve_out))
            }),
    {
        if reserve_in == 0 || reserve_out == 0 {
            return Err(DispatchError::Market(Error::InsufficientLiquidity));
        }
        proof {
            lemma_pow64();
        }
        let numerator = saturating_mul(saturating_mul(from_u128(reserve_in), from_u128(amount_out)), from_u128(1000));
        let denominator = saturating_mul(saturating_sub(from_u128(reserve_out), from_u128(amount_out)), from_u128(995));
        let amount_in: u128 = match checked_div(numerator, denominator) {
            Some(q) => match checked_add(q, from_u128(1)) {
                Some(n) => match to_u128(n) {
                    Some(v) => v,
                    None => 0,
                },
                None => 0,
            },
            None => 0,
        };
        Ok(amount_in)
    }

    /// The vault of a market.
    pub fn get_vault(&self, market_id: u64) -> (r: Option<u64>)
        ensures
            r == (if self.markets@.contains_key(market_id) { Some(self.markets@[market_id].vault) } else { None::<u64> }),
    {
        match self.markets.get(&market_id) {
            Some(m) => Some(m.vault),
            None => None,
        }
    }

    /// The balance that a market's vault holds of an asset.
    pub fn balance(assets: &asset::Pallet, market: &Market, class_id: u64, asset_id: u64) -> (r: u128)
        ensures
            r == balance_in(assets.balances@, (market.vault, class_id, asset_id)),
    {
        assets.balance_of(market.vault, class_id, asset_id)
    }

    /// What a deposit of `amount` units of a market rate needs from the
    /// market owner (`who`), as `quote_deposit` describes.
    pub fn do_quote_deposit(&self, assets: &asset::Pallet, who: u64, market_id: u64, market_rate_id: u64, amount: u128)
        -> (r: Result<(bool, RateBalances), DispatchError>)
        ensures
            quote_matches(r, self.deposit_quote(assets.balances@, who, market_id, market_rate_id, amount)),
    {
        let (market, rates) = self.market_and_rates(market_id, market_rate_id)?;
        if who != market.owner {
            return Err(DispatchError::Market(Error::InvalidMarketOwner));
        }
        let total = match to_amount(amount) {
            Some(t) => t,
            None => {
                return Err(DispatchError::Market(Error::Overflow));
            },
        };
        let rs = deposit_rates_exec(rates);
        let p = Parties { fixed: Some(market.owner), buyer: 0, vault: market.vault };
        let (mut bals, prices) = match tally_exec(&rs, &assets.balances, p, total) {
            Ok(x) => x,
            Err(e) => {
                return Err(DispatchError::Market(e));
            },
        };
        let mut out = RateBalances::new();
        let mut ok = true;
        assert(out.view_map() =~= Map::<AssetRate, Amount>::empty());
        match settle_exec(&rs, &mut bals, &mut out, &mut ok, &prices, true) {
            Ok(_) => {},
            Err(e) => {
                return Err(DispatchError::Market(e));
            },
        }
        match settle_exec(&rs, &mut bals, &mut out, &mut ok, &prices, false) {
            Ok(_) => {},
            Err(e) => {
                return Err(DispatchError::Market(e));
            },
        }
        let can = all_nonneg_exec(&out);
        Ok((can, out))
    }

    /// The quote of a deposit, or why there is none.
    pub open spec fn deposit_quote(&self, b: Balances, who: u64, market_id: u64, market_rate_id: u64, amount: u128)
        -> Result<(bool, Map<AssetRate, Amount>), DispatchError> {
        if !self.markets@.contains_key(market_id) {
            merr(Error::InvalidMarket)
        } else if !self.market_rates@.contains_key((market_id, market_rate_id)) {
            merr(Error::InvalidMarketRate)
        } else if self.markets@[market_id].owner != who {
            merr(Error::InvalidMarketOwner)
        } else {
            match quote_deposit(self.markets@[market_id], self.market_rates@[(market_id, market_rate_id)]@, b, amount) {
                Ok(q) => Ok(q),
                Err(e) => merr(e),
            }
        }
    }

    /// Deposits `amount` units of a market rate: where the owner holds all
    /// that the quote asks, each quoted line moves from the owner to the
    /// vault in rate order; either way the quote is recorded.
    #[verifier::loop_isolation(false)]
    pub fn do_deposit(&mut self, assets: &mut asset::Pallet, who: u64, market_id: u64, market_rate_id: u64, amount: u128)
        -> (r: Result<(), DispatchError>)
        ensures
            final(self).markets@ == old(self).markets@,
            final(self).market_rates@ == old(self).market_rates@,
            final(self).pallet_id == old(self).pallet_id,
            asset::same_registry(old(assets), final(assets)),
            asset::events_extended(old(assets).events@, final(assets).events@),
            match old(self).deposit_quote(old(assets).balances@, who, market_id, market_rate_id, amount) {
                Err(e) => r == Err::<(), DispatchError>(e) && final(self).events@ == old(self).events@
                    && final(assets).balances@ == old(assets).balances@ && final(assets).events@ == old(assets).events@,
                Ok((can, m)) => exists|entries: Seq<(AssetRate, Amount)>| #![trigger entries_map(entries)] {
                    let market = old(self).markets@[market_id];
                    let (b, res) = if can {
                        run_entries(old(assets).balances@, entries, deposit_op(market.owner, market.vault))
                    } else {
                        (old(assets).balances@, Ok(()))
                    };
                    &&& sorted_rates(entries)
                    &&& distinct_rates(entries)
                    &&& entries_map(entries) == m
                    &&& final(assets).balances@ == b
                    &&& r == res
                    &&& res is Err ==> final(self).events@ == old(self).events@
                    &&& res is Ok ==> final(self).events@.len() == old(self).events@.len() + 1
                        && final(self).events@.drop_last() == old(self).events@
                        && deposit_event(final(self).events@.last(), who, market_id, market_rate_id, amount, entries, can)
                },
            },
    {
        let ghost b0 = assets.balances@;
        assert(assets.events@.subrange(0, assets.events@.len() as int) =~= assets.events@);
        let (can, out) = self.do_quote_deposit(assets, who, market_id, market_rate_id, amount)?;
        let market = match self.markets.get(&market_id) {
            Some(m) => *m,
            None => {
                return Err(DispatchError::Market(Error::InvalidMarket));
            },
        };
        assert(assets.events@.subrange(0, assets.events@.len() as int) =~= assets.events@);
        if can {
            let n = out.entries.len();
            for i in 0..n
                invariant
                    n == out.entries@.len(),
                    asset::same_registry(old(assets), assets),
                    asset::events_extended(old(assets).events@, assets.events@),
                    old(assets).balances@ == b0,
                    run_entries(b0, out.entries@.take(i as int), deposit_op(market.owner, market.vault))
                        == (assets.balances@, Ok::<(), DispatchError>(())),
            {
                let (rate, amt) = out.entries[i];
                assert(out.entries@.take(i + 1).drop_last() =~= out.entries@.take(i as int));
                assert(out.entries@.take(i + 1).last() == (rate, amt));
                let a = match to_balance(amt) {
                    Some(a) => a,
                    None => {
                        proof {
                            lemma_run_entries_failed(b0, out.entries@, deposit_op(market.owner, market.vault), i + 1);
                        }
                        return Err(DispatchError::Market(Error::Overflow));
                    },
                };
                let ghost ev = assets.events@;
                let ghost bb = assets.balances@;
                let res = assets.do_transfer_from(market.owner, market.owner, market.vault, rate.class_id, rate.asset_id, a);
                proof {
                    assert(assets.events@.subrange(0, old(assets).events@.len() as int) =~= ev.subrange(0, old(assets).events@.len() as int));
                    let op = LedgerOp::Move {
                        from: (market.owner, rate.class_id, rate.asset_id),
                        to: (market.vault, rate.class_id, rate.asset_id),
                        amount: a,
                    };
                    assert(seq![op].drop_last() =~= Seq::<LedgerOp>::empty());
                    assert(apply_ops(bb, Seq::<LedgerOp>::empty()) == (bb, true));
                    assert(apply_ops(bb, seq![op]) == apply_op(bb, op));
                    assert(deposit_op(market.owner, market.vault)(rate, a) == (if market.owner == market.vault || a == 0 {
                        None::<LedgerOp>
                    } else {
                        Some(op)
                    }));
                }
                if res.is_err() {
                    proof {
                        lemma_run_entries_failed(b0, out.entries@, deposit_op(market.owner, market.vault), i + 1);
                    }
                    return res;
                }
            }
            assert(out.entries@.take(n as int) =~= out.entries@);
        }
        let balances = rate_balance_list(&out);
        self.events.push(Event::Deposit { who, market_id, market_rate_id, amount, balances, success: can });
        Ok(())
    }

    /// The quote of an exchange, or why there is none.
    pub open spec fn exchange_quote(&self, b: Balances, buyer: u64, market_id: u64, market_rate_id: u64, amount: u128)
        -> Result<(bool, Map<AssetRate, Amount>), DispatchError> {
        if amount == 0 {
            merr(Error::InsufficientAmount)
        } else if !self.markets@.contains_key(market_id) {
            merr(Error::InvalidMarket)
        } else if !self.market_rates@.contains_key((market_id, market_rate_id)) {
            merr(Error::InvalidMarketRate)
        } else {
            match quote_exchange(buyer, self.markets@[market_id], self.market_rates@[(market_id, market_rate_id)]@, b, amount) {
                Ok(q) => Ok(q),
                Err(e) => merr(e),
            }
        }
    }

    /// What an exchange of `amount` units of a market rate by `buyer` moves,
    /// as `quote_exchange` describes.
    pub fn do_quote_exchange(&self, assets: &asset::Pallet, buyer: u64, market_id: u64, market_rate_id: u64, amount: u128)
        -> (r: Result<(bool, RateBalances), DispatchError>)
        ensures
            quote_matches(r, self.exchange_quote(assets.balances@, buyer, market_id, market_rate_id, amount)),
    {
        if amount == 0 {
            return Err(DispatchError::Market(Error::InsufficientAmount));
        }
        let (market, rates) = self.market_and_rates(market_id, market_rate_id)?;
        let p = Parties { fixed: None, buyer, vault: market.vault };
        let mut out = RateBalances::new();
        let mut ok = true;
        match holds_exec(rates, &assets.balances, p, &mut out, &mut ok) {
            Ok(_) => {},
            Err(e) => {
                return Err(DispatchError::Market(e));
            },
        }
        let total = match to_amount(amount) {
            Some(t) => t,
            None => {
                return Err(DispatchError::Market(Error::Overflow));
            },
        };
        let (mut bals, prices) = match tally_exec(rates, &assets.balances, p, total) {
            Ok(x) => x,
            Err(e) => {
                return Err(DispatchError::Market(e));
            },
        };
        match settle_exec(rates, &mut bals, &mut out, &mut ok, &prices, true) {
            Ok(_) => {},
            Err(e) => {
                return Err(DispatchError::Market(e));
            },
        }
        match settle_exec(rates, &mut bals, &mut out, &mut ok, &prices, false) {
            Ok(_) => {},
            Err(e) => {
                return Err(DispatchError::Market(e));
            },
        }
        match mints_exec(rates, &mut out, &prices) {
            Ok(_) => {},
            Err(e) => {
                return Err(DispatchError::Market(e));
            },
        }
        Ok((ok, out))
    }

    /// The checks of an exchange call, then its quote.
    pub open spec fn exchange_plan(&self, b: Balances, buyer: u64, market_id: u64, market_rate_id: u64, amount: u128)
        -> Result<(bool, Map<AssetRate, Amount>), DispatchError> {
        if !self.markets@.contains_key(market_id) {
            merr(Error::InvalidMarket)
        } else if !self.market_rates@.contains_key((market_id, market_rate_id)) {
            merr(Error::InvalidMarketRate)
        } else if buyer == self.markets@[market_id].owner || buyer == self.markets@[market_id].vault {
            merr(Error::InvalidBuyer)
        } else {
            self.exchange_quote(b, buyer, market_id, market_rate_id, amount)
        }
    }

    /// Exchanges `amount` units of a market rate with `buyer`: where every
    /// party can meet its lines, each quoted line is carried out in rate
    /// order; either way the quote is recorded.
    #[verifier::loop_isolation(false)]
    pub fn do_exchange_assets(&mut self, assets: &mut asset::Pallet, buyer: u64, market_id: u64, market_rate_id: u64, amount: u128)
        -> (r: Result<(), DispatchError>)
        ensures
            final(self).markets@ == old(self).markets@,
            final(self).market_rates@ == old(self).market_rates@,
            final(self).pallet_id == old(self).pallet_id,
            asset::same_registry(old(assets), final(assets)),
            asset::events_extended(old(assets).events@, final(assets).events@),
            match old(self).exchange_plan(old(assets).balances@, buyer, market_id, market_rate_id, amount) {
                Err(e) => r == Err::<(), DispatchError>(e) && final(self).events@ == old(self).events@
                    && final(assets).balances@ == old(assets).balances@ && final(assets).events@ == old(assets).events@,
                Ok((can, m)) => exists|entries: Seq<(AssetRate, Amount)>| #![trigger entries_map(entries)] {
                    let market = old(self).markets@[market_id];
                    let (b, res) = if can {
                        run_entries(old(assets).balances@, entries, exchange_op(buyer, market.vault))
                    } else {
                        (old(assets).balances@, Ok(()))
                    };
                    &&& sorted_rates(entries)
                    &&& distinct_rates(entries)
                    &&& entries_map(entries) == m
                    &&& final(assets).balances@ == b
                    &&& r == res
                    &&& res is Err ==> final(self).events@ == old(self).events@
                    &&& res is Ok ==> final(self).events@.len() == old(self).events@.len() + 1
                        && final(self).events@.drop_last() == old(self).events@
                        && exchange_event(final(self).events@.last(), buyer, market_id, market_rate_id, amount, entries, can)
                },
            },
    {
        let ghost b0 = assets.balances@;
        assert(assets.events@.subrange(0, assets.events@.len() as int) =~= assets.events@);
        let market = match self.markets.get(&market_id) {
            Some(m) => *m,
            None => {
                return Err(DispatchError::Market(Error::InvalidMarket));
            },
        };
        if !self.market_rates.contains_key(&(market_id, market_rate_id)) {
            return Err(DispatchError::Market(Error::InvalidMarketRate));
        }
        if buyer == market.owner || buyer == market.vault {
            return Err(DispatchError::Market(Error::InvalidBuyer));
        }
        let (can, out) = self.do_quote_exchange(assets, buyer, market_id, market_rate_id, amount)?;
        if can {
            let n = out.entries.len();
            for i in 0..n
                invariant
                    n == out.entries@.len(),
                    asset::same_registry(old(assets), assets),
                    asset::events_extended(old(assets).events@, assets.events@),
                    old(assets).balances@ == b0,
                    run_entries(b0, out.entries@.take(i as int), exchange_op(buyer, market.vault))
                        == (assets.balances@, Ok::<(), DispatchError>(())),
            {
                let (rate, amt) = out.entries[i];
                assert(out.entries@.take(i + 1).drop_last() =~= out.entries@.take(i as int));
                assert(out.entries@.take(i + 1).last() == (rate, amt));
                let a = match to_balance(amt) {
                    Some(a) => a,
                    None => {
                        proof {
                            lemma_run_entries_failed(b0, out.entries@, exchange_op(buyer, market.vault), i + 1);
                        }
                        return Err(DispatchError::Market(Error::Overflow));
                    },
                };
                let from = match rate.from {
                    RateAccount::Account(x) => x,
                    RateAccount::Buyer => buyer,
                    RateAccount::Market => market.vault,
                };
                let to = match rate.to {
                    RateAccount::Account(x) => x,
                    RateAccount::Buyer => buyer,
                    RateAccount::Market => market.vault,
                };
                let ghost ev = assets.events@;
                let ghost bb = assets.balances@;
                proof {
                    assert(apply_ops(bb, Seq::<LedgerOp>::empty()) == (bb, true));
                }
                let res = match rate.action {
                    RateAction::Transfer(_) => {
                        let op = LedgerOp::Move { from: (from, rate.class_id, rate.asset_id), to: (to, rate.class_id, rate.asset_id), amount: a };
                        assert(seq![op].drop_last() =~= Seq::<LedgerOp>::empty());
                        assert(apply_ops(bb, seq![op]) == apply_op(bb, op));
                        assets.do_transfer_from(market.owner, from, to, rate.class_id, rate.asset_id, a)
                    },
                    RateAction::Burn(_) => {
                        let op = LedgerOp::Debit { key: (from, rate.class_id, rate.asset_id), amount: a };
                        assert(seq![op].drop_last() =~= Seq::<LedgerOp>::empty());
                        assert(apply_ops(bb, seq![op]) == apply_op(bb, op));
                        assets.do_burn(market.owner, from, rate.class_id, rate.asset_id, a)
                    },
                    RateAction::Mint(_) => {
                        let op = LedgerOp::Credit { key: (to, rate.class_id, rate.asset_id), amount: a };
                        assert(seq![op].drop_last() =~= Seq::<LedgerOp>::empty());
                        assert(apply_ops(bb, seq![op]) == apply_op(bb, op));
                        assets.do_mint(market.owner, to, rate.class_id, rate.asset_id, a)
                    },
                    _ => Ok(()),
                };
                proof {
                    assert(assets.events@.subrange(0, old(assets).events@.len() as int) =~= ev.subrange(0, old(assets).events@.len() as int));
                }
                if res.is_err() {
                    proof {
                        lemma_run_entries_failed(b0, out.entries@, exchange_op(buyer, market.vault), i + 1);
                    }
                    return res;
                }
            }
            assert(out.entries@.take(n as int) =~= out.entries@);
        }
        let balances = rate_balance_list(&out);
        self.events.push(Event::Exchanged { buyer, market_id, market_rate_id, amount, balances, success: can });
        Ok(())
    }

    /// The market that a liquidity call of `who` works on, or why it cannot.
    pub open spec fn liquidity_check(&self, who: u64, market_id: u64, market_rate_id: u64, n_classes: nat, n_assets: nat, n_amounts: nat)
        -> Result<Market, DispatchError> {
        if !self.markets@.contains_key(market_id) {
            merr(Error::InvalidMarket)
        } else if !self.market_rates@.contains_key((market_id, market_rate_id)) {
            merr(Error::InvalidMarketRate)
        } else if who != self.markets@[market_id].owner {
            merr(Error::InvalidMarketOwner)
        } else if n_classes != n_amounts || n_assets != n_amounts {
            merr(Error::InvalidArrayLength)
        } else {
            Ok(self.markets@[market_id])
        }
    }

    fn checked_market(&self, who: u64, market_id: u64, market_rate_id: u64, n_classes: usize, n_assets: usize, n_amounts: usize)
        -> (r: Result<Market, DispatchError>)
        ensures
            r == self.liquidity_check(who, market_id, market_rate_id, n_classes as nat, n_assets as nat, n_amounts as nat),
    {
        let (market, _rates) = self.market_and_rates(market_id, market_rate_id)?;
        if who != market.owner {
            return Err(DispatchError::Market(Error::InvalidMarketOwner));
        }
        if n_classes != n_amounts || n_assets != n_amounts {
            return Err(DispatchError::Market(Error::InvalidArrayLength));
        }
        Ok(market)
    }

    /// Moves assets, class by class, from the market owner (`who`) to the
    /// market's vault.
    pub fn add_liquidity(
        &mut self,
        assets: &mut asset::Pallet,
        who: u64,
        market_id: u64,
        market_rate_id: u64,
        class_ids: Vec<u64>,
        asset_ids: Vec<Vec<u64>>,
        amounts: Vec<Vec<u128>>,
    ) -> (r: Result<(), DispatchError>)
        ensures
            final(self).markets@ == old(self).markets@,
            final(self).market_rates@ == old(self).market_rates@,
            final(self).pallet_id == old(self).pallet_id,
            asset::same_registry(old(assets), final(assets)),
            asset::events_extended(old(assets).events@, final(assets).events@),
            match old(self).liquidity_check(who, market_id, market_rate_id, class_ids@.len(), asset_ids@.len(), amounts@.len()) {
                Err(e) => r == Err::<(), DispatchError>(e) && final(self).events@ == old(self).events@
                    && final(assets).balances@ == old(assets).balances@,
                Ok(market) => {
                    let (b, res) = asset::moves_by_class(
                        old(assets).balances@,
                        market.owner,
                        market.vault,
                        class_ids@,
                        asset::vec_views(asset_ids@),
                        asset::vec_views(amounts@),
                        class_ids@.len(),
                    );
                    &&& final(assets).balances@ == b
                    &&& r == res
                    &&& res is Err ==> final(self).events@ == old(self).events@
                    &&& res is Ok ==> final(self).events@ == old(self).events@.push(
                        Event::LiquidityAdded { who, market_id, market_rate_id, class_ids, asset_ids, amounts },
                    )
                },
            },
    {
        assert(assets.events@.subrange(0, assets.events@.len() as int) =~= assets.events@);
        let market = self.checked_market(who, market_id, market_rate_id, class_ids.len(), asset_ids.len(), amounts.len())?;
        assets.transfer_by_class(market.owner, market.owner, market.vault, &class_ids, &asset_ids, &amounts)?;
        self.events.push(Event::LiquidityAdded { who, market_id, market_rate_id, class_ids, asset_ids, amounts });
        Ok(())
    }

    /// Moves assets, class by class, from the market's vault back to the
    /// market owner (`who`).
    pub fn remove_liquidity(
        &mut self,
        assets: &mut asset::Pallet,
        who: u64,
        market_id: u64,
        market_rate_id: u64,
        class_ids: Vec<u64>,
        asset_ids: Vec<Vec<u64>>,
        amounts: Vec<Vec<u128>>,
    ) -> (r: Result<(), DispatchError>)
        ensures
            final(self).markets@ == old(self).markets@,
            final(self).market_rates@ == old(self).market_rates@,
            final(self).pallet_id == old(self).pallet_id,
            asset::same_registry(old(assets), final(assets)),
            asset::events_extended(old(assets).events@, final(assets).events@),
            match old(self).liquidity_check(who, market_id, market_rate_id, class_ids@.len(), asset_ids@.len(), amounts@.len()) {
                Err(e) => r == Err::<(), DispatchError>(e) && final(self).events@ == old(self).events@
                    && final(assets).balances@ == old(assets).balances@,
                Ok(market) => {
                    let (b, res) = asset::moves_by_class(
                        old(assets).balances@,
                        market.vault,
                        market.owner,
                        class_ids@,
                        asset::vec_views(asset_ids@),
                        asset::vec_views(amounts@),
                        class_ids@.len(),
                    );
                    &&& final(assets).balances@ == b
                    &&& r == res
                    &&& res is Err ==> final(self).events@ == old(self).events@
                    &&& res is Ok ==> final(self).events@ == old(self).events@.push(
                        Event::LiquidityRemoved { who, market_id, market_rate_id, class_ids, asset_ids, amounts },
                    )
                },
            },
    {
        assert(assets.events@.subrange(0, assets.events@.len() as int) =~= assets.events@);
        let market = self.checked_market(who, market_id, market_rate_id, class_ids.len(), asset_ids.len(), amounts.len())?;
        assets.transfer_by_class(market.owner, market.vault, market.owner, &class_ids, &asset_ids, &amounts)?;
        self.events.push(Event::LiquidityRemoved { who, market_id, market_rate_id, class_ids, asset_ids, amounts });
        Ok(())
    }

    /// Creates a market owned by the signer.
    pub fn create_market(&mut self, origin: Origin, market_id: u64) -> (r: Result<(), DispatchError>)
        ensures
            !(origin is Signed) ==> r == Err::<(), DispatchError>(DispatchError::BadOrigin) && final(self).markets@ == old(self).markets@
                && final(self).events@ == old(self).events@,
            origin is Signed ==> ({
                let who = origin->Signed_0;
                &&& old(self).markets@.contains_key(market_id) ==> r == merr::<()>(Error::MarketExists)
                    && final(self).markets@ == old(self).markets@ && final(self).events@ == old(self).events@
                &&& !old(self).markets@.contains_key(market_id) ==> r is Ok && final(self).markets@ == old(self).markets@.insert(
                    market_id,
                    Market { owner: who, vault: crate::primitives::pallet_account_spec(old(self).pallet_id.0) },
                ) && final(self).events@ == old(self).events@.push(Event::Created { market_id, who })
            }),
            final(self).market_rates@ == old(self).market_rates@,
            final(self).pallet_id == old(self).pallet_id,
    {
        let who = ensure_signed(origin)?;
        self.do_create_market(who, market_id)
    }

    /// Stores a rate of a market that the signer owns.
    pub fn create_market_rate(&mut self, origin: Origin, market_id: u64, market_rate_id: u64, rates: Vec<AssetRate>)
        -> (r: Result<(), DispatchError>)
        ensures
            !(origin is Signed) ==> r == Err::<(), DispatchError>(DispatchError::BadOrigin),
            r is Err ==> final(self).market_rates@ == old(self).market_rates@ && final(self).events@ == old(self).events@,
            origin is Signed ==> ({
                let who = origin->Signed_0;
                &&& !old(self).markets@.contains_key(market_id) ==> r == merr::<()>(Error::InvalidMarket)
                &&& old(self).markets@.contains_key(market_id) && old(self).markets@[market_id].owner != who ==> r == merr::<()>(Error::InvalidMarketOwner)
                &&& old(self).markets@.contains_key(market_id) && old(self).markets@[market_id].owner == who
                    && old(self).market_rates@.contains_key((market_id, market_rate_id)) ==> r == merr::<()>(Error::MarketRateExists)
                &&& old(self).markets@.contains_key(market_id) && old(self).markets@[market_id].owner == who
                    && !old(self).market_rates@.contains_key((market_id, market_rate_id))
                    && (exists|i: int| 0 <= i < rates@.len() && negative_amount(#[trigger] rates@[i])) ==> r == merr::<()>(Error::InvalidRateAmount)
                &&& old(self).markets@.contains_key(market_id) && old(self).markets@[market_id].owner == who
                    && !old(self).market_rates@.contains_key((market_id, market_rate_id))
                    && (forall|i: int| 0 <= i < rates@.len() ==> !negative_amount(#[trigger] rates@[i])) ==> r is Ok
                &&& r is Ok ==> {
                    &&& old(self).markets@.contains_key(market_id)
                    &&& old(self).markets@[market_id].owner == who
                    &&& !old(self).market_rates@.contains_key((market_id, market_rate_id))
                    &&& forall|i: int| 0 <= i < rates@.len() ==> !negative_amount(#[trigger] rates@[i])
                    &&& final(self).market_rates@.dom() == old(self).market_rates@.dom().insert((market_id, market_rate_id))
                    &&& final(self).market_rates@[(market_id, market_rate_id)]@ == rates@
                    &&& forall|k: (u64, u64)| k != (market_id, market_rate_id) ==> #[trigger] final(self).market_rates@[k] == old(self).market_rates@[k]
                    &&& final(self).events@ == old(self).events@.push(Event::RateCreated { market_id, market_rate_id, who })
                }
            }),
            final(self).markets@ == old(self).markets@,
            final(self).pallet_id == old(self).pallet_id,
    {
        let who = ensure_signed(origin)?;
        self.do_create_market_rate(who, market_id, market_rate_id, &rates)
    }

    /// Deposits units of a rate of a market that the signer owns; a failed
    /// deposit changes nothing.
    pub fn deposit(&mut self, assets: &mut asset::Pallet, origin: Origin, market_id: u64, market_rate_id: u64, amount: u128)
        -> (r: Result<(), DispatchError>)
        ensures
            final(self).markets@ == old(self).markets@,
            final(self).market_rates@ == old(self).market_rates@,
            final(self).pallet_id == old(self).pallet_id,
            asset::same_registry(old(assets), final(assets)),
            r is Err ==> final(self).events@ == old(self).events@ && asset::unchanged(old(assets), final(assets)),
            !(origin is Signed) ==> r == Err::<(), DispatchError>(DispatchError::BadOrigin),
            origin is Signed ==> match old(self).deposit_quote(old(assets).balances@, origin->Signed_0, market_id, market_rate_id, amount) {
                Err(e) => r == Err::<(), DispatchError>(e),
                Ok((can, m)) => exists|entries: Seq<(AssetRate, Amount)>| #![trigger entries_map(entries)] {
                    let market = old(self).markets@[market_id];
                    let (b, res) = if can {
                        run_entries(old(assets).balances@, entries, deposit_op(market.owner, market.vault))
                    } else {
                        (old(assets).balances@, Ok(()))
                    };
                    &&& sorted_rates(entries)
                    &&& distinct_rates(entries)
                    &&& entries_map(entries) == m
                    &&& r == res
                    &&& res is Ok ==> final(assets).balances@ == b
                        && asset::events_extended(old(assets).events@, final(assets).events@)
                        && final(self).events@.len() == old(self).events@.len() + 1
                        && final(self).events@.drop_last() == old(self).events@
                        && deposit_event(final(self).events@.last(), origin->Signed_0, market_id, market_rate_id, amount, entries, can)
                },
            },
    {
        let who = ensure_signed(origin)?;
        let saved = assets.balances.clone();
        let n_events = assets.events.len();
        let r = self.do_deposit(assets, who, market_id, market_rate_id, amount);
        if r.is_err() {
            assets.balances = saved;
            assets.events.truncate(n_events);
        }
        r
    }

    /// Exchanges units of a market rate with the signer as buyer; a failed
    /// exchange changes nothing.
    pub fn exchange_assets(&mut self, assets: &mut asset::Pallet, origin: Origin, market_id: u64, market_rate_id: u64, amount: u128)
        -> (r: Result<(), DispatchError>)
        ensures
            final(self).markets@ == old(self).markets@,
            final(self).market_rates@ == old(self).market_rates@,
            final(self).pallet_id == old(self).pallet_id,
            asset::same_registry(old(assets), final(assets)),
            r is Err ==> final(self).events@ == old(self).events@ && asset::unchanged(old(assets), final(assets)),
            !(origin is Signed) ==> r == Err::<(), DispatchError>(DispatchError::BadOrigin),
            origin is Signed ==> match old(self).exchange_plan(old(assets).balances@, origin->Signed_0, market_id, market_rate_id, amount) {
                Err(e) => r == Err::<(), DispatchError>(e),
                Ok((can, m)) => exists|entries: Seq<(AssetRate, Amount)>| #![trigger entries_map(entries)] {
                    let market = old(self).markets@[market_id];
                    let (b, res) = if can {
                        run_entries(old(assets).balances@, entries, exchange_op(origin->Signed_0, market.vault))
                    } else {
                        (old(assets).balances@, Ok(()))
                    };
                    &&& sorted_rates(entries)
                    &&& distinct_rates(entries)
                    &&& entries_map(entries) == m
                    &&& r == res
                    &&& res is Ok ==> final(assets).balances@ == b
                        && asset::events_extended(old(assets).events@, final(assets).events@)
                        && final(self).events@.len() == old(self).events@.len() + 1
                        && final(self).events@.drop_last() == old(self).events@
                        && exchange_event(final(self).events@.last(), origin->Signed_0, market_id, market_rate_id, amount, entries, can)
                },
            },
    {
        let who = ensure_signed(origin)?;
        let saved = assets.balances.clone();
        let n_events = assets.events.len();
        let r = self.do_exchange_assets(assets, who, market_id, market_rate_id, amount);
        if r.is_err() {
            assets.balances = saved;
            assets.events.truncate(n_events);
        }
        r
    }
}

/// A deposit whose transfers all succeed moves assets from the market's
/// owner to its vault alone: for every (class, asset) the two hold together
/// what they held, and no other account's balance changes.
pub proof fn law_deposit_moves_to_vault(b: Balances, entries: Seq<(AssetRate, Amount)>, owner: u64, vault: u64)
    requires
        run_entries(b, entries, deposit_op(owner, vault)).1 is Ok,
    ensures
        asset::moved_between(b, run_entries(b, entries, deposit_op(owner, vault)).0, owner, vault),
    decreases entries.len(),
{
    if entries.len() > 0 {
        let p = entries.drop_last();
        let (m, r) = run_entries(b, p, deposit_op(owner, vault));
        assert(r is Ok);
        law_deposit_moves_to_vault(b, p, owner, vault);
        let (rate, amt) = entries.last();
        if amt >= 0 && owner != vault && amt != 0 {
            let op = LedgerOp::Move {
                from: (owner, rate.class_id, rate.asset_id),
                to: (vault, rate.class_id, rate.asset_id),
                amount: amt as u128,
            };
            assert(deposit_op(owner, vault)(rate, amt as u128) == Some(op));
            crate::ledger::lemma_apply_single(m, op);
            assert(crate::ledger::moves_between(seq![op], owner, vault));
            crate::ledger::lemma_moves_conserve(m, seq![op], owner, vault);
            let m2 = apply_op(m, op).0;
            assert forall|c: u64, a: u64| #[trigger] balance_in(m2, (owner, c, a)) + balance_in(m2, (vault, c, a))
                == balance_in(b, (owner, c, a)) + balance_in(b, (vault, c, a)) by {
                assert(balance_in(m, (owner, c, a)) + balance_in(m, (vault, c, a)) == balance_in(b, (owner, c, a)) + balance_in(b, (vault, c, a)));
            }
        }
    }
}


/// Two price tallies agree on every key of `p2`, and `p1` holds any other
/// key at zero.
pub open spec fn prices_extend(p1: Tally, p2: Tally) -> bool {
    &&& forall|k: PriceKey| #[trigger] p2.contains_key(k) ==> p1.contains_key(k) && p1[k] == p2[k]
    &&& forall|k: PriceKey| #[trigger] p1.contains_key(k) ==> p2.contains_key(k) || p1[k] == 0
}

/// Two tallies that fail alike, or agree but for extra zero prices.
pub open spec fn tallies_agree(t1: Result<(Tally, Tally), Error>, t2: Result<(Tally, Tally), Error>) -> bool {
    match (t1, t2) {
        (Ok((b1, p1)), Ok((b2, p2))) => b1 == b2 && prices_extend(p1, p2),
        (Err(e1), Err(e2)) => e1 == e2,
        _ => false,
    }
}

proof fn lemma_tally_step_agree(st1: (Tally, Tally), st2: (Tally, Tally), r: AssetRate, b: Balances, p: Parties, total: Amount)
    requires
        st1.0 == st2.0,
        prices_extend(st1.1, st2.1),
    ensures
        tallies_agree(tally_step(st1, r, b, p, total), tally_step(st2, r, b, p, total)),
{
    let k = price_key(r);
    if st2.1.contains_key(k) {
        assert(st1.1.contains_key(k) && st1.1[k] == st2.1[k]);
    } else if st1.1.contains_key(k) {
        assert(st1.1[k] == 0);
    }
    match (tally_step(st1, r, b, p, total), tally_step(st2, r, b, p, total)) {
        (Ok((b1, q1)), Ok((b2, q2))) => {
            assert forall|j: PriceKey| #[trigger] q2.contains_key(j) implies q1.contains_key(j) && q1[j] == q2[j] by {
                if j != k {
                    assert(st2.1.contains_key(j));
                }
            }
            assert forall|j: PriceKey| #[trigger] q1.contains_key(j) implies q2.contains_key(j) || q1[j] == 0 by {
                if j != k {
                    assert(st1.1.contains_key(j));
                }
            }
        },
        _ => {},
    }
}

proof fn lemma_tally_step_idle(st: (Tally, Tally), m: AssetRate, b: Balances, p: Parties, total: Amount)
    requires
        m.action is MarketTransfer,
    ensures
        tally_step(st, m, b, p, total) matches Ok((b1, p1)) && b1 == st.0 && prices_extend(p1, st.1),
{
    let k = price_key(m);
    assert(action_amount(m.action) == 0);
    assert(action_amount(m.action) * total == 0);
    let q = tally_step(st, m, b, p, total)->Ok_0.1;
    assert forall|j: PriceKey| #[trigger] st.1.contains_key(j) implies q.contains_key(j) && q[j] == st.1[j] by {
        if j == k {
            assert(st.1[k] + 0 == st.1[k]);
        }
    }
}

proof fn lemma_tally_split(a: Seq<AssetRate>, m: AssetRate, c: Seq<AssetRate>, b: Balances, p: Parties, total: Amount)
    requires
        m.action is MarketTransfer,
    ensures
        tallies_agree(tally(a + seq![m] + c, b, p, total), tally(a + c, b, p, total)),
    decreases c.len(),
{
    if c.len() == 0 {
        assert(a + seq![m] + c =~= a.push(m));
        assert(a + c =~= a);
        assert(a.push(m).drop_last() =~= a);
        if let Ok(st) = tally(a, b, p, total) {
            lemma_tally_step_idle(st, m, b, p, total);
        }
    } else {
        let c0 = c.drop_last();
        lemma_tally_split(a, m, c0, b, p, total);
        assert((a + seq![m] + c).drop_last() =~= a + seq![m] + c0);
        assert((a + c).drop_last() =~= a + c0);
        assert((a + seq![m] + c).last() == c.last());
        assert((a + c).last() == c.last());
        if let (Ok(s1), Ok(s2)) = (tally(a + seq![m] + c0, b, p, total), tally(a + c0, b, p, total)) {
            lemma_tally_step_agree(s1, s2, c.last(), b, p, total);
        }
    }
}

/// A tally that succeeds prices every line.
proof fn lemma_tally_keys(rates: Seq<AssetRate>, b: Balances, p: Parties, total: Amount)
    ensures
        tally(rates, b, p, total) is Ok ==> forall|j: int| 0 <= j < rates.len()
            ==> tally(rates, b, p, total)->Ok_0.1.contains_key(#[trigger] price_key(rates[j])),
    decreases rates.len(),
{
    if rates.len() > 0 && tally(rates, b, p, total) is Ok {
        let r0 = rates.drop_last();
        lemma_tally_keys(r0, b, p, total);
        let q0 = tally(r0, b, p, total)->Ok_0.1;
        let q = tally(rates, b, p, total)->Ok_0.1;
        assert forall|j: int| 0 <= j < rates.len() implies q.contains_key(#[trigger] price_key(rates[j])) by {
            if j < rates.len() - 1 {
                assert(rates[j] == r0[j]);
                assert(q0.contains_key(price_key(r0[j])));
            }
        }
    }
}

proof fn lemma_settle_same_prices(rates: Seq<AssetRate>, init: Settlement, p1: Tally, p2: Tally, burn: bool)
    requires
        prices_extend(p1, p2),
        forall|j: int| 0 <= j < rates.len() ==> p2.contains_key(#[trigger] price_key(rates[j])),
    ensures
        settle(rates, init, p1, burn) == settle(rates, init, p2, burn),
    decreases rates.len(),
{
    if rates.len() > 0 {
        let r0 = rates.drop_last();
        assert forall|j: int| 0 <= j < r0.len() implies p2.contains_key(#[trigger] price_key(r0[j])) by {
            assert(r0[j] == rates[j]);
        }
        lemma_settle_same_prices(r0, init, p1, p2, burn);
        assert(p2.contains_key(price_key(rates[rates.len() - 1])));
    }
}

proof fn lemma_settle_split(a: Seq<AssetRate>, m: AssetRate, c: Seq<AssetRate>, init: Settlement, p1: Tally, p2: Tally, burn: bool)
    requires
        m.action is MarketTransfer,
        prices_extend(p1, p2),
        forall|j: int| 0 <= j < (a + c).len() ==> p2.contains_key(#[trigger] price_key((a + c)[j])),
    ensures
        settle(a + seq![m] + c, init, p1, burn) == settle(a + c, init, p2, burn),
    decreases c.len(),
{
    if c.len() == 0 {
        assert(a + seq![m] + c =~= a.push(m));
        assert(a + c =~= a);
        assert(a.push(m).drop_last() =~= a);
        lemma_settle_same_prices(a, init, p1, p2, burn);
    } else {
        let c0 = c.drop_last();
        assert((a + c).drop_last() =~= a + c0);
        assert forall|j: int| 0 <= j < (a + c0).len() implies p2.contains_key(#[trigger] price_key((a + c0)[j])) by {
            assert((a + c0)[j] == (a + c)[j]);
        }
        lemma_settle_split(a, m, c0, init, p1, p2, burn);
        assert((a + seq![m] + c).drop_last() =~= a + seq![m] + c0);
        assert((a + seq![m] + c).last() == c.last());
        assert((a + c).last() == c.last());
        assert(p2.contains_key(price_key((a + c)[(a + c).len() - 1])));
    }
}

proof fn lemma_holds_split(a: Seq<AssetRate>, m: AssetRate, c: Seq<AssetRate>, b: Balances, p: Parties)
    requires
        m.action is MarketTransfer,
    ensures
        holds(a + seq![m] + c, b, p) == holds(a + c, b, p),
    decreases c.len(),
{
    if c.len() == 0 {
        assert(a + seq![m] + c =~= a.push(m));
        assert(a + c =~= a);
        assert(a.push(m).drop_last() =~= a);
    } else {
        let c0 = c.drop_last();
        lemma_holds_split(a, m, c0, b, p);
        assert((a + seq![m] + c).drop_last() =~= a + seq![m] + c0);
        assert((a + c).drop_last() =~= a + c0);
        assert((a + seq![m] + c).last() == c.last());
        assert((a + c).last() == c.last());
    }
}

proof fn lemma_mints_same_prices(rates: Seq<AssetRate>, out: Map<AssetRate, Amount>, p1: Tally, p2: Tally)
    requires
        prices_extend(p1, p2),
        forall|j: int| 0 <= j < rates.len() ==> p2.contains_key(#[trigger] price_key(rates[j])),
    ensures
        mints(rates, out, p1) == mints(rates, out, p2),
    decreases rates.len(),
{
    if rates.len() > 0 {
        let r0 = rates.drop_last();
        assert forall|j: int| 0 <= j < r0.len() implies p2.contains_key(#[trigger] price_key(r0[j])) by {
            assert(r0[j] == rates[j]);
        }
        lemma_mints_same_prices(r0, out, p1, p2);
        assert(p2.contains_key(price_key(rates[rates.len() - 1])));
    }
}

proof fn lemma_mints_split(a: Seq<AssetRate>, m: AssetRate, c: Seq<AssetRate>, out: Map<AssetRate, Amount>, p1: Tally, p2: Tally)
    requires
        m.action is MarketTransfer,
        prices_extend(p1, p2),
        forall|j: int| 0 <= j < (a + c).len() ==> p2.contains_key(#[trigger] price_key((a + c)[j])),
    ensures
        mints(a + seq![m] + c, out, p1) == mints(a + c, out, p2),
    decreases c.len(),
{
    if c.len() == 0 {
        assert(a + seq![m] + c =~= a.push(m));
        assert(a + c =~= a);
        assert(a.push(m).drop_last() =~= a);
        lemma_mints_same_prices(a, out, p1, p2);
    } else {
        let c0 = c.drop_last();
        assert((a + c).drop_last() =~= a + c0);
        assert forall|j: int| 0 <= j < (a + c0).len() implies p2.contains_key(#[trigger] price_key((a + c0)[j])) by {
            assert((a + c0)[j] == (a + c)[j]);
        }
        lemma_mints_split(a, m, c0, out, p1, p2);
        assert((a + seq![m] + c).drop_last() =~= a + seq![m] + c0);
        assert((a + seq![m] + c).last() == c.last());
        assert((a + c).last() == c.last());
        assert(p2.contains_key(price_key((a + c)[(a + c).len() - 1])));
    }
}

/// A `MarketTransfer` line of a rate plays no part in an exchange quote:
/// with the line taken out of the rate, the quote is the same, whether an
/// error or the verdict and the amount of every line.
pub proof fn law_market_transfer_line_idle(buyer: u64, market: Market, rates: Seq<AssetRate>, i: int, b: Balances, amount: u128)
    requires
        0 <= i < rates.len(),
        rates[i].action is MarketTransfer,
    ensures
        quote_exchange(buyer, market, rates, b, amount) == quote_exchange(buyer, market, rates.remove(i), b, amount),
{
    let a = rates.take(i);
    let c = rates.skip(i + 1);
    let m = rates[i];
    assert(rates =~= a + seq![m] + c);
    assert(rates.remove(i) =~= a + c);
    let p = Parties { fixed: None, buyer, vault: market.vault };
    lemma_holds_split(a, m, c, b, p);
    if amount <= i128::MAX {
        let total = amount as i128;
        lemma_tally_split(a, m, c, b, p, total);
        lemma_tally_keys(a + c, b, p, total);
        if let (Ok((bals, p1)), Ok((_, p2)), Ok((out0, ok0))) = (
            tally(a + seq![m] + c, b, p, total),
            tally(a + c, b, p, total),
            holds(a + c, b, p),
        ) {
            lemma_settle_split(a, m, c, (bals, out0, ok0), p1, p2, true);
            if let Ok(s1) = settle(a + c, (bals, out0, ok0), p2, true) {
                lemma_settle_split(a, m, c, s1, p1, p2, false);
                if let Ok(s2) = settle(a + c, s1, p2, false) {
                    lemma_mints_split(a, m, c, s2.1, p1, p2);
                }
            }
        }
    }
}


/// A tally for a smaller number of units: the same balances, the same
/// priced keys, and no price above that of `t2` or below zero.
pub open spec fn tally_le(t1: (Tally, Tally), t2: (Tally, Tally)) -> bool {
    &&& t1.0 == t2.0
    &&& t1.1.dom() == t2.1.dom()
    &&& forall|k: PriceKey| #[trigger] t1.1.contains_key(k) ==> 0 <= t1.1[k] <= t2.1[k]
}

proof fn lemma_tally_step_le(st1: (Tally, Tally), st2: (Tally, Tally), r: AssetRate, b: Balances, p: Parties, t1: Amount, t2: Amount)
    requires
        tally_le(st1, st2),
        0 <= t1 <= t2,
        action_amount(r.action) >= 0,
        tally_step(st2, r, b, p, t2) is Ok,
    ensures
        tally_step(st1, r, b, p, t1) is Ok,
        tally_le(tally_step(st1, r, b, p, t1)->Ok_0, tally_step(st2, r, b, p, t2)->Ok_0),
{
    let n = action_amount(r.action);
    let k = price_key(r);
    assert(0 <= n * t1 <= n * t2) by (nonlinear_arith)
        requires
            n >= 0,
            0 <= t1 <= t2,
    ;
    if st1.1.contains_key(k) {
        assert(0 <= st1.1[k] <= st2.1[k]);
    }
    let q1 = tally_step(st1, r, b, p, t1)->Ok_0.1;
    let q2 = tally_step(st2, r, b, p, t2)->Ok_0.1;
    assert(q1.dom() =~= q2.dom());
    assert forall|j: PriceKey| #[trigger] q1.contains_key(j) implies 0 <= q1[j] <= q2[j] by {
        if j != k {
            assert(st1.1.contains_key(j));
        }
    }
}

proof fn lemma_tally_le(rates: Seq<AssetRate>, b: Balances, p: Parties, t1: Amount, t2: Amount)
    requires
        0 <= t1 <= t2,
        forall|j: int| 0 <= j < rates.len() ==> !negative_amount(#[trigger] rates[j]),
        tally(rates, b, p, t2) is Ok,
    ensures
        tally(rates, b, p, t1) is Ok,
        tally_le(tally(rates, b, p, t1)->Ok_0, tally(rates, b, p, t2)->Ok_0),
    decreases rates.len(),
{
    if rates.len() > 0 {
        let r0 = rates.drop_last();
        assert forall|j: int| 0 <= j < r0.len() implies !negative_amount(#[trigger] r0[j]) by {
            assert(r0[j] == rates[j]);
        }
        lemma_tally_le(r0, b, p, t1, t2);
        assert(!negative_amount(rates[rates.len() - 1]));
        lemma_tally_step_le(tally(r0, b, p, t1)->Ok_0, tally(r0, b, p, t2)->Ok_0, rates.last(), b, p, t1, t2);
    } else {
        assert(tally(rates, b, p, t1)->Ok_0.1.dom() =~= tally(rates, b, p, t2)->Ok_0.1.dom());
    }
}

/// A settlement at least as good as `s2`: the same keys, no balance left
/// below that of `s2`, and a verdict that holds wherever that of `s2` does.
pub open spec fn settlement_ge(s1: Settlement, s2: Settlement) -> bool {
    &&& s1.0.dom() == s2.0.dom()
    &&& forall|k: PriceKey| #[trigger] s1.0.contains_key(k) ==> s1.0[k] >= s2.0[k]
    &&& s2.2 ==> s1.2
}

proof fn lemma_settle_ge(rates: Seq<AssetRate>, i1: Settlement, i2: Settlement, p1: Tally, p2: Tally, burn: bool)
    requires
        settlement_ge(i1, i2),
        p1.dom() == p2.dom(),
        forall|k: PriceKey| #[trigger] p1.contains_key(k) ==> 0 <= p1[k] <= p2[k],
        settle(rates, i2, p2, burn) is Ok,
    ensures
        settle(rates, i1, p1, burn) is Ok,
        settlement_ge(settle(rates, i1, p1, burn)->Ok_0, settle(rates, i2, p2, burn)->Ok_0),
    decreases rates.len(),
{
    if rates.len() > 0 {
        let r0 = rates.drop_last();
        lemma_settle_ge(r0, i1, i2, p1, p2, burn);
        let s1 = settle(r0, i1, p1, burn)->Ok_0;
        let s2 = settle(r0, i2, p2, burn)->Ok_0;
        let r = rates.last();
        let k = price_key(r);
        if selected(r.action, burn) {
            assert(p2.contains_key(k) == p1.contains_key(k));
            assert(s2.0.contains_key(k) == s1.0.contains_key(k));
            let t1 = settle(rates, i1, p1, burn)->Ok_0;
            let t2 = settle(rates, i2, p2, burn)->Ok_0;
            assert(t1.0.dom() =~= t2.0.dom());
            assert forall|j: PriceKey| #[trigger] t1.0.contains_key(j) implies t1.0[j] >= t2.0[j] by {
                if j != k {
                    assert(s1.0.contains_key(j));
                }
            }
        }
    }
}

proof fn lemma_mints_ok(rates: Seq<AssetRate>, o1: Map<AssetRate, Amount>, o2: Map<AssetRate, Amount>, p1: Tally, p2: Tally)
    requires
        p1.dom() == p2.dom(),
        mints(rates, o2, p2) is Ok,
    ensures
        mints(rates, o1, p1) is Ok,
    decreases rates.len(),
{
    if rates.len() > 0 {
        lemma_mints_ok(rates.drop_last(), o1, o2, p1, p2);
        assert(p1.contains_key(price_key(rates.last())) == p2.contains_key(price_key(rates.last())));
    }
}

/// Fewer units never make an exchange infeasible: where every transfer,
/// mint and burn amount of the rate is at least zero (as a stored rate's
/// are), an exchange whose quote for `a2` units can be met can be met for
/// any `a1` units between one and `a2`.
pub proof fn law_smaller_exchange_stays_feasible(buyer: u64, market: Market, rates: Seq<AssetRate>, b: Balances, a1: u128, a2: u128)
    requires
        0 < a1 <= a2,
        forall|j: int| 0 <= j < rates.len() ==> !negative_amount(#[trigger] rates[j]),
        quote_exchange(buyer, market, rates, b, a2) matches Ok((true, _)),
    ensures
        quote_exchange(buyer, market, rates, b, a1) matches Ok((true, _)),
{
    let p = Parties { fixed: None, buyer, vault: market.vault };
    let (out0, ok0) = holds(rates, b, p)->Ok_0;
    let t1 = a1 as i128;
    let t2 = a2 as i128;
    lemma_tally_le(rates, b, p, t1, t2);
    let (bals, q1) = tally(rates, b, p, t1)->Ok_0;
    let q2 = tally(rates, b, p, t2)->Ok_0.1;
    let init = (bals, out0, ok0);
    assert(settlement_ge(init, init));
    lemma_settle_ge(rates, init, init, q1, q2, true);
    let s1 = settle(rates, init, q1, true)->Ok_0;
    let s2 = settle(rates, init, q2, true)->Ok_0;
    lemma_settle_ge(rates, s1, s2, q1, q2, false);
    let u1 = settle(rates, s1, q1, false)->Ok_0;
    let u2 = settle(rates, s2, q2, false)->Ok_0;
    lemma_mints_ok(rates, u1.1, u2.1, q1, q2);
}


/// The parties of an exchange by `buyer` on `market`.
pub open spec fn exchange_parties(buyer: u64, market: Market) -> Parties {
    Parties { fixed: None, buyer, vault: market.vault }
}

/// The balance that a rate line reads: its source's holding of its asset.
pub open spec fn line_balance(b: Balances, p: Parties, r: AssetRate) -> u128 {
    balance_in(b, (party_account(p, r.from), r.class_id, r.asset_id))
}

/// The price of a rate line for `total` units.
pub open spec fn line_price(r: AssetRate, total: Amount) -> int {
    action_amount(r.action) * total
}

/// What a quote assigns to one rate line on its own: a `Has` line its
/// verdict's amount, a mint its price, a transfer or burn its price where
/// the source holds it and the shortfall otherwise.
pub open spec fn line_quote(b: Balances, p: Parties, r: AssetRate, total: Amount) -> Amount {
    match r.action {
        RateAction::Has(op, n) => holds_eval(op, line_balance(b, p, r) as i128, n).0,
        RateAction::Mint(_) => line_price(r, total) as i128,
        RateAction::MarketTransfer(..) => 0,
        _ => if line_balance(b, p, r) >= line_price(r, total) {
            line_price(r, total) as i128
        } else {
            (line_balance(b, p, r) - line_price(r, total)) as i128
        },
    }
}

/// Whether one rate line can be met: a `Has` line's condition holds, and
/// a transfer's or burn's source holds its price.
pub open spec fn line_met(b: Balances, p: Parties, r: AssetRate, total: Amount) -> bool {
    match r.action {
        RateAction::Has(op, n) => holds_eval(op, line_balance(b, p, r) as i128, n).1,
        RateAction::Transfer(_) => line_balance(b, p, r) >= line_price(r, total),
        RateAction::Burn(_) => line_balance(b, p, r) >= line_price(r, total),
        _ => true,
    }
}

/// The lines of one kind: 0 `Has`, 1 burns, 2 transfers, 3 mints.
pub open spec fn of_kind(a: RateAction, kind: int) -> bool {
    if kind == 0 {
        a is Has
    } else if kind == 1 {
        a is Burn
    } else if kind == 2 {
        a is Transfer
    } else {
        a is Mint
    }
}

/// The lines of `s` of a kind, each with its quote on its own.
pub open spec fn kind_map(s: Seq<AssetRate>, b: Balances, p: Parties, total: Amount, kind: int) -> Map<AssetRate, Amount> {
    Map::new(|r: AssetRate| s.contains(r) && of_kind(r.action, kind), |r: AssetRate| line_quote(b, p, r, total))
}

/// Whether every line of `s` of a kind can be met.
pub open spec fn kind_met(s: Seq<AssetRate>, b: Balances, p: Parties, total: Amount, kind: int) -> bool {
    forall|j: int| 0 <= j < s.len() && of_kind(s[j].action, kind) ==> line_met(b, p, #[trigger] s[j], total)
}

proof fn lemma_take_contains(rates: Seq<AssetRate>, n: int, r: AssetRate)
    requires
        0 <= n < rates.len(),
    ensures
        rates.take(n + 1).contains(r) == (rates.take(n).contains(r) || r == rates[n]),
{
    if rates.take(n + 1).contains(r) {
        let i = choose|i: int| 0 <= i < n + 1 && #[trigger] rates.take(n + 1)[i] == r;
        if i < n {
            assert(rates.take(n)[i] == r);
        }
    }
    if rates.take(n).contains(r) {
        let i = choose|i: int| 0 <= i < n && #[trigger] rates.take(n)[i] == r;
        assert(rates.take(n + 1)[i] == r);
    }
    if r == rates[n] {
        assert(rates.take(n + 1)[n] == r);
    }
}

proof fn lemma_kind_map_step(rates: Seq<AssetRate>, n: int, b: Balances, p: Parties, total: Amount, kind: int)
    requires
        0 <= n < rates.len(),
    ensures
        kind_map(rates.take(n + 1), b, p, total, kind) == (if of_kind(rates[n].action, kind) {
            kind_map(rates.take(n), b, p, total, kind).insert(rates[n], line_quote(b, p, rates[n], total))
        } else {
            kind_map(rates.take(n), b, p, total, kind)
        }),
        kind_met(rates.take(n + 1), b, p, total, kind) == (kind_met(rates.take(n), b, p, total, kind)
            && (of_kind(rates[n].action, kind) ==> line_met(b, p, rates[n], total))),
{
    assert forall|r: AssetRate| #[trigger] rates.take(n + 1).contains(r) == (rates.take(n).contains(r) || r == rates[n]) by {
        lemma_take_contains(rates, n, r);
    }
    let m1 = kind_map(rates.take(n + 1), b, p, total, kind);
    let m0 = kind_map(rates.take(n), b, p, total, kind);
    if of_kind(rates[n].action, kind) {
        assert(m1 =~= m0.insert(rates[n], line_quote(b, p, rates[n], total)));
    } else {
        assert(m1 =~= m0);
    }
    let s1 = rates.take(n + 1);
    let s0 = rates.take(n);
    if kind_met(s1, b, p, total, kind) {
        assert forall|j: int| 0 <= j < s0.len() && of_kind(s0[j].action, kind) implies line_met(b, p, #[trigger] s0[j], total) by {
            assert(s0[j] == s1[j]);
        }
        assert(s1[n] == rates[n]);
    }
    if kind_met(s0, b, p, total, kind) && (of_kind(rates[n].action, kind) ==> line_met(b, p, rates[n], total)) {
        assert forall|j: int| 0 <= j < s1.len() && of_kind(s1[j].action, kind) implies line_met(b, p, #[trigger] s1[j], total) by {
            if j < n {
                assert(s0[j] == s1[j]);
            }
        }
    }
}

/// The `Has` lines of a prefix of `rates`, checked on their own.
proof fn lemma_holds_closed(rates: Seq<AssetRate>, b: Balances, p: Parties, total: Amount, n: int)
    requires
        0 <= n <= rates.len(),
        forall|j: int| 0 <= j < rates.len() && (#[trigger] rates[j]).action is Has ==> line_balance(b, p, rates[j]) <= i128::MAX,
    ensures
        holds(rates.take(n), b, p) == Ok::<(Map<AssetRate, Amount>, bool), Error>(
            (kind_map(rates.take(n), b, p, total, 0), kind_met(rates.take(n), b, p, total, 0)),
        ),
    decreases n,
{
    if n == 0 {
        assert(kind_map(rates.take(0), b, p, total, 0) =~= Map::empty());
    } else {
        lemma_holds_closed(rates, b, p, total, n - 1);
        lemma_kind_map_step(rates, n - 1, b, p, total, 0);
        assert(rates.take(n).drop_last() =~= rates.take(n - 1));
        assert(rates.take(n).last() == rates[n - 1]);
    }
}


/// Whether a rate action has a price: a transfer, burn or mint.
pub open spec fn priced(a: RateAction) -> bool {
    a is Transfer || a is Burn || a is Mint
}

/// No two transfer, burn or mint lines of `rates` take from the same
/// source's holding of the same asset.
pub open spec fn distinct_priced(rates: Seq<AssetRate>) -> bool {
    forall|i: int, j: int|
        0 <= i < rates.len() && 0 <= j < rates.len() && i != j && priced((#[trigger] rates[i]).action) && priced(
            (#[trigger] rates[j]).action,
        ) ==> price_key(rates[i]) != price_key(rates[j])
}

/// No step of a quote of `total` units of `rates` leaves 128 bits: every
/// price, every balance read and every transfer's or burn's remainder fits.
pub open spec fn quote_fits(b: Balances, p: Parties, rates: Seq<AssetRate>, total: Amount) -> bool {
    forall|j: int| 0 <= j < rates.len() ==> {
        &&& fits_i128(line_price(#[trigger] rates[j], total))
        &&& (is_transfer_or_burn(rates[j].action) || rates[j].action is Has) ==> line_balance(b, p, rates[j]) <= i128::MAX
        &&& is_transfer_or_burn(rates[j].action) ==> fits_i128(line_balance(b, p, rates[j]) - line_price(rates[j], total))
    }
}

proof fn lemma_same_key_same_balance(b: Balances, p: Parties, r1: AssetRate, r2: AssetRate)
    requires
        price_key(r1) == price_key(r2),
    ensures
        line_balance(b, p, r1) == line_balance(b, p, r2),
{
    assert(r1.from == r2.from) by {
        match (r1.from, r2.from) {
            (RateAccount::Account(x), RateAccount::Account(y)) => {
                assert(account_key(r1.from).1 == x);
            },
            _ => {},
        }
    }
}

/// The tally of a prefix of `rates` whose priced lines have distinct keys:
/// each priced line's key holds its price, any other key zero, and each
/// transfer's or burn's key its source's balance.
pub open spec fn tally_closed(rates: Seq<AssetRate>, n: int, b: Balances, p: Parties, total: Amount, t: (Tally, Tally)) -> bool {
    &&& forall|j: int| 0 <= j < n && priced((#[trigger] rates[j]).action)
        ==> t.1.contains_key(price_key(rates[j])) && t.1[price_key(rates[j])] == line_price(rates[j], total)
    &&& forall|k: PriceKey| #[trigger] t.1.contains_key(k) && (forall|j: int| 0 <= j < n && priced((#[trigger] rates[j]).action)
        ==> price_key(rates[j]) != k) ==> t.1[k] == 0
    &&& forall|j: int| 0 <= j < n && is_transfer_or_burn((#[trigger] rates[j]).action)
        ==> t.0.contains_key(price_key(rates[j])) && t.0[price_key(rates[j])] == line_balance(b, p, rates[j]) as i128
}

proof fn lemma_tally_closed(rates: Seq<AssetRate>, b: Balances, p: Parties, total: Amount, n: int)
    requires
        0 <= n <= rates.len(),
        distinct_priced(rates),
        quote_fits(b, p, rates, total),
    ensures
        tally(rates.take(n), b, p, total) is Ok,
        tally_closed(rates, n, b, p, total, tally(rates.take(n), b, p, total)->Ok_0),
    decreases n,
{
    if n > 0 {
        lemma_tally_closed(rates, b, p, total, n - 1);
        assert(rates.take(n).drop_last() =~= rates.take(n - 1));
        assert(rates.take(n).last() == rates[n - 1]);
        let st = tally(rates.take(n - 1), b, p, total)->Ok_0;
        let r = rates[n - 1];
        let k = price_key(r);
        assert(fits_i128(line_price(rates[n - 1], total)));
        if !priced(r.action) {
            assert(action_amount(r.action) == 0);
        } else {
            assert forall|j: int| 0 <= j < n - 1 && priced((#[trigger] rates[j]).action) implies price_key(rates[j]) != k by {
                assert(j != n - 1);
            }
        }
        let t = tally(rates.take(n), b, p, total)->Ok_0;
        assert forall|j: int| 0 <= j < n && priced((#[trigger] rates[j]).action)
            implies t.1.contains_key(price_key(rates[j])) && t.1[price_key(rates[j])] == line_price(rates[j], total) by {
            if j < n - 1 && price_key(rates[j]) == k {
                assert(!priced(r.action));
            }
        }
        assert forall|k2: PriceKey| #[trigger] t.1.contains_key(k2) && (forall|j: int| 0 <= j < n && priced((#[trigger] rates[j]).action)
            ==> price_key(rates[j]) != k2) implies t.1[k2] == 0 by {
            assert forall|j: int| 0 <= j < n - 1 && priced((#[trigger] rates[j]).action) implies price_key(rates[j]) != k2 by {
                assert(0 <= j < n);
            }
            if k2 == k {
                assert(!priced(r.action) || price_key(rates[n - 1]) != k2);
            }
        }
        assert forall|j: int| 0 <= j < n && is_transfer_or_burn((#[trigger] rates[j]).action)
            implies t.0.contains_key(price_key(rates[j])) && t.0[price_key(rates[j])] == line_balance(b, p, rates[j]) as i128 by {
            if price_key(rates[j]) == k {
                lemma_same_key_same_balance(b, p, rates[j], r);
            }
        }
    }
}


/// The kind of the lines that a settling pass takes: burns or transfers.
pub open spec fn pass_kind(burn: bool) -> int {
    if burn { 1 } else { 2 }
}

/// A settling pass over a prefix of `rates` that starts from `init`: the
/// lines it takes each get their quote on their own, the verdict is
/// whether they are all met, and no other transfer's or burn's balance
/// moves.
pub open spec fn settle_closed(
    rates: Seq<AssetRate>,
    n: int,
    b: Balances,
    p: Parties,
    total: Amount,
    burn: bool,
    init: Settlement,
    s: Settlement,
) -> bool {
    &&& s.0.dom() == init.0.dom()
    &&& forall|j: int| 0 <= j < rates.len() && is_transfer_or_burn((#[trigger] rates[j]).action)
        && (j >= n || !selected(rates[j].action, burn)) ==> s.0[price_key(rates[j])] == init.0[price_key(rates[j])]
    &&& s.1 == init.1.union_prefer_right(kind_map(rates.take(n), b, p, total, pass_kind(burn)))
    &&& s.2 == (init.2 && kind_met(rates.take(n), b, p, total, pass_kind(burn)))
}

proof fn lemma_settle_closed(
    rates: Seq<AssetRate>,
    b: Balances,
    p: Parties,
    total: Amount,
    burn: bool,
    init: Settlement,
    prices: Tally,
    n: int,
)
    requires
        0 <= n <= rates.len(),
        distinct_priced(rates),
        quote_fits(b, p, rates, total),
        forall|j: int| 0 <= j < rates.len() && priced((#[trigger] rates[j]).action)
            ==> prices.contains_key(price_key(rates[j])) && prices[price_key(rates[j])] == line_price(rates[j], total),
        forall|j: int| 0 <= j < rates.len() && selected((#[trigger] rates[j]).action, burn)
            ==> init.0.contains_key(price_key(rates[j])) && init.0[price_key(rates[j])] == line_balance(b, p, rates[j]) as i128,
    ensures
        settle(rates.take(n), init, prices, burn) is Ok,
        settle_closed(rates, n, b, p, total, burn, init, settle(rates.take(n), init, prices, burn)->Ok_0),
    decreases n,
{
    if n == 0 {
        assert(kind_map(rates.take(0), b, p, total, pass_kind(burn)) =~= Map::empty());
        assert(init.1.union_prefer_right(Map::empty()) =~= init.1);
    } else {
        lemma_settle_closed(rates, b, p, total, burn, init, prices, n - 1);
        lemma_kind_map_step(rates, n - 1, b, p, total, pass_kind(burn));
        assert(rates.take(n).drop_last() =~= rates.take(n - 1));
        assert(rates.take(n).last() == rates[n - 1]);
        let s0 = settle(rates.take(n - 1), init, prices, burn)->Ok_0;
        let r = rates[n - 1];
        let k = price_key(r);
        assert(selected(r.action, burn) == of_kind(r.action, pass_kind(burn)));
        let km0 = kind_map(rates.take(n - 1), b, p, total, pass_kind(burn));
        if selected(r.action, burn) {
            assert(s0.0[k] == init.0[k]);
            assert(fits_i128(line_balance(b, p, rates[n - 1]) - line_price(rates[n - 1], total)));
            let s1 = settle(rates.take(n), init, prices, burn)->Ok_0;
            assert forall|j: int| 0 <= j < rates.len() && is_transfer_or_burn((#[trigger] rates[j]).action)
                && (j >= n || !selected(rates[j].action, burn)) implies s1.0[price_key(rates[j])] == init.0[price_key(rates[j])] by {
                assert(j != n - 1);
            }
            assert(s1.0.dom() =~= init.0.dom());
            assert(s1.1 =~= init.1.union_prefer_right(km0.insert(r, line_quote(b, p, r, total))));
        } else {
            assert(init.1.union_prefer_right(km0) == init.1.union_prefer_right(kind_map(rates.take(n), b, p, total, pass_kind(burn))));
        }
    }
}


proof fn lemma_mints_closed(rates: Seq<AssetRate>, b: Balances, p: Parties, total: Amount, out: Map<AssetRate, Amount>, prices: Tally, n: int)
    requires
        0 <= n <= rates.len(),
        quote_fits(b, p, rates, total),
        forall|j: int| 0 <= j < rates.len() && priced((#[trigger] rates[j]).action)
            ==> prices.contains_key(price_key(rates[j])) && prices[price_key(rates[j])] == line_price(rates[j], total),
    ensures
        mints(rates.take(n), out, prices) == Ok::<Map<AssetRate, Amount>, Error>(out.union_prefer_right(kind_map(rates.take(n), b, p, total, 3))),
    decreases n,
{
    if n == 0 {
        assert(kind_map(rates.take(0), b, p, total, 3) =~= Map::empty());
        assert(out.union_prefer_right(Map::empty()) =~= out);
    } else {
        lemma_mints_closed(rates, b, p, total, out, prices, n - 1);
        lemma_kind_map_step(rates, n - 1, b, p, total, 3);
        assert(rates.take(n).drop_last() =~= rates.take(n - 1));
        assert(rates.take(n).last() == rates[n - 1]);
        let r = rates[n - 1];
        let km0 = kind_map(rates.take(n - 1), b, p, total, 3);
        if r.action is Mint {
            assert(fits_i128(line_price(rates[n - 1], total)));
            assert(out.union_prefer_right(km0).insert(r, prices[price_key(r)]) =~= out.union_prefer_right(km0.insert(r, line_quote(b, p, r, total))));
        }
    }
}

/// An exchange quote line by line: where the transfer, burn and mint lines
/// of a rate take from distinct holdings and nothing leaves 128 bits, each
/// line but a `MarketTransfer` gets its quote on its own (`line_quote`),
/// and the exchange can be made exactly where every line can be met
/// (`line_met`).
pub proof fn law_exchange_quote_by_line(buyer: u64, market: Market, rates: Seq<AssetRate>, b: Balances, amount: u128)
    requires
        amount <= i128::MAX,
        distinct_priced(rates),
        quote_fits(b, exchange_parties(buyer, market), rates, amount as i128),
    ensures
        quote_exchange(buyer, market, rates, b, amount) == Ok::<(bool, Map<AssetRate, Amount>), Error>((
            forall|j: int| 0 <= j < rates.len() ==> line_met(b, exchange_parties(buyer, market), #[trigger] rates[j], amount as i128),
            Map::new(
                |r: AssetRate| rates.contains(r) && !(r.action is MarketTransfer),
                |r: AssetRate| line_quote(b, exchange_parties(buyer, market), r, amount as i128),
            ),
        )),
{
    let p = exchange_parties(buyer, market);
    let t = amount as i128;
    let len = rates.len() as int;
    assert(rates.take(len) =~= rates);
    assert forall|j: int| 0 <= j < rates.len() && (#[trigger] rates[j]).action is Has implies line_balance(b, p, rates[j]) <= i128::MAX by {
        assert(fits_i128(line_price(rates[j], t)));
    }
    lemma_holds_closed(rates, b, p, t, len);
    lemma_tally_closed(rates, b, p, t, len);
    let (bals, prices) = tally(rates, b, p, t)->Ok_0;
    let km0 = kind_map(rates, b, p, t, 0);
    let met0 = kind_met(rates, b, p, t, 0);
    let init = (bals, km0, met0);
    lemma_settle_closed(rates, b, p, t, true, init, prices, len);
    let s1 = settle(rates, init, prices, true)->Ok_0;
    assert forall|j: int| 0 <= j < rates.len() && selected((#[trigger] rates[j]).action, false)
        implies s1.0.contains_key(price_key(rates[j])) && s1.0[price_key(rates[j])] == line_balance(b, p, rates[j]) as i128 by {
        assert(is_transfer_or_burn(rates[j].action));
        assert(!selected(rates[j].action, true));
    }
    lemma_settle_closed(rates, b, p, t, false, s1, prices, len);
    let s2 = settle(rates, s1, prices, false)->Ok_0;
    lemma_mints_closed(rates, b, p, t, s2.1, prices, len);
    let out = s2.1.union_prefer_right(kind_map(rates, b, p, t, 3));
    let whole = Map::new(|r: AssetRate| rates.contains(r) && !(r.action is MarketTransfer), |r: AssetRate| line_quote(b, p, r, t));
    assert(out =~= whole);
    let ok = forall|j: int| 0 <= j < rates.len() ==> line_met(b, p, #[trigger] rates[j], t);
    assert(s2.2 == ok) by {
        if ok {
            assert forall|j: int| 0 <= j < rates.len() && of_kind(rates[j].action, 0) implies line_met(b, p, #[trigger] rates[j], t) by {}
            assert forall|j: int| 0 <= j < rates.len() && of_kind(rates[j].action, 1) implies line_met(b, p, #[trigger] rates[j], t) by {}
            assert forall|j: int| 0 <= j < rates.len() && of_kind(rates[j].action, 2) implies line_met(b, p, #[trigger] rates[j], t) by {}
        }
        if s2.2 {
            assert forall|j: int| 0 <= j < rates.len() implies line_met(b, p, #[trigger] rates[j], t) by {
                if rates[j].action is Has {
                    assert(of_kind(rates[j].action, 0));
                } else if rates[j].action is Burn {
                    assert(of_kind(rates[j].action, 1));
                } else if rates[j].action is Transfer {
                    assert(of_kind(rates[j].action, 2));
                }
            }
        }
    }
}


/// The parties of a deposit on `market`: every line reads the owner.
pub open spec fn deposit_parties(market: Market) -> Parties {
    Parties { fixed: Some(market.owner), buyer: 0, vault: market.vault }
}

proof fn lemma_deposit_rates_kind(rates: Seq<AssetRate>)
    ensures
        forall|j: int| 0 <= j < deposit_rates(rates).len()
            ==> (#[trigger] deposit_rates(rates)[j]).from == RateAccount::Market && is_transfer_or_burn(deposit_rates(rates)[j].action),
    decreases rates.len(),
{
    if rates.len() > 0 {
        lemma_deposit_rates_kind(rates.drop_last());
    }
}

/// A deposit quote line by line: where the transfers and burns out of the
/// market take distinct assets and nothing leaves 128 bits, each of them
/// gets its quote on its own (`line_quote`, read from the owner's
/// holdings), and the owner can make the deposit exactly where every such
/// line is met and priced at zero or more.
pub proof fn law_deposit_quote_by_line(market: Market, rates: Seq<AssetRate>, b: Balances, amount: u128)
    requires
        amount <= i128::MAX,
        distinct_priced(deposit_rates(rates)),
        quote_fits(b, deposit_parties(market), deposit_rates(rates), amount as i128),
    ensures
        quote_deposit(market, rates, b, amount) == Ok::<(bool, Map<AssetRate, Amount>), Error>((
            forall|j: int| 0 <= j < deposit_rates(rates).len() ==> line_met(b, deposit_parties(market), #[trigger] deposit_rates(rates)[j], amount as i128)
                && line_price(deposit_rates(rates)[j], amount as i128) >= 0,
            Map::new(|r: AssetRate| deposit_rates(rates).contains(r), |r: AssetRate| line_quote(b, deposit_parties(market), r, amount as i128)),
        )),
{
    let rs = deposit_rates(rates);
    let p = deposit_parties(market);
    let t = amount as i128;
    let len = rs.len() as int;
    assert(rs.take(len) =~= rs);
    lemma_deposit_rates_kind(rates);
    lemma_tally_closed(rs, b, p, t, len);
    let (bals, prices) = tally(rs, b, p, t)->Ok_0;
    let init = (bals, Map::<AssetRate, Amount>::empty(), true);
    lemma_settle_closed(rs, b, p, t, true, init, prices, len);
    let s1 = settle(rs, init, prices, true)->Ok_0;
    assert forall|j: int| 0 <= j < rs.len() && selected((#[trigger] rs[j]).action, false)
        implies s1.0.contains_key(price_key(rs[j])) && s1.0[price_key(rs[j])] == line_balance(b, p, rs[j]) as i128 by {
        assert(is_transfer_or_burn(rs[j].action));
        assert(!selected(rs[j].action, true));
    }
    lemma_settle_closed(rs, b, p, t, false, s1, prices, len);
    let s2 = settle(rs, s1, prices, false)->Ok_0;
    let whole = Map::new(|r: AssetRate| rs.contains(r), |r: AssetRate| line_quote(b, p, r, t));
    assert forall|r: AssetRate| #[trigger] rs.contains(r) implies r.action is Burn || r.action is Transfer by {
        let j = choose|j: int| 0 <= j < rs.len() && rs[j] == r;
        assert(is_transfer_or_burn(rs[j].action));
    }
    assert(s2.1 =~= whole);
    let ok = forall|j: int| 0 <= j < rs.len() ==> line_met(b, p, #[trigger] rs[j], t) && line_price(rs[j], t) >= 0;
    assert(all_nonneg(whole) == ok) by {
        if ok {
            assert forall|r: AssetRate| #[trigger] whole.contains_key(r) implies whole[r] >= 0 by {
                let j = choose|j: int| 0 <= j < rs.len() && rs[j] == r;
                assert(line_met(b, p, rs[j], t) && line_price(rs[j], t) >= 0);
            }
        }
        if all_nonneg(whole) {
            assert forall|j: int| 0 <= j < rs.len() implies line_met(b, p, #[trigger] rs[j], t) && line_price(rs[j], t) >= 0 by {
                assert(rs.contains(rs[j]));
                assert(whole.contains_key(rs[j]));
                assert(whole[rs[j]] >= 0);
                assert(is_transfer_or_burn(rs[j].action));
            }
        }
    }
}


proof fn lemma_holds_has(rates: Seq<AssetRate>, b: Balances, p: Parties, total: Amount)
    ensures
        holds(rates, b, p) is Ok ==> forall|j: int| 0 <= j < rates.len() && (#[trigger] rates[j]).action is Has ==> {
            let (out, ok) = holds(rates, b, p)->Ok_0;
            &&& out.contains_key(rates[j])
            &&& out[rates[j]] == line_quote(b, p, rates[j], total)
            &&& !line_met(b, p, rates[j], total) ==> !ok
            &&& line_balance(b, p, rates[j]) <= i128::MAX
        },
    decreases rates.len(),
{
    if rates.len() > 0 && holds(rates, b, p) is Ok {
        let r0 = rates.drop_last();
        lemma_holds_has(r0, b, p, total);
        let (out0, ok0) = holds(r0, b, p)->Ok_0;
        let (out, ok) = holds(rates, b, p)->Ok_0;
        let last = rates.last();
        assert forall|j: int| 0 <= j < rates.len() && (#[trigger] rates[j]).action is Has implies {
            &&& out.contains_key(rates[j])
            &&& out[rates[j]] == line_quote(b, p, rates[j], total)
            &&& !line_met(b, p, rates[j], total) ==> !ok
            &&& line_balance(b, p, rates[j]) <= i128::MAX
        } by {
            if j < rates.len() - 1 {
                assert(rates[j] == r0[j]);
            }
        }
    }
}

proof fn lemma_settle_keeps(rates: Seq<AssetRate>, init: Settlement, prices: Tally, burn: bool)
    ensures
        settle(rates, init, prices, burn) is Ok ==> {
            let s = settle(rates, init, prices, burn)->Ok_0;
            &&& forall|r: AssetRate| !selected(r.action, burn) ==> (#[trigger] s.1.contains_key(r) == init.1.contains_key(r))
                && (init.1.contains_key(r) ==> s.1[r] == init.1[r])
            &&& s.2 ==> init.2
        },
    decreases rates.len(),
{
    if rates.len() > 0 {
        lemma_settle_keeps(rates.drop_last(), init, prices, burn);
    }
}

proof fn lemma_mints_keeps(rates: Seq<AssetRate>, out: Map<AssetRate, Amount>, prices: Tally)
    ensures
        mints(rates, out, prices) is Ok ==> forall|r: AssetRate| !(r.action is Mint)
            ==> (#[trigger] mints(rates, out, prices)->Ok_0.contains_key(r) == out.contains_key(r))
            && (out.contains_key(r) ==> mints(rates, out, prices)->Ok_0[r] == out[r]),
    decreases rates.len(),
{
    if rates.len() > 0 {
        lemma_mints_keeps(rates.drop_last(), out, prices);
    }
}

/// Every `Has` line of an exchange quote, whatever the other lines: it gets
/// the amount of its verdict (`holds_eval` on its source's balance: the
/// line's amount where the condition holds, the difference where it does
/// not), and a condition that does not hold makes the exchange one that
/// cannot be made.
pub proof fn law_exchange_has_line(buyer: u64, market: Market, rates: Seq<AssetRate>, b: Balances, amount: u128, j: int)
    requires
        0 <= j < rates.len(),
        rates[j].action is Has,
        quote_exchange(buyer, market, rates, b, amount) is Ok,
    ensures
        ({
            let (ok, m) = quote_exchange(buyer, market, rates, b, amount)->Ok_0;
            let p = exchange_parties(buyer, market);
            &&& m.contains_key(rates[j])
            &&& m[rates[j]] == line_quote(b, p, rates[j], amount as i128)
            &&& !line_met(b, p, rates[j], amount as i128) ==> !ok
            &&& line_balance(b, p, rates[j]) <= i128::MAX
        }),
{
    let p = exchange_parties(buyer, market);
    let t = amount as i128;
    lemma_holds_has(rates, b, p, t);
    let (out0, ok0) = holds(rates, b, p)->Ok_0;
    let (bals, prices) = tally(rates, b, p, t)->Ok_0;
    let init = (bals, out0, ok0);
    lemma_settle_keeps(rates, init, prices, true);
    let s1 = settle(rates, init, prices, true)->Ok_0;
    lemma_settle_keeps(rates, s1, prices, false);
    let s2 = settle(rates, s1, prices, false)->Ok_0;
    lemma_mints_keeps(rates, s2.1, prices);
    let r = rates[j];
    assert(!selected(r.action, true) && !selected(r.action, false) && !(r.action is Mint));
    assert(s1.1.contains_key(r) == init.1.contains_key(r));
    assert(s2.1.contains_key(r) == s1.1.contains_key(r));
    assert(mints(rates, s2.1, prices)->Ok_0.contains_key(r) == s2.1.contains_key(r));
}


proof fn lemma_deposit_rates_members(rates: Seq<AssetRate>)
    ensures
        forall|j: int| 0 <= j < deposit_rates(rates).len() ==> rates.contains(#[trigger] deposit_rates(rates)[j]),
    decreases rates.len(),
{
    if rates.len() > 0 {
        let r0 = rates.drop_last();
        lemma_deposit_rates_members(r0);
        assert forall|j: int| 0 <= j < deposit_rates(rates).len() implies rates.contains(#[trigger] deposit_rates(rates)[j]) by {
            if j < deposit_rates(r0).len() {
                let i = choose|i: int| 0 <= i < r0.len() && r0[i] == deposit_rates(r0)[j];
                assert(rates[i] == r0[i]);
            } else {
                assert(rates[rates.len() - 1] == rates.last());
            }
        }
    }
}

/// A deposit quote of a stored rate, whose amounts are all at least zero:
/// the owner can make the deposit exactly where every transfer and burn out
/// of the market is met, each line quoted on its own.
pub proof fn law_deposit_quote_stored_rate(market: Market, rates: Seq<AssetRate>, b: Balances, amount: u128)
    requires
        amount <= i128::MAX,
        forall|j: int| 0 <= j < rates.len() ==> !negative_amount(#[trigger] rates[j]),
        distinct_priced(deposit_rates(rates)),
        quote_fits(b, deposit_parties(market), deposit_rates(rates), amount as i128),
    ensures
        quote_deposit(market, rates, b, amount) == Ok::<(bool, Map<AssetRate, Amount>), Error>((
            forall|j: int| 0 <= j < deposit_rates(rates).len() ==> line_met(b, deposit_parties(market), #[trigger] deposit_rates(rates)[j], amount as i128),
            Map::new(|r: AssetRate| deposit_rates(rates).contains(r), |r: AssetRate| line_quote(b, deposit_parties(market), r, amount as i128)),
        )),
{
    law_deposit_quote_by_line(market, rates, b, amount);
    lemma_deposit_rates_members(rates);
    let rs = deposit_rates(rates);
    let t = amount as i128;
    assert forall|j: int| 0 <= j < rs.len() implies line_price(#[trigger] rs[j], t) >= 0 by {
        let i = choose|i: int| 0 <= i < rates.len() && rates[i] == rs[j];
        assert(!negative_amount(rates[i]));
        let n = action_amount(rs[j].action);
        assert(n * t >= 0) by (nonlinear_arith)
            requires
                n >= 0,
                t >= 0,
        ;
    }
}


/// A `Has` line of an exchange quote, in plain comparisons: with `bal` the
/// balance its source holds and `n` its amount, the condition holds for
/// `Equal` when `bal == n`, `GreaterEqualThan` when `bal >= n`,
/// `GreaterThan` when `bal > n`, `LessEqualThan` when `bal <= n` and
/// `LessThan` when `bal < n`. Where it holds the line is quoted `n`; where
/// it does not, the exchange cannot be made, and the line is quoted the
/// shortfall: `bal - n` for the lower bounds, `n - bal` for the upper
/// bounds (where that difference fits 128 bits).
pub proof fn law_exchange_has_condition(buyer: u64, market: Market, rates: Seq<AssetRate>, b: Balances, amount: u128, j: int)
    requires
        0 <= j < rates.len(),
        rates[j].action is Has,
        quote_exchange(buyer, market, rates, b, amount) is Ok,
    ensures
        ({
            let (ok, m) = quote_exchange(buyer, market, rates, b, amount)->Ok_0;
            let r = rates[j];
            let bal = line_balance(b, exchange_parties(buyer, market), r) as int;
            let (op, n) = match r.action {
                RateAction::Has(op, n) => (op, n as int),
                _ => (AmountOp::Equal, 0int),
            };
            let met = match op {
                AmountOp::Equal => bal == n,
                AmountOp::GreaterEqualThan => bal >= n,
                AmountOp::GreaterThan => bal > n,
                AmountOp::LessEqualThan => bal <= n,
                AmountOp::LessThan => bal < n,
            };
            let lower = op is Equal || op is GreaterEqualThan || op is GreaterThan;
            &&& m.contains_key(r)
            &&& met ==> m[r] == n
            &&& ok ==> met
            &&& !met && lower && fits_i128(bal - n) ==> m[r] == bal - n
            &&& !met && !lower && fits_i128(n - bal) ==> m[r] == n - bal
        }),
{
    law_exchange_has_line(buyer, market, rates, b, amount, j);
}

} // verus!
