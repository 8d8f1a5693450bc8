//! The dex pallet: constant-product exchanges between one currency asset and
//! the assets of a class, with liquidity-pool shares minted in a class of
//! their own.
use vstd::prelude::*;
use std::collections::BTreeMap;
use crate::asset;
use crate::ledger::{balance_in, Balances};
use crate::currency;
use crate::primitives::{ensure_signed, pallet_account_spec, CurrencyId, DispatchError, Origin, PalletId};
use crate::traits::{reserve_effect, same_funds, transfer_effect, ReservableCurrency};
use crate::wide::{
    checked_add, checked_div, checked_rem, from_u128, is_zero, lemma_pow64, saturate, saturating_add,
    saturating_mul, saturating_sub, to_u128, wide_max, wide_value, pow64, Wide,
};

verus! {

broadcast use vstd::laws_cmp::group_laws_cmp;

/// An exchange: its creator, the class of the assets it trades, the currency
/// asset it prices them in, the class of its pool shares and its vault.
#[derive(Clone, Copy, PartialEq, Eq, Debug)]
pub struct Exchange {
    pub creator: u64,
    pub asset_class_id: u64,
    pub currency_class_id: u64,
    pub currency_asset_id: u64,
    pub lp_class_id: u64,
    pub vault: u64,
}

#[derive(Debug)]
pub enum Event {
    ExchangeCreated { exchange_id: u32, who: u64 },
    CurrencyToAsset {
        exchange_id: u32,
        who: u64,
        to: u64,
        asset_ids: Vec<u64>,
        asset_amounts_out: Vec<u128>,
        currency_amounts_in: Vec<u128>,
    },
    AssetToCurrency {
        exchange_id: u32,
        who: u64,
        to: u64,
        asset_ids: Vec<u64>,
        asset_amounts_in: Vec<u128>,
        currency_amounts_out: Vec<u128>,
    },
    LiquidityAdded {
        exchange_id: u32,
        who: u64,
        to: u64,
        asset_ids: Vec<u64>,
        asset_amounts: Vec<u128>,
        currency_amounts: Vec<u128>,
    },
    LiquidityRemoved {
        exchange_id: u32,
        who: u64,
        to: u64,
        asset_ids: Vec<u64>,
        asset_amounts: Vec<u128>,
        currency_amounts: Vec<u128>,
    },
}

#[derive(Clone, Copy, PartialEq, Eq, Debug)]
pub enum Error {
    Overflow,
    InvalidExchange,
    InvalidAssetClass,
    InvalidLiquidityClass,
    InvalidMaxCurrency,
    InsufficientCurrencyAmount,
    InsufficientAssetAmount,
    SameCurrencyAndAsset,
    MaxCurrencyAmountExceeded,
    InvalidCurrencyAmount,
    InsufficientLiquidity,
    NullAssetsBought,
    NullAssetsSold,
    EmptyReserve,
}

/// Keyed by (exchange, asset).
pub type PoolKey = (u32, u64);

/// The pallet's state and configuration.
pub struct Pallet {
    pub pallet_id: PalletId,
    /// The native deposit that the creator of an exchange pays into its vault.
    pub create_exchange_deposit: u128,
    pub exchanges: BTreeMap<u32, Exchange>,
    /// The pool shares issued for each asset of an exchange.
    pub total_supplies: BTreeMap<PoolKey, u128>,
    /// The currency held for each asset of an exchange.
    pub currency_reserves: BTreeMap<PoolKey, u128>,
    pub events: Vec<Event>,
}

/// A dispatch error of this pallet.
pub open spec fn derr<T>(e: Error) -> Result<T, DispatchError> {
    Err(DispatchError::Dex(e))
}

/// The value at `k`, zero where there is none.
pub open spec fn value_at(m: Map<PoolKey, u128>, k: PoolKey) -> u128 {
    if m.contains_key(k) { m[k] } else { 0 }
}

/// A 256-bit intermediate result read back as 128 bits: zero where it does
/// not fit.
pub open spec fn fit(x: nat) -> u128 {
    if x <= u128::MAX { x as u128 } else { 0 }
}

/// `numerator / denominator` rounded up, and whether it was rounded.
pub open spec fn div_round_spec(numerator: nat, denominator: nat) -> (u128, bool) {
    if numerator % denominator == 0 {
        (fit(numerator / denominator), false)
    } else {
        (fit(numerator / denominator + 1), true)
    }
}

/// The difference on 256 bits, zero below zero.
pub open spec fn wide_sub(a: nat, b: nat) -> nat {
    if a >= b { (a - b) as nat } else { 0 }
}

/// The currency paid in for `amount_out` assets from reserves `reserve_in`
/// (currency) and `reserve_out` (assets), with a 0.5% fee, rounded up.
pub open spec fn buy_price(amount_out: u128, reserve_in: u128, reserve_out: u128) -> Result<u128, Error> {
    let numerator = saturate(saturate((reserve_in * amount_out) as nat) * 1000);
    let denominator = saturate(wide_sub(reserve_out as nat, amount_out as nat) * 995);
    if reserve_in == 0 || reserve_out == 0 {
        Err(Error::EmptyReserve)
    } else if denominator == 0 {
        Err(Error::InsufficientLiquidity)
    } else {
        Ok(div_round_spec(numerator, denominator).0)
    }
}

/// The currency paid out for `amount_in` assets from reserves `reserve_in`
/// (assets) and `reserve_out` (currency), with a 0.5% fee, rounded down.
pub open spec fn sell_price(amount_in: u128, reserve_in: u128, reserve_out: u128) -> Result<u128, Error> {
    let with_fee = saturate((amount_in * 995) as nat);
    let numerator = saturate(with_fee * (reserve_out as nat));
    let denominator = saturate(saturate((reserve_in * 1000) as nat) + with_fee);
    if reserve_in == 0 || reserve_out == 0 {
        Err(Error::EmptyReserve)
    } else if denominator == 0 {
        Ok(0)
    } else {
        Ok(fit(numerator / denominator))
    }
}

/// The balances that `vault` holds of each of `asset_ids` in `class_id`.
pub open spec fn reserves_of(b: Balances, vault: u64, class_id: u64, asset_ids: Seq<u64>) -> Seq<u128> {
    Seq::new(asset_ids.len(), |i: int| balance_in(b, (vault, class_id, asset_ids[i])))
}

/// A run of zeros.
pub open spec fn zeros(n: nat) -> Seq<u128> {
    Seq::new(n, |i: int| 0u128)
}

/// Why a pass over the assets of a call stopped early.
#[derive(Clone, Copy, PartialEq, Eq, Debug)]
pub enum Halt {
    /// The call fails with this error.
    Fail(Error),
    /// The call cannot go on: a list is too short or a divisor is zero.
    Panic,
}

/// Where a pass over the assets of a call stands: currency reserves, pool
/// shares, the running currency total, two per-asset amounts and, once it
/// stopped early, why.
pub type Pass = (Map<PoolKey, u128>, Map<PoolKey, u128>, u128, Seq<u128>, Seq<u128>, Option<Halt>);

/// The pass after the first `n` steps of `step`; a stopped pass stays as it is.
pub open spec fn run_pass(init: Pass, step: spec_fn(Pass, int) -> Pass, n: nat) -> Pass
    decreases n,
{
    if n == 0 {
        init
    } else {
        let p = run_pass(init, step, (n - 1) as nat);
        if p.5 is Some { p } else { step(p, n - 1) }
    }
}

/// Once a pass stops, later steps change nothing.
pub proof fn lemma_pass_stopped(init: Pass, step: spec_fn(Pass, int) -> Pass, k: nat, n: nat)
    requires
        k <= n,
        run_pass(init, step, k).5 is Some,
    ensures
        run_pass(init, step, n) == run_pass(init, step, k),
    decreases n - k,
{
    if k < n {
        lemma_pass_stopped(init, step, k, (n - 1) as nat);
    }
}

/// The start of a pass over `n` assets.
pub open spec fn pass_start(cr: Map<PoolKey, u128>, ts: Map<PoolKey, u128>, n: nat) -> Pass {
    (cr, ts, 0, zeros(n), zeros(n), None)
}

/// A pass that stops with `h`.
pub open spec fn halt(p: Pass, h: Halt) -> Pass {
    (p.0, p.1, p.2, p.3, p.4, Some(h))
}

/// `a + b` on 128 bits, the largest value on overflow.
pub open spec fn sat_add(a: u128, b: u128) -> u128 {
    if a + b > u128::MAX { u128::MAX } else { (a + b) as u128 }
}

/// One asset of a purchase: price `amounts_out[i]` of `asset_id` against the
/// currency reserve, add it to the total, which must stay within
/// `max_currency`, and to the reserve.
pub open spec fn buy_step(
    p: Pass,
    exchange_id: u32,
    i: int,
    asset_id: u64,
    amounts_out: Seq<u128>,
    asset_reserve: u128,
    max_currency: u128,
) -> Pass {
    let k = (exchange_id, asset_id);
    let cres = value_at(p.0, k);
    if i >= amounts_out.len() {
        halt(p, Halt::Panic)
    } else if amounts_out[i] == 0 {
        halt(p, Halt::Fail(Error::NullAssetsBought))
    } else {
        match buy_price(amounts_out[i], cres, asset_reserve) {
            Err(e) => halt(p, Halt::Fail(e)),
            Ok(price) => {
                let total = sat_add(p.2, price);
                let a = p.3.update(i, price);
                if total > max_currency {
                    (p.0, p.1, total, p.3, p.4, Some(Halt::Fail(Error::MaxCurrencyAmountExceeded)))
                } else if cres + price > u128::MAX {
                    (p.0, p.1, total, a, p.4, Some(Halt::Fail(Error::Overflow)))
                } else {
                    (p.0.insert(k, (cres + price) as u128), p.1, total, a, p.4, None)
                }
            },
        }
    }
}

/// The steps of a purchase.
pub open spec fn buy_steps(
    exchange_id: u32,
    asset_ids: Seq<u64>,
    amounts_out: Seq<u128>,
    reserves: Seq<u128>,
    max_currency: u128,
) -> spec_fn(Pass, int) -> Pass {
    |p: Pass, i: int| buy_step(p, exchange_id, i, asset_ids[i], amounts_out, reserves[i], max_currency)
}

/// The loop of `do_buy_assets` on exchange `ex` over the state `cr`, `ts`, `b`.
pub open spec fn buy_pass(
    ex: Exchange,
    exchange_id: u32,
    cr: Map<PoolKey, u128>,
    ts: Map<PoolKey, u128>,
    b: Balances,
    asset_ids: Seq<u64>,
    amounts_out: Seq<u128>,
    max_currency: u128,
) -> Pass {
    run_pass(
        pass_start(cr, ts, asset_ids.len()),
        buy_steps(exchange_id, asset_ids, amounts_out, reserves_of(b, ex.vault, ex.asset_class_id, asset_ids), max_currency),
        asset_ids.len(),
    )
}

/// The asset moves that complete a purchase: the currency total from `who`
/// to the vault, then the assets bought from the vault to `to`.
pub open spec fn buy_moves(b: Balances, ex: Exchange, who: u64, to: u64, total: u128, asset_ids: Seq<u64>, amounts_out: Seq<u128>)
    -> (Balances, Result<(), DispatchError>)
{
    asset::then_run(
        asset::transfer_outcome(b, who, ex.vault, ex.currency_class_id, ex.currency_asset_id, total),
        |b1: Balances| asset::batch_transfer_outcome(b1, ex.vault, to, ex.asset_class_id, asset_ids, amounts_out),
    )
}

/// `e` records a purchase.
pub open spec fn buy_event(e: Event, exchange_id: u32, who: u64, to: u64, asset_ids: Seq<u64>, amounts_out: Seq<u128>, amounts_in: Seq<u128>) -> bool {
    e matches Event::CurrencyToAsset { exchange_id: x, who: w, to: t, asset_ids: ids, asset_amounts_out: outs, currency_amounts_in: ins }
        && x == exchange_id && w == who && t == to && ids@ == asset_ids && outs@ == amounts_out && ins@ == amounts_in
}

/// `a - b` on 128 bits, zero below zero.
pub open spec fn sat_sub(a: u128, b: u128) -> u128 {
    if a >= b { (a - b) as u128 } else { 0 }
}

/// `a * b` on 128 bits, the largest value on overflow.
pub open spec fn sat_mul(a: u128, b: u128) -> u128 {
    if a * b > u128::MAX { u128::MAX } else { (a * b) as u128 }
}

/// One asset of a sale: price `amounts_in[i]` of `asset_id` against the
/// reserves, add it to the total and take it from the currency reserve.
pub open spec fn sell_step(p: Pass, exchange_id: u32, i: int, asset_id: u64, amounts_in: Seq<u128>, asset_reserve: u128) -> Pass {
    let k = (exchange_id, asset_id);
    let cres = value_at(p.0, k);
    if i >= amounts_in.len() {
        halt(p, Halt::Panic)
    } else if amounts_in[i] == 0 {
        halt(p, Halt::Fail(Error::NullAssetsSold))
    } else {
        match sell_price(amounts_in[i], sat_sub(asset_reserve, amounts_in[i]), cres) {
            Err(e) => halt(p, Halt::Fail(e)),
            Ok(price) => {
                let total = sat_add(p.2, price);
                let a = p.3.update(i, price);
                if price > cres {
                    (p.0, p.1, total, a, p.4, Some(Halt::Fail(Error::Overflow)))
                } else {
                    (p.0.insert(k, (cres - price) as u128), p.1, total, a, p.4, None)
                }
            },
        }
    }
}

/// The steps of a sale.
pub open spec fn sell_steps(exchange_id: u32, asset_ids: Seq<u64>, amounts_in: Seq<u128>, reserves: Seq<u128>) -> spec_fn(Pass, int) -> Pass {
    |p: Pass, i: int| sell_step(p, exchange_id, i, asset_ids[i], amounts_in, reserves[i])
}

/// The loop of `do_sell_assets`.
pub open spec fn sell_pass(
    ex: Exchange,
    exchange_id: u32,
    cr: Map<PoolKey, u128>,
    ts: Map<PoolKey, u128>,
    b: Balances,
    asset_ids: Seq<u64>,
    amounts_in: Seq<u128>,
) -> Pass {
    run_pass(
        pass_start(cr, ts, asset_ids.len()),
        sell_steps(exchange_id, asset_ids, amounts_in, reserves_of(b, ex.vault, ex.asset_class_id, asset_ids)),
        asset_ids.len(),
    )
}

/// The asset moves that complete a sale: the assets sold from `who` to the
/// vault, then the currency total from the vault to `to`.
pub open spec fn sell_moves(b: Balances, ex: Exchange, who: u64, to: u64, total: u128, asset_ids: Seq<u64>, amounts_in: Seq<u128>)
    -> (Balances, Result<(), DispatchError>)
{
    asset::then_run(
        asset::batch_transfer_outcome(b, who, ex.vault, ex.asset_class_id, asset_ids, amounts_in),
        |b1: Balances| asset::transfer_outcome(b1, ex.vault, to, ex.currency_class_id, ex.currency_asset_id, total),
    )
}

/// `e` records a sale.
pub open spec fn sell_event(e: Event, exchange_id: u32, who: u64, to: u64, asset_ids: Seq<u64>, amounts_in: Seq<u128>, amounts_out: Seq<u128>) -> bool {
    e matches Event::AssetToCurrency { exchange_id: x, who: w, to: t, asset_ids: ids, asset_amounts_in: ins, currency_amounts_out: outs }
        && x == exchange_id && w == who && t == to && ids@ == asset_ids && ins@ == amounts_in && outs@ == amounts_out
}

/// The least currency amount that may open a pool.
pub open spec fn min_opening_currency() -> u128 {
    1_000_000_000
}

/// One asset of a liquidity deposit. An empty pool opens with
/// `max_currencies[i]` as its currency and its shares; otherwise the currency
/// owed is `amounts[i]` times the currency reserve over what the asset
/// reserve holds beyond the deposit, rounded up, and the shares minted are
/// that currency (less the rounding) times the shares over the currency
/// reserve.
pub open spec fn add_step(
    p: Pass,
    ex: Exchange,
    exchange_id: u32,
    i: int,
    asset_id: u64,
    amounts: Seq<u128>,
    max_currencies: Seq<u128>,
    asset_reserve: u128,
) -> Pass {
    let k = (exchange_id, asset_id);
    if i >= amounts.len() || i >= max_currencies.len() {
        halt(p, Halt::Panic)
    } else if max_currencies[i] == 0 {
        halt(p, Halt::Fail(Error::InvalidMaxCurrency))
    } else if amounts[i] == 0 {
        halt(p, Halt::Fail(Error::InsufficientAssetAmount))
    } else if ex.currency_class_id == ex.asset_class_id && ex.currency_asset_id == asset_id {
        halt(p, Halt::Fail(Error::SameCurrencyAndAsset))
    } else if value_at(p.1, k) > 0 {
        let tl = value_at(p.1, k);
        let cres = value_at(p.0, k);
        let numerator = saturate((amounts[i] * cres) as nat);
        let denominator = wide_sub(asset_reserve as nat, amounts[i] as nat);
        if denominator == 0 {
            halt(p, Halt::Panic)
        } else {
            let (ca, rounded) = div_round_spec(numerator, denominator);
            if max_currencies[i] < ca {
                halt(p, Halt::Fail(Error::MaxCurrencyAmountExceeded))
            } else if cres == 0 {
                halt(p, Halt::Panic)
            } else {
                let total = sat_add(p.2, ca);
                let fixed = if rounded { sat_sub(ca, 1) } else { ca };
                let liq = (sat_mul(fixed, tl) / cres) as u128;
                let a = p.3.update(i, ca);
                let b = p.4.update(i, liq);
                if cres + ca > u128::MAX {
                    (p.0, p.1, total, a, b, Some(Halt::Fail(Error::Overflow)))
                } else if tl + liq > u128::MAX {
                    (p.0.insert(k, (cres + ca) as u128), p.1, total, a, b, Some(Halt::Fail(Error::Overflow)))
                } else {
                    (p.0.insert(k, (cres + ca) as u128), p.1.insert(k, (tl + liq) as u128), total, a, b, None)
                }
            }
        }
    } else if max_currencies[i] < min_opening_currency() {
        halt(p, Halt::Fail(Error::InvalidCurrencyAmount))
    } else {
        let mc = max_currencies[i];
        (p.0.insert(k, mc), p.1.insert(k, mc), sat_add(p.2, mc), p.3.update(i, mc), p.4.update(i, mc), None)
    }
}

/// The steps of a liquidity deposit.
pub open spec fn add_steps(
    ex: Exchange,
    exchange_id: u32,
    asset_ids: Seq<u64>,
    amounts: Seq<u128>,
    max_currencies: Seq<u128>,
    reserves: Seq<u128>,
) -> spec_fn(Pass, int) -> Pass {
    |p: Pass, i: int| add_step(p, ex, exchange_id, i, asset_ids[i], amounts, max_currencies, reserves[i])
}

/// The loop of `do_add_liquidity`.
pub open spec fn add_pass(
    ex: Exchange,
    exchange_id: u32,
    cr: Map<PoolKey, u128>,
    ts: Map<PoolKey, u128>,
    b: Balances,
    asset_ids: Seq<u64>,
    amounts: Seq<u128>,
    max_currencies: Seq<u128>,
) -> Pass {
    run_pass(
        pass_start(cr, ts, asset_ids.len()),
        add_steps(ex, exchange_id, asset_ids, amounts, max_currencies, reserves_of(b, ex.vault, ex.asset_class_id, asset_ids)),
        asset_ids.len(),
    )
}

/// The asset moves that complete a liquidity deposit: the assets from `who`
/// to the vault, the pool shares minted to `to`, and the currency total from
/// `who` to the vault.
pub open spec fn add_moves(
    b: Balances,
    ex: Exchange,
    who: u64,
    to: u64,
    total: u128,
    asset_ids: Seq<u64>,
    amounts: Seq<u128>,
    shares: Seq<u128>,
) -> (Balances, Result<(), DispatchError>) {
    asset::then_run(
        asset::then_run(
            asset::batch_transfer_outcome(b, who, ex.vault, ex.asset_class_id, asset_ids, amounts),
            |b1: Balances| asset::batch_mint_outcome(b1, to, ex.lp_class_id, asset_ids, shares),
        ),
        |b2: Balances| asset::transfer_outcome(b2, who, ex.vault, ex.currency_class_id, ex.currency_asset_id, total),
    )
}

/// `e` records a liquidity deposit.
pub open spec fn added_event(e: Event, exchange_id: u32, who: u64, to: u64, asset_ids: Seq<u64>, amounts: Seq<u128>, currency_amounts: Seq<u128>) -> bool {
    e matches Event::LiquidityAdded { exchange_id: x, who: w, to: t, asset_ids: ids, asset_amounts: am, currency_amounts: ca }
        && x == exchange_id && w == who && t == to && ids@ == asset_ids && am@ == amounts && ca@ == currency_amounts
}

/// One asset of a liquidity withdrawal: `liquidities[i]` shares give their
/// part of the currency reserve and of the asset reserve, which must reach
/// the minimums.
pub open spec fn remove_step(
    p: Pass,
    exchange_id: u32,
    i: int,
    asset_id: u64,
    liquidities: Seq<u128>,
    min_currencies: Seq<u128>,
    min_assets: Seq<u128>,
    asset_reserve: u128,
) -> Pass {
    let k = (exchange_id, asset_id);
    let tl = value_at(p.1, k);
    let cres = value_at(p.0, k);
    if i >= liquidities.len() {
        halt(p, Halt::Panic)
    } else if tl == 0 {
        halt(p, Halt::Fail(Error::InsufficientLiquidity))
    } else {
        let liq = liquidities[i];
        let ca = fit(saturate((liq * cres) as nat) / (tl as nat));
        let aa = fit(saturate((liq * asset_reserve) as nat) / (tl as nat));
        if i >= min_currencies.len() {
            halt(p, Halt::Panic)
        } else if ca < min_currencies[i] {
            halt(p, Halt::Fail(Error::InsufficientCurrencyAmount))
        } else if i >= min_assets.len() {
            halt(p, Halt::Panic)
        } else if aa < min_assets[i] {
            halt(p, Halt::Fail(Error::InsufficientAssetAmount))
        } else {
            let total = sat_add(p.2, ca);
            let a = p.3.update(i, ca);
            let b = p.4.update(i, aa);
            if ca > cres {
                (p.0, p.1, total, a, b, Some(Halt::Fail(Error::Overflow)))
            } else if liq > tl {
                (p.0.insert(k, (cres - ca) as u128), p.1, total, a, b, Some(Halt::Fail(Error::Overflow)))
            } else {
                (p.0.insert(k, (cres - ca) as u128), p.1.insert(k, (tl - liq) as u128), total, a, b, None)
            }
        }
    }
}

/// The steps of a liquidity withdrawal.
pub open spec fn remove_steps(
    exchange_id: u32,
    asset_ids: Seq<u64>,
    liquidities: Seq<u128>,
    min_currencies: Seq<u128>,
    min_assets: Seq<u128>,
    reserves: Seq<u128>,
) -> spec_fn(Pass, int) -> Pass {
    |p: Pass, i: int| remove_step(p, exchange_id, i, asset_ids[i], liquidities, min_currencies, min_assets, reserves[i])
}

/// The loop of `do_remove_liquidity`.
pub open spec fn remove_pass(
    ex: Exchange,
    exchange_id: u32,
    cr: Map<PoolKey, u128>,
    ts: Map<PoolKey, u128>,
    b: Balances,
    asset_ids: Seq<u64>,
    liquidities: Seq<u128>,
    min_currencies: Seq<u128>,
    min_assets: Seq<u128>,
) -> Pass {
    run_pass(
        pass_start(cr, ts, asset_ids.len()),
        remove_steps(exchange_id, asset_ids, liquidities, min_currencies, min_assets, reserves_of(b, ex.vault, ex.asset_class_id, asset_ids)),
        asset_ids.len(),
    )
}

/// The asset moves that complete a liquidity withdrawal: the shares from
/// `who` to the vault, where they are burnt, then the currency total and the
/// assets from the vault to `to`.
pub open spec fn remove_moves(
    b: Balances,
    ex: Exchange,
    who: u64,
    to: u64,
    total: u128,
    asset_ids: Seq<u64>,
    liquidities: Seq<u128>,
    asset_amounts: Seq<u128>,
) -> (Balances, Result<(), DispatchError>) {
    asset::then_run(
        asset::then_run(
            asset::then_run(
                asset::batch_transfer_outcome(b, who, ex.vault, ex.lp_class_id, asset_ids, liquidities),
                |b1: Balances| asset::batch_burn_outcome(b1, ex.vault, ex.lp_class_id, asset_ids, liquidities),
            ),
            |b2: Balances| asset::transfer_outcome(b2, ex.vault, to, ex.currency_class_id, ex.currency_asset_id, total),
        ),
        |b3: Balances| asset::batch_transfer_outcome(b3, ex.vault, to, ex.asset_class_id, asset_ids, asset_amounts),
    )
}

/// `e` records a liquidity withdrawal.
pub open spec fn removed_event(e: Event, exchange_id: u32, who: u64, to: u64, asset_ids: Seq<u64>, asset_amounts: Seq<u128>, currency_amounts: Seq<u128>) -> bool {
    e matches Event::LiquidityRemoved { exchange_id: x, who: w, to: t, asset_ids: ids, asset_amounts: am, currency_amounts: ca }
        && x == exchange_id && w == who && t == to && ids@ == asset_ids && am@ == asset_amounts && ca@ == currency_amounts
}

/// The pools and the exchange registry of two states are the same.
pub open spec fn same_config(a: &Pallet, b: &Pallet) -> bool {
    &&& a.pallet_id == b.pallet_id
    &&& a.create_exchange_deposit == b.create_exchange_deposit
    &&& a.exchanges@ == b.exchanges@
}

impl Pallet {
    /// An empty pallet.
    pub fn new(pallet_id: PalletId, create_exchange_deposit: u128) -> (r: Pallet)
        ensures
            r.pallet_id == pallet_id,
            r.create_exchange_deposit == create_exchange_deposit,
            r.exchanges@ == Map::<u32, Exchange>::empty(),
            r.total_supplies@ == Map::<PoolKey, u128>::empty(),
            r.currency_reserves@ == Map::<PoolKey, u128>::empty(),
            r.events@ == Seq::<Event>::empty(),
    {
        Pallet {
            pallet_id,
            create_exchange_deposit,
            exchanges: BTreeMap::new(),
            total_supplies: BTreeMap::new(),
            currency_reserves: BTreeMap::new(),
            events: Vec::new(),
        }
    }

    /// The pool shares issued for an asset of an exchange.
    pub fn total_supplies(&self, exchange_id: u32, asset_id: u64) -> (r: u128)
        ensures
            r == value_at(self.total_supplies@, (exchange_id, asset_id)),
    {
        match self.total_supplies.get(&(exchange_id, asset_id)) {
            Some(v) => *v,
            None => 0,
        }
    }

    /// The currency held for an asset of an exchange.
    pub fn currency_reserves(&self, exchange_id: u32, asset_id: u64) -> (r: u128)
        ensures
            r == value_at(self.currency_reserves@, (exchange_id, asset_id)),
    {
        match self.currency_reserves.get(&(exchange_id, asset_id)) {
            Some(v) => *v,
            None => 0,
        }
    }

    /// The exchange `exchange_id`, where there is one.
    pub fn exchange(&self, exchange_id: u32) -> (r: Option<Exchange>)
        ensures
            r == (if self.exchanges@.contains_key(exchange_id) { Some(self.exchanges@[exchange_id]) } else { None::<Exchange> }),
    {
        match self.exchanges.get(&exchange_id) {
            Some(e) => Some(*e),
            None => None,
        }
    }

    /// Divides and rounds up, saying whether it rounded.
    fn div_round(numerator: Wide, denominator: Wide) -> (r: (u128, bool))
        requires
            wide_value(denominator) != 0,
        ensures
            r == div_round_spec(wide_value(numerator), wide_value(denominator)),
    {
        proof {
            lemma_pow64();
        }
        let remainder = match checked_rem(numerator, denominator) {
            Some(x) => x,
            None => {
                return (0, false);
            },
        };
        let q = match checked_div(numerator, denominator) {
            Some(x) => x,
            None => {
                return (0, false);
            },
        };
        if is_zero(remainder) {
            let v: u128 = match to_u128(q) {
                Some(v) => v,
                None => 0,
            };
            (v, false)
        } else {
            let v: u128 = match checked_add(q, from_u128(1)) {
                Some(n) => match to_u128(n) {
                    Some(v) => v,
                    None => 0,
                },
                None => 0,
            };
            (v, true)
        }
    }

    /// The currency paid in for `amount_out` assets; see `buy_price`.
    pub fn get_buy_price(amount_out: u128, reserve_in: u128, reserve_out: u128) -> (r: Result<u128, DispatchError>)
        ensures
            r == match buy_price(amount_out, reserve_in, reserve_out) {
                Ok(v) => Ok::<u128, DispatchError>(v),
                Err(e) => derr::<u128>(e),
            },
    {
        if reserve_in == 0 || reserve_out == 0 {
            return Err(DispatchError::Dex(Error::EmptyReserve));
        }
        let numerator = saturating_mul(saturating_mul(from_u128(reserve_in), from_u128(amount_out)), from_u128(1000));
        let denominator = saturating_mul(saturating_sub(from_u128(reserve_out), from_u128(amount_out)), from_u128(995));
        if is_zero(denominator) {
            return Err(DispatchError::Dex(Error::InsufficientLiquidity));
        }
        let (amount_in, _) = Self::div_round(numerator, denominator);
        Ok(amount_in)
    }

    /// The currency paid out for `amount_in` assets; see `sell_price`.
    pub fn get_sell_price(amount_in: u128, reserve_in: u128, reserve_out: u128) -> (r: Result<u128, DispatchError>)
        ensures
            r == match sell_price(amount_in, reserve_in, reserve_out) {
                Ok(v) => Ok::<u128, DispatchError>(v),
                Err(e) => derr::<u128>(e),
            },
    {
        if reserve_in == 0 || reserve_out == 0 {
            return Err(DispatchError::Dex(Error::EmptyReserve));
        }
        let with_fee = saturating_mul(from_u128(amount_in), from_u128(995));
        let numerator = saturating_mul(with_fee, from_u128(reserve_out));
        let denominator = saturating_add(saturating_mul(from_u128(reserve_in), from_u128(1000)), with_fee);
        let amount_out: u128 = match checked_div(numerator, denominator) {
            Some(q) => match to_u128(q) {
                Some(v) => v,
                None => 0,
            },
            None => 0,
        };
        Ok(amount_out)
    }

    /// Buys `asset_amounts_out[i]` of each `asset_ids[i]` from an exchange
    /// for at most `max_currency` of its currency, paid by `who`; the assets
    /// go to `to`. The currency reserves are updated asset by asset, so a
    /// failure part way leaves those already priced updated.
    pub fn do_buy_assets(
        &mut self,
        assets: &mut asset::Pallet,
        who: u64,
        exchange_id: u32,
        asset_ids: Vec<u64>,
        asset_amounts_out: Vec<u128>,
        max_currency: u128,
        to: u64,
    ) -> (r: Result<(), DispatchError>)
        requires
            old(self).exchanges@.contains_key(exchange_id) ==> buy_pass(
                old(self).exchanges@[exchange_id],
                exchange_id,
                old(self).currency_reserves@,
                old(self).total_supplies@,
                old(assets).balances@,
                asset_ids@,
                asset_amounts_out@,
                max_currency,
            ).5 != Some(Halt::Panic),
        ensures
            same_config(old(self), final(self)),
            final(self).total_supplies@ == old(self).total_supplies@,
            asset::same_registry(old(assets), final(assets)),
            asset::events_extended(old(assets).events@, final(assets).events@),
            !old(self).exchanges@.contains_key(exchange_id) ==> r == derr::<()>(Error::InvalidExchange)
                && final(self).currency_reserves@ == old(self).currency_reserves@
                && final(self).events@ == old(self).events@ && asset::unchanged(old(assets), final(assets)),
            old(self).exchanges@.contains_key(exchange_id) ==> ({
                let ex = old(self).exchanges@[exchange_id];
                let p = buy_pass(ex, exchange_id, old(self).currency_reserves@, old(self).total_supplies@, old(assets).balances@,
                    asset_ids@, asset_amounts_out@, max_currency);
                let (b, res) = buy_moves(old(assets).balances@, ex, who, to, p.2, asset_ids@, asset_amounts_out@);
                &&& final(self).currency_reserves@ == p.0
                &&& p.5 matches Some(Halt::Fail(e)) ==> r == derr::<()>(e) && final(self).events@ == old(self).events@
                    && asset::unchanged(old(assets), final(assets))
                &&& p.5 is None ==> {
                    &&& r == res
                    &&& final(assets).balances@ == b
                    &&& res is Err ==> final(self).events@ == old(self).events@
                    &&& res is Ok ==> final(self).events@.len() == old(self).events@.len() + 1
                        && final(self).events@.drop_last() == old(self).events@
                        && buy_event(final(self).events@.last(), exchange_id, who, to, asset_ids@, asset_amounts_out@, p.3)
                }
            }),
    {
        let exchange = match self.exchanges.get(&exchange_id) {
            Some(e) => *e,
            None => {
                assert(old(assets).events@.subrange(0, old(assets).events@.len() as int) =~= old(assets).events@);
                return Err(DispatchError::Dex(Error::InvalidExchange));
            },
        };
        let n = asset_ids.len();
        let mut total: u128 = 0;
        let mut amounts_in: Vec<u128> = vec![0u128; n];
        assert(amounts_in@ =~= zeros(n as nat));
        let ids = asset_ids.clone();
        assert(ids@ =~= asset_ids@);
        let reserves = Self::get_asset_reserves(assets, exchange.vault, exchange.asset_class_id, ids);
        let ghost steps = buy_steps(exchange_id, asset_ids@, asset_amounts_out@, reserves@, max_currency);
        let ghost init = pass_start(old(self).currency_reserves@, old(self).total_supplies@, n as nat);
        for i in 0..n
            invariant
                n == asset_ids.len(),
                n == reserves.len(),
                amounts_in.len() == n,
                exchange == old(self).exchanges@[exchange_id],
                old(self).exchanges@.contains_key(exchange_id),
                reserves@ == reserves_of(old(assets).balances@, exchange.vault, exchange.asset_class_id, asset_ids@),
                steps == buy_steps(exchange_id, asset_ids@, asset_amounts_out@, reserves@, max_currency),
                init == pass_start(old(self).currency_reserves@, old(self).total_supplies@, n as nat),
                run_pass(init, steps, n as nat).5 != Some(Halt::Panic),
                run_pass(init, steps, i as nat) == (self.currency_reserves@, self.total_supplies@, total, amounts_in@, zeros(n as nat), None::<Halt>),
                same_config(old(self), self),
                self.total_supplies@ == old(self).total_supplies@,
                self.events@ == old(self).events@,
                assets.balances@ == old(assets).balances@,
                asset::unchanged(old(assets), assets),
        {
            let asset_id = asset_ids[i];
            proof {
                let p = run_pass(init, steps, i as nat);
                assert(run_pass(init, steps, (i + 1) as nat) == buy_step(p, exchange_id, i as int, asset_id, asset_amounts_out@, reserves@[i as int], max_currency));
            }
            if i >= asset_amounts_out.len() {
                proof {
                    lemma_pass_stopped(init, steps, (i + 1) as nat, n as nat);
                }
                assert(false);
                return Err(DispatchError::Dex(Error::Overflow));
            }
            let amount_out = asset_amounts_out[i];
            if amount_out == 0 {
                proof {
                    lemma_pass_stopped(init, steps, (i + 1) as nat, n as nat);
                    assert(old(assets).events@.subrange(0, old(assets).events@.len() as int) =~= old(assets).events@);
                }
                return Err(DispatchError::Dex(Error::NullAssetsBought));
            }
            let currency_reserve = self.currency_reserves(exchange_id, asset_id);
            let currency_amount = match Self::get_buy_price(amount_out, currency_reserve, reserves[i]) {
                Ok(v) => v,
                Err(e) => {
                    proof {
                        lemma_pass_stopped(init, steps, (i + 1) as nat, n as nat);
                        assert(old(assets).events@.subrange(0, old(assets).events@.len() as int) =~= old(assets).events@);
                    }
                    return Err(e);
                },
            };
            total = total.saturating_add(currency_amount);
            if total > max_currency {
                proof {
                    lemma_pass_stopped(init, steps, (i + 1) as nat, n as nat);
                    assert(old(assets).events@.subrange(0, old(assets).events@.len() as int) =~= old(assets).events@);
                }
                return Err(DispatchError::Dex(Error::MaxCurrencyAmountExceeded));
            }
            amounts_in.set(i, currency_amount);
            match currency_reserve.checked_add(currency_amount) {
                Some(v) => {
                    self.currency_reserves.insert((exchange_id, asset_id), v);
                },
                None => {
                    proof {
                        lemma_pass_stopped(init, steps, (i + 1) as nat, n as nat);
                        assert(old(assets).events@.subrange(0, old(assets).events@.len() as int) =~= old(assets).events@);
                    }
                    return Err(DispatchError::Dex(Error::Overflow));
                },
            }
        }
        let ghost b0 = assets.balances@;
        let r1 = assets.do_transfer_from(who, who, exchange.vault, exchange.currency_class_id, exchange.currency_asset_id, total);
        if r1.is_err() {
            return r1;
        }
        let ids = asset_ids.clone();
        let outs = asset_amounts_out.clone();
        assert(ids@ =~= asset_ids@);
        assert(outs@ =~= asset_amounts_out@);
        let ghost ev1 = assets.events@;
        let r2 = assets.do_batch_transfer_from(exchange.vault, exchange.vault, to, exchange.asset_class_id, ids, outs);
        proof {
            assert(assets.events@.subrange(0, old(assets).events@.len() as int) =~= ev1.subrange(0, old(assets).events@.len() as int));
        }
        if r2.is_err() {
            return r2;
        }
        self.events.push(Event::CurrencyToAsset {
            exchange_id,
            who,
            to,
            asset_ids,
            asset_amounts_out,
            currency_amounts_in: amounts_in,
        });
        assert(self.events@.drop_last() =~= old(self).events@);
        Ok(())
    }

    /// Sells `asset_amounts_in[i]` of each `asset_ids[i]` of `who` to an
    /// exchange for at least `min_currency` of its currency, paid to `to`.
    /// The currency reserves are updated asset by asset, so a failure part
    /// way leaves those already priced updated.
    pub fn do_sell_assets(
        &mut self,
        assets: &mut asset::Pallet,
        who: u64,
        exchange_id: u32,
        asset_ids: Vec<u64>,
        asset_amounts_in: Vec<u128>,
        min_currency: u128,
        to: u64,
    ) -> (r: Result<(), DispatchError>)
        requires
            old(self).exchanges@.contains_key(exchange_id) ==> sell_pass(
                old(self).exchanges@[exchange_id],
                exchange_id,
                old(self).currency_reserves@,
                old(self).total_supplies@,
                old(assets).balances@,
                asset_ids@,
                asset_amounts_in@,
            ).5 != Some(Halt::Panic),
        ensures
            same_config(old(self), final(self)),
            final(self).total_supplies@ == old(self).total_supplies@,
            asset::same_registry(old(assets), final(assets)),
            asset::events_extended(old(assets).events@, final(assets).events@),
            !old(self).exchanges@.contains_key(exchange_id) ==> r == derr::<()>(Error::InvalidExchange)
                && final(self).currency_reserves@ == old(self).currency_reserves@
                && final(self).events@ == old(self).events@ && asset::unchanged(old(assets), final(assets)),
            old(self).exchanges@.contains_key(exchange_id) ==> ({
                let ex = old(self).exchanges@[exchange_id];
                let p = sell_pass(ex, exchange_id, old(self).currency_reserves@, old(self).total_supplies@, old(assets).balances@,
                    asset_ids@, asset_amounts_in@);
                let (b, res) = sell_moves(old(assets).balances@, ex, who, to, p.2, asset_ids@, asset_amounts_in@);
                &&& final(self).currency_reserves@ == p.0
                &&& p.5 matches Some(Halt::Fail(e)) ==> r == derr::<()>(e) && final(self).events@ == old(self).events@
                    && asset::unchanged(old(assets), final(assets))
                &&& p.5 is None && p.2 < min_currency ==> r == derr::<()>(Error::InsufficientCurrencyAmount)
                    && final(self).events@ == old(self).events@ && asset::unchanged(old(assets), final(assets))
                &&& p.5 is None && p.2 >= min_currency ==> {
                    &&& r == res
                    &&& final(assets).balances@ == b
                    &&& res is Err ==> final(self).events@ == old(self).events@
                    &&& res is Ok ==> final(self).events@.len() == old(self).events@.len() + 1
                        && final(self).events@.drop_last() == old(self).events@
                        && sell_event(final(self).events@.last(), exchange_id, who, to, asset_ids@, asset_amounts_in@, p.3)
                }
            }),
    {
        proof {
            assert(old(assets).events@.subrange(0, old(assets).events@.len() as int) =~= old(assets).events@);
        }
        let exchange = match self.exchanges.get(&exchange_id) {
            Some(e) => *e,
            None => {
                return Err(DispatchError::Dex(Error::InvalidExchange));
            },
        };
        let n = asset_ids.len();
        let mut total: u128 = 0;
        let mut amounts_out: Vec<u128> = vec![0u128; n];
        assert(amounts_out@ =~= zeros(n as nat));
        let ids = asset_ids.clone();
        assert(ids@ =~= asset_ids@);
        let reserves = Self::get_asset_reserves(assets, exchange.vault, exchange.asset_class_id, ids);
        let ghost steps = sell_steps(exchange_id, asset_ids@, asset_amounts_in@, reserves@);
        let ghost init = pass_start(old(self).currency_reserves@, old(self).total_supplies@, n as nat);
        for i in 0..n
            invariant
                n == asset_ids.len(),
                n == reserves.len(),
                amounts_out.len() == n,
                exchange == old(self).exchanges@[exchange_id],
                old(self).exchanges@.contains_key(exchange_id),
                reserves@ == reserves_of(old(assets).balances@, exchange.vault, exchange.asset_class_id, asset_ids@),
                steps == sell_steps(exchange_id, asset_ids@, asset_amounts_in@, reserves@),
                init == pass_start(old(self).currency_reserves@, old(self).total_supplies@, n as nat),
                run_pass(init, steps, n as nat).5 != Some(Halt::Panic),
                run_pass(init, steps, i as nat) == (self.currency_reserves@, self.total_supplies@, total, amounts_out@, zeros(n as nat), None::<Halt>),
                same_config(old(self), self),
                self.total_supplies@ == old(self).total_supplies@,
                self.events@ == old(self).events@,
                asset::unchanged(old(assets), assets),
                old(assets).events@.subrange(0, old(assets).events@.len() as int) == old(assets).events@,
        {
            let asset_id = asset_ids[i];
            proof {
                let p = run_pass(init, steps, i as nat);
                assert(run_pass(init, steps, (i + 1) as nat) == sell_step(p, exchange_id, i as int, asset_id, asset_amounts_in@, reserves@[i as int]));
            }
            if i >= asset_amounts_in.len() {
                proof {
                    lemma_pass_stopped(init, steps, (i + 1) as nat, n as nat);
                }
                assert(false);
                return Err(DispatchError::Dex(Error::Overflow));
            }
            let amount_in = asset_amounts_in[i];
            if amount_in == 0 {
                proof {
                    lemma_pass_stopped(init, steps, (i + 1) as nat, n as nat);
                }
                return Err(DispatchError::Dex(Error::NullAssetsSold));
            }
            let currency_reserve = self.currency_reserves(exchange_id, asset_id);
            let currency_amount = match Self::get_sell_price(amount_in, reserves[i].saturating_sub(amount_in), currency_reserve) {
                Ok(v) => v,
                Err(e) => {
                    proof {
                        lemma_pass_stopped(init, steps, (i + 1) as nat, n as nat);
                    }
                    return Err(e);
                },
            };
            total = total.saturating_add(currency_amount);
            amounts_out.set(i, currency_amount);
            match currency_reserve.checked_sub(currency_amount) {
                Some(v) => {
                    self.currency_reserves.insert((exchange_id, asset_id), v);
                },
                None => {
                    proof {
                        lemma_pass_stopped(init, steps, (i + 1) as nat, n as nat);
                    }
                    return Err(DispatchError::Dex(Error::Overflow));
                },
            }
        }
        if total < min_currency {
            return Err(DispatchError::Dex(Error::InsufficientCurrencyAmount));
        }
        let ids = asset_ids.clone();
        let ins = asset_amounts_in.clone();
        assert(ids@ =~= asset_ids@);
        assert(ins@ =~= asset_amounts_in@);
        let r1 = assets.do_batch_transfer_from(who, who, exchange.vault, exchange.asset_class_id, ids, ins);
        if r1.is_err() {
            return r1;
        }
        let ghost ev1 = assets.events@;
        let r2 = assets.do_transfer_from(exchange.vault, exchange.vault, to, exchange.currency_class_id, exchange.currency_asset_id, total);
        proof {
            assert(assets.events@.subrange(0, old(assets).events@.len() as int) =~= ev1.subrange(0, old(assets).events@.len() as int));
        }
        if r2.is_err() {
            return r2;
        }
        self.events.push(Event::AssetToCurrency {
            exchange_id,
            who,
            to,
            asset_ids,
            asset_amounts_in,
            currency_amounts_out: amounts_out,
        });
        assert(self.events@.drop_last() =~= old(self).events@);
        Ok(())
    }

    /// `a * b`, the largest value on overflow.
    fn mul_saturating(a: u128, b: u128) -> (r: u128)
        ensures
            r == sat_mul(a, b),
    {
        match a.checked_mul(b) {
            Some(v) => v,
            None => u128::MAX,
        }
    }

    /// Deposits `asset_amounts[i]` of each `asset_ids[i]` of `who`, with the
    /// currency that the pools ask for (at most `max_currencies[i]` each),
    /// and mints the pool shares to `to`. The reserves and share supplies
    /// are updated asset by asset, so a failure part way leaves those already
    /// handled updated.
    pub fn do_add_liquidity(
        &mut self,
        assets: &mut asset::Pallet,
        who: u64,
        exchange_id: u32,
        to: u64,
        asset_ids: Vec<u64>,
        asset_amounts: Vec<u128>,
        max_currencies: Vec<u128>,
    ) -> (r: Result<(), DispatchError>)
        requires
            old(self).exchanges@.contains_key(exchange_id) ==> add_pass(
                old(self).exchanges@[exchange_id],
                exchange_id,
                old(self).currency_reserves@,
                old(self).total_supplies@,
                old(assets).balances@,
                asset_ids@,
                asset_amounts@,
                max_currencies@,
            ).5 != Some(Halt::Panic),
        ensures
            same_config(old(self), final(self)),
            asset::same_registry(old(assets), final(assets)),
            asset::events_extended(old(assets).events@, final(assets).events@),
            !old(self).exchanges@.contains_key(exchange_id) ==> r == derr::<()>(Error::InvalidExchange)
                && final(self).currency_reserves@ == old(self).currency_reserves@
                && final(self).total_supplies@ == old(self).total_supplies@
                && final(self).events@ == old(self).events@ && asset::unchanged(old(assets), final(assets)),
            old(self).exchanges@.contains_key(exchange_id) ==> ({
                let ex = old(self).exchanges@[exchange_id];
                let p = add_pass(ex, exchange_id, old(self).currency_reserves@, old(self).total_supplies@, old(assets).balances@,
                    asset_ids@, asset_amounts@, max_currencies@);
                let (b, res) = add_moves(old(assets).balances@, ex, who, to, p.2, asset_ids@, asset_amounts@, p.4);
                &&& final(self).currency_reserves@ == p.0
                &&& final(self).total_supplies@ == p.1
                &&& p.5 matches Some(Halt::Fail(e)) ==> r == derr::<()>(e) && final(self).events@ == old(self).events@
                    && asset::unchanged(old(assets), final(assets))
                &&& p.5 is None ==> {
                    &&& r == res
                    &&& final(assets).balances@ == b
                    &&& res is Err ==> final(self).events@ == old(self).events@
                    &&& res is Ok ==> final(self).events@.len() == old(self).events@.len() + 1
                        && final(self).events@.drop_last() == old(self).events@
                        && added_event(final(self).events@.last(), exchange_id, who, to, asset_ids@, asset_amounts@, p.3)
                }
            }),
    {
        proof {
            assert(old(assets).events@.subrange(0, old(assets).events@.len() as int) =~= old(assets).events@);
            lemma_pow64();
        }
        let exchange = match self.exchanges.get(&exchange_id) {
            Some(e) => *e,
            None => {
                return Err(DispatchError::Dex(Error::InvalidExchange));
            },
        };
        let n = asset_ids.len();
        let mut total: u128 = 0;
        let mut liquidities: Vec<u128> = vec![0u128; n];
        let mut currency_amounts: Vec<u128> = vec![0u128; n];
        assert(liquidities@ =~= zeros(n as nat));
        assert(currency_amounts@ =~= zeros(n as nat));
        let ids = asset_ids.clone();
        assert(ids@ =~= asset_ids@);
        let reserves = Self::get_asset_reserves(assets, exchange.vault, exchange.asset_class_id, ids);
        let ghost steps = add_steps(exchange, exchange_id, asset_ids@, asset_amounts@, max_currencies@, reserves@);
        let ghost init = pass_start(old(self).currency_reserves@, old(self).total_supplies@, n as nat);
        for i in 0..n
            invariant
                n == asset_ids.len(),
                n == reserves.len(),
                liquidities.len() == n,
                currency_amounts.len() == n,
                exchange == old(self).exchanges@[exchange_id],
                old(self).exchanges@.contains_key(exchange_id),
                reserves@ == reserves_of(old(assets).balances@, exchange.vault, exchange.asset_class_id, asset_ids@),
                steps == add_steps(exchange, exchange_id, asset_ids@, asset_amounts@, max_currencies@, reserves@),
                init == pass_start(old(self).currency_reserves@, old(self).total_supplies@, n as nat),
                run_pass(init, steps, n as nat).5 != Some(Halt::Panic),
                run_pass(init, steps, i as nat) == (self.currency_reserves@, self.total_supplies@, total, currency_amounts@, liquidities@, None::<Halt>),
                same_config(old(self), self),
                self.events@ == old(self).events@,
                asset::unchanged(old(assets), assets),
                old(assets).events@.subrange(0, old(assets).events@.len() as int) == old(assets).events@,
                pow64(4) > u128::MAX,
        {
            let asset_id = asset_ids[i];
            proof {
                let p = run_pass(init, steps, i as nat);
                assert(run_pass(init, steps, (i + 1) as nat) == add_step(p, exchange, exchange_id, i as int, asset_id,
                    asset_amounts@, max_currencies@, reserves@[i as int]));
            }
            if i >= asset_amounts.len() || i >= max_currencies.len() {
                proof {
                    lemma_pass_stopped(init, steps, (i + 1) as nat, n as nat);
                }
                assert(false);
                return Err(DispatchError::Dex(Error::Overflow));
            }
            let amount = asset_amounts[i];
            if max_currencies[i] == 0 {
                proof {
                    lemma_pass_stopped(init, steps, (i + 1) as nat, n as nat);
                }
                return Err(DispatchError::Dex(Error::InvalidMaxCurrency));
            }
            if amount == 0 {
                proof {
                    lemma_pass_stopped(init, steps, (i + 1) as nat, n as nat);
                }
                return Err(DispatchError::Dex(Error::InsufficientAssetAmount));
            }
            if exchange.currency_class_id == exchange.asset_class_id && exchange.currency_asset_id == asset_id {
                proof {
                    lemma_pass_stopped(init, steps, (i + 1) as nat, n as nat);
                }
                return Err(DispatchError::Dex(Error::SameCurrencyAndAsset));
            }
            let total_liquidity = self.total_supplies(exchange_id, asset_id);
            if total_liquidity > 0 {
                let currency_reserve = self.currency_reserves(exchange_id, asset_id);
                let numerator = saturating_mul(from_u128(amount), from_u128(currency_reserve));
                let denominator = saturating_sub(from_u128(reserves[i]), from_u128(amount));
                if is_zero(denominator) {
                    proof {
                        lemma_pass_stopped(init, steps, (i + 1) as nat, n as nat);
                    }
                    assert(false);
                    return Err(DispatchError::Dex(Error::Overflow));
                }
                let (currency_amount, rounded) = Self::div_round(numerator, denominator);
                if max_currencies[i] < currency_amount {
                    proof {
                        lemma_pass_stopped(init, steps, (i + 1) as nat, n as nat);
                    }
                    return Err(DispatchError::Dex(Error::MaxCurrencyAmountExceeded));
                }
                total = total.saturating_add(currency_amount);
                let fixed = if rounded { currency_amount.saturating_sub(1) } else { currency_amount };
                if currency_reserve == 0 {
                    proof {
                        lemma_pass_stopped(init, steps, (i + 1) as nat, n as nat);
                    }
                    assert(false);
                    return Err(DispatchError::Dex(Error::Overflow));
                }
                let liquidity = Self::mul_saturating(fixed, total_liquidity) / currency_reserve;
                liquidities.set(i, liquidity);
                currency_amounts.set(i, currency_amount);
                match currency_reserve.checked_add(currency_amount) {
                    Some(v) => {
                        self.currency_reserves.insert((exchange_id, asset_id), v);
                    },
                    None => {
                        proof {
                            lemma_pass_stopped(init, steps, (i + 1) as nat, n as nat);
                        }
                        return Err(DispatchError::Dex(Error::Overflow));
                    },
                }
                match total_liquidity.checked_add(liquidity) {
                    Some(v) => {
                        self.total_supplies.insert((exchange_id, asset_id), v);
                    },
                    None => {
                        proof {
                            lemma_pass_stopped(init, steps, (i + 1) as nat, n as nat);
                        }
                        return Err(DispatchError::Dex(Error::Overflow));
                    },
                }
            } else {
                let max_currency = max_currencies[i];
                if max_currency < 1_000_000_000 {
                    proof {
                        lemma_pass_stopped(init, steps, (i + 1) as nat, n as nat);
                    }
                    return Err(DispatchError::Dex(Error::InvalidCurrencyAmount));
                }
                total = total.saturating_add(max_currency);
                liquidities.set(i, max_currency);
                currency_amounts.set(i, max_currency);
                self.currency_reserves.insert((exchange_id, asset_id), max_currency);
                self.total_supplies.insert((exchange_id, asset_id), max_currency);
            }
        }
        let ids = asset_ids.clone();
        let amts = asset_amounts.clone();
        assert(ids@ =~= asset_ids@);
        assert(amts@ =~= asset_amounts@);
        let r1 = assets.do_batch_transfer_from(who, who, exchange.vault, exchange.asset_class_id, ids, amts);
        if r1.is_err() {
            return r1;
        }
        let ids = asset_ids.clone();
        let liqs = liquidities.clone();
        assert(ids@ =~= asset_ids@);
        assert(liqs@ =~= liquidities@);
        let ghost ev1 = assets.events@;
        let r2 = assets.do_batch_mint(exchange.vault, to, exchange.lp_class_id, ids, liqs);
        proof {
            assert(assets.events@.subrange(0, old(assets).events@.len() as int) =~= ev1.subrange(0, old(assets).events@.len() as int));
        }
        if r2.is_err() {
            return r2;
        }
        let ghost ev2 = assets.events@;
        let r3 = assets.do_transfer_from(who, who, exchange.vault, exchange.currency_class_id, exchange.currency_asset_id, total);
        proof {
            assert(assets.events@.subrange(0, old(assets).events@.len() as int) =~= ev2.subrange(0, old(assets).events@.len() as int));
        }
        if r3.is_err() {
            return r3;
        }
        self.events.push(Event::LiquidityAdded {
            exchange_id,
            who,
            to,
            asset_ids,
            asset_amounts,
            currency_amounts,
        });
        assert(self.events@.drop_last() =~= old(self).events@);
        Ok(())
    }

    /// `numerator / denominator` read back as 128 bits, zero where it does
    /// not fit.
    fn share_of(numerator: Wide, denominator: Wide) -> (r: u128)
        requires
            wide_value(denominator) != 0,
        ensures
            r == fit(wide_value(numerator) / wide_value(denominator)),
    {
        match checked_div(numerator, denominator) {
            Some(q) => match to_u128(q) {
                Some(v) => v,
                None => 0,
            },
            None => 0,
        }
    }

    /// Withdraws `liquidities[i]` pool shares of each `asset_ids[i]` from
    /// `who`, paying their part of the currency and asset reserves to `to`,
    /// at least `min_currencies[i]` and `min_assets[i]`. The reserves and
    /// share supplies are updated asset by asset, so a failure part way
    /// leaves those already handled updated.
    pub fn do_remove_liquidity(
        &mut self,
        assets: &mut asset::Pallet,
        who: u64,
        exchange_id: u32,
        to: u64,
        asset_ids: Vec<u64>,
        liquidities: Vec<u128>,
        min_currencies: Vec<u128>,
        min_assets: Vec<u128>,
    ) -> (r: Result<(), DispatchError>)
        requires
            old(self).exchanges@.contains_key(exchange_id) ==> remove_pass(
                old(self).exchanges@[exchange_id],
                exchange_id,
                old(self).currency_reserves@,
                old(self).total_supplies@,
                old(assets).balances@,
                asset_ids@,
                liquidities@,
                min_currencies@,
                min_assets@,
            ).5 != Some(Halt::Panic),
        ensures
            same_config(old(self), final(self)),
            asset::same_registry(old(assets), final(assets)),
            asset::events_extended(old(assets).events@, final(assets).events@),
            !old(self).exchanges@.contains_key(exchange_id) ==> r == derr::<()>(Error::InvalidExchange)
                && final(self).currency_reserves@ == old(self).currency_reserves@
                && final(self).total_supplies@ == old(self).total_supplies@
                && final(self).events@ == old(self).events@ && asset::unchanged(old(assets), final(assets)),
            old(self).exchanges@.contains_key(exchange_id) ==> ({
                let ex = old(self).exchanges@[exchange_id];
                let p = remove_pass(ex, exchange_id, old(self).currency_reserves@, old(self).total_supplies@, old(assets).balances@,
                    asset_ids@, liquidities@, min_currencies@, min_assets@);
                let (b, res) = remove_moves(old(assets).balances@, ex, who, to, p.2, asset_ids@, liquidities@, p.4);
                &&& final(self).currency_reserves@ == p.0
                &&& final(self).total_supplies@ == p.1
                &&& p.5 matches Some(Halt::Fail(e)) ==> r == derr::<()>(e) && final(self).events@ == old(self).events@
                    && asset::unchanged(old(assets), final(assets))
                &&& p.5 is None ==> {
                    &&& r == res
                    &&& final(assets).balances@ == b
                    &&& res is Err ==> final(self).events@ == old(self).events@
                    &&& res is Ok ==> final(self).events@.len() == old(self).events@.len() + 1
                        && final(self).events@.drop_last() == old(self).events@
                        && removed_event(final(self).events@.last(), exchange_id, who, to, asset_ids@, p.4, p.3)
                }
            }),
    {
        proof {
            assert(old(assets).events@.subrange(0, old(assets).events@.len() as int) =~= old(assets).events@);
            lemma_pow64();
        }
        let exchange = match self.exchanges.get(&exchange_id) {
            Some(e) => *e,
            None => {
                return Err(DispatchError::Dex(Error::InvalidExchange));
            },
        };
        let n = asset_ids.len();
        let mut total: u128 = 0;
        let mut asset_amounts: Vec<u128> = vec![0u128; n];
        let mut currency_amounts: Vec<u128> = vec![0u128; n];
        assert(asset_amounts@ =~= zeros(n as nat));
        assert(currency_amounts@ =~= zeros(n as nat));
        let ids = asset_ids.clone();
        assert(ids@ =~= asset_ids@);
        let reserves = Self::get_asset_reserves(assets, exchange.vault, exchange.asset_class_id, ids);
        let ghost steps = remove_steps(exchange_id, asset_ids@, liquidities@, min_currencies@, min_assets@, reserves@);
        let ghost init = pass_start(old(self).currency_reserves@, old(self).total_supplies@, n as nat);
        for i in 0..n
            invariant
                n == asset_ids.len(),
                n == reserves.len(),
                asset_amounts.len() == n,
                currency_amounts.len() == n,
                exchange == old(self).exchanges@[exchange_id],
                old(self).exchanges@.contains_key(exchange_id),
                reserves@ == reserves_of(old(assets).balances@, exchange.vault, exchange.asset_class_id, asset_ids@),
                steps == remove_steps(exchange_id, asset_ids@, liquidities@, min_currencies@, min_assets@, reserves@),
                init == pass_start(old(self).currency_reserves@, old(self).total_supplies@, n as nat),
                run_pass(init, steps, n as nat).5 != Some(Halt::Panic),
                run_pass(init, steps, i as nat) == (self.currency_reserves@, self.total_supplies@, total, currency_amounts@, asset_amounts@, None::<Halt>),
                same_config(old(self), self),
                self.events@ == old(self).events@,
                asset::unchanged(old(assets), assets),
                old(assets).events@.subrange(0, old(assets).events@.len() as int) == old(assets).events@,
                pow64(4) > u128::MAX,
        {
            let asset_id = asset_ids[i];
            proof {
                let p = run_pass(init, steps, i as nat);
                assert(run_pass(init, steps, (i + 1) as nat) == remove_step(p, exchange_id, i as int, asset_id,
                    liquidities@, min_currencies@, min_assets@, reserves@[i as int]));
            }
            if i >= liquidities.len() {
                proof {
                    lemma_pass_stopped(init, steps, (i + 1) as nat, n as nat);
                }
                assert(false);
                return Err(DispatchError::Dex(Error::Overflow));
            }
            let liquidity = liquidities[i];
            let total_liquidity = self.total_supplies(exchange_id, asset_id);
            if total_liquidity == 0 {
                proof {
                    lemma_pass_stopped(init, steps, (i + 1) as nat, n as nat);
                }
                return Err(DispatchError::Dex(Error::InsufficientLiquidity));
            }
            let currency_reserve = self.currency_reserves(exchange_id, asset_id);
            let currency_amount = Self::share_of(
                saturating_mul(from_u128(liquidity), from_u128(currency_reserve)),
                from_u128(total_liquidity),
            );
            let asset_amount = Self::share_of(
                saturating_mul(from_u128(liquidity), from_u128(reserves[i])),
                from_u128(total_liquidity),
            );
            if i >= min_currencies.len() {
                proof {
                    lemma_pass_stopped(init, steps, (i + 1) as nat, n as nat);
                }
                assert(false);
                return Err(DispatchError::Dex(Error::Overflow));
            }
            if currency_amount < min_currencies[i] {
                proof {
                    lemma_pass_stopped(init, steps, (i + 1) as nat, n as nat);
                }
                return Err(DispatchError::Dex(Error::InsufficientCurrencyAmount));
            }
            if i >= min_assets.len() {
                proof {
                    lemma_pass_stopped(init, steps, (i + 1) as nat, n as nat);
                }
                assert(false);
                return Err(DispatchError::Dex(Error::Overflow));
            }
            if asset_amount < min_assets[i] {
                proof {
                    lemma_pass_stopped(init, steps, (i + 1) as nat, n as nat);
                }
                return Err(DispatchError::Dex(Error::InsufficientAssetAmount));
            }
            total = total.saturating_add(currency_amount);
            asset_amounts.set(i, asset_amount);
            currency_amounts.set(i, currency_amount);
            match currency_reserve.checked_sub(currency_amount) {
                Some(v) => {
                    self.currency_reserves.insert((exchange_id, asset_id), v);
                },
                None => {
                    proof {
                        lemma_pass_stopped(init, steps, (i + 1) as nat, n as nat);
                    }
                    return Err(DispatchError::Dex(Error::Overflow));
                },
            }
            match total_liquidity.checked_sub(liquidity) {
                Some(v) => {
                    self.total_supplies.insert((exchange_id, asset_id), v);
                },
                None => {
                    proof {
                        lemma_pass_stopped(init, steps, (i + 1) as nat, n as nat);
                    }
                    return Err(DispatchError::Dex(Error::Overflow));
                },
            }
        }
        let ids = asset_ids.clone();
        let liqs = liquidities.clone();
        assert(ids@ =~= asset_ids@);
        assert(liqs@ =~= liquidities@);
        let r1 = assets.do_batch_transfer_from(who, who, exchange.vault, exchange.lp_class_id, ids, liqs);
        if r1.is_err() {
            return r1;
        }
        let ids = asset_ids.clone();
        let liqs = liquidities.clone();
        assert(ids@ =~= asset_ids@);
        assert(liqs@ =~= liquidities@);
        let ghost ev1 = assets.events@;
        let r2 = assets.do_batch_burn(exchange.vault, exchange.vault, exchange.lp_class_id, ids, liqs);
        proof {
            assert(assets.events@.subrange(0, old(assets).events@.len() as int) =~= ev1.subrange(0, old(assets).events@.len() as int));
        }
        if r2.is_err() {
            return r2;
        }
        let ghost ev2 = assets.events@;
        let r3 = assets.do_transfer_from(exchange.vault, exchange.vault, to, exchange.currency_class_id, exchange.currency_asset_id, total);
        proof {
            assert(assets.events@.subrange(0, old(assets).events@.len() as int) =~= ev2.subrange(0, old(assets).events@.len() as int));
        }
        if r3.is_err() {
            return r3;
        }
        let ids = asset_ids.clone();
        let amts = asset_amounts.clone();
        assert(ids@ =~= asset_ids@);
        assert(amts@ =~= asset_amounts@);
        let ghost ev3 = assets.events@;
        let r4 = assets.do_batch_transfer_from(exchange.vault, exchange.vault, to, exchange.asset_class_id, ids, amts);
        proof {
            assert(assets.events@.subrange(0, old(assets).events@.len() as int) =~= ev3.subrange(0, old(assets).events@.len() as int));
        }
        if r4.is_err() {
            return r4;
        }
        self.events.push(Event::LiquidityRemoved {
            exchange_id,
            who,
            to,
            asset_ids,
            asset_amounts,
            currency_amounts,
        });
        assert(self.events@.drop_last() =~= old(self).events@);
        Ok(())
    }

    /// Creates exchange `exchange_id` between the assets of
    /// `asset_class_id` and the currency `currency_id`, with pool shares in
    /// the new class `lp_class_id`. The signer pays the creation deposit to
    /// the pallet's account, which becomes the vault and owns the share
    /// class. A failed call changes nothing.
    pub fn create_exchange<C: ReservableCurrency>(
        &mut self,
        assets: &mut asset::Pallet,
        currency: &mut C,
        currencies: &currency::Pallet,
        origin: Origin,
        exchange_id: u32,
        currency_id: CurrencyId,
        asset_class_id: u64,
        lp_class_id: u64,
    ) -> (r: Result<(), DispatchError>)
        ensures
            final(self).pallet_id == old(self).pallet_id,
            final(self).create_exchange_deposit == old(self).create_exchange_deposit,
            final(self).total_supplies@ == old(self).total_supplies@,
            final(self).currency_reserves@ == old(self).currency_reserves@,
            !(origin is Signed) ==> r == Err::<(), DispatchError>(DispatchError::BadOrigin),
            r is Err ==> final(self).exchanges@ == old(self).exchanges@ && final(self).events@ == old(self).events@
                && asset::unchanged(old(assets), final(assets)) && same_funds(*old(currency), *final(currency)),
            origin is Signed ==> ({
                let who = origin->Signed_0;
                let vault = pallet_account_spec(old(self).pallet_id.0);
                &&& old(self).exchanges@.contains_key(exchange_id) ==> r == derr::<()>(Error::InvalidExchange)
                &&& !old(self).exchanges@.contains_key(exchange_id) && !old(assets).classes@.contains_key(asset_class_id)
                    ==> r == derr::<()>(Error::InvalidAssetClass)
                &&& !old(self).exchanges@.contains_key(exchange_id) && old(assets).classes@.contains_key(asset_class_id)
                    && old(assets).classes@.contains_key(lp_class_id) ==> r == derr::<()>(Error::InvalidLiquidityClass)
                &&& !currencies.currency_assets@.contains_key(currency::key_of(currency_id)) ==> r is Err
                &&& !old(currency).transfer_allowed(who, vault, old(self).create_exchange_deposit) ==> r is Err
                &&& !old(self).exchanges@.contains_key(exchange_id) && old(assets).classes@.contains_key(asset_class_id)
                    && !old(assets).classes@.contains_key(lp_class_id)
                    && currencies.currency_assets@.contains_key(currency::key_of(currency_id))
                    && old(currency).transfer_allowed(who, vault, old(self).create_exchange_deposit)
                    && (forall|mid: C| #[trigger] transfer_effect(*old(currency), mid, who, vault, old(self).create_exchange_deposit)
                        ==> mid.reserve_allowed(vault, old(assets).create_asset_class_deposit)) ==> r is Ok
                &&& r is Ok ==> {
                    &&& !old(self).exchanges@.contains_key(exchange_id)
                    &&& old(assets).classes@.contains_key(asset_class_id)
                    &&& !old(assets).classes@.contains_key(lp_class_id)
                    &&& currencies.currency_assets@.contains_key(currency::key_of(currency_id))
                    &&& final(self).exchanges@ == old(self).exchanges@.insert(exchange_id, Exchange {
                        creator: who,
                        asset_class_id,
                        currency_class_id: currency_id.0,
                        currency_asset_id: currency_id.1,
                        lp_class_id,
                        vault,
                    })
                    &&& final(self).events@ == old(self).events@.push(Event::ExchangeCreated { exchange_id, who })
                    &&& exists|mid: C| transfer_effect(*old(currency), mid, who, vault, old(self).create_exchange_deposit)
                        && reserve_effect(mid, *final(currency), vault, old(assets).create_asset_class_deposit)
                    &&& final(assets).classes@.dom() == old(assets).classes@.dom().insert(lp_class_id)
                    &&& forall|c: u64| c != lp_class_id ==> #[trigger] final(assets).classes@[c] == old(assets).classes@[c]
                    &&& final(assets).classes@[lp_class_id].owner == vault
                    &&& final(assets).classes@[lp_class_id].metadata@ == Seq::<u8>::empty()
                    &&& final(assets).assets@ == old(assets).assets@
                    &&& final(assets).asset_count@ == old(assets).asset_count@
                    &&& final(assets).balances@ == old(assets).balances@
                    &&& final(assets).events@ == old(assets).events@.push(asset::Event::ClassCreated { class_id: lp_class_id, who: vault })
                }
            }),
    {
        let who = ensure_signed(origin)?;
        if self.exchanges.contains_key(&exchange_id) {
            return Err(DispatchError::Dex(Error::InvalidExchange));
        }
        if !assets.class_exists(asset_class_id) {
            return Err(DispatchError::Dex(Error::InvalidAssetClass));
        }
        if assets.class_exists(lp_class_id) {
            return Err(DispatchError::Dex(Error::InvalidLiquidityClass));
        }
        let fund_account = self.pallet_id.into_sub_account_truncating();
        let saved_funds = currency.duplicate();
        let deposit = self.create_exchange_deposit;
        currency.transfer(who, fund_account, deposit)?;
        let ghost mid = *currency;
        assert(transfer_effect(*old(currency), mid, who, fund_account, deposit));
        let md: Vec<u8> = Vec::new();
        assert(md@ =~= Seq::<u8>::empty());
        let r = assets.do_create_class(currency, fund_account, fund_account, lp_class_id, md);
        if r.is_err() {
            *currency = saved_funds;
            return r;
        }
        let (currency_class_id, currency_asset_id) = match currencies.get_currency_asset(currency_id) {
            Ok(k) => k,
            Err(e) => {
                assets.classes.remove(&lp_class_id);
                let n = assets.events.len() - 1;
                assets.events.truncate(n);
                assert(assets.classes@ =~= old(assets).classes@);
                assert(assets.events@ =~= old(assets).events@);
                *currency = saved_funds;
                assert(asset::unchanged(old(assets), assets));
                assert(same_funds(*old(currency), *currency));
                return Err(e);
            },
        };
        self.exchanges.insert(exchange_id, Exchange {
            creator: who,
            asset_class_id,
            currency_class_id,
            currency_asset_id,
            lp_class_id,
            vault: fund_account,
        });
        self.events.push(Event::ExchangeCreated { exchange_id, who });
        proof {
            assert(transfer_effect(*old(currency), mid, who, fund_account, deposit));
        }
        Ok(())
    }

    /// `do_buy_assets` for the signer; a failed call changes nothing.
    pub fn buy_assets(
        &mut self,
        assets: &mut asset::Pallet,
        origin: Origin,
        exchange_id: u32,
        asset_ids: Vec<u64>,
        asset_amounts_out: Vec<u128>,
        max_currency: u128,
        to: u64,
    ) -> (r: Result<(), DispatchError>)
        requires
            origin is Signed && old(self).exchanges@.contains_key(exchange_id) ==> buy_pass(old(self).exchanges@[exchange_id], exchange_id, old(self).currency_reserves@, old(self).total_supplies@, old(assets).balances@, asset_ids@, asset_amounts_out@, max_currency).5 != Some(Halt::Panic),
        ensures
            same_config(old(self), final(self)),
            asset::same_registry(old(assets), final(assets)),
            !(origin is Signed) ==> r == Err::<(), DispatchError>(DispatchError::BadOrigin),
            r is Err ==> final(self).currency_reserves@ == old(self).currency_reserves@
                && final(self).total_supplies@ == old(self).total_supplies@
                && final(self).events@ == old(self).events@ && asset::unchanged(old(assets), final(assets)),
            origin is Signed ==> ({
                let who = origin->Signed_0;
                &&& !old(self).exchanges@.contains_key(exchange_id) ==> r == derr::<()>(Error::InvalidExchange)
                &&& old(self).exchanges@.contains_key(exchange_id) ==> {
                    let ex = old(self).exchanges@[exchange_id];
                    let p = buy_pass(old(self).exchanges@[exchange_id], exchange_id, old(self).currency_reserves@, old(self).total_supplies@, old(assets).balances@, asset_ids@, asset_amounts_out@, max_currency);
                    let (b, res) = buy_moves(old(assets).balances@, ex, who, to, p.2, asset_ids@, asset_amounts_out@);
                    &&& p.5 matches Some(Halt::Fail(e)) ==> r == derr::<()>(e)
                    &&& p.5 is None ==> r == res
                    &&& r is Ok ==> {
                        &&& final(self).currency_reserves@ == p.0
                        &&& final(self).total_supplies@ == old(self).total_supplies@
                        &&& final(assets).balances@ == b
                        &&& asset::events_extended(old(assets).events@, final(assets).events@)
                        &&& final(self).events@.len() == old(self).events@.len() + 1
                        &&& final(self).events@.drop_last() == old(self).events@
                        &&& buy_event(final(self).events@.last(), exchange_id, who, to, asset_ids@, asset_amounts_out@, p.3)
                    }
                }
            }),
    {
        let who = ensure_signed(origin)?;
        let saved_reserves = self.currency_reserves.clone();
        let saved_supplies = self.total_supplies.clone();
        let saved_balances = assets.balances.clone();
        let n_events = assets.events.len();
        let r = self.do_buy_assets(assets, who, exchange_id, asset_ids, asset_amounts_out, max_currency, to);
        if r.is_err() {
            self.currency_reserves = saved_reserves;
            self.total_supplies = saved_supplies;
            assets.balances = saved_balances;
            assets.events.truncate(n_events);
            assert(assets.events@ =~= old(assets).events@);
        }
        r
    }

    /// `do_sell_assets` for the signer; a failed call changes nothing.
    pub fn sell_assets(
        &mut self,
        assets: &mut asset::Pallet,
        origin: Origin,
        exchange_id: u32,
        asset_ids: Vec<u64>,
        asset_amounts_in: Vec<u128>,
        min_currency: u128,
        to: u64,
    ) -> (r: Result<(), DispatchError>)
        requires
            origin is Signed && old(self).exchanges@.contains_key(exchange_id) ==> sell_pass(old(self).exchanges@[exchange_id], exchange_id, old(self).currency_reserves@, old(self).total_supplies@, old(assets).balances@, asset_ids@, asset_amounts_in@).5 != Some(Halt::Panic),
        ensures
            same_config(old(self), final(self)),
            asset::same_registry(old(assets), final(assets)),
            !(origin is Signed) ==> r == Err::<(), DispatchError>(DispatchError::BadOrigin),
            r is Err ==> final(self).currency_reserves@ == old(self).currency_reserves@
                && final(self).total_supplies@ == old(self).total_supplies@
                && final(self).events@ == old(self).events@ && asset::unchanged(old(assets), final(assets)),
            origin is Signed ==> ({
                let who = origin->Signed_0;
                &&& !old(self).exchanges@.contains_key(exchange_id) ==> r == derr::<()>(Error::InvalidExchange)
                &&& old(self).exchanges@.contains_key(exchange_id) ==> {
                    let ex = old(self).exchanges@[exchange_id];
                    let p = sell_pass(old(self).exchanges@[exchange_id], exchange_id, old(self).currency_reserves@, old(self).total_supplies@, old(assets).balances@, asset_ids@, asset_amounts_in@);
                    let (b, res) = sell_moves(old(assets).balances@, ex, who, to, p.2, asset_ids@, asset_amounts_in@);
                    &&& p.5 matches Some(Halt::Fail(e)) ==> r == derr::<()>(e)
                    &&& p.5 is None && p.2 < min_currency ==> r == derr::<()>(Error::InsufficientCurrencyAmount)
                    &&& p.5 is None && p.2 >= min_currency ==> r == res
                    &&& r is Ok ==> {
                        &&& final(self).currency_reserves@ == p.0
                        &&& final(self).total_supplies@ == old(self).total_supplies@
                        &&& final(assets).balances@ == b
                        &&& asset::events_extended(old(assets).events@, final(assets).events@)
                        &&& final(self).events@.len() == old(self).events@.len() + 1
                        &&& final(self).events@.drop_last() == old(self).events@
                        &&& sell_event(final(self).events@.last(), exchange_id, who, to, asset_ids@, asset_amounts_in@, p.3)
                    }
                }
            }),
    {
        let who = ensure_signed(origin)?;
        let saved_reserves = self.currency_reserves.clone();
        let saved_supplies = self.total_supplies.clone();
        let saved_balances = assets.balances.clone();
        let n_events = assets.events.len();
        let r = self.do_sell_assets(assets, who, exchange_id, asset_ids, asset_amounts_in, min_currency, to);
        if r.is_err() {
            self.currency_reserves = saved_reserves;
            self.total_supplies = saved_supplies;
            assets.balances = saved_balances;
            assets.events.truncate(n_events);
            assert(assets.events@ =~= old(assets).events@);
        }
        r
    }

    /// `do_add_liquidity` for the signer; a failed call changes nothing.
    pub fn add_liquidity(
        &mut self,
        assets: &mut asset::Pallet,
        origin: Origin,
        exchange_id: u32,
        to: u64,
        asset_ids: Vec<u64>,
        asset_amounts: Vec<u128>,
        max_currencies: Vec<u128>,
    ) -> (r: Result<(), DispatchError>)
        requires
            origin is Signed && old(self).exchanges@.contains_key(exchange_id) ==> add_pass(old(self).exchanges@[exchange_id], exchange_id, old(self).currency_reserves@, old(self).total_supplies@, old(assets).balances@, asset_ids@, asset_amounts@, max_currencies@).5 != Some(Halt::Panic),
        ensures
            same_config(old(self), final(self)),
            asset::same_registry(old(assets), final(assets)),
            !(origin is Signed) ==> r == Err::<(), DispatchError>(DispatchError::BadOrigin),
            r is Err ==> final(self).currency_reserves@ == old(self).currency_reserves@
                && final(self).total_supplies@ == old(self).total_supplies@
                && final(self).events@ == old(self).events@ && asset::unchanged(old(assets), final(assets)),
            origin is Signed ==> ({
                let who = origin->Signed_0;
                &&& !old(self).exchanges@.contains_key(exchange_id) ==> r == derr::<()>(Error::InvalidExchange)
                &&& old(self).exchanges@.contains_key(exchange_id) ==> {
                    let ex = old(self).exchanges@[exchange_id];
                    let p = add_pass(old(self).exchanges@[exchange_id], exchange_id, old(self).currency_reserves@, old(self).total_supplies@, old(assets).balances@, asset_ids@, asset_amounts@, max_currencies@);
                    let (b, res) = add_moves(old(assets).balances@, ex, who, to, p.2, asset_ids@, asset_amounts@, p.4);
                    &&& p.5 matches Some(Halt::Fail(e)) ==> r == derr::<()>(e)
                    &&& p.5 is None ==> r == res
                    &&& r is Ok ==> {
                        &&& final(self).currency_reserves@ == p.0
                        &&& final(self).total_supplies@ == p.1
                        &&& final(assets).balances@ == b
                        &&& asset::events_extended(old(assets).events@, final(assets).events@)
                        &&& final(self).events@.len() == old(self).events@.len() + 1
                        &&& final(self).events@.drop_last() == old(self).events@
                        &&& added_event(final(self).events@.last(), exchange_id, who, to, asset_ids@, asset_amounts@, p.3)
                    }
                }
            }),
    {
        let who = ensure_signed(origin)?;
        let saved_reserves = self.currency_reserves.clone();
        let saved_supplies = self.total_supplies.clone();
        let saved_balances = assets.balances.clone();
        let n_events = assets.events.len();
        let r = self.do_add_liquidity(assets, who, exchange_id, to, asset_ids, asset_amounts, max_currencies);
        if r.is_err() {
            self.currency_reserves = saved_reserves;
            self.total_supplies = saved_supplies;
            assets.balances = saved_balances;
            assets.events.truncate(n_events);
            assert(assets.events@ =~= old(assets).events@);
        }
        r
    }

    /// `do_remove_liquidity` for the signer; a failed call changes nothing.
    pub fn remove_liquidity(
        &mut self,
        assets: &mut asset::Pallet,
        origin: Origin,
        exchange_id: u32,
        to: u64,
        asset_ids: Vec<u64>,
        liquidities: Vec<u128>,
        min_currencies: Vec<u128>,
        min_assets: Vec<u128>,
    ) -> (r: Result<(), DispatchError>)
        requires
            origin is Signed && old(self).exchanges@.contains_key(exchange_id) ==> remove_pass(old(self).exchanges@[exchange_id], exchange_id, old(self).currency_reserves@, old(self).total_supplies@, old(assets).balances@, asset_ids@, liquidities@, min_currencies@, min_assets@).5 != Some(Halt::Panic),
        ensures
            same_config(old(self), final(self)),
            asset::same_registry(old(assets), final(assets)),
            !(origin is Signed) ==> r == Err::<(), DispatchError>(DispatchError::BadOrigin),
            r is Err ==> final(self).currency_reserves@ == old(self).currency_reserves@
                && final(self).total_supplies@ == old(self).total_supplies@
                && final(self).events@ == old(self).events@ && asset::unchanged(old(assets), final(assets)),
            origin is Signed ==> ({
                let who = origin->Signed_0;
                &&& !old(self).exchanges@.contains_key(exchange_id) ==> r == derr::<()>(Error::InvalidExchange)
                &&& old(self).exchanges@.contains_key(exchange_id) ==> {
                    let ex = old(self).exchanges@[exchange_id];
                    let p = remove_pass(old(self).exchanges@[exchange_id], exchange_id, old(self).currency_reserves@, old(self).total_supplies@, old(assets).balances@, asset_ids@, liquidities@, min_currencies@, min_assets@);
                    let (b, res) = remove_moves(old(assets).balances@, ex, who, to, p.2, asset_ids@, liquidities@, p.4);
                    &&& p.5 matches Some(Halt::Fail(e)) ==> r == derr::<()>(e)
                    &&& p.5 is None ==> r == res
                    &&& r is Ok ==> {
                        &&& final(self).currency_reserves@ == p.0
                        &&& final(self).total_supplies@ == p.1
                        &&& final(assets).balances@ == b
                        &&& asset::events_extended(old(assets).events@, final(assets).events@)
                        &&& final(self).events@.len() == old(self).events@.len() + 1
                        &&& final(self).events@.drop_last() == old(self).events@
                        &&& removed_event(final(self).events@.last(), exchange_id, who, to, asset_ids@, p.4, p.3)
                    }
                }
            }),
    {
        let who = ensure_signed(origin)?;
        let saved_reserves = self.currency_reserves.clone();
        let saved_supplies = self.total_supplies.clone();
        let saved_balances = assets.balances.clone();
        let n_events = assets.events.len();
        let r = self.do_remove_liquidity(assets, who, exchange_id, to, asset_ids, liquidities, min_currencies, min_assets);
        if r.is_err() {
            self.currency_reserves = saved_reserves;
            self.total_supplies = saved_supplies;
            assets.balances = saved_balances;
            assets.events.truncate(n_events);
            assert(assets.events@ =~= old(assets).events@);
        }
        r
    }

    /// The balances that `vault` holds of each of `asset_ids` in `class_id`.
    pub fn get_asset_reserves(assets: &asset::Pallet, vault: u64, class_id: u64, asset_ids: Vec<u64>) -> (r: Vec<u128>)
        ensures
            r@ == reserves_of(assets.balances@, vault, class_id, asset_ids@),
    {
        let n = asset_ids.len();
        if n == 1 {
            let mut v: Vec<u128> = Vec::new();
            v.push(assets.balance_of(vault, class_id, asset_ids[0]));
            assert(v@ =~= reserves_of(assets.balances@, vault, class_id, asset_ids@));
            v
        } else {
            let mut vaults: Vec<u64> = Vec::new();
            for i in 0..n
                invariant
                    vaults@ == Seq::new(i as nat, |j: int| vault),
            {
                vaults.push(vault);
                assert(vaults@ =~= Seq::new((i + 1) as nat, |j: int| vault));
            }
            let ids = asset_ids.clone();
            assert(ids@ =~= asset_ids@);
            match assets.balance_of_batch(&vaults, class_id, ids) {
                Ok(v) => {
                    assert(v@ =~= reserves_of(assets.balances@, vault, class_id, asset_ids@));
                    v
                },
                Err(_) => Vec::new(),
            }
        }
    }
}

/// A purchase pays enough to keep the pool's constant product after the
/// 0.5% fee: the price `p` of `amount_out` assets is the least amount with
/// `p * (reserve_out - amount_out) * 995 >= reserve_in * amount_out * 1000`.
/// Holds where that product fits 256 bits and the price fits 128 bits.
pub proof fn law_buy_price_keeps_product(amount_out: u128, reserve_in: u128, reserve_out: u128)
    requires
        reserve_in > 0,
        amount_out < reserve_out,
        reserve_in * amount_out * 1000 <= wide_max(),
        reserve_in * amount_out * 1000 <= u128::MAX * ((reserve_out - amount_out) * 995),
    ensures
        buy_price(amount_out, reserve_in, reserve_out) is Ok,
        ({
            let p = buy_price(amount_out, reserve_in, reserve_out)->Ok_0;
            let den = (reserve_out - amount_out) * 995;
            &&& p * den >= reserve_in * amount_out * 1000
            &&& (p - 1) * den < reserve_in * amount_out * 1000
        }),
{
    lemma_pow64();
    let num: nat = (reserve_in * amount_out * 1000) as nat;
    let den: nat = ((reserve_out - amount_out) * 995) as nat;
    assert(reserve_in * amount_out >= 0) by (nonlinear_arith)
        requires
            reserve_in >= 0,
            amount_out >= 0,
    ;
    assert(den > 0 && den <= wide_max());
    assert(saturate((reserve_in * amount_out) as nat) == reserve_in * amount_out);
    assert(saturate(saturate((reserve_in * amount_out) as nat) * 1000) == num);
    assert(wide_sub(reserve_out as nat, amount_out as nat) == reserve_out - amount_out);
    assert(saturate(wide_sub(reserve_out as nat, amount_out as nat) * 995) == den);
    vstd::arithmetic::div_mod::lemma_fundamental_div_mod(num as int, den as int);
    let q = num / den;
    assert(0 <= num % den < den);
    assert(q * den <= num) by (nonlinear_arith)
        requires
            num == den * q + num % den,
            num % den >= 0,
    ;
    if num % den == 0 {
        assert(q <= u128::MAX) by (nonlinear_arith)
            requires
                q * den <= num,
                num <= u128::MAX * den,
                num == den * q,
                den > 0,
        ;
        assert(q * den == num) by (nonlinear_arith)
            requires
                num == den * q + num % den,
                num % den == 0,
        ;
        assert((q - 1) * den < num) by (nonlinear_arith)
            requires
                q * den == num,
                den > 0,
        ;
    } else {
        assert(q + 1 <= u128::MAX) by (nonlinear_arith)
            requires
                num == den * q + num % den,
                0 < num % den < den,
                num <= u128::MAX * den,
        ;
        assert((q + 1) * den >= num) by (nonlinear_arith)
            requires
                num == den * q + num % den,
                num % den < den,
                den > 0,
        ;
        assert(q * den < num) by (nonlinear_arith)
            requires
                num == den * q + num % den,
                num % den > 0,
        ;
    }
}

/// A sale never pays out the whole currency reserve: the price `p` of
/// `amount_in` assets is below `reserve_out`, and it is the most that keeps
/// the pool's constant product after the 0.5% fee,
/// `p * (reserve_in * 1000 + amount_in * 995) <= amount_in * 995 * reserve_out`.
/// Holds where these products fit 256 bits.
pub proof fn law_sell_price_within_reserve(amount_in: u128, reserve_in: u128, reserve_out: u128)
    requires
        reserve_in > 0,
        reserve_out > 0,
        amount_in * 995 * reserve_out <= wide_max(),
        reserve_in * 1000 + amount_in * 995 <= wide_max(),
    ensures
        sell_price(amount_in, reserve_in, reserve_out) is Ok,
        ({
            let p = sell_price(amount_in, reserve_in, reserve_out)->Ok_0;
            let den = reserve_in * 1000 + amount_in * 995;
            &&& p < reserve_out
            &&& p * den <= amount_in * 995 * reserve_out
            &&& (p + 1) * den > amount_in * 995 * reserve_out
        }),
{
    lemma_pow64();
    let with_fee: nat = (amount_in * 995) as nat;
    let num: nat = (with_fee * reserve_out) as nat;
    let den: nat = (reserve_in * 1000 + with_fee) as nat;
    assert(with_fee * reserve_out >= 0) by (nonlinear_arith)
        requires
            with_fee >= 0,
            reserve_out >= 0,
    ;
    assert(saturate((amount_in * 995) as nat) == with_fee);
    assert(saturate(with_fee * (reserve_out as nat)) == num);
    assert(saturate((reserve_in * 1000) as nat) == reserve_in * 1000);
    assert(saturate(saturate((reserve_in * 1000) as nat) + with_fee) == den);
    vstd::arithmetic::div_mod::lemma_fundamental_div_mod(num as int, den as int);
    let q = num / den;
    assert(0 <= num % den < den);
    assert(q * den <= num && (q + 1) * den > num) by (nonlinear_arith)
        requires
            num == den * q + num % den,
            0 <= num % den < den,
    ;
    assert(q < reserve_out) by (nonlinear_arith)
        requires
            q * den <= num,
            num == with_fee * reserve_out,
            den == reserve_in * 1000 + with_fee,
            reserve_in > 0,
            reserve_out > 0,
            with_fee >= 0,
    ;
}


/// A larger sale is never paid less: for `a1 <= a2` assets sold into the
/// same reserves, the price of `a1` is at most that of `a2`. Holds where
/// the products fit 256 bits.
pub proof fn law_sell_price_grows_with_amount(a1: u128, a2: u128, reserve_in: u128, reserve_out: u128)
    requires
        a1 <= a2,
        reserve_in > 0,
        reserve_out > 0,
        a2 * 995 * reserve_out <= wide_max(),
        reserve_in * 1000 + a2 * 995 <= wide_max(),
    ensures
        sell_price(a1, reserve_in, reserve_out) is Ok,
        sell_price(a2, reserve_in, reserve_out) is Ok,
        sell_price(a1, reserve_in, reserve_out)->Ok_0 <= sell_price(a2, reserve_in, reserve_out)->Ok_0,
{
    assert(a1 * 995 * reserve_out <= a2 * 995 * reserve_out) by (nonlinear_arith)
        requires
            a1 <= a2,
            reserve_out >= 0,
    ;
    law_sell_price_within_reserve(a1, reserve_in, reserve_out);
    law_sell_price_within_reserve(a2, reserve_in, reserve_out);
    let p1: int = sell_price(a1, reserve_in, reserve_out)->Ok_0 as int;
    let p2: int = sell_price(a2, reserve_in, reserve_out)->Ok_0 as int;
    let d1: int = reserve_in * 1000 + a1 * 995;
    let d2: int = reserve_in * 1000 + a2 * 995;
    let n1: int = a1 * 995 * reserve_out;
    let n2: int = a2 * 995 * reserve_out;
    assert(n1 * d2 <= n2 * d1) by (nonlinear_arith)
        requires
            n1 == a1 * 995 * reserve_out,
            n2 == a2 * 995 * reserve_out,
            d1 == reserve_in * 1000 + a1 * 995,
            d2 == reserve_in * 1000 + a2 * 995,
            a1 <= a2,
            reserve_in >= 0,
            reserve_out >= 0,
    ;
    assert(p1 * d1 * d2 <= n2 * d1) by (nonlinear_arith)
        requires
            p1 * d1 <= n1,
            n1 * d2 <= n2 * d1,
            d2 > 0,
    ;
    assert(p1 * d2 <= n2) by (nonlinear_arith)
        requires
            p1 * d1 * d2 <= n2 * d1,
            d1 > 0,
    ;
    assert(p1 <= p2) by (nonlinear_arith)
        requires
            p1 * d2 <= n2,
            (p2 + 1) * d2 > n2,
            d2 > 0,
    ;
}


/// `q / d` rounded up.
pub open spec fn ceil_div(q: nat, d: nat) -> nat {
    if q % d == 0 { q / d } else { q / d + 1 }
}

/// A liquidity deposit of one asset into an open pool: with `C` the
/// currency reserve, `L` the pool's shares and `R` the asset reserve, the
/// depositor owes `c = ceil(amount * C / (R - amount))` currency, fails where
/// that passes `max_currency`, and otherwise adds `c` to the currency
/// reserve and mints `floor(floor(amount * C / (R - amount)) * L / C)`
/// shares. Holds where nothing leaves 128 bits.
pub proof fn law_add_liquidity_single(
    ex: Exchange,
    exchange_id: u32,
    cr: Map<PoolKey, u128>,
    ts: Map<PoolKey, u128>,
    b: Balances,
    asset_id: u64,
    amount: u128,
    max_currency: u128,
)
    requires
        value_at(ts, (exchange_id, asset_id)) > 0,
        value_at(cr, (exchange_id, asset_id)) > 0,
        0 < amount < balance_in(b, (ex.vault, ex.asset_class_id, asset_id)),
        max_currency > 0,
        !(ex.currency_class_id == ex.asset_class_id && ex.currency_asset_id == asset_id),
        amount * value_at(cr, (exchange_id, asset_id)) <= u128::MAX,
        (amount * value_at(cr, (exchange_id, asset_id))) as nat / ((balance_in(b, (ex.vault, ex.asset_class_id, asset_id)) - amount) as nat)
            * value_at(ts, (exchange_id, asset_id)) <= u128::MAX,
    ensures
        ({
            let k = (exchange_id, asset_id);
            let big_c = value_at(cr, k);
            let big_l = value_at(ts, k);
            let q = (amount * big_c) as nat;
            let d = (balance_in(b, (ex.vault, ex.asset_class_id, asset_id)) - amount) as nat;
            let c = ceil_div(q, d);
            let liq = q / d * (big_l as nat) / (big_c as nat);
            let pass = add_pass(ex, exchange_id, cr, ts, b, seq![asset_id], seq![amount], seq![max_currency]);
            &&& c > max_currency ==> pass == halt(pass_start(cr, ts, 1), Halt::Fail(Error::MaxCurrencyAmountExceeded))
            &&& c <= max_currency && big_c + c <= u128::MAX && big_l + liq <= u128::MAX ==> pass == (
                cr.insert(k, (big_c + c) as u128),
                ts.insert(k, (big_l + liq) as u128),
                c as u128,
                seq![c as u128],
                seq![liq as u128],
                None::<Halt>,
            )
        }),
{
    lemma_pow64();
    let k = (exchange_id, asset_id);
    let big_c = value_at(cr, k);
    let big_l = value_at(ts, k);
    let r = balance_in(b, (ex.vault, ex.asset_class_id, asset_id));
    let q = (amount * big_c) as nat;
    let d = (r - amount) as nat;
    let ids = seq![asset_id];
    let init = pass_start(cr, ts, 1);
    let steps = add_steps(ex, exchange_id, ids, seq![amount], seq![max_currency], reserves_of(b, ex.vault, ex.asset_class_id, ids));
    assert(reserves_of(b, ex.vault, ex.asset_class_id, ids)[0] == r);
    assert(run_pass(init, steps, 1) == steps(run_pass(init, steps, 0), 0));
    assert(saturate((amount * big_c) as nat) == q);
    assert(wide_sub(r as nat, amount as nat) == d);
    assert(q / d <= q) by {
        vstd::arithmetic::div_mod::lemma_div_is_ordered_by_denominator(q as int, 1, d as int);
    }
    if q % d != 0 {
        assert(d >= 2);
        assert(q / d <= q / 2) by {
            vstd::arithmetic::div_mod::lemma_div_is_ordered_by_denominator(q as int, 2, d as int);
        }
    }
    assert(div_round_spec(q, d) == (ceil_div(q, d) as u128, q % d != 0));
    let f = q / d;
    assert(f * big_l <= u128::MAX);
    assert(sat_mul(f as u128, big_l) == f * big_l);
    let c = ceil_div(q, d);
    if c <= max_currency && big_c + c <= u128::MAX && big_l + f * (big_l as nat) / (big_c as nat) <= u128::MAX {
        assert(zeros(1).update(0, c as u128) =~= seq![c as u128]);
        assert(zeros(1).update(0, (f * (big_l as nat) / (big_c as nat)) as u128) =~= seq![(f * (big_l as nat) / (big_c as nat)) as u128]);
    }
}

/// A liquidity withdrawal of one asset: `liquidity` of the pool's `L`
/// shares give `floor(liquidity * C / L)` of the currency reserve `C` and
/// `floor(liquidity * R / L)` of the asset reserve `R`, never more than
/// either reserve; the call fails where either part is below its minimum,
/// and otherwise takes them from the reserves and the shares from `L`.
pub proof fn law_remove_liquidity_single(
    ex: Exchange,
    exchange_id: u32,
    cr: Map<PoolKey, u128>,
    ts: Map<PoolKey, u128>,
    b: Balances,
    asset_id: u64,
    liquidity: u128,
    min_currency: u128,
    min_asset: u128,
)
    requires
        value_at(ts, (exchange_id, asset_id)) > 0,
        liquidity <= value_at(ts, (exchange_id, asset_id)),
    ensures
        ({
            let k = (exchange_id, asset_id);
            let big_c = value_at(cr, k);
            let big_l = value_at(ts, k);
            let big_r = balance_in(b, (ex.vault, ex.asset_class_id, asset_id));
            let ca = (liquidity * big_c) as nat / (big_l as nat);
            let aa = (liquidity * big_r) as nat / (big_l as nat);
            let pass = remove_pass(ex, exchange_id, cr, ts, b, seq![asset_id], seq![liquidity], seq![min_currency], seq![min_asset]);
            &&& ca <= big_c
            &&& aa <= big_r
            &&& ca < min_currency ==> pass == halt(pass_start(cr, ts, 1), Halt::Fail(Error::InsufficientCurrencyAmount))
            &&& ca >= min_currency && aa < min_asset ==> pass == halt(pass_start(cr, ts, 1), Halt::Fail(Error::InsufficientAssetAmount))
            &&& ca >= min_currency && aa >= min_asset ==> pass == (
                cr.insert(k, (big_c - ca) as u128),
                ts.insert(k, (big_l - liquidity) as u128),
                ca as u128,
                seq![ca as u128],
                seq![aa as u128],
                None::<Halt>,
            )
        }),
{
    lemma_pow64();
    let k = (exchange_id, asset_id);
    let big_c = value_at(cr, k);
    let big_l = value_at(ts, k);
    let big_r = balance_in(b, (ex.vault, ex.asset_class_id, asset_id));
    let ids = seq![asset_id];
    let init = pass_start(cr, ts, 1);
    let steps = remove_steps(exchange_id, ids, seq![liquidity], seq![min_currency], seq![min_asset], reserves_of(b, ex.vault, ex.asset_class_id, ids));
    assert(reserves_of(b, ex.vault, ex.asset_class_id, ids)[0] == big_r);
    assert(run_pass(init, steps, 1) == steps(run_pass(init, steps, 0), 0));
    assert(liquidity * big_c <= big_l * big_c && liquidity * big_r <= big_l * big_r && big_l * big_c <= u128::MAX * u128::MAX
        && big_l * big_r <= u128::MAX * u128::MAX) by (nonlinear_arith)
        requires
            liquidity <= big_l,
            big_l <= u128::MAX,
            big_c <= u128::MAX,
            big_r <= u128::MAX,
    ;
    assert(saturate((liquidity * big_c) as nat) == liquidity * big_c);
    assert(saturate((liquidity * big_r) as nat) == liquidity * big_r);
    vstd::arithmetic::div_mod::lemma_div_is_ordered((liquidity * big_c) as int, (big_c * big_l) as int, big_l as int);
    vstd::arithmetic::div_mod::lemma_div_is_ordered((liquidity * big_r) as int, (big_r * big_l) as int, big_l as int);
    vstd::arithmetic::div_mod::lemma_div_by_multiple(big_c as int, big_l as int);
    vstd::arithmetic::div_mod::lemma_div_by_multiple(big_r as int, big_l as int);
    let ca = (liquidity * big_c) as nat / (big_l as nat);
    let aa = (liquidity * big_r) as nat / (big_l as nat);
    if ca >= min_currency && aa >= min_asset {
        assert(zeros(1).update(0, ca as u128) =~= seq![ca as u128]);
        assert(zeros(1).update(0, aa as u128) =~= seq![aa as u128]);
    }
}


/// What keeps a liquidity deposit from panicking: its lists are long
/// enough; each asset whose pool is open has a currency reserve and more of
/// the asset in the pool than is deposited; and an asset listed again has
/// more in the pool than its later deposit.
pub open spec fn add_cannot_panic(
    ex: Exchange,
    exchange_id: u32,
    cr: Map<PoolKey, u128>,
    ts: Map<PoolKey, u128>,
    b: Balances,
    asset_ids: Seq<u64>,
    amounts: Seq<u128>,
    max_currencies: Seq<u128>,
) -> bool {
    &&& amounts.len() >= asset_ids.len()
    &&& max_currencies.len() >= asset_ids.len()
    &&& forall|i: int| 0 <= i < asset_ids.len() && value_at(ts, (exchange_id, #[trigger] asset_ids[i])) > 0
        ==> value_at(cr, (exchange_id, asset_ids[i])) > 0 && amounts[i] < balance_in(b, (ex.vault, ex.asset_class_id, asset_ids[i]))
    &&& forall|i: int, j: int| 0 <= j < i < asset_ids.len() && #[trigger] asset_ids[j] == #[trigger] asset_ids[i]
        ==> amounts[i] < balance_in(b, (ex.vault, ex.asset_class_id, asset_ids[i]))
}

/// The first `n` steps of a liquidity deposit that cannot panic do not
/// panic; every listed pool with shares has currency; and the pools of
/// assets not yet reached are as they were.
proof fn lemma_add_prefix_no_panic(
    ex: Exchange,
    exchange_id: u32,
    cr: Map<PoolKey, u128>,
    ts: Map<PoolKey, u128>,
    b: Balances,
    asset_ids: Seq<u64>,
    amounts: Seq<u128>,
    max_currencies: Seq<u128>,
    n: int,
)
    requires
        0 <= n <= asset_ids.len(),
        add_cannot_panic(ex, exchange_id, cr, ts, b, asset_ids, amounts, max_currencies),
    ensures
        ({
            let steps = add_steps(ex, exchange_id, asset_ids, amounts, max_currencies, reserves_of(b, ex.vault, ex.asset_class_id, asset_ids));
            let p = run_pass(pass_start(cr, ts, asset_ids.len()), steps, n as nat);
            &&& p.5 != Some(Halt::Panic)
            &&& p.5 is None ==> forall|i: int| 0 <= i < asset_ids.len() && value_at(p.1, (exchange_id, #[trigger] asset_ids[i])) > 0
                ==> value_at(p.0, (exchange_id, asset_ids[i])) > 0
            &&& p.5 is None ==> forall|i: int| n <= i < asset_ids.len() && (forall|j: int| 0 <= j < n ==> asset_ids[j] != asset_ids[i])
                ==> value_at(p.0, (exchange_id, #[trigger] asset_ids[i])) == value_at(cr, (exchange_id, asset_ids[i]))
                && value_at(p.1, (exchange_id, asset_ids[i])) == value_at(ts, (exchange_id, asset_ids[i]))
        }),
    decreases n,
{
    if n > 0 {
        lemma_add_prefix_no_panic(ex, exchange_id, cr, ts, b, asset_ids, amounts, max_currencies, n - 1);
        let reserves = reserves_of(b, ex.vault, ex.asset_class_id, asset_ids);
        let steps = add_steps(ex, exchange_id, asset_ids, amounts, max_currencies, reserves);
        let p0 = run_pass(pass_start(cr, ts, asset_ids.len()), steps, (n - 1) as nat);
        if p0.5 is None {
            let id = asset_ids[n - 1];
            let k = (exchange_id, id);
            assert(reserves[n - 1] == balance_in(b, (ex.vault, ex.asset_class_id, id)));
            if value_at(p0.1, k) > 0 {
                assert(value_at(p0.0, (exchange_id, asset_ids[n - 1])) > 0);
                if exists|j: int| 0 <= j < n - 1 && asset_ids[j] == id {
                    let j = choose|j: int| 0 <= j < n - 1 && asset_ids[j] == id;
                    assert(asset_ids[j] == asset_ids[n - 1]);
                } else {
                    assert(value_at(ts, (exchange_id, asset_ids[n - 1])) > 0);
                }
                assert(wide_sub(reserves[n - 1] as nat, amounts[n - 1] as nat) > 0);
            }
            let p = run_pass(pass_start(cr, ts, asset_ids.len()), steps, n as nat);
            assert(p == add_step(p0, ex, exchange_id, n - 1, id, amounts, max_currencies, reserves[n - 1]));
            if p.5 is None {
                assert forall|i: int| 0 <= i < asset_ids.len() && value_at(p.1, (exchange_id, #[trigger] asset_ids[i])) > 0
                    implies value_at(p.0, (exchange_id, asset_ids[i])) > 0 by {
                    if asset_ids[i] != id {
                        assert(value_at(p0.1, (exchange_id, asset_ids[i])) > 0);
                    }
                }
                assert forall|i: int| n <= i < asset_ids.len() && (forall|j: int| 0 <= j < n ==> asset_ids[j] != asset_ids[i])
                    implies value_at(p.0, (exchange_id, #[trigger] asset_ids[i])) == value_at(cr, (exchange_id, asset_ids[i]))
                    && value_at(p.1, (exchange_id, asset_ids[i])) == value_at(ts, (exchange_id, asset_ids[i])) by {
                    assert(asset_ids[n - 1] != asset_ids[i]);
                    assert(forall|j: int| 0 <= j < n - 1 ==> asset_ids[j] != asset_ids[i]);
                }
            }
        }
    }
}

/// A liquidity deposit does not panic where its lists are long enough,
/// every asset whose pool is open has a currency reserve and more of the
/// asset in the pool than is deposited, and an asset listed more than once
/// has, each later time, more in the pool than is deposited. (An asset
/// listed twice whose empty pool the first deposit opens, with no more in
/// the pool than the second deposit, makes the second step divide by zero,
/// as in the original.)
pub proof fn law_add_liquidity_no_panic(
    ex: Exchange,
    exchange_id: u32,
    cr: Map<PoolKey, u128>,
    ts: Map<PoolKey, u128>,
    b: Balances,
    asset_ids: Seq<u64>,
    amounts: Seq<u128>,
    max_currencies: Seq<u128>,
)
    requires
        add_cannot_panic(ex, exchange_id, cr, ts, b, asset_ids, amounts, max_currencies),
    ensures
        add_pass(ex, exchange_id, cr, ts, b, asset_ids, amounts, max_currencies).5 != Some(Halt::Panic),
{
    lemma_add_prefix_no_panic(ex, exchange_id, cr, ts, b, asset_ids, amounts, max_currencies, asset_ids.len() as int);
}

/// The checks of a liquidity deposit of one asset, in order: a zero
/// currency limit, then a zero asset amount, then an asset that is the
/// exchange's currency; past them an empty pool opens with the currency
/// limit as both its currency and its shares, where that limit reaches the
/// least opening amount.
pub proof fn law_add_liquidity_checks(
    ex: Exchange,
    exchange_id: u32,
    cr: Map<PoolKey, u128>,
    ts: Map<PoolKey, u128>,
    b: Balances,
    asset_id: u64,
    amount: u128,
    max_currency: u128,
)
    ensures
        ({
            let k = (exchange_id, asset_id);
            let pass = add_pass(ex, exchange_id, cr, ts, b, seq![asset_id], seq![amount], seq![max_currency]);
            let fail = |e: Error| halt(pass_start(cr, ts, 1), Halt::Fail(e));
            let same = ex.currency_class_id == ex.asset_class_id && ex.currency_asset_id == asset_id;
            &&& max_currency == 0 ==> pass == fail(Error::InvalidMaxCurrency)
            &&& max_currency > 0 && amount == 0 ==> pass == fail(Error::InsufficientAssetAmount)
            &&& max_currency > 0 && amount > 0 && same ==> pass == fail(Error::SameCurrencyAndAsset)
            &&& max_currency > 0 && amount > 0 && !same && value_at(ts, k) == 0 && max_currency < min_opening_currency()
                ==> pass == fail(Error::InvalidCurrencyAmount)
            &&& max_currency > 0 && amount > 0 && !same && value_at(ts, k) == 0 && max_currency >= min_opening_currency()
                ==> pass == (cr.insert(k, max_currency), ts.insert(k, max_currency), max_currency, seq![max_currency], seq![max_currency], None::<Halt>)
        }),
{
    let ids = seq![asset_id];
    let init = pass_start(cr, ts, 1);
    let steps = add_steps(ex, exchange_id, ids, seq![amount], seq![max_currency], reserves_of(b, ex.vault, ex.asset_class_id, ids));
    assert(run_pass(init, steps, 1) == steps(run_pass(init, steps, 0), 0));
    assert(zeros(1).update(0, max_currency) =~= seq![max_currency]);
    assert(sat_add(0, max_currency) == max_currency);
}


/// A sale of one asset: nothing sold fails; otherwise `a` assets sold into
/// a pool with asset reserve `R > a` and currency reserve `C` fetch
/// `p = sell_price(a, R - a, C)`, which the pass takes from the currency
/// reserve. Holds where the products fit 256 bits (then `p < C`).
pub proof fn law_sell_assets_single(
    ex: Exchange,
    exchange_id: u32,
    cr: Map<PoolKey, u128>,
    ts: Map<PoolKey, u128>,
    b: Balances,
    asset_id: u64,
    a: u128,
)
    requires
        a < balance_in(b, (ex.vault, ex.asset_class_id, asset_id)),
        value_at(cr, (exchange_id, asset_id)) > 0,
        a * 995 * value_at(cr, (exchange_id, asset_id)) <= wide_max(),
        (balance_in(b, (ex.vault, ex.asset_class_id, asset_id)) - a) * 1000 + a * 995 <= wide_max(),
    ensures
        ({
            let k = (exchange_id, asset_id);
            let big_c = value_at(cr, k);
            let big_r = balance_in(b, (ex.vault, ex.asset_class_id, asset_id));
            let pass = sell_pass(ex, exchange_id, cr, ts, b, seq![asset_id], seq![a]);
            &&& a == 0 ==> pass == halt(pass_start(cr, ts, 1), Halt::Fail(Error::NullAssetsSold))
            &&& a > 0 ==> {
                let p = sell_price(a, (big_r - a) as u128, big_c)->Ok_0;
                &&& sell_price(a, (big_r - a) as u128, big_c) is Ok
                &&& p < big_c
                &&& pass == (cr.insert(k, (big_c - p) as u128), ts, p, seq![p], zeros(1), None::<Halt>)
            }
        }),
{
    let k = (exchange_id, asset_id);
    let big_c = value_at(cr, k);
    let big_r = balance_in(b, (ex.vault, ex.asset_class_id, asset_id));
    let ids = seq![asset_id];
    let init = pass_start(cr, ts, 1);
    let steps = sell_steps(exchange_id, ids, seq![a], reserves_of(b, ex.vault, ex.asset_class_id, ids));
    assert(reserves_of(b, ex.vault, ex.asset_class_id, ids)[0] == big_r);
    assert(run_pass(init, steps, 1) == steps(run_pass(init, steps, 0), 0));
    if a > 0 {
        assert(sat_sub(big_r, a) == big_r - a);
        law_sell_price_within_reserve(a, (big_r - a) as u128, big_c);
        let p = sell_price(a, (big_r - a) as u128, big_c)->Ok_0;
        assert(zeros(1).update(0, p) =~= seq![p]);
        assert(sat_add(0, p) == p);
    }
}

/// A purchase of one asset: nothing bought fails; otherwise `out` assets
/// bought from a pool with currency reserve `C > 0` and asset reserve
/// `R > out` cost `p = buy_price(out, C, R)`; the pass fails where `p` passes
/// `max_currency`, and otherwise adds `p` to the currency reserve.
pub proof fn law_buy_assets_single(
    ex: Exchange,
    exchange_id: u32,
    cr: Map<PoolKey, u128>,
    ts: Map<PoolKey, u128>,
    b: Balances,
    asset_id: u64,
    out: u128,
    max_currency: u128,
)
    requires
        value_at(cr, (exchange_id, asset_id)) > 0,
        out < balance_in(b, (ex.vault, ex.asset_class_id, asset_id)),
    ensures
        ({
            let k = (exchange_id, asset_id);
            let big_c = value_at(cr, k);
            let big_r = balance_in(b, (ex.vault, ex.asset_class_id, asset_id));
            let pass = buy_pass(ex, exchange_id, cr, ts, b, seq![asset_id], seq![out], max_currency);
            let p = buy_price(out, big_c, big_r)->Ok_0;
            &&& buy_price(out, big_c, big_r) is Ok
            &&& out == 0 ==> pass == halt(pass_start(cr, ts, 1), Halt::Fail(Error::NullAssetsBought))
            &&& out > 0 && p > max_currency
                ==> pass == (cr, ts, p, zeros(1), zeros(1), Some(Halt::Fail(Error::MaxCurrencyAmountExceeded)))
            &&& out > 0 && p <= max_currency && big_c + p <= u128::MAX
                ==> pass == (cr.insert(k, (big_c + p) as u128), ts, p, seq![p], zeros(1), None::<Halt>)
        }),
{
    let k = (exchange_id, asset_id);
    let big_c = value_at(cr, k);
    let big_r = balance_in(b, (ex.vault, ex.asset_class_id, asset_id));
    let ids = seq![asset_id];
    let init = pass_start(cr, ts, 1);
    let steps = buy_steps(exchange_id, ids, seq![out], reserves_of(b, ex.vault, ex.asset_class_id, ids), max_currency);
    assert(reserves_of(b, ex.vault, ex.asset_class_id, ids)[0] == big_r);
    assert(run_pass(init, steps, 1) == steps(run_pass(init, steps, 0), 0));
    lemma_pow64();
    assert(wide_sub(big_r as nat, out as nat) == big_r - out);
    let p = buy_price(out, big_c, big_r)->Ok_0;
    assert(zeros(1).update(0, p) =~= seq![p]);
    assert(sat_add(0, p) == p);
}


/// The steps of a liquidity deposit before index `n`, where none stopped the
/// pass, leave the pool of every later asset not listed before `n` as it was.
proof fn lemma_add_untouched(
    ex: Exchange,
    exchange_id: u32,
    cr: Map<PoolKey, u128>,
    ts: Map<PoolKey, u128>,
    b: Balances,
    asset_ids: Seq<u64>,
    amounts: Seq<u128>,
    max_currencies: Seq<u128>,
    n: int,
)
    requires
        0 <= n <= asset_ids.len(),
    ensures
        ({
            let steps = add_steps(ex, exchange_id, asset_ids, amounts, max_currencies, reserves_of(b, ex.vault, ex.asset_class_id, asset_ids));
            let p = run_pass(pass_start(cr, ts, asset_ids.len()), steps, n as nat);
            p.5 is None ==> forall|i: int| n <= i < asset_ids.len() && (forall|j: int| 0 <= j < n ==> asset_ids[j] != asset_ids[i])
                ==> value_at(p.0, (exchange_id, #[trigger] asset_ids[i])) == value_at(cr, (exchange_id, asset_ids[i]))
                && value_at(p.1, (exchange_id, asset_ids[i])) == value_at(ts, (exchange_id, asset_ids[i]))
        }),
    decreases n,
{
    if n > 0 {
        lemma_add_untouched(ex, exchange_id, cr, ts, b, asset_ids, amounts, max_currencies, n - 1);
        let reserves = reserves_of(b, ex.vault, ex.asset_class_id, asset_ids);
        let steps = add_steps(ex, exchange_id, asset_ids, amounts, max_currencies, reserves);
        let p0 = run_pass(pass_start(cr, ts, asset_ids.len()), steps, (n - 1) as nat);
        let p = run_pass(pass_start(cr, ts, asset_ids.len()), steps, n as nat);
        if p.5 is None {
            assert(p == add_step(p0, ex, exchange_id, n - 1, asset_ids[n - 1], amounts, max_currencies, reserves[n - 1]));
            assert forall|i: int| n <= i < asset_ids.len() && (forall|j: int| 0 <= j < n ==> asset_ids[j] != asset_ids[i])
                implies value_at(p.0, (exchange_id, #[trigger] asset_ids[i])) == value_at(cr, (exchange_id, asset_ids[i]))
                && value_at(p.1, (exchange_id, asset_ids[i])) == value_at(ts, (exchange_id, asset_ids[i])) by {
                assert(asset_ids[n - 1] != asset_ids[i]);
                assert(forall|j: int| 0 <= j < n - 1 ==> asset_ids[j] != asset_ids[i]);
            }
        }
    }
}

/// The checks of a liquidity deposit at each asset, in order, once the
/// assets before it passed theirs: a zero currency limit, a zero asset
/// amount, an asset that is the exchange's currency, then an empty pool
/// with a currency limit below the least opening amount. Where no earlier
/// index names the same asset, the pool read is the stored one.
pub proof fn law_add_liquidity_checks_at(
    ex: Exchange,
    exchange_id: u32,
    cr: Map<PoolKey, u128>,
    ts: Map<PoolKey, u128>,
    b: Balances,
    asset_ids: Seq<u64>,
    amounts: Seq<u128>,
    max_currencies: Seq<u128>,
    i: int,
)
    requires
        0 <= i < asset_ids.len(),
        i < amounts.len(),
        i < max_currencies.len(),
    ensures
        ({
            let steps = add_steps(ex, exchange_id, asset_ids, amounts, max_currencies, reserves_of(b, ex.vault, ex.asset_class_id, asset_ids));
            let start = pass_start(cr, ts, asset_ids.len());
            let p = run_pass(start, steps, i as nat);
            let q = run_pass(start, steps, (i + 1) as nat);
            let k = (exchange_id, asset_ids[i]);
            let same = ex.currency_class_id == ex.asset_class_id && ex.currency_asset_id == asset_ids[i];
            &&& p.5 is None && max_currencies[i] == 0 ==> q == halt(p, Halt::Fail(Error::InvalidMaxCurrency))
            &&& p.5 is None && max_currencies[i] > 0 && amounts[i] == 0 ==> q == halt(p, Halt::Fail(Error::InsufficientAssetAmount))
            &&& p.5 is None && max_currencies[i] > 0 && amounts[i] > 0 && same ==> q == halt(p, Halt::Fail(Error::SameCurrencyAndAsset))
            &&& p.5 is None && max_currencies[i] > 0 && amounts[i] > 0 && !same && value_at(p.1, k) == 0
                && max_currencies[i] < min_opening_currency() ==> q == halt(p, Halt::Fail(Error::InvalidCurrencyAmount))
            &&& p.5 is None && (forall|j: int| 0 <= j < i ==> asset_ids[j] != asset_ids[i])
                ==> value_at(p.0, k) == value_at(cr, k) && value_at(p.1, k) == value_at(ts, k)
        }),
{
    lemma_add_untouched(ex, exchange_id, cr, ts, b, asset_ids, amounts, max_currencies, i);
}

/// The steps of a liquidity withdrawal before index `n`, where none stopped
/// the pass, leave the pool of every later asset not listed before `n` as
/// it was.
proof fn lemma_remove_untouched(
    ex: Exchange,
    exchange_id: u32,
    cr: Map<PoolKey, u128>,
    ts: Map<PoolKey, u128>,
    b: Balances,
    asset_ids: Seq<u64>,
    liquidities: Seq<u128>,
    min_currencies: Seq<u128>,
    min_assets: Seq<u128>,
    n: int,
)
    requires
        0 <= n <= asset_ids.len(),
    ensures
        ({
            let steps = remove_steps(exchange_id, asset_ids, liquidities, min_currencies, min_assets, reserves_of(b, ex.vault, ex.asset_class_id, asset_ids));
            let p = run_pass(pass_start(cr, ts, asset_ids.len()), steps, n as nat);
            p.5 is None ==> forall|i: int| n <= i < asset_ids.len() && (forall|j: int| 0 <= j < n ==> asset_ids[j] != asset_ids[i])
                ==> value_at(p.0, (exchange_id, #[trigger] asset_ids[i])) == value_at(cr, (exchange_id, asset_ids[i]))
                && value_at(p.1, (exchange_id, asset_ids[i])) == value_at(ts, (exchange_id, asset_ids[i]))
        }),
    decreases n,
{
    if n > 0 {
        lemma_remove_untouched(ex, exchange_id, cr, ts, b, asset_ids, liquidities, min_currencies, min_assets, n - 1);
        let reserves = reserves_of(b, ex.vault, ex.asset_class_id, asset_ids);
        let steps = remove_steps(exchange_id, asset_ids, liquidities, min_currencies, min_assets, reserves);
        let p0 = run_pass(pass_start(cr, ts, asset_ids.len()), steps, (n - 1) as nat);
        let p = run_pass(pass_start(cr, ts, asset_ids.len()), steps, n as nat);
        if p.5 is None {
            assert(p == remove_step(p0, exchange_id, n - 1, asset_ids[n - 1], liquidities, min_currencies, min_assets, reserves[n - 1]));
            assert forall|i: int| n <= i < asset_ids.len() && (forall|j: int| 0 <= j < n ==> asset_ids[j] != asset_ids[i])
                implies value_at(p.0, (exchange_id, #[trigger] asset_ids[i])) == value_at(cr, (exchange_id, asset_ids[i]))
                && value_at(p.1, (exchange_id, asset_ids[i])) == value_at(ts, (exchange_id, asset_ids[i])) by {
                assert(asset_ids[n - 1] != asset_ids[i]);
                assert(forall|j: int| 0 <= j < n - 1 ==> asset_ids[j] != asset_ids[i]);
            }
        }
    }
}

/// The checks of a liquidity withdrawal at each asset, in order, once the
/// assets before it passed theirs: a pool without shares, then a currency
/// part `floor(liquidity * C / L)` below its minimum, then an asset part
/// `floor(liquidity * R / L)` below its minimum (each part read back as 128
/// bits, zero where it does not fit). Where no earlier index
/// names the same asset, the pool read is the stored one.
pub proof fn law_remove_liquidity_checks_at(
    ex: Exchange,
    exchange_id: u32,
    cr: Map<PoolKey, u128>,
    ts: Map<PoolKey, u128>,
    b: Balances,
    asset_ids: Seq<u64>,
    liquidities: Seq<u128>,
    min_currencies: Seq<u128>,
    min_assets: Seq<u128>,
    i: int,
)
    requires
        0 <= i < asset_ids.len(),
        i < liquidities.len(),
        i < min_currencies.len(),
        i < min_assets.len(),
    ensures
        ({
            let steps = remove_steps(exchange_id, asset_ids, liquidities, min_currencies, min_assets, reserves_of(b, ex.vault, ex.asset_class_id, asset_ids));
            let start = pass_start(cr, ts, asset_ids.len());
            let p = run_pass(start, steps, i as nat);
            let q = run_pass(start, steps, (i + 1) as nat);
            let k = (exchange_id, asset_ids[i]);
            let big_c = value_at(p.0, k);
            let big_l = value_at(p.1, k);
            let big_r = balance_in(b, (ex.vault, ex.asset_class_id, asset_ids[i]));
            let ca = fit((liquidities[i] * big_c) as nat / (big_l as nat));
            let aa = fit((liquidities[i] * big_r) as nat / (big_l as nat));
            &&& p.5 is None && big_l == 0 ==> q == halt(p, Halt::Fail(Error::InsufficientLiquidity))
            &&& p.5 is None && big_l > 0 && ca < min_currencies[i] ==> q == halt(p, Halt::Fail(Error::InsufficientCurrencyAmount))
            &&& p.5 is None && big_l > 0 && ca >= min_currencies[i] && aa < min_assets[i]
                ==> q == halt(p, Halt::Fail(Error::InsufficientAssetAmount))
            &&& p.5 is None && (forall|j: int| 0 <= j < i ==> asset_ids[j] != asset_ids[i])
                ==> big_c == value_at(cr, k) && big_l == value_at(ts, k)
        }),
{
    lemma_pow64();
    lemma_remove_untouched(ex, exchange_id, cr, ts, b, asset_ids, liquidities, min_currencies, min_assets, i);
    let steps = remove_steps(exchange_id, asset_ids, liquidities, min_currencies, min_assets, reserves_of(b, ex.vault, ex.asset_class_id, asset_ids));
    let start = pass_start(cr, ts, asset_ids.len());
    let p = run_pass(start, steps, i as nat);
    let k = (exchange_id, asset_ids[i]);
    let big_c = value_at(p.0, k);
    let big_l = value_at(p.1, k);
    let big_r = balance_in(b, (ex.vault, ex.asset_class_id, asset_ids[i]));
    assert(reserves_of(b, ex.vault, ex.asset_class_id, asset_ids)[i] == big_r);
    if p.5 is None {
        assert(run_pass(start, steps, (i + 1) as nat) == remove_step(p, exchange_id, i, asset_ids[i], liquidities, min_currencies,
            min_assets, big_r));
    }
    if p.5 is None && big_l > 0 {
        let liq = liquidities[i];
        assert(liq * big_c <= u128::MAX * u128::MAX && liq * big_r <= u128::MAX * u128::MAX) by (nonlinear_arith)
            requires
                liq <= u128::MAX,
                big_c <= u128::MAX,
                big_r <= u128::MAX,
        ;
        assert(saturate((liq * big_c) as nat) == liq * big_c);
        assert(saturate((liq * big_r) as nat) == liq * big_r);
        assert((liq * big_c) as nat / (big_l as nat) <= liq * big_c) by {
            vstd::arithmetic::div_mod::lemma_div_is_ordered_by_denominator((liq * big_c) as int, 1, big_l as int);
        }
    }
}


/// The sum of a list of amounts.
pub open spec fn seq_total(s: Seq<u128>) -> int
    decreases s.len(),
{
    if s.len() == 0 {
        0
    } else {
        seq_total(s.drop_last()) + s.last()
    }
}

/// `x` on 128 bits, the largest value where it does not fit.
pub open spec fn capped(x: int) -> int {
    if x <= u128::MAX { x } else { u128::MAX as int }
}

proof fn lemma_total_nonneg(s: Seq<u128>)
    ensures
        seq_total(s) >= 0,
    decreases s.len(),
{
    if s.len() > 0 {
        lemma_total_nonneg(s.drop_last());
    }
}

proof fn lemma_total_update(s: Seq<u128>, i: int, v: u128)
    requires
        0 <= i < s.len(),
    ensures
        seq_total(s.update(i, v)) == seq_total(s) - s[i] + v,
    decreases s.len(),
{
    if i == s.len() - 1 {
        assert(s.update(i, v).drop_last() =~= s.drop_last());
    } else {
        lemma_total_update(s.drop_last(), i, v);
        assert(s.update(i, v).drop_last() =~= s.drop_last().update(i, v));
    }
}

proof fn lemma_total_zeros(n: nat)
    ensures
        seq_total(zeros(n)) == 0,
    decreases n,
{
    if n > 0 {
        lemma_total_zeros((n - 1) as nat);
        assert(zeros(n).drop_last() =~= zeros((n - 1) as nat));
    }
}

/// Every step that goes on records its amount for its asset and adds it,
/// saturating, to the running total.
pub open spec fn accumulates(step: spec_fn(Pass, int) -> Pass, len: nat) -> bool {
    forall|p: Pass, i: int| 0 <= i < len && p.3.len() == len && (#[trigger] step(p, i)).5 is None
        ==> step(p, i).2 == sat_add(p.2, step(p, i).3[i]) && step(p, i).3 == p.3.update(i, step(p, i).3[i])
}

proof fn lemma_pass_total(init: Pass, step: spec_fn(Pass, int) -> Pass, len: nat, n: nat)
    requires
        n <= len,
        init.2 == 0,
        init.3 == zeros(len),
        init.5 is None,
        accumulates(step, len),
    ensures
        ({
            let p = run_pass(init, step, n);
            p.5 is None ==> {
                &&& p.3.len() == len
                &&& p.2 == capped(seq_total(p.3))
                &&& forall|j: int| n <= j < len ==> p.3[j] == 0
            }
        }),
    decreases n,
{
    if n == 0 {
        lemma_total_zeros(len);
    } else {
        lemma_pass_total(init, step, len, (n - 1) as nat);
        let p0 = run_pass(init, step, (n - 1) as nat);
        let p = run_pass(init, step, n);
        if p.5 is None {
            let i = n - 1;
            assert(p == step(p0, i));
            let x = p.3[i];
            lemma_total_update(p0.3, i, x);
            lemma_total_nonneg(p0.3);
        }
    }
}

/// A purchase that goes through charges the sum of the prices of the assets
/// bought (the amounts it records for them), and that sum is within
/// `max_currency`: no purchase costs more than the buyer allowed.
pub proof fn law_buy_total_within_max(
    ex: Exchange,
    exchange_id: u32,
    cr: Map<PoolKey, u128>,
    ts: Map<PoolKey, u128>,
    b: Balances,
    asset_ids: Seq<u64>,
    amounts_out: Seq<u128>,
    max_currency: u128,
)
    ensures
        ({
            let pass = buy_pass(ex, exchange_id, cr, ts, b, asset_ids, amounts_out, max_currency);
            pass.5 is None ==> {
                &&& pass.3.len() == asset_ids.len()
                &&& pass.2 == capped(seq_total(pass.3))
                &&& pass.2 <= max_currency
                &&& seq_total(pass.3) <= max_currency || max_currency == u128::MAX
            }
        }),
{
    let len = asset_ids.len();
    let steps = buy_steps(exchange_id, asset_ids, amounts_out, reserves_of(b, ex.vault, ex.asset_class_id, asset_ids), max_currency);
    let init = pass_start(cr, ts, len);
    assert forall|p: Pass, i: int| 0 <= i < len && p.3.len() == len && (#[trigger] steps(p, i)).5 is None
        implies steps(p, i).2 == sat_add(p.2, steps(p, i).3[i]) && steps(p, i).3 == p.3.update(i, steps(p, i).3[i]) by {
        assert(steps(p, i) == buy_step(p, exchange_id, i, asset_ids[i], amounts_out, reserves_of(b, ex.vault, ex.asset_class_id, asset_ids)[i], max_currency));
    }
    lemma_pass_total(init, steps, len, len);
    let pass = run_pass(init, steps, len);
    if pass.5 is None && len > 0 {
        let p0 = run_pass(init, steps, (len - 1) as nat);
        assert(pass == steps(p0, len - 1));
        assert(pass == buy_step(p0, exchange_id, len - 1, asset_ids[len - 1], amounts_out,
            reserves_of(b, ex.vault, ex.asset_class_id, asset_ids)[len - 1], max_currency));
    }
}

/// A sale that goes through pays out, as its total, the sum of the prices
/// of the assets sold (the amounts it records for them, each taken from its
/// pool's currency reserve), capped at 128 bits.
pub proof fn law_sell_total_is_sum(
    ex: Exchange,
    exchange_id: u32,
    cr: Map<PoolKey, u128>,
    ts: Map<PoolKey, u128>,
    b: Balances,
    asset_ids: Seq<u64>,
    amounts_in: Seq<u128>,
)
    ensures
        ({
            let pass = sell_pass(ex, exchange_id, cr, ts, b, asset_ids, amounts_in);
            pass.5 is None ==> pass.3.len() == asset_ids.len() && pass.2 == capped(seq_total(pass.3))
        }),
{
    let len = asset_ids.len();
    let steps = sell_steps(exchange_id, asset_ids, amounts_in, reserves_of(b, ex.vault, ex.asset_class_id, asset_ids));
    let init = pass_start(cr, ts, len);
    assert forall|p: Pass, i: int| 0 <= i < len && p.3.len() == len && (#[trigger] steps(p, i)).5 is None
        implies steps(p, i).2 == sat_add(p.2, steps(p, i).3[i]) && steps(p, i).3 == p.3.update(i, steps(p, i).3[i]) by {
        assert(steps(p, i) == sell_step(p, exchange_id, i, asset_ids[i], amounts_in, reserves_of(b, ex.vault, ex.asset_class_id, asset_ids)[i]));
    }
    lemma_pass_total(init, steps, len, len);
}

/// A liquidity deposit that goes through takes from the depositor, as its
/// total, the sum of the currency amounts it records for its assets (each
/// added to its pool's currency reserve), capped at 128 bits.
pub proof fn law_add_total_is_sum(
    ex: Exchange,
    exchange_id: u32,
    cr: Map<PoolKey, u128>,
    ts: Map<PoolKey, u128>,
    b: Balances,
    asset_ids: Seq<u64>,
    amounts: Seq<u128>,
    max_currencies: Seq<u128>,
)
    ensures
        ({
            let pass = add_pass(ex, exchange_id, cr, ts, b, asset_ids, amounts, max_currencies);
            pass.5 is None ==> pass.3.len() == asset_ids.len() && pass.2 == capped(seq_total(pass.3))
        }),
{
    let len = asset_ids.len();
    let steps = add_steps(ex, exchange_id, asset_ids, amounts, max_currencies, reserves_of(b, ex.vault, ex.asset_class_id, asset_ids));
    let init = pass_start(cr, ts, len);
    assert forall|p: Pass, i: int| 0 <= i < len && p.3.len() == len && (#[trigger] steps(p, i)).5 is None
        implies steps(p, i).2 == sat_add(p.2, steps(p, i).3[i]) && steps(p, i).3 == p.3.update(i, steps(p, i).3[i]) by {
        assert(steps(p, i) == add_step(p, ex, exchange_id, i, asset_ids[i], amounts, max_currencies,
            reserves_of(b, ex.vault, ex.asset_class_id, asset_ids)[i]));
    }
    lemma_pass_total(init, steps, len, len);
}


proof fn lemma_buy_refusal(
    exchange_id: u32,
    init: Pass,
    asset_ids: Seq<u64>,
    amounts_out: Seq<u128>,
    reserves: Seq<u128>,
    max_currency: u128,
    n: nat,
)
    requires
        init.5 is None,
    ensures
        run_pass(init, buy_steps(exchange_id, asset_ids, amounts_out, reserves, max_currency), n).5
            == Some(Halt::Fail(Error::MaxCurrencyAmountExceeded))
            ==> run_pass(init, buy_steps(exchange_id, asset_ids, amounts_out, reserves, max_currency), n).2 > max_currency,
    decreases n,
{
    if n > 0 {
        let steps = buy_steps(exchange_id, asset_ids, amounts_out, reserves, max_currency);
        lemma_buy_refusal(exchange_id, init, asset_ids, amounts_out, reserves, max_currency, (n - 1) as nat);
        let p0 = run_pass(init, steps, (n - 1) as nat);
        if p0.5 is None {
            let i = n - 1;
            assert(run_pass(init, steps, n) == buy_step(p0, exchange_id, i, asset_ids[i], amounts_out, reserves[i], max_currency));
        }
    }
}

/// A purchase is refused for its price only when the running total of the
/// prices passes `max_currency`: a refusal with `MaxCurrencyAmountExceeded`
/// comes with a total above the limit.
pub proof fn law_buy_refused_only_above_max(
    ex: Exchange,
    exchange_id: u32,
    cr: Map<PoolKey, u128>,
    ts: Map<PoolKey, u128>,
    b: Balances,
    asset_ids: Seq<u64>,
    amounts_out: Seq<u128>,
    max_currency: u128,
)
    ensures
        buy_pass(ex, exchange_id, cr, ts, b, asset_ids, amounts_out, max_currency).5 == Some(Halt::Fail(Error::MaxCurrencyAmountExceeded))
            ==> buy_pass(ex, exchange_id, cr, ts, b, asset_ids, amounts_out, max_currency).2 > max_currency,
{
    lemma_buy_refusal(exchange_id, pass_start(cr, ts, asset_ids.len()), asset_ids, amounts_out,
        reserves_of(b, ex.vault, ex.asset_class_id, asset_ids), max_currency, asset_ids.len());
}

} // verus!
