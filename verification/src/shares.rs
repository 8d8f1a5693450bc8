//! Accounts held through shares, as the bag and escrow pallets keep them:
//! shares minted to the owners, and the grouping by class of everything an
//! account holds when it is swept.
use vstd::prelude::*;
use crate::asset;
use crate::ledger::{
    apply_ops, balance_in, lemma_apply_ops_failed_prefix, lemma_apply_ops_step, lemma_apply_single, move_ops, BalanceKey, Balances,
    LedgerOp,
};
use crate::primitives::DispatchError;

verus! {

/// The credits of `shares[i]` of one asset to each `owners[i]`.
pub open spec fn share_ops(owners: Seq<u64>, class_id: u64, asset_id: u64, shares: Seq<u128>) -> Seq<LedgerOp> {
    Seq::new(owners.len(), |i: int| LedgerOp::Credit { key: (owners[i], class_id, asset_id), amount: shares[i] })
}

/// The sum of `shares`, wrapping around on overflow as the runtime's
/// release build adds them.
pub open spec fn wrapping_total(shares: Seq<u128>) -> u128
    decreases shares.len(),
{
    if shares.len() == 0 {
        0
    } else {
        ((wrapping_total(shares.drop_last()) + shares.last()) % (u128::MAX as int + 1)) as u128
    }
}

/// Accounts' balances grouped by class: the classes in the order they first
/// occur, and for each the assets and their balances in order.
pub type Grouped = (Seq<u64>, Seq<Seq<u64>>, Seq<Seq<u128>>);

/// Where class `c` stands among `cs`, or `cs.len()` where it is absent.
pub open spec fn class_pos(cs: Seq<u64>, c: u64) -> int {
    if exists|i: int| 0 <= i < cs.len() && cs[i] == c {
        choose|i: int| 0 <= i < cs.len() && cs[i] == c
    } else {
        cs.len() as int
    }
}

/// Adds one (class, asset, balance) entry to a grouping.
pub open spec fn group_step(g: Grouped, e: (u64, u64, u128)) -> Grouped {
    let i = class_pos(g.0, e.0);
    if i < g.0.len() {
        (g.0, g.1.update(i, g.1[i].push(e.1)), g.2.update(i, g.2[i].push(e.2)))
    } else {
        (g.0.push(e.0), g.1.push(seq![e.1]), g.2.push(seq![e.2]))
    }
}

/// The grouping by class of a list of balances.
pub open spec fn group_by_class(v: Seq<(u64, u64, u128)>) -> Grouped
    decreases v.len(),
{
    if v.len() == 0 {
        (Seq::empty(), Seq::empty(), Seq::empty())
    } else {
        group_step(group_by_class(v.drop_last()), v.last())
    }
}

/// The sum of `shares`, wrapping around on overflow.
pub fn total_of(shares: &Vec<u128>) -> (r: u128)
    ensures
        r == wrapping_total(shares@),
{
    let mut total: u128 = 0;
    for i in 0..shares.len()
        invariant
            total == wrapping_total(shares@.take(i as int)),
    {
        assert(shares@.take(i + 1).drop_last() =~= shares@.take(i as int));
        total = total.wrapping_add(shares[i]);
    }
    assert(shares@.take(shares.len() as int) =~= shares@);
    total
}

/// Mints `shares[i]` of one asset to each `owners[i]`, in order, with
/// `operator` as the minting account; stops at the first mint that fails.
pub fn mint_shares(
    assets: &mut asset::Pallet,
    operator: u64,
    owners: &Vec<u64>,
    class_id: u64,
    asset_id: u64,
    shares: &Vec<u128>,
) -> (r: Result<(), DispatchError>)
    requires
        owners.len() == shares.len(),
    ensures
        (final(assets).balances@, r) == asset::program_outcome(old(assets).balances@, share_ops(owners@, class_id, asset_id, shares@)),
        asset::same_registry(old(assets), final(assets)),
        asset::events_extended(old(assets).events@, final(assets).events@),
{
    let ghost ops = share_ops(owners@, class_id, asset_id, shares@);
    assert(assets.events@.subrange(0, assets.events@.len() as int) =~= assets.events@);
    assert(ops.take(0) =~= Seq::<LedgerOp>::empty());
    for i in 0..owners.len()
        invariant
            owners.len() == shares.len(),
            ops == share_ops(owners@, class_id, asset_id, shares@),
            (assets.balances@, true) == apply_ops(old(assets).balances@, ops.take(i as int)),
            asset::same_registry(old(assets), assets),
            asset::events_extended(old(assets).events@, assets.events@),
    {
        proof {
            lemma_apply_ops_step(old(assets).balances@, ops, i as int);
            lemma_apply_single(assets.balances@, ops[i as int]);
        }
        let ghost ev = assets.events@;
        let r = assets.do_mint(operator, owners[i], class_id, asset_id, shares[i]);
        proof {
            assert(assets.events@.subrange(0, old(assets).events@.len() as int) =~= ev.subrange(0, old(assets).events@.len() as int));
        }
        if r.is_err() {
            proof {
                lemma_apply_ops_failed_prefix(old(assets).balances@, ops, i + 1);
            }
            return r;
        }
    }
    assert(ops.take(owners.len() as int) =~= ops);
    Ok(())
}

/// The position of class `c` among `cs`, each of which occurs once.
fn position(cs: &Vec<u64>, c: u64) -> (r: usize)
    requires
        forall|i: int, j: int| 0 <= i < j < cs.len() ==> cs[i] != cs[j],
    ensures
        r as int == class_pos(cs@, c),
{
    let mut i: usize = 0;
    while i < cs.len()
        invariant
            0 <= i <= cs.len(),
            forall|k: int| 0 <= k < i ==> cs[k] != c,
            forall|i: int, j: int| 0 <= i < j < cs.len() ==> cs[i] != cs[j],
        decreases cs.len() - i,
    {
        if cs[i] == c {
            proof {
                assert(cs@[i as int] == c);
                let j = choose|j: int| 0 <= j < cs.len() && cs@[j] == c;
                assert(cs@[j] == c);
                assert(j == i);
            }
            return i;
        }
        i += 1;
    }
    i
}

/// Groups a list of balances by class, as `group_by_class` describes.
pub fn group_balances(v: &Vec<(u64, u64, u128)>) -> (r: (Vec<u64>, Vec<Vec<u64>>, Vec<Vec<u128>>))
    ensures
        (r.0@, asset::vec_views(r.1@), asset::vec_views(r.2@)) == group_by_class(v@),
        r.0.len() == r.1.len(),
        r.0.len() == r.2.len(),
        forall|i: int| 0 <= i < r.1.len() ==> #[trigger] r.1[i].len() == r.2[i].len(),
{
    let mut class_ids: Vec<u64> = Vec::new();
    let mut asset_ids: Vec<Vec<u64>> = Vec::new();
    let mut balances: Vec<Vec<u128>> = Vec::new();
    assert(v@.take(0) =~= Seq::<(u64, u64, u128)>::empty());
    assert(asset::vec_views(asset_ids@) =~= Seq::<Seq<u64>>::empty());
    assert(asset::vec_views(balances@) =~= Seq::<Seq<u128>>::empty());
    for k in 0..v.len()
        invariant
            (class_ids@, asset::vec_views(asset_ids@), asset::vec_views(balances@)) == group_by_class(v@.take(k as int)),
            class_ids.len() == asset_ids.len(),
            class_ids.len() == balances.len(),
            forall|i: int| 0 <= i < asset_ids.len() ==> #[trigger] asset_ids[i].len() == balances[i].len(),
            forall|i: int, j: int| 0 <= i < j < class_ids.len() ==> class_ids[i] != class_ids[j],
    {
        let (c, a, b) = v[k];
        assert(v@.take(k + 1).drop_last() =~= v@.take(k as int));
        assert(v@.take(k + 1).last() == (c, a, b));
        let i = position(&class_ids, c);
        if i < class_ids.len() {
            let mut ai = asset_ids[i].clone();
            let mut bi = balances[i].clone();
            assert(ai@ =~= asset_ids[i as int]@);
            assert(bi@ =~= balances[i as int]@);
            ai.push(a);
            bi.push(b);
            asset_ids.set(i, ai);
            balances.set(i, bi);
        } else {
            class_ids.push(c);
            let mut ai: Vec<u64> = Vec::new();
            let mut bi: Vec<u128> = Vec::new();
            ai.push(a);
            bi.push(b);
            assert(ai@ =~= seq![a]);
            assert(bi@ =~= seq![b]);
            asset_ids.push(ai);
            balances.push(bi);
        }
        let ghost g = group_by_class(v@.take(k + 1));
        assert(asset::vec_views(asset_ids@) =~= g.1);
        assert(asset::vec_views(balances@) =~= g.2);
    }
    assert(v@.take(v.len() as int) =~= v@);
    (class_ids, asset_ids, balances)
}

/// Entry `j` of class `i` of a grouping exists.
pub open spec fn in_group(g: Grouped, i: int, j: int) -> bool {
    0 <= i < g.0.len() && 0 <= j < g.1[i].len()
}

/// A grouping's lists line up: one list of assets and one of balances per
/// class, of the same length.
pub open spec fn grouped_shape(g: Grouped) -> bool {
    &&& g.0.len() == g.1.len()
    &&& g.0.len() == g.2.len()
    &&& forall|i: int| 0 <= i < g.1.len() ==> #[trigger] g.1[i].len() == g.2[i].len()
}

/// Every entry of the grouping is an entry of `v`.
pub open spec fn group_from(g: Grouped, v: Seq<(u64, u64, u128)>) -> bool {
    forall|i: int, j: int| #[trigger] in_group(g, i, j) ==> v.contains((g.0[i], g.1[i][j], g.2[i][j]))
}

/// Every entry of `v` is an entry of the grouping.
pub open spec fn group_covers(g: Grouped, v: Seq<(u64, u64, u128)>) -> bool {
    forall|k: int| 0 <= k < v.len() ==> exists|i: int, j: int| #[trigger] in_group(g, i, j)
        && g.0[i] == (#[trigger] v[k]).0 && g.1[i][j] == v[k].1 && g.2[i][j] == v[k].2
}

/// No (class, asset) occurs twice in the grouping.
pub open spec fn group_distinct(g: Grouped) -> bool {
    forall|i1: int, j1: int, i2: int, j2: int| #[trigger] in_group(g, i1, j1) && #[trigger] in_group(g, i2, j2)
        && (i1 != i2 || j1 != j2) ==> g.0[i1] != g.0[i2] || g.1[i1][j1] != g.1[i2][j2]
}

/// No (class, asset) occurs twice in `v`.
pub open spec fn pairs_distinct(v: Seq<(u64, u64, u128)>) -> bool {
    forall|k1: int, k2: int| 0 <= k1 < k2 < v.len() ==> (#[trigger] v[k1]).0 != (#[trigger] v[k2]).0 || v[k1].1 != v[k2].1
}

/// The grouping by class of a list holds exactly its entries, in lists that
/// line up, and no (class, asset) twice where the list has none twice.
pub proof fn lemma_group_by_class(v: Seq<(u64, u64, u128)>)
    ensures
        grouped_shape(group_by_class(v)),
        group_from(group_by_class(v), v),
        group_covers(group_by_class(v), v),
        pairs_distinct(v) ==> group_distinct(group_by_class(v)),
    decreases v.len(),
{
    if v.len() > 0 {
        let p = v.drop_last();
        let e = v.last();
        lemma_group_by_class(p);
        let g0 = group_by_class(p);
        let g = group_by_class(v);
        assert(g == group_step(g0, e));
        let i0 = class_pos(g0.0, e.0);
        assert forall|x: (u64, u64, u128)| p.contains(x) implies v.contains(x) by {
            let k = choose|k: int| 0 <= k < p.len() && p[k] == x;
            assert(v[k] == x);
        }
        assert(v[v.len() - 1] == e);
        if i0 < g0.0.len() {
            assert(g0.0[i0] == e.0);
            let n0 = g0.1[i0].len() as int;
            assert forall|i: int, j: int| #[trigger] in_group(g, i, j)
                implies v.contains((g.0[i], g.1[i][j], g.2[i][j])) by {
                if i == i0 && j == n0 {
                    assert((g.0[i], g.1[i][j], g.2[i][j]) == e);
                } else {
                    assert(in_group(g0, i, j));
                    assert(g.1[i][j] == g0.1[i][j] && g.2[i][j] == g0.2[i][j]);
                    assert(p.contains((g0.0[i], g0.1[i][j], g0.2[i][j])));
                }
            }
            assert forall|k: int| 0 <= k < v.len() implies exists|i: int, j: int| #[trigger] in_group(g, i, j)
                && g.0[i] == (#[trigger] v[k]).0 && g.1[i][j] == v[k].1 && g.2[i][j] == v[k].2 by {
                if k == v.len() - 1 {
                    assert(in_group(g, i0, n0));
                } else {
                    assert(v[k] == p[k]);
                    let (i, j) = choose|i: int, j: int| #[trigger] in_group(g0, i, j)
                        && g0.0[i] == (#[trigger] p[k]).0 && g0.1[i][j] == p[k].1 && g0.2[i][j] == p[k].2;
                    assert(in_group(g, i, j));
                    assert(g.1[i][j] == g0.1[i][j] && g.2[i][j] == g0.2[i][j]);
                }
            }
            if pairs_distinct(v) {
                assert forall|k1: int, k2: int| 0 <= k1 < k2 < p.len() implies (#[trigger] p[k1]).0 != (#[trigger] p[k2]).0
                    || p[k1].1 != p[k2].1 by {
                    assert(p[k1] == v[k1] && p[k2] == v[k2]);
                }
                assert forall|i1: int, j1: int, i2: int, j2: int| #[trigger] in_group(g, i1, j1) && #[trigger] in_group(g, i2, j2)
                    && (i1 != i2 || j1 != j2) implies g.0[i1] != g.0[i2] || g.1[i1][j1] != g.1[i2][j2] by {
                    if i1 == i0 && j1 == n0 {
                        assert(in_group(g0, i2, j2));
                        assert(g.1[i2][j2] == g0.1[i2][j2]);
                        assert(p.contains((g0.0[i2], g0.1[i2][j2], g0.2[i2][j2])));
                        let k = choose|k: int| 0 <= k < p.len() && p[k] == (g0.0[i2], g0.1[i2][j2], g0.2[i2][j2]);
                        assert(v[k] == p[k]);
                        assert(v[k].0 != v[v.len() - 1].0 || v[k].1 != v[v.len() - 1].1);
                    } else if i2 == i0 && j2 == n0 {
                        assert(in_group(g0, i1, j1));
                        assert(g.1[i1][j1] == g0.1[i1][j1]);
                        assert(p.contains((g0.0[i1], g0.1[i1][j1], g0.2[i1][j1])));
                        let k = choose|k: int| 0 <= k < p.len() && p[k] == (g0.0[i1], g0.1[i1][j1], g0.2[i1][j1]);
                        assert(v[k] == p[k]);
                        assert(v[k].0 != v[v.len() - 1].0 || v[k].1 != v[v.len() - 1].1);
                    } else {
                        assert(in_group(g0, i1, j1) && in_group(g0, i2, j2));
                        assert(g.1[i1][j1] == g0.1[i1][j1] && g.1[i2][j2] == g0.1[i2][j2]);
                    }
                }
            }
        } else {
            let n = g0.0.len() as int;
            assert(!(exists|i: int| 0 <= i < g0.0.len() && g0.0[i] == e.0));
            assert forall|i: int, j: int| #[trigger] in_group(g, i, j)
                implies v.contains((g.0[i], g.1[i][j], g.2[i][j])) by {
                if i == n {
                    assert((g.0[i], g.1[i][j], g.2[i][j]) == e);
                } else {
                    assert(in_group(g0, i, j));
                    assert(p.contains((g0.0[i], g0.1[i][j], g0.2[i][j])));
                }
            }
            assert forall|k: int| 0 <= k < v.len() implies exists|i: int, j: int| #[trigger] in_group(g, i, j)
                && g.0[i] == (#[trigger] v[k]).0 && g.1[i][j] == v[k].1 && g.2[i][j] == v[k].2 by {
                if k == v.len() - 1 {
                    assert(in_group(g, n, 0));
                } else {
                    assert(v[k] == p[k]);
                    let (i, j) = choose|i: int, j: int| #[trigger] in_group(g0, i, j)
                        && g0.0[i] == (#[trigger] p[k]).0 && g0.1[i][j] == p[k].1 && g0.2[i][j] == p[k].2;
                    assert(in_group(g, i, j));
                }
            }
            if pairs_distinct(v) {
                assert forall|k1: int, k2: int| 0 <= k1 < k2 < p.len() implies (#[trigger] p[k1]).0 != (#[trigger] p[k2]).0
                    || p[k1].1 != p[k2].1 by {
                    assert(p[k1] == v[k1] && p[k2] == v[k2]);
                }
                assert forall|i1: int, j1: int, i2: int, j2: int| #[trigger] in_group(g, i1, j1) && #[trigger] in_group(g, i2, j2)
                    && (i1 != i2 || j1 != j2) implies g.0[i1] != g.0[i2] || g.1[i1][j1] != g.1[i2][j2] by {
                    if i1 == n && i2 == n {
                    } else if i1 == n {
                        assert(g.0[i2] == g0.0[i2]);
                    } else if i2 == n {
                        assert(g.0[i1] == g0.0[i1]);
                    } else {
                        assert(in_group(g0, i1, j1) && in_group(g0, i2, j2));
                    }
                }
            }
        }
    }
}

/// `(c, a)` is an entry of one of the first `n` classes of the grouping.
pub open spec fn covered(g: Grouped, n: int, c: u64, a: u64) -> bool {
    exists|i: int, j: int| 0 <= i < n && #[trigger] in_group(g, i, j) && g.0[i] == c && g.1[i][j] == a
}

/// `(c, a)` is an entry of one of the first `i` classes of the grouping, or
/// one of the first `k` entries of class `i`.
pub open spec fn covered_upto(g: Grouped, i: int, k: int, c: u64, a: u64) -> bool {
    covered(g, i, c, a) || exists|j: int| 0 <= j < k && #[trigger] in_group(g, i, j) && g.0[i] == c && g.1[i][j] == a
}

/// The grouping's balances are those that `holder` holds in `b`.
pub open spec fn balances_held(g: Grouped, b: Balances, holder: u64) -> bool {
    forall|i: int, j: int| #[trigger] in_group(g, i, j) ==> g.2[i][j] == balance_in(b, (holder, g.0[i], g.1[i][j]))
}

/// Moving the first `k` entries of class `i` of a grouping of `holder`'s
/// balances from `holder` to `to` empties each of them, where the classes
/// before `i` are already empty.
proof fn lemma_class_moves(b0: Balances, m: Balances, holder: u64, to: u64, g: Grouped, i: int, k: int)
    requires
        holder != to,
        grouped_shape(g),
        group_distinct(g),
        balances_held(g, b0, holder),
        0 <= i < g.0.len(),
        0 <= k <= g.1[i].len(),
        forall|c: u64, a: u64| #[trigger] balance_in(m, (holder, c, a))
            == if covered(g, i, c, a) { 0 } else { balance_in(b0, (holder, c, a)) },
        apply_ops(m, move_ops(holder, to, g.0[i], g.1[i], g.2[i]).take(k)).1,
    ensures
        forall|c: u64, a: u64| #[trigger] balance_in(apply_ops(m, move_ops(holder, to, g.0[i], g.1[i], g.2[i]).take(k)).0, (holder, c, a))
            == if covered_upto(g, i, k, c, a) { 0 } else { balance_in(b0, (holder, c, a)) },
    decreases k,
{
    let ops = move_ops(holder, to, g.0[i], g.1[i], g.2[i]);
    if k == 0 {
        assert(ops.take(0) =~= Seq::<LedgerOp>::empty());
        assert forall|c: u64, a: u64| #[trigger] balance_in(apply_ops(m, ops.take(k)).0, (holder, c, a))
            == if covered_upto(g, i, k, c, a) { 0 } else { balance_in(b0, (holder, c, a)) } by {
            assert(balance_in(m, (holder, c, a)) == if covered(g, i, c, a) { 0 } else { balance_in(b0, (holder, c, a)) });
        }
    } else {
        lemma_apply_ops_step(m, ops, k - 1);
        let (mp, okp) = apply_ops(m, ops.take(k - 1));
        assert(okp);
        lemma_class_moves(b0, m, holder, to, g, i, k - 1);
        let c0 = g.0[i];
        let a0 = g.1[i][k - 1];
        assert(in_group(g, i, k - 1));
        assert(ops[k - 1] == LedgerOp::Move { from: (holder, c0, a0), to: (to, c0, a0), amount: g.2[i][k - 1] });
        assert(!covered_upto(g, i, k - 1, c0, a0)) by {
            if covered(g, i, c0, a0) {
                let (i2, j2) = choose|i2: int, j2: int| 0 <= i2 < i && #[trigger] in_group(g, i2, j2) && g.0[i2] == c0 && g.1[i2][j2] == a0;
                assert(in_group(g, i, k - 1));
            }
            if exists|j: int| 0 <= j < k - 1 && #[trigger] in_group(g, i, j) && g.0[i] == c0 && g.1[i][j] == a0 {
                let j = choose|j: int| 0 <= j < k - 1 && #[trigger] in_group(g, i, j) && g.0[i] == c0 && g.1[i][j] == a0;
                assert(in_group(g, i, k - 1));
            }
        }
        assert(balance_in(mp, (holder, c0, a0)) == balance_in(b0, (holder, c0, a0)));
        assert(g.2[i][k - 1] == balance_in(b0, (holder, c0, a0)));
        let mk = apply_ops(m, ops.take(k)).0;
        assert forall|c: u64, a: u64| #[trigger] balance_in(mk, (holder, c, a))
            == if covered_upto(g, i, k, c, a) { 0 } else { balance_in(b0, (holder, c, a)) } by {
            assert(balance_in(mp, (holder, c, a)) == if covered_upto(g, i, k - 1, c, a) { 0 } else { balance_in(b0, (holder, c, a)) });
            if c == c0 && a == a0 {
                assert(covered_upto(g, i, k, c, a));
            } else {
                if covered_upto(g, i, k, c, a) && !covered(g, i, c, a) {
                    let j = choose|j: int| 0 <= j < k && #[trigger] in_group(g, i, j) && g.0[i] == c && g.1[i][j] == a;
                    assert(j != k - 1);
                    assert(covered_upto(g, i, k - 1, c, a));
                }
                if covered_upto(g, i, k - 1, c, a) && !covered(g, i, c, a) {
                    let j = choose|j: int| 0 <= j < k - 1 && #[trigger] in_group(g, i, j) && g.0[i] == c && g.1[i][j] == a;
                    assert(covered_upto(g, i, k, c, a));
                }
            }
        }
    }
}

/// Moving the first `n` classes of a grouping of `holder`'s balances from
/// `holder` to `to`, where it succeeds, empties each of their entries and
/// leaves `holder`'s other balances.
pub proof fn lemma_sweep_classes(b0: Balances, holder: u64, to: u64, g: Grouped, n: nat)
    requires
        holder != to,
        grouped_shape(g),
        group_distinct(g),
        balances_held(g, b0, holder),
        n <= g.0.len(),
        asset::moves_by_class(b0, holder, to, g.0, g.1, g.2, n).1 is Ok,
    ensures
        forall|c: u64, a: u64| #[trigger] balance_in(asset::moves_by_class(b0, holder, to, g.0, g.1, g.2, n).0, (holder, c, a))
            == if covered(g, n as int, c, a) { 0 } else { balance_in(b0, (holder, c, a)) },
    decreases n,
{
    if n == 0 {
    } else {
        let i = n - 1;
        let (m, r) = asset::moves_by_class(b0, holder, to, g.0, g.1, g.2, (n - 1) as nat);
        assert(r is Ok);
        lemma_sweep_classes(b0, holder, to, g, (n - 1) as nat);
        let ops = move_ops(holder, to, g.0[i], g.1[i], g.2[i]);
        let len = g.1[i].len() as int;
        assert(ops.take(len) =~= ops);
        assert(apply_ops(m, ops).1);
        lemma_class_moves(b0, m, holder, to, g, i, len);
        let mn = asset::moves_by_class(b0, holder, to, g.0, g.1, g.2, n).0;
        assert forall|c: u64, a: u64| #[trigger] balance_in(mn, (holder, c, a))
            == if covered(g, n as int, c, a) { 0 } else { balance_in(b0, (holder, c, a)) } by {
            assert(balance_in(mn, (holder, c, a)) == if covered_upto(g, i, len, c, a) { 0 } else { balance_in(b0, (holder, c, a)) });
            if covered(g, n as int, c, a) {
                let (i2, j2) = choose|i2: int, j2: int| 0 <= i2 < n && #[trigger] in_group(g, i2, j2) && g.0[i2] == c && g.1[i2][j2] == a;
                if i2 < i {
                    assert(covered(g, i, c, a));
                } else {
                    assert(0 <= j2 < len && in_group(g, i, j2));
                }
            }
            if covered(g, i, c, a) {
                let (i2, j2) = choose|i2: int, j2: int| 0 <= i2 < i && #[trigger] in_group(g, i2, j2) && g.0[i2] == c && g.1[i2][j2] == a;
                assert(covered(g, n as int, c, a));
            }
            if !covered(g, i, c, a) && covered_upto(g, i, len, c, a) {
                let j = choose|j: int| 0 <= j < len && #[trigger] in_group(g, i, j) && g.0[i] == c && g.1[i][j] == a;
                assert(covered(g, n as int, c, a));
            }
        }
    }
}

/// Moving everything that `holder` holds, as listed in `v` and grouped by
/// class, to another account `to`, where it succeeds, leaves `holder` with
/// nothing of any asset and gives `to` all of it; no other account changes.
pub proof fn law_sweep_empties(b: Balances, holder: u64, to: u64, v: Seq<(u64, u64, u128)>)
    requires
        holder != to,
        asset::owner_listing(b, holder, v),
    ensures
        ({
            let g = group_by_class(v);
            let (m, r) = asset::moves_by_class(b, holder, to, g.0, g.1, g.2, g.0.len());
            r is Ok ==> {
                &&& forall|c: u64, a: u64| #[trigger] balance_in(m, (holder, c, a)) == 0
                &&& forall|c: u64, a: u64| #[trigger] balance_in(m, (to, c, a)) == balance_in(b, (to, c, a)) + balance_in(b, (holder, c, a))
                &&& forall|k: BalanceKey| k.0 != holder && k.0 != to ==> #[trigger] balance_in(m, k) == balance_in(b, k)
            }
        }),
{
    let g = group_by_class(v);
    let (m, r) = asset::moves_by_class(b, holder, to, g.0, g.1, g.2, g.0.len());
    lemma_group_by_class(v);
    assert(pairs_distinct(v)) by {
        assert forall|k1: int, k2: int| 0 <= k1 < k2 < v.len() implies (#[trigger] v[k1]).0 != (#[trigger] v[k2]).0
            || v[k1].1 != v[k2].1 by {
            assert((v[k1].0, v[k1].1) != (v[k2].0, v[k2].1));
        }
    }
    assert(balances_held(g, b, holder)) by {
        assert forall|i: int, j: int| #[trigger] in_group(g, i, j) implies g.2[i][j] == balance_in(b, (holder, g.0[i], g.1[i][j])) by {
            assert(v.contains((g.0[i], g.1[i][j], g.2[i][j])));
            let k = choose|k: int| 0 <= k < v.len() && v[k] == (g.0[i], g.1[i][j], g.2[i][j]);
            assert(b.contains_key((holder, v[k].0, v[k].1)) && b[(holder, v[k].0, v[k].1)] == v[k].2);
        }
    }
    if r is Ok {
        lemma_sweep_classes(b, holder, to, g, g.0.len());
        asset::law_moves_by_class_conserve(b, holder, to, g.0, g.1, g.2, g.0.len());
        assert forall|c: u64, a: u64| #[trigger] balance_in(m, (holder, c, a)) == 0 by {
            if !covered(g, g.0.len() as int, c, a) && b.contains_key((holder, c, a)) {
                let k = choose|k: int| 0 <= k < v.len() && v[k].0 == c && v[k].1 == a;
                let (i, j) = choose|i: int, j: int| #[trigger] in_group(g, i, j)
                    && g.0[i] == (#[trigger] v[k]).0 && g.1[i][j] == v[k].1 && g.2[i][j] == v[k].2;
                assert(covered(g, g.0.len() as int, c, a));
            }
        }
        assert forall|c: u64, a: u64| #[trigger] balance_in(m, (to, c, a)) == balance_in(b, (to, c, a)) + balance_in(b, (holder, c, a)) by {
            assert(balance_in(m, (holder, c, a)) == 0);
        }
    }
}

} // verus!
