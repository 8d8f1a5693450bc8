//! The balance ledger shared by the asset pallets: balances keyed by
//! (account, class, asset), credited and debited with checked arithmetic.
use vstd::prelude::*;
use std::collections::BTreeMap;

verus! {

broadcast use vstd::laws_cmp::group_laws_cmp;

/// (account, class, asset)
pub type BalanceKey = (u64, u64, u64);

/// A ledger's balances; a missing key holds zero.
pub type Balances = Map<BalanceKey, u128>;

/// The balance at `k`, zero where there is none.
pub open spec fn balance_in(b: Balances, k: BalanceKey) -> u128 {
    if b.contains_key(k) { b[k] } else { 0 }
}

/// One step of a ledger program.
#[derive(Clone, Copy, PartialEq, Eq, Debug)]
pub enum LedgerOp {
    Credit { key: BalanceKey, amount: u128 },
    Debit { key: BalanceKey, amount: u128 },
    Move { from: BalanceKey, to: BalanceKey, amount: u128 },
}

/// Adds `a` at `k`, or nothing where the sum would overflow.
pub open spec fn credit(b: Balances, k: BalanceKey, a: u128) -> Option<Balances> {
    if balance_in(b, k) + a <= u128::MAX {
        Some(b.insert(k, (balance_in(b, k) + a) as u128))
    } else {
        None
    }
}

/// Subtracts `a` at `k`, or nothing where the balance is short.
pub open spec fn debit(b: Balances, k: BalanceKey, a: u128) -> Option<Balances> {
    if a <= balance_in(b, k) {
        Some(b.insert(k, (balance_in(b, k) - a) as u128))
    } else {
        None
    }
}

/// The balances after one step, and whether the step succeeded. A failed
/// move keeps its debit: the debit is written before the credit is tried.
pub open spec fn apply_op(b: Balances, op: LedgerOp) -> (Balances, bool) {
    match op {
        LedgerOp::Credit { key, amount } => match credit(b, key, amount) {
            Some(n) => (n, true),
            None => (b, false),
        },
        LedgerOp::Debit { key, amount } => match debit(b, key, amount) {
            Some(n) => (n, true),
            None => (b, false),
        },
        LedgerOp::Move { from, to, amount } => match debit(b, from, amount) {
            None => (b, false),
            Some(b1) => match credit(b1, to, amount) {
                Some(b2) => (b2, true),
                None => (b1, false),
            },
        },
    }
}

/// The balances after running `ops` in order until one fails, and whether
/// all succeeded.
pub open spec fn apply_ops(b: Balances, ops: Seq<LedgerOp>) -> (Balances, bool)
    decreases ops.len(),
{
    if ops.len() == 0 {
        (b, true)
    } else {
        let (m, ok) = apply_ops(b, ops.drop_last());
        if ok {
            apply_op(m, ops.last())
        } else {
            (m, false)
        }
    }
}

/// Credits of `amounts[i]` of `asset_ids[i]` in `class_id` to `to`.
pub open spec fn credit_ops(to: u64, class_id: u64, asset_ids: Seq<u64>, amounts: Seq<u128>) -> Seq<LedgerOp> {
    Seq::new(asset_ids.len(), |i: int| LedgerOp::Credit { key: (to, class_id, asset_ids[i]), amount: amounts[i] })
}

/// Debits of `amounts[i]` of `asset_ids[i]` in `class_id` from `from`.
pub open spec fn debit_ops(from: u64, class_id: u64, asset_ids: Seq<u64>, amounts: Seq<u128>) -> Seq<LedgerOp> {
    Seq::new(asset_ids.len(), |i: int| LedgerOp::Debit { key: (from, class_id, asset_ids[i]), amount: amounts[i] })
}

/// Moves of `amounts[i]` of `asset_ids[i]` in `class_id` from `from` to `to`.
pub open spec fn move_ops(from: u64, to: u64, class_id: u64, asset_ids: Seq<u64>, amounts: Seq<u128>) -> Seq<LedgerOp> {
    Seq::new(
        asset_ids.len(),
        |i: int| LedgerOp::Move { from: (from, class_id, asset_ids[i]), to: (to, class_id, asset_ids[i]), amount: amounts[i] },
    )
}

/// A program of one step does what the step does.
pub proof fn lemma_apply_single(b: Balances, op: LedgerOp)
    ensures
        apply_ops(b, seq![op]) == apply_op(b, op),
{
    assert(seq![op].drop_last() =~= Seq::<LedgerOp>::empty());
    assert(seq![op].last() == op);
    reveal_with_fuel(apply_ops, 2);
}

/// Once a prefix of a program fails, the rest of the program changes nothing.
pub proof fn lemma_apply_ops_failed_prefix(b: Balances, ops: Seq<LedgerOp>, n: int)
    requires
        0 <= n <= ops.len(),
        !apply_ops(b, ops.take(n)).1,
    ensures
        apply_ops(b, ops) == apply_ops(b, ops.take(n)),
    decreases ops.len() - n,
{
    if n < ops.len() {
        assert(ops.take(n + 1).drop_last() =~= ops.take(n));
        lemma_apply_ops_failed_prefix(b, ops, n + 1);
    } else {
        assert(ops.take(n) =~= ops);
    }
}

/// Running a program one more step.
pub proof fn lemma_apply_ops_step(b: Balances, ops: Seq<LedgerOp>, n: int)
    requires
        0 <= n < ops.len(),
    ensures
        apply_ops(b, ops.take(n + 1)) == ({
            let (m, ok) = apply_ops(b, ops.take(n));
            if ok { apply_op(m, ops[n]) } else { (m, false) }
        }),
{
    assert(ops.take(n + 1).drop_last() =~= ops.take(n));
}

/// Running two programs one after the other is running their concatenation.
pub proof fn lemma_apply_ops_concat(b: Balances, s1: Seq<LedgerOp>, s2: Seq<LedgerOp>)
    ensures
        apply_ops(b, s1 + s2) == ({
            let (m, ok) = apply_ops(b, s1);
            if ok { apply_ops(m, s2) } else { (m, false) }
        }),
    decreases s2.len(),
{
    if s2.len() == 0 {
        assert(s1 + s2 =~= s1);
    } else {
        assert((s1 + s2).drop_last() =~= s1 + s2.drop_last());
        lemma_apply_ops_concat(b, s1, s2.drop_last());
    }
}

/// The balance at `k`.
pub fn balance_at(b: &BTreeMap<BalanceKey, u128>, k: BalanceKey) -> (r: u128)
    ensures
        r == balance_in(b@, k),
{
    match b.get(&k) {
        Some(v) => *v,
        None => 0,
    }
}

/// Runs one step on the balances.
pub fn apply(b: &mut BTreeMap<BalanceKey, u128>, op: LedgerOp) -> (ok: bool)
    ensures
        (final(b)@, ok) == apply_op(old(b)@, op),
{
    match op {
        LedgerOp::Credit { key, amount } => {
            let cur = balance_at(b, key);
            match cur.checked_add(amount) {
                Some(n) => {
                    b.insert(key, n);
                    true
                },
                None => false,
            }
        },
        LedgerOp::Debit { key, amount } => {
            let cur = balance_at(b, key);
            match cur.checked_sub(amount) {
                Some(n) => {
                    b.insert(key, n);
                    true
                },
                None => false,
            }
        },
        LedgerOp::Move { from, to, amount } => {
            let cur = balance_at(b, from);
            match cur.checked_sub(amount) {
                Some(n) => {
                    b.insert(from, n);
                    let cur_to = balance_at(b, to);
                    match cur_to.checked_add(amount) {
                        Some(m) => {
                            b.insert(to, m);
                            true
                        },
                        None => false,
                    }
                },
                None => false,
            }
        },
    }
}

/// Runs the program `ops` until a step fails.
pub fn apply_all(b: &mut BTreeMap<BalanceKey, u128>, ops: &Vec<LedgerOp>) -> (ok: bool)
    ensures
        (final(b)@, ok) == apply_ops(old(b)@, ops@),
{
    let n = ops.len();
    let mut i: usize = 0;
    while i < n
        invariant
            n == ops@.len(),
            0 <= i <= n,
            (b@, true) == apply_ops(old(b)@, ops@.take(i as int)),
        decreases n - i,
    {
        proof {
            lemma_apply_ops_step(old(b)@, ops@, i as int);
        }
        let ok = apply(b, ops[i]);
        if !ok {
            proof {
                lemma_apply_ops_failed_prefix(old(b)@, ops@, i + 1);
            }
            return false;
        }
        i += 1;
    }
    proof {
        assert(ops@.take(n as int) =~= ops@);
    }
    true
}

/// `op` moves some amount of one (class, asset) from account `from` to
/// account `to`.
pub open spec fn is_move_between(op: LedgerOp, from: u64, to: u64) -> bool {
    match op {
        LedgerOp::Move { from: f, to: t, .. } => f.0 == from && t.0 == to && f.1 == t.1 && f.2 == t.2,
        _ => false,
    }
}

/// Every step of `ops` moves some amount of one (class, asset) from account
/// `from` to account `to`.
pub open spec fn moves_between(ops: Seq<LedgerOp>, from: u64, to: u64) -> bool {
    forall|i: int| 0 <= i < ops.len() ==> is_move_between(#[trigger] ops[i], from, to)
}

/// Moves between two accounts that all succeed keep, for every (class,
/// asset), the sum of the two accounts' balances, and every balance of
/// every other account.
pub proof fn lemma_moves_conserve(b: Balances, ops: Seq<LedgerOp>, from: u64, to: u64)
    requires
        from != to,
        moves_between(ops, from, to),
        apply_ops(b, ops).1,
    ensures
        forall|c: u64, a: u64| #![trigger balance_in(apply_ops(b, ops).0, (from, c, a))]
            balance_in(apply_ops(b, ops).0, (from, c, a)) + balance_in(apply_ops(b, ops).0, (to, c, a))
                == balance_in(b, (from, c, a)) + balance_in(b, (to, c, a)),
        forall|k: BalanceKey| k.0 != from && k.0 != to ==> #[trigger] balance_in(apply_ops(b, ops).0, k) == balance_in(b, k),
    decreases ops.len(),
{
    if ops.len() > 0 {
        let p = ops.drop_last();
        assert forall|i: int| 0 <= i < p.len() implies is_move_between(#[trigger] p[i], from, to) by {
            assert(p[i] == ops[i]);
        }
        lemma_moves_conserve(b, p, from, to);
        let m = apply_ops(b, p).0;
        let last = ops[ops.len() - 1];
        assert(last == ops.last());
        assert forall|c: u64, a: u64| #![trigger balance_in(apply_ops(b, ops).0, (from, c, a))]
            balance_in(apply_ops(b, ops).0, (from, c, a)) + balance_in(apply_ops(b, ops).0, (to, c, a))
                == balance_in(b, (from, c, a)) + balance_in(b, (to, c, a)) by {
            assert(balance_in(m, (from, c, a)) + balance_in(m, (to, c, a)) == balance_in(b, (from, c, a)) + balance_in(b, (to, c, a)));
        }
        assert forall|k: BalanceKey| k.0 != from && k.0 != to implies #[trigger] balance_in(apply_ops(b, ops).0, k) == balance_in(b, k) by {
            assert(balance_in(m, k) == balance_in(b, k));
        }
    }
}

/// The moves of a batch go from `from` to `to`.
pub proof fn lemma_move_ops_between(from: u64, to: u64, class_id: u64, asset_ids: Seq<u64>, amounts: Seq<u128>)
    ensures
        moves_between(move_ops(from, to, class_id, asset_ids, amounts), from, to),
{
}

/// How much one step changes the balance at `k`.
pub open spec fn op_delta(k: BalanceKey, op: LedgerOp) -> int {
    match op {
        LedgerOp::Credit { key, amount } => if key == k { amount as int } else { 0 },
        LedgerOp::Debit { key, amount } => if key == k { -(amount as int) } else { 0 },
        LedgerOp::Move { from, to, amount } => (if to == k { amount as int } else { 0 }) - (if from == k { amount as int } else { 0 }),
    }
}

/// How much a program changes the balance at `k`, where every step succeeds.
pub open spec fn ops_delta(k: BalanceKey, ops: Seq<LedgerOp>) -> int
    decreases ops.len(),
{
    if ops.len() == 0 {
        0
    } else {
        ops_delta(k, ops.drop_last()) + op_delta(k, ops.last())
    }
}

/// A program that runs to the end changes each balance by its delta.
pub proof fn lemma_ops_delta(b: Balances, ops: Seq<LedgerOp>)
    requires
        apply_ops(b, ops).1,
    ensures
        forall|k: BalanceKey| #[trigger] balance_in(apply_ops(b, ops).0, k) == balance_in(b, k) + ops_delta(k, ops),
    decreases ops.len(),
{
    if ops.len() > 0 {
        let (m, ok) = apply_ops(b, ops.drop_last());
        assert(ok);
        lemma_ops_delta(b, ops.drop_last());
        lemma_op_delta(m, ops.last());
        assert forall|k: BalanceKey| #[trigger] balance_in(apply_ops(b, ops).0, k) == balance_in(b, k) + ops_delta(k, ops) by {
            assert(balance_in(m, k) == balance_in(b, k) + ops_delta(k, ops.drop_last()));
            assert(balance_in(apply_op(m, ops.last()).0, k) == balance_in(m, k) + op_delta(k, ops.last()));
        }
    }
}

/// A step that succeeds changes each balance by its delta.
pub proof fn lemma_op_delta(b: Balances, op: LedgerOp)
    requires
        apply_op(b, op).1,
    ensures
        forall|k: BalanceKey| #[trigger] balance_in(apply_op(b, op).0, k) == balance_in(b, k) + op_delta(k, op),
{
}

/// The delta of one more step of a program.
pub proof fn lemma_delta_step(k: BalanceKey, ops: Seq<LedgerOp>, j: int)
    requires
        0 <= j < ops.len(),
    ensures
        ops_delta(k, ops.take(j + 1)) == ops_delta(k, ops.take(j)) + op_delta(k, ops[j]),
{
    assert(ops.take(j + 1).drop_last() =~= ops.take(j));
}

/// Credits only add: the delta of a longer prefix of credits is no smaller.
pub proof fn lemma_credits_grow(k: BalanceKey, to: u64, class_id: u64, asset_ids: Seq<u64>, amounts: Seq<u128>, m: int, n: int)
    requires
        0 <= m <= n <= asset_ids.len(),
    ensures
        ops_delta(k, credit_ops(to, class_id, asset_ids, amounts).take(m)) <= ops_delta(k, credit_ops(to, class_id, asset_ids, amounts).take(n)),
    decreases n - m,
{
    if m < n {
        let c = credit_ops(to, class_id, asset_ids, amounts);
        lemma_delta_step(k, c, n - 1);
        lemma_credits_grow(k, to, class_id, asset_ids, amounts, m, n - 1);
    }
}

/// Debits of a list take away what the credits of the same list add.
pub proof fn lemma_debits_undo_credits(k: BalanceKey, who: u64, class_id: u64, asset_ids: Seq<u64>, amounts: Seq<u128>, j: int)
    requires
        0 <= j <= asset_ids.len(),
    ensures
        ops_delta(k, debit_ops(who, class_id, asset_ids, amounts).take(j)) == -ops_delta(k, credit_ops(who, class_id, asset_ids, amounts).take(j)),
    decreases j,
{
    let c = credit_ops(who, class_id, asset_ids, amounts);
    let d = debit_ops(who, class_id, asset_ids, amounts);
    if j == 0 {
        assert(c.take(0) =~= Seq::<LedgerOp>::empty());
        assert(d.take(0) =~= Seq::<LedgerOp>::empty());
    } else {
        lemma_debits_undo_credits(k, who, class_id, asset_ids, amounts, j - 1);
        lemma_delta_step(k, c, j - 1);
        lemma_delta_step(k, d, j - 1);
    }
}

} // verus!
