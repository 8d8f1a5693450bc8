//! The bundle pallet: an asset that stands for a fixed basket of other
//! assets. A bundle is registered under the hash of its schema; minting a
//! bundle locks the basket, scaled by the amount, in the bundle's vault, and
//! burning one releases it.
use vstd::prelude::*;
use std::collections::BTreeMap;
use crate::asset;
use crate::dex::sat_mul;
use crate::hashing::{blake2_256, blake2_256_of, hash_key, hash_key_of, same_hash, HashKey};
use crate::ledger::{balance_in, lemma_apply_single, BalanceKey, Balances, LedgerOp};
use crate::primitives::{ensure_signed, pallet_account_spec, DispatchError, Origin, PalletId};
use crate::traits::{reserve_effect, same_funds, ReservableCurrency};

verus! {

broadcast use vstd::laws_cmp::group_laws_cmp;

/// A bundle's identifier: the 256-bit hash of its schema.
pub type BundleId = [u8; 32];

/// The four 64-bit little-endian words of a bundle identifier, by which
/// bundles are stored.
pub type BundleKey = HashKey;

/// What one bundle holds: classes, and for each class the assets and the
/// amount of each per unit of the bundle.
pub type BundleSchema = (Vec<u64>, Vec<Vec<u64>>, Vec<Vec<u128>>);

/// A registered bundle.
#[derive(Debug)]
pub struct Bundle {
    pub creator: u64,
    pub class_id: u64,
    pub asset_id: u64,
    pub metadata: Vec<u8>,
    pub schema: BundleSchema,
    pub vault: u64,
}

#[derive(Clone, Copy, PartialEq, Eq, Debug)]
pub enum Event {
    Register { bundle_id: BundleId, who: u64, class_id: u64, asset_id: u64 },
    Mint { bundle_id: BundleId, who: u64, from: u64, to: u64, amount: u128 },
    Burn { bundle_id: BundleId, who: u64, from: u64, to: u64, amount: u128 },
}

#[derive(Clone, Copy, PartialEq, Eq, Debug)]
pub enum Error {
    InvalidBundleIdForBundle,
    BundleExists,
    BundleNotFound,
    NumOverflow,
    InvalidArrayLength,
    InsufficientBalance,
}

/// The pallet's state and configuration.
pub struct Pallet {
    pub pallet_id: PalletId,
    pub bundles: BTreeMap<BundleKey, Bundle>,
    /// The bundle that each (class, asset) stands for.
    pub asset_bundles: BTreeMap<(u64, u64), BundleId>,
    pub events: Vec<Event>,
}

/// The SCALE encoding of a schema: the tuple of its three lists as
/// `parity-scale-codec` encodes it.
pub uninterp spec fn schema_encoding(class_ids: Seq<u64>, asset_ids: Seq<Seq<u64>>, amounts: Seq<Seq<u128>>) -> Seq<u8>;

/// Whether every list of a schema, the outer ones and each inner one, has
/// at most `u32::MAX` entries: the most whose length SCALE encodes.
pub open spec fn schema_fits(class_ids: Seq<u64>, asset_ids: Seq<Seq<u64>>, amounts: Seq<Seq<u128>>) -> bool {
    &&& class_ids.len() <= u32::MAX
    &&& asset_ids.len() <= u32::MAX
    &&& amounts.len() <= u32::MAX
    &&& forall|i: int| 0 <= i < asset_ids.len() ==> (#[trigger] asset_ids[i]).len() <= u32::MAX
    &&& forall|i: int| 0 <= i < amounts.len() ==> (#[trigger] amounts[i]).len() <= u32::MAX
}

/// `Encode::encode` of `parity-scale-codec` on a schema; its bytes are
/// `schema_encoding` of the schema's lists. The encoder panics on a list
/// longer than `u32::MAX` entries, which `requires` leaves out.
#[verifier::external_body]
fn encode_schema(schema: &BundleSchema) -> (r: Vec<u8>)
    requires
        schema_fits(schema.0@, asset::vec_views(schema.1@), asset::vec_views(schema.2@)),
    ensures
        r@ == schema_encoding(schema.0@, asset::vec_views(schema.1@), asset::vec_views(schema.2@)),
{
    parity_scale_codec::Encode::encode(schema)
}

/// The identifier of a schema: the hash of its encoding.
pub open spec fn schema_id(class_ids: Seq<u64>, asset_ids: Seq<Seq<u64>>, amounts: Seq<Seq<u128>>) -> BundleId {
    blake2_256_of(schema_encoding(class_ids, asset_ids, amounts))
}

/// The account of every bundle's vault. A vault is derived from the pallet
/// identifier and the bundle identifier, but 64-bit accounts keep only the
/// pallet part of it.
pub open spec fn vault_of(p: &Pallet) -> u64 {
    pallet_account_spec(p.pallet_id.0)
}

/// A dispatch error of this pallet.
pub open spec fn nerr<T>(e: Error) -> Result<T, DispatchError> {
    Err(DispatchError::Bundle(e))
}

/// Why the balances do not cover a bundle amount.
#[derive(Clone, Copy, PartialEq, Eq, Debug)]
pub enum Shortfall {
    /// A balance is below the scaled amount.
    Insufficient,
    /// An asset of the schema has no amount: the check cannot go on.
    Panic,
}

/// The first shortfall of `owner` among the first `m` assets of one class of
/// a schema scaled by `k`.
pub open spec fn class_shortfall(b: Balances, owner: u64, class_id: u64, ids: Seq<u64>, amounts: Seq<u128>, k: u128, m: nat) -> Option<Shortfall>
    decreases m,
{
    if m == 0 {
        None
    } else {
        let prev = class_shortfall(b, owner, class_id, ids, amounts, k, (m - 1) as nat);
        let i = m - 1;
        if prev is Some {
            prev
        } else if i >= amounts.len() {
            Some(Shortfall::Panic)
        } else if balance_in(b, (owner, class_id, ids[i])) < sat_mul(amounts[i], k) {
            Some(Shortfall::Insufficient)
        } else {
            None
        }
    }
}

/// The first shortfall of `owner` among the first `n` classes of a schema
/// scaled by `k`.
pub open spec fn schema_shortfall(
    b: Balances,
    owner: u64,
    class_ids: Seq<u64>,
    asset_ids: Seq<Seq<u64>>,
    amounts: Seq<Seq<u128>>,
    k: u128,
    n: nat,
) -> Option<Shortfall>
    decreases n,
{
    if n == 0 {
        None
    } else {
        let prev = schema_shortfall(b, owner, class_ids, asset_ids, amounts, k, (n - 1) as nat);
        let c = n - 1;
        if prev is Some {
            prev
        } else {
            class_shortfall(b, owner, class_ids[c], asset_ids[c], amounts[c], k, asset_ids[c].len())
        }
    }
}

/// Each amount of a schema scaled by `k`, saturating.
pub open spec fn scaled(amounts: Seq<u128>, k: u128) -> Seq<u128> {
    Seq::new(amounts.len(), |i: int| sat_mul(amounts[i], k))
}

/// Every class of a schema scaled by `k`.
pub open spec fn scaled_all(amounts: Seq<Seq<u128>>, k: u128) -> Seq<Seq<u128>> {
    Seq::new(amounts.len(), |i: int| scaled(amounts[i], k))
}

/// The schema of `bundle` as lists of views.
pub open spec fn schema_views(bundle: Bundle) -> (Seq<u64>, Seq<Seq<u64>>, Seq<Seq<u128>>) {
    (bundle.schema.0@, asset::vec_views(bundle.schema.1@), asset::vec_views(bundle.schema.2@))
}

/// The asset moves of minting `amount` of `bundle` for `from` to `to`: the
/// scaled basket from `from` to the vault, then the bundle asset minted.
pub open spec fn mint_moves(b: Balances, bundle: Bundle, from: u64, to: u64, amount: u128) -> (Balances, Result<(), DispatchError>) {
    let (cs, ids, ams) = schema_views(bundle);
    asset::then_run(
        asset::batches_outcome(b, from, bundle.vault, cs, ids, scaled_all(ams, amount), cs.len()),
        |b1: Balances| asset::program_outcome(b1, seq![LedgerOp::Credit { key: (to, bundle.class_id, bundle.asset_id), amount }]),
    )
}

/// The asset moves of burning `amount` of `bundle`: the scaled basket from
/// the vault to `to`, then the bundle asset burnt from `who`.
pub open spec fn burn_moves(b: Balances, bundle: Bundle, vault: u64, who: u64, to: u64, amount: u128) -> (Balances, Result<(), DispatchError>) {
    let (cs, ids, ams) = schema_views(bundle);
    asset::then_run(
        asset::batches_outcome(b, vault, to, cs, ids, scaled_all(ams, amount), cs.len()),
        |b1: Balances| asset::program_outcome(b1, seq![LedgerOp::Debit { key: (who, bundle.class_id, bundle.asset_id), amount }]),
    )
}

/// Whether the three lists of a schema have the same length.
pub open spec fn schema_lengths_match(bundle: Bundle) -> bool {
    bundle.schema.0.len() == bundle.schema.1.len() && bundle.schema.0.len() == bundle.schema.2.len()
}

/// Once a class check finds a shortfall, later assets change nothing.
pub proof fn lemma_class_stops(b: Balances, owner: u64, class_id: u64, ids: Seq<u64>, amounts: Seq<u128>, k: u128, m1: nat, m2: nat)
    requires
        m1 <= m2,
        class_shortfall(b, owner, class_id, ids, amounts, k, m1) is Some,
    ensures
        class_shortfall(b, owner, class_id, ids, amounts, k, m2) == class_shortfall(b, owner, class_id, ids, amounts, k, m1),
    decreases m2 - m1,
{
    if m1 < m2 {
        lemma_class_stops(b, owner, class_id, ids, amounts, k, m1, (m2 - 1) as nat);
    }
}

/// Once a schema check finds a shortfall, later classes change nothing.
pub proof fn lemma_schema_stops(
    b: Balances,
    owner: u64,
    class_ids: Seq<u64>,
    asset_ids: Seq<Seq<u64>>,
    amounts: Seq<Seq<u128>>,
    k: u128,
    n1: nat,
    n2: nat,
)
    requires
        n1 <= n2,
        schema_shortfall(b, owner, class_ids, asset_ids, amounts, k, n1) is Some,
    ensures
        schema_shortfall(b, owner, class_ids, asset_ids, amounts, k, n2) == schema_shortfall(b, owner, class_ids, asset_ids, amounts, k, n1),
    decreases n2 - n1,
{
    if n1 < n2 {
        lemma_schema_stops(b, owner, class_ids, asset_ids, amounts, k, n1, (n2 - 1) as nat);
    }
}

/// Index `i` comes before index `j` when sorting `data` stably: a smaller
/// value first, and for equal values the smaller index.
pub open spec fn sorts_before(data: Seq<u64>, i: usize, j: usize) -> bool {
    data[i as int] < data[j as int] || (data[i as int] == data[j as int] && i < j)
}

/// The indices of `data` in the order that sorts it stably: every index
/// once, by value, and equal values in index order.
pub fn argsort(data: &[u64]) -> (r: Vec<usize>)
    ensures
        r@.len() == data@.len(),
        forall|k: int| 0 <= k < r@.len() ==> r@[k] < data@.len(),
        forall|a: int, b: int| 0 <= a < b < r@.len() ==> sorts_before(data@, #[trigger] r@[a], #[trigger] r@[b]),
{
    let n = data.len();
    let mut r: Vec<usize> = Vec::new();
    for i in 0..n
        invariant
            n == data@.len(),
            r@.len() == i,
            forall|k: int| 0 <= k < r@.len() ==> r@[k] < i,
            forall|a: int, b: int| 0 <= a < b < r@.len() ==> sorts_before(data@, #[trigger] r@[a], #[trigger] r@[b]),
    {
        let mut p: usize = 0;
        while p < r.len() && data[r[p]] <= data[i]
            invariant
                n == data@.len(),
                i < n,
                r@.len() == i,
                p <= r@.len(),
                forall|k: int| 0 <= k < r@.len() ==> r@[k] < i,
                forall|k: int| 0 <= k < p ==> data@[#[trigger] r@[k] as int] <= data@[i as int],
            decreases r@.len() - p,
        {
            p += 1;
        }
        let ghost before = r@;
        proof {
            before.insert_ensures(p as int, i);
            assert forall|k: int| p <= k < before.len() implies data@[#[trigger] before[k] as int] > data@[i as int] by {
                if k > p {
                    assert(sorts_before(data@, before[p as int], before[k]));
                }
            }
        }
        r.insert(p, i);
        proof {
            assert forall|a: int, b: int| 0 <= a < b < r@.len() implies sorts_before(data@, #[trigger] r@[a], #[trigger] r@[b]) by {
                if b < p {
                    assert(r@[a] == before[a] && r@[b] == before[b]);
                } else if b == p {
                    assert(r@[a] == before[a]);
                } else if a < p {
                    assert(r@[a] == before[a] && r@[b] == before[b - 1]);
                    assert(sorts_before(data@, before[a], before[b - 1]));
                } else if a == p {
                    assert(r@[b] == before[b - 1]);
                } else {
                    assert(r@[a] == before[a - 1] && r@[b] == before[b - 1]);
                    assert(sorts_before(data@, before[a - 1], before[b - 1]));
                }
            }
        }
    }
    r
}

impl Pallet {
    /// An empty pallet.
    pub fn new(pallet_id: PalletId) -> (r: Pallet)
        ensures
            r.pallet_id == pallet_id,
            r.bundles@ == Map::<BundleKey, Bundle>::empty(),
            r.asset_bundles@ == Map::<(u64, u64), BundleId>::empty(),
            r.events@ == Seq::<Event>::empty(),
    {
        Pallet { pallet_id, bundles: BTreeMap::new(), asset_bundles: BTreeMap::new(), events: Vec::new() }
    }

    /// The identifier of a schema: the Blake2b hash of its SCALE encoding.
    /// Every list of the schema holds at most `u32::MAX` entries.
    pub fn hash_of(schema: &BundleSchema) -> (r: BundleId)
        requires
            schema_fits(schema.0@, asset::vec_views(schema.1@), asset::vec_views(schema.2@)),
        ensures
            r == schema_id(schema.0@, asset::vec_views(schema.1@), asset::vec_views(schema.2@)),
    {
        let bytes = encode_schema(schema);
        blake2_256(&bytes)
    }

    /// Each amount scaled by `k`, saturating.
    fn scale(amounts: &Vec<u128>, k: u128) -> (r: Vec<u128>)
        ensures
            r@ == scaled(amounts@, k),
    {
        let mut v: Vec<u128> = Vec::new();
        for i in 0..amounts.len()
            invariant
                v@ == scaled(amounts@.take(i as int), k),
        {
            let x = match amounts[i].checked_mul(k) {
                Some(p) => p,
                None => u128::MAX,
            };
            v.push(x);
            assert(v@ =~= scaled(amounts@.take(i + 1), k));
        }
        assert(amounts@.take(amounts.len() as int) =~= amounts@);
        v
    }

    /// Every class of amounts scaled by `k`.
    fn scale_all(amounts: &Vec<Vec<u128>>, k: u128) -> (r: Vec<Vec<u128>>)
        ensures
            asset::vec_views(r@) == scaled_all(asset::vec_views(amounts@), k),
            r.len() == amounts.len(),
    {
        let mut v: Vec<Vec<u128>> = Vec::new();
        for i in 0..amounts.len()
            invariant
                v.len() == i,
                forall|j: int| 0 <= j < i ==> #[trigger] v@[j]@ == scaled(amounts@[j]@, k),
        {
            let s = Self::scale(&amounts[i], k);
            v.push(s);
        }
        assert(asset::vec_views(v@) =~= scaled_all(asset::vec_views(amounts@), k));
        v
    }

    /// The first shortfall of `owner` in a schema scaled by `k`, as
    /// `schema_shortfall` describes.
    #[verifier::loop_isolation(false)]
    fn find_shortfall(
        assets: &asset::Pallet,
        owner: u64,
        class_ids: &Vec<u64>,
        asset_ids: &Vec<Vec<u64>>,
        amounts: &Vec<Vec<u128>>,
        k: u128,
    ) -> (r: Option<Shortfall>)
        requires
            class_ids.len() == asset_ids.len(),
            class_ids.len() == amounts.len(),
        ensures
            r == schema_shortfall(assets.balances@, owner, class_ids@, asset::vec_views(asset_ids@), asset::vec_views(amounts@), k, class_ids.len() as nat),
    {
        let ghost ids_v = asset::vec_views(asset_ids@);
        let ghost ams_v = asset::vec_views(amounts@);
        for c in 0..class_ids.len()
            invariant
                class_ids.len() == asset_ids.len(),
                class_ids.len() == amounts.len(),
                ids_v == asset::vec_views(asset_ids@),
                ams_v == asset::vec_views(amounts@),
                schema_shortfall(assets.balances@, owner, class_ids@, ids_v, ams_v, k, c as nat) is None,
        {
            let ids = &asset_ids[c];
            let ams = &amounts[c];
            assert(ids_v[c as int] == ids@);
            assert(ams_v[c as int] == ams@);
            let balances = match assets.balance_of_single_owner_batch(owner, class_ids[c], ids.clone()) {
                Ok(v) => v,
                Err(_) => Vec::new(),
            };
            let scaled_ams = Self::scale(ams, k);
            for i in 0..ids.len()
                invariant
                    balances@ == Seq::new(ids@.len(), |j: int| balance_in(assets.balances@, (owner, class_ids@[c as int], ids@[j]))),
                    scaled_ams@ == scaled(ams@, k),
                    class_shortfall(assets.balances@, owner, class_ids@[c as int], ids@, ams@, k, i as nat) is None,
            {
                if i >= scaled_ams.len() || balances[i] < scaled_ams[i] {
                    proof {
                        lemma_class_stops(assets.balances@, owner, class_ids@[c as int], ids@, ams@, k, (i + 1) as nat, ids@.len());
                        lemma_schema_stops(assets.balances@, owner, class_ids@, ids_v, ams_v, k, (c + 1) as nat, class_ids.len() as nat);
                    }
                    if i >= scaled_ams.len() {
                        return Some(Shortfall::Panic);
                    }
                    return Some(Shortfall::Insufficient);
                }
            }
        }
        None
    }

    /// A copy of lists of asset identifiers.
    fn copy_ids(v: &Vec<Vec<u64>>) -> (r: Vec<Vec<u64>>)
        ensures
            asset::vec_views(r@) == asset::vec_views(v@),
    {
        let mut out: Vec<Vec<u64>> = Vec::new();
        for i in 0..v.len()
            invariant
                out.len() == i,
                forall|j: int| 0 <= j < i ==> #[trigger] out@[j]@ == v@[j]@,
        {
            let c = v[i].clone();
            assert(c@ =~= v@[i as int]@);
            out.push(c);
        }
        assert(asset::vec_views(out@) =~= asset::vec_views(v@));
        out
    }

    /// A copy of lists of amounts.
    fn copy_amounts(v: &Vec<Vec<u128>>) -> (r: Vec<Vec<u128>>)
        ensures
            asset::vec_views(r@) == asset::vec_views(v@),
    {
        let mut out: Vec<Vec<u128>> = Vec::new();
        for i in 0..v.len()
            invariant
                out.len() == i,
                forall|j: int| 0 <= j < i ==> #[trigger] out@[j]@ == v@[j]@,
        {
            let c = v[i].clone();
            assert(c@ =~= v@[i as int]@);
            out.push(c);
        }
        assert(asset::vec_views(out@) =~= asset::vec_views(v@));
        out
    }

    /// The bundle registered as `bundle_id`, where there is one.
    pub fn bundles(&self, bundle_id: BundleId) -> (r: Option<&Bundle>)
        ensures
            r == (if self.bundles@.contains_key(hash_key_of(bundle_id)) { Some(&self.bundles@[hash_key_of(bundle_id)]) } else { None::<&Bundle> }),
    {
        let key = hash_key(&bundle_id);
        self.bundles.get(&key)
    }

    /// The bundle that `(class_id, asset_id)` stands for, where there is one.
    pub fn asset_bundles(&self, class_id: u64, asset_id: u64) -> (r: Option<BundleId>)
        ensures
            r == (if self.asset_bundles@.contains_key((class_id, asset_id)) {
                Some(self.asset_bundles@[(class_id, asset_id)])
            } else {
                None::<BundleId>
            }),
    {
        match self.asset_bundles.get(&(class_id, asset_id)) {
            Some(id) => Some(*id),
            None => None,
        }
    }

    /// Registers the bundle of `schema` under `bundle_id`, which must be the
    /// schema's hash, as asset `asset_id` of the new class `class_id`, owned
    /// by the pallet's account; `who` pays the class deposit. Like the
    /// bounded lists of a stored schema, every list holds at most `u32::MAX`
    /// entries.
    pub fn do_register_bundle<C: ReservableCurrency>(
        &mut self,
        assets: &mut asset::Pallet,
        currency: &mut C,
        who: u64,
        class_id: u64,
        asset_id: u64,
        bundle_id: BundleId,
        schema: &BundleSchema,
        metadata: Vec<u8>,
    ) -> (r: Result<(), DispatchError>)
        requires
            schema_fits(schema.0@, asset::vec_views(schema.1@), asset::vec_views(schema.2@)),
        ensures
            final(self).pallet_id == old(self).pallet_id,
            schema_id(schema.0@, asset::vec_views(schema.1@), asset::vec_views(schema.2@)) != bundle_id
                ==> r == nerr::<()>(Error::InvalidBundleIdForBundle),
            schema_id(schema.0@, asset::vec_views(schema.1@), asset::vec_views(schema.2@)) == bundle_id
                && old(self).bundles@.contains_key(hash_key_of(bundle_id)) ==> r == nerr::<()>(Error::BundleExists),
            schema_id(schema.0@, asset::vec_views(schema.1@), asset::vec_views(schema.2@)) == bundle_id
                && !old(self).bundles@.contains_key(hash_key_of(bundle_id)) && old(assets).classes@.contains_key(class_id)
                ==> r == asset::err(asset::Error::InvalidClassId),
            schema_id(schema.0@, asset::vec_views(schema.1@), asset::vec_views(schema.2@)) == bundle_id
                && !old(self).bundles@.contains_key(hash_key_of(bundle_id)) && !old(assets).classes@.contains_key(class_id)
                ==> (r is Ok <==> old(currency).reserve_allowed(who, old(assets).create_asset_class_deposit)),
            r is Err ==> final(self).bundles@ == old(self).bundles@ && final(self).asset_bundles@ == old(self).asset_bundles@
                && final(self).events@ == old(self).events@ && asset::unchanged(old(assets), final(assets))
                && same_funds(*old(currency), *final(currency)),
            r is Ok ==> {
                let key = hash_key_of(bundle_id);
                let b = final(self).bundles@[key];
                &&& schema_id(schema.0@, asset::vec_views(schema.1@), asset::vec_views(schema.2@)) == bundle_id
                &&& !old(self).bundles@.contains_key(key)
                &&& final(self).bundles@.dom() == old(self).bundles@.dom().insert(key)
                &&& forall|k: BundleKey| k != key ==> #[trigger] final(self).bundles@[k] == old(self).bundles@[k]
                &&& b.creator == who && b.class_id == class_id && b.asset_id == asset_id
                &&& b.vault == vault_of(old(self))
                &&& b.metadata@ == metadata@
                &&& schema_views(b) == (schema.0@, asset::vec_views(schema.1@), asset::vec_views(schema.2@))
                &&& final(self).asset_bundles@ == old(self).asset_bundles@.insert((class_id, asset_id), bundle_id)
                &&& final(self).events@ == old(self).events@.push(Event::Register { bundle_id, who, class_id, asset_id })
                &&& reserve_effect(*old(currency), *final(currency), who, old(assets).create_asset_class_deposit)
                &&& final(assets).classes@.dom() == old(assets).classes@.dom().insert(class_id)
                &&& forall|c: u64| c != class_id ==> #[trigger] final(assets).classes@[c] == old(assets).classes@[c]
                &&& final(assets).classes@[class_id].owner == vault_of(old(self))
                &&& final(assets).classes@[class_id].metadata@ == metadata@
                &&& final(assets).assets@ == old(assets).assets@
                &&& final(assets).asset_count@ == old(assets).asset_count@
                &&& final(assets).balances@ == old(assets).balances@
                &&& final(assets).events@ == old(assets).events@.push(asset::Event::ClassCreated { class_id, who })
            },
    {
        let hash = Self::hash_of(schema);
        if !same_hash(&hash, &bundle_id) {
            return Err(DispatchError::Bundle(Error::InvalidBundleIdForBundle));
        }
        let key = hash_key(&hash);
        if self.bundles.contains_key(&key) {
            return Err(DispatchError::Bundle(Error::BundleExists));
        }
        let operator = self.pallet_id.into_account_truncating();
        let class_metadata = metadata.clone();
        assert(class_metadata@ =~= metadata@);
        assets.do_create_class(currency, who, operator, class_id, class_metadata)?;
        let vault = self.pallet_id.into_sub_account_truncating();
        let class_ids = schema.0.clone();
        assert(class_ids@ =~= schema.0@);
        let stored: BundleSchema = (class_ids, Self::copy_ids(&schema.1), Self::copy_amounts(&schema.2));
        self.bundles.insert(key, Bundle { creator: who, class_id, asset_id, metadata, schema: stored, vault });
        self.asset_bundles.insert((class_id, asset_id), hash);
        self.events.push(Event::Register { bundle_id: hash, who, class_id, asset_id });
        Ok(())
    }

    /// The asset side of a mint of `amount` of `bundle`.
    fn mint_assets(assets: &mut asset::Pallet, bundle: &Bundle, operator: u64, who: u64, from: u64, to: u64, amount: u128)
        -> (r: Result<(), DispatchError>)
        requires
            schema_lengths_match(*bundle),
            schema_shortfall(old(assets).balances@, from, schema_views(*bundle).0, schema_views(*bundle).1,
                schema_views(*bundle).2, amount, bundle.schema.0.len() as nat) is None,
        ensures
            (final(assets).balances@, r) == mint_moves(old(assets).balances@, *bundle, from, to, amount),
            asset::same_registry(old(assets), final(assets)),
            asset::events_extended(old(assets).events@, final(assets).events@),
    {
        let scaled_ams = Self::scale_all(&bundle.schema.2, amount);
        let ghost b0 = assets.balances@;
        assets.transfer_batches(who, from, bundle.vault, &bundle.schema.0, &bundle.schema.1, &scaled_ams)?;
        let ghost ev = assets.events@;
        proof {
            lemma_apply_single(assets.balances@, LedgerOp::Credit { key: (to, bundle.class_id, bundle.asset_id), amount });
        }
        let r = assets.do_mint(operator, to, bundle.class_id, bundle.asset_id, amount);
        proof {
            assert(assets.events@.subrange(0, old(assets).events@.len() as int) =~= ev.subrange(0, old(assets).events@.len() as int));
        }
        r
    }

    /// The asset side of a burn of `amount` of `bundle`.
    fn burn_assets(assets: &mut asset::Pallet, bundle: &Bundle, operator: u64, who: u64, to: u64, amount: u128)
        -> (r: Result<(), DispatchError>)
        requires
            schema_lengths_match(*bundle),
        ensures
            (final(assets).balances@, r) == burn_moves(old(assets).balances@, *bundle, operator, who, to, amount),
            asset::same_registry(old(assets), final(assets)),
            asset::events_extended(old(assets).events@, final(assets).events@),
    {
        let scaled_ams = Self::scale_all(&bundle.schema.2, amount);
        assets.transfer_batches(operator, operator, to, &bundle.schema.0, &bundle.schema.1, &scaled_ams)?;
        let ghost ev = assets.events@;
        proof {
            lemma_apply_single(assets.balances@, LedgerOp::Debit { key: (who, bundle.class_id, bundle.asset_id), amount });
        }
        let r = assets.do_burn(operator, who, bundle.class_id, bundle.asset_id, amount);
        proof {
            assert(assets.events@.subrange(0, old(assets).events@.len() as int) =~= ev.subrange(0, old(assets).events@.len() as int));
        }
        r
    }

    /// Mints `amount` of a bundle to `to`: the schema scaled by `amount`
    /// moves from `from` to the bundle's vault, which must first be found to
    /// cover it, then the bundle asset is minted. Classes already moved stay
    /// moved where a later step fails.
    pub fn do_mint_bundles(&mut self, assets: &mut asset::Pallet, who: u64, from: u64, to: u64, bundle_id: BundleId, amount: u128)
        -> (r: Result<(), DispatchError>)
        requires
            old(self).bundles@.contains_key(hash_key_of(bundle_id)) && schema_lengths_match(old(self).bundles@[hash_key_of(bundle_id)])
                ==> schema_shortfall(old(assets).balances@, from,
                    schema_views(old(self).bundles@[hash_key_of(bundle_id)]).0,
                    schema_views(old(self).bundles@[hash_key_of(bundle_id)]).1,
                    schema_views(old(self).bundles@[hash_key_of(bundle_id)]).2,
                    amount,
                    old(self).bundles@[hash_key_of(bundle_id)].schema.0.len() as nat) != Some(Shortfall::Panic),
        ensures
            final(self).pallet_id == old(self).pallet_id,
            final(self).bundles@ == old(self).bundles@,
            final(self).asset_bundles@ == old(self).asset_bundles@,
            asset::same_registry(old(assets), final(assets)),
            asset::events_extended(old(assets).events@, final(assets).events@),
            r is Err ==> final(self).events@ == old(self).events@,
            !old(self).bundles@.contains_key(hash_key_of(bundle_id)) ==> r == nerr::<()>(Error::BundleNotFound)
                && asset::unchanged(old(assets), final(assets)),
            old(self).bundles@.contains_key(hash_key_of(bundle_id)) ==> ({
                let bundle = old(self).bundles@[hash_key_of(bundle_id)];
                let (cs, ids, ams) = schema_views(bundle);
                let sf = schema_shortfall(old(assets).balances@, from, cs, ids, ams, amount, cs.len());
                let (b, res) = mint_moves(old(assets).balances@, bundle, from, to, amount);
                &&& !schema_lengths_match(bundle) ==> r == nerr::<()>(Error::InvalidArrayLength) && asset::unchanged(old(assets), final(assets))
                &&& schema_lengths_match(bundle) && sf == Some(Shortfall::Insufficient) ==> r == nerr::<()>(Error::InsufficientBalance)
                    && asset::unchanged(old(assets), final(assets))
                &&& schema_lengths_match(bundle) && sf is None ==> {
                    &&& final(assets).balances@ == b
                    &&& r == res
                    &&& res is Ok ==> final(self).events@ == old(self).events@.push(Event::Mint { bundle_id, who, from, to, amount })
                }
            }),
    {
        assert(old(assets).events@.subrange(0, old(assets).events@.len() as int) =~= old(assets).events@);
        let key = hash_key(&bundle_id);
        let r = match self.bundles.get(&key) {
            None => {
                return Err(DispatchError::Bundle(Error::BundleNotFound));
            },
            Some(bundle) => {
                if bundle.schema.0.len() != bundle.schema.1.len() || bundle.schema.0.len() != bundle.schema.2.len() {
                    return Err(DispatchError::Bundle(Error::InvalidArrayLength));
                }
                match Self::find_shortfall(assets, from, &bundle.schema.0, &bundle.schema.1, &bundle.schema.2, amount) {
                    Some(_) => {
                        return Err(DispatchError::Bundle(Error::InsufficientBalance));
                    },
                    None => {},
                }
                let operator = self.pallet_id.into_account_truncating();
                Self::mint_assets(assets, bundle, operator, who, from, to, amount)
            },
        };
        if r.is_err() {
            return r;
        }
        self.events.push(Event::Mint { bundle_id, who, from, to, amount });
        Ok(())
    }

    /// Burns `amount` of a bundle held by `from`, which must hold at least
    /// that much: the schema scaled by `amount` moves from the vault, which
    /// must first be found to cover it, to `to`, then the bundle asset is
    /// burnt from `who`. Classes already moved stay moved where a later step
    /// fails.
    pub fn do_burn_bundles(&mut self, assets: &mut asset::Pallet, who: u64, from: u64, to: u64, bundle_id: BundleId, amount: u128)
        -> (r: Result<(), DispatchError>)
        requires
            old(self).bundles@.contains_key(hash_key_of(bundle_id)) && schema_lengths_match(old(self).bundles@[hash_key_of(bundle_id)])
                ==> schema_shortfall(old(assets).balances@, old(self).bundles@[hash_key_of(bundle_id)].vault,
                    schema_views(old(self).bundles@[hash_key_of(bundle_id)]).0,
                    schema_views(old(self).bundles@[hash_key_of(bundle_id)]).1,
                    schema_views(old(self).bundles@[hash_key_of(bundle_id)]).2,
                    amount,
                    old(self).bundles@[hash_key_of(bundle_id)].schema.0.len() as nat) != Some(Shortfall::Panic),
        ensures
            final(self).pallet_id == old(self).pallet_id,
            final(self).bundles@ == old(self).bundles@,
            final(self).asset_bundles@ == old(self).asset_bundles@,
            asset::same_registry(old(assets), final(assets)),
            asset::events_extended(old(assets).events@, final(assets).events@),
            r is Err ==> final(self).events@ == old(self).events@,
            !old(self).bundles@.contains_key(hash_key_of(bundle_id)) ==> r == nerr::<()>(Error::BundleNotFound)
                && asset::unchanged(old(assets), final(assets)),
            old(self).bundles@.contains_key(hash_key_of(bundle_id)) ==> ({
                let bundle = old(self).bundles@[hash_key_of(bundle_id)];
                let (cs, ids, ams) = schema_views(bundle);
                let held = balance_in(old(assets).balances@, (from, bundle.class_id, bundle.asset_id));
                let sf = schema_shortfall(old(assets).balances@, bundle.vault, cs, ids, ams, amount, cs.len());
                let (b, res) = burn_moves(old(assets).balances@, bundle, vault_of(old(self)), who, to, amount);
                &&& !schema_lengths_match(bundle) ==> r == nerr::<()>(Error::InvalidArrayLength) && asset::unchanged(old(assets), final(assets))
                &&& schema_lengths_match(bundle) && (held < amount || sf == Some(Shortfall::Insufficient))
                    ==> r == nerr::<()>(Error::InsufficientBalance) && asset::unchanged(old(assets), final(assets))
                &&& schema_lengths_match(bundle) && held >= amount && sf is None ==> {
                    &&& final(assets).balances@ == b
                    &&& r == res
                    &&& res is Ok ==> final(self).events@ == old(self).events@.push(Event::Burn { bundle_id, who, from, to, amount })
                }
            }),
    {
        assert(old(assets).events@.subrange(0, old(assets).events@.len() as int) =~= old(assets).events@);
        let key = hash_key(&bundle_id);
        let operator = self.pallet_id.into_account_truncating();
        let r = match self.bundles.get(&key) {
            None => {
                return Err(DispatchError::Bundle(Error::BundleNotFound));
            },
            Some(bundle) => {
                if bundle.schema.0.len() != bundle.schema.1.len() || bundle.schema.0.len() != bundle.schema.2.len() {
                    return Err(DispatchError::Bundle(Error::InvalidArrayLength));
                }
                let held = assets.balance_of(from, bundle.class_id, bundle.asset_id);
                if held < amount {
                    return Err(DispatchError::Bundle(Error::InsufficientBalance));
                }
                match Self::find_shortfall(assets, bundle.vault, &bundle.schema.0, &bundle.schema.1, &bundle.schema.2, amount) {
                    Some(_) => {
                        return Err(DispatchError::Bundle(Error::InsufficientBalance));
                    },
                    None => {},
                }
                Self::burn_assets(assets, bundle, operator, who, to, amount)
            },
        };
        if r.is_err() {
            return r;
        }
        self.events.push(Event::Burn { bundle_id, who, from, to, amount });
        Ok(())
    }

    /// `do_register_bundle` for the signer.
    pub fn register_bundle<C: ReservableCurrency>(
        &mut self,
        assets: &mut asset::Pallet,
        currency: &mut C,
        origin: Origin,
        class_id: u64,
        asset_id: u64,
        bundle_id: BundleId,
        schema: BundleSchema,
        metadata: Vec<u8>,
    ) -> (r: Result<(), DispatchError>)
        requires
            schema_fits(schema.0@, asset::vec_views(schema.1@), asset::vec_views(schema.2@)),
        ensures
            final(self).pallet_id == old(self).pallet_id,
            !(origin is Signed) ==> r == Err::<(), DispatchError>(DispatchError::BadOrigin),
            schema_id(schema.0@, asset::vec_views(schema.1@), asset::vec_views(schema.2@)) != bundle_id && origin is Signed
                ==> r == nerr::<()>(Error::InvalidBundleIdForBundle),
            schema_id(schema.0@, asset::vec_views(schema.1@), asset::vec_views(schema.2@)) == bundle_id && origin is Signed
                && old(self).bundles@.contains_key(hash_key_of(bundle_id)) ==> r == nerr::<()>(Error::BundleExists),
            schema_id(schema.0@, asset::vec_views(schema.1@), asset::vec_views(schema.2@)) == bundle_id && origin is Signed
                && !old(self).bundles@.contains_key(hash_key_of(bundle_id)) && old(assets).classes@.contains_key(class_id)
                ==> r == asset::err(asset::Error::InvalidClassId),
            schema_id(schema.0@, asset::vec_views(schema.1@), asset::vec_views(schema.2@)) == bundle_id && origin is Signed
                && !old(self).bundles@.contains_key(hash_key_of(bundle_id)) && !old(assets).classes@.contains_key(class_id)
                ==> (r is Ok <==> old(currency).reserve_allowed(origin->Signed_0, old(assets).create_asset_class_deposit)),
            r is Err ==> final(self).bundles@ == old(self).bundles@ && final(self).asset_bundles@ == old(self).asset_bundles@
                && final(self).events@ == old(self).events@ && asset::unchanged(old(assets), final(assets))
                && same_funds(*old(currency), *final(currency)),
            r is Ok ==> origin is Signed && final(self).asset_bundles@ == old(self).asset_bundles@.insert((class_id, asset_id), bundle_id)
                && final(self).bundles@.dom() == old(self).bundles@.dom().insert(hash_key_of(bundle_id))
                && final(self).events@ == old(self).events@.push(Event::Register { bundle_id, who: origin->Signed_0, class_id, asset_id }),
    {
        let who = ensure_signed(origin)?;
        self.do_register_bundle(assets, currency, who, class_id, asset_id, bundle_id, &schema, metadata)
    }

    /// `do_mint_bundles` for the signer; a failed call changes nothing.
    pub fn mint_bundle(&mut self, assets: &mut asset::Pallet, origin: Origin, from: u64, to: u64, bundle_id: BundleId, amount: u128)
        -> (r: Result<(), DispatchError>)
        requires
            origin is Signed && old(self).bundles@.contains_key(hash_key_of(bundle_id)) && schema_lengths_match(old(self).bundles@[hash_key_of(bundle_id)])
                ==> schema_shortfall(old(assets).balances@, from,
                    schema_views(old(self).bundles@[hash_key_of(bundle_id)]).0,
                    schema_views(old(self).bundles@[hash_key_of(bundle_id)]).1,
                    schema_views(old(self).bundles@[hash_key_of(bundle_id)]).2,
                    amount,
                    old(self).bundles@[hash_key_of(bundle_id)].schema.0.len() as nat) != Some(Shortfall::Panic),
        ensures
            final(self).pallet_id == old(self).pallet_id,
            final(self).bundles@ == old(self).bundles@,
            final(self).asset_bundles@ == old(self).asset_bundles@,
            asset::same_registry(old(assets), final(assets)),
            !(origin is Signed) ==> r == Err::<(), DispatchError>(DispatchError::BadOrigin),
            r is Err ==> final(self).events@ == old(self).events@ && asset::unchanged(old(assets), final(assets)),
            origin is Signed ==> ({
                let who = origin->Signed_0;
                &&& !old(self).bundles@.contains_key(hash_key_of(bundle_id)) ==> r == nerr::<()>(Error::BundleNotFound)
                &&& old(self).bundles@.contains_key(hash_key_of(bundle_id)) ==> {
                    let bundle = old(self).bundles@[hash_key_of(bundle_id)];
                    let (cs, ids, ams) = schema_views(bundle);
                    let sf = schema_shortfall(old(assets).balances@, from, cs, ids, ams, amount, cs.len());
                    let (b, res) = mint_moves(old(assets).balances@, bundle, from, to, amount);
                    &&& !schema_lengths_match(bundle) ==> r == nerr::<()>(Error::InvalidArrayLength)
                    &&& schema_lengths_match(bundle) && sf == Some(Shortfall::Insufficient) ==> r == nerr::<()>(Error::InsufficientBalance)
                    &&& schema_lengths_match(bundle) && sf is None ==> r == res
                        && (res is Ok ==> final(assets).balances@ == b
                            && asset::events_extended(old(assets).events@, final(assets).events@)
                            && final(self).events@ == old(self).events@.push(Event::Mint { bundle_id, who, from, to, amount }))
                }
            }),
    {
        let who = ensure_signed(origin)?;
        let saved_balances = assets.balances.clone();
        let n_events = assets.events.len();
        let r = self.do_mint_bundles(assets, who, from, to, bundle_id, amount);
        if r.is_err() {
            assets.balances = saved_balances;
            assets.events.truncate(n_events);
            assert(assets.events@ =~= old(assets).events@);
        }
        r
    }

    /// `do_burn_bundles` for the signer; a failed call changes nothing.
    pub fn burn_bundle(&mut self, assets: &mut asset::Pallet, origin: Origin, from: u64, to: u64, bundle_id: BundleId, amount: u128)
        -> (r: Result<(), DispatchError>)
        requires
            origin is Signed && old(self).bundles@.contains_key(hash_key_of(bundle_id)) && schema_lengths_match(old(self).bundles@[hash_key_of(bundle_id)])
                ==> schema_shortfall(old(assets).balances@, old(self).bundles@[hash_key_of(bundle_id)].vault,
                    schema_views(old(self).bundles@[hash_key_of(bundle_id)]).0,
                    schema_views(old(self).bundles@[hash_key_of(bundle_id)]).1,
                    schema_views(old(self).bundles@[hash_key_of(bundle_id)]).2,
                    amount,
                    old(self).bundles@[hash_key_of(bundle_id)].schema.0.len() as nat) != Some(Shortfall::Panic),
        ensures
            final(self).pallet_id == old(self).pallet_id,
            final(self).bundles@ == old(self).bundles@,
            final(self).asset_bundles@ == old(self).asset_bundles@,
            asset::same_registry(old(assets), final(assets)),
            !(origin is Signed) ==> r == Err::<(), DispatchError>(DispatchError::BadOrigin),
            r is Err ==> final(self).events@ == old(self).events@ && asset::unchanged(old(assets), final(assets)),
            origin is Signed ==> ({
                let who = origin->Signed_0;
                &&& !old(self).bundles@.contains_key(hash_key_of(bundle_id)) ==> r == nerr::<()>(Error::BundleNotFound)
                &&& old(self).bundles@.contains_key(hash_key_of(bundle_id)) ==> {
                    let bundle = old(self).bundles@[hash_key_of(bundle_id)];
                    let (cs, ids, ams) = schema_views(bundle);
                    let held = balance_in(old(assets).balances@, (from, bundle.class_id, bundle.asset_id));
                    let sf = schema_shortfall(old(assets).balances@, bundle.vault, cs, ids, ams, amount, cs.len());
                    let (b, res) = burn_moves(old(assets).balances@, bundle, vault_of(old(self)), who, to, amount);
                    &&& !schema_lengths_match(bundle) ==> r == nerr::<()>(Error::InvalidArrayLength)
                    &&& schema_lengths_match(bundle) && (held < amount || sf == Some(Shortfall::Insufficient))
                        ==> r == nerr::<()>(Error::InsufficientBalance)
                    &&& schema_lengths_match(bundle) && held >= amount && sf is None ==> r == res
                        && (res is Ok ==> final(assets).balances@ == b
                            && asset::events_extended(old(assets).events@, final(assets).events@)
                            && final(self).events@ == old(self).events@.push(Event::Burn { bundle_id, who, from, to, amount }))
                }
            }),
    {
        let who = ensure_signed(origin)?;
        let saved_balances = assets.balances.clone();
        let n_events = assets.events.len();
        let r = self.do_burn_bundles(assets, who, from, to, bundle_id, amount);
        if r.is_err() {
            assets.balances = saved_balances;
            assets.events.truncate(n_events);
            assert(assets.events@ =~= old(assets).events@);
        }
        r
    }
}

/// Minting an amount of a bundle for a holder and then burning the same
/// amount for it, where both succeed, restores every balance: the basket
/// goes back from the vault and the bundle asset minted is burnt.
pub proof fn law_mint_burn_bundle_round_trip(b: Balances, bundle: Bundle, vault: u64, holder: u64, amount: u128)
    requires
        bundle.vault == vault,
        mint_moves(b, bundle, holder, holder, amount).1 is Ok,
        burn_moves(mint_moves(b, bundle, holder, holder, amount).0, bundle, vault, holder, holder, amount).1 is Ok,
    ensures
        forall|k: BalanceKey| #[trigger] balance_in(burn_moves(mint_moves(b, bundle, holder, holder, amount).0, bundle, vault, holder, holder, amount).0, k)
            == balance_in(b, k),
{
    let (cs, ids, ams) = schema_views(bundle);
    let sa = scaled_all(ams, amount);
    let key = (holder, bundle.class_id, bundle.asset_id);
    let (b1, r1) = asset::batches_outcome(b, holder, vault, cs, ids, sa, cs.len());
    assert(r1 is Ok);
    asset::lemma_batches_delta(b, holder, vault, cs, ids, sa, cs.len());
    lemma_apply_single(b1, LedgerOp::Credit { key, amount });
    let b2 = mint_moves(b, bundle, holder, holder, amount).0;
    let (b3, r3) = asset::batches_outcome(b2, vault, holder, cs, ids, sa, cs.len());
    assert(r3 is Ok);
    asset::lemma_batches_delta(b2, vault, holder, cs, ids, sa, cs.len());
    lemma_apply_single(b3, LedgerOp::Debit { key, amount });
    let b4 = burn_moves(b2, bundle, vault, holder, holder, amount).0;
    assert forall|k: BalanceKey| #[trigger] balance_in(b4, k) == balance_in(b, k) by {
        asset::lemma_batches_reverse(k, holder, vault, cs, ids, sa, cs.len());
        assert(balance_in(b3, k) == balance_in(b2, k) + asset::batches_delta(k, vault, holder, cs, ids, sa, cs.len()));
        assert(balance_in(b1, k) == balance_in(b, k) + asset::batches_delta(k, holder, vault, cs, ids, sa, cs.len()));
    }
}

} // verus!
