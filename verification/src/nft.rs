//! The non-fungible token pallet: collections numbered in order of creation,
//! each with its own run of token numbers; a token has one owner, who may
//! transfer or burn it, and a collection with no tokens left may be
//! destroyed by its owner, who gets the deposit back.
use vstd::prelude::*;
use std::collections::{BTreeMap, BTreeSet};
use crate::primitives::{ensure_signed, DispatchError, Origin};
use crate::traits::{reserve_effect, same_funds, ReservableCurrency};

verus! {

broadcast use vstd::laws_cmp::group_laws_cmp;

/// A collection: its owner, the number of its tokens, the deposit reserved
/// for it and its properties.
#[derive(Clone, Debug)]
pub struct CollectionInfo {
    pub owner: u64,
    pub total_supply: u128,
    pub deposit: u128,
    pub properties: Vec<u8>,
}

/// A token: its owner and metadata.
#[derive(Clone, Debug)]
pub struct TokenInfo {
    pub owner: u64,
    pub metadata: Vec<u8>,
}

#[derive(Debug)]
pub enum Event {
    CollectionCreated(u64, u64),
    TokenMint(u64, Vec<u64>, u64),
    TokenBurned(u64, u64, u64),
    TokenTransferred(u64, u64, u64, u64),
    CollectionDestroyed(u64, u64),
}

#[derive(Clone, Copy, PartialEq, Eq, Debug)]
pub enum Error {
    NumOverflow,
    NoAvailableCollectionId,
    CollectionNotFound,
    NoAvailableTokenId,
    TokenNotFound,
    InvalidQuantity,
    NoPermission,
    CannotDestroyCollection,
}

/// The pallet's state and configuration.
pub struct Pallet {
    /// The deposit reserved from the creator of a collection.
    pub create_collection_deposit: u128,
    pub collections: BTreeMap<u64, CollectionInfo>,
    /// The number that the next collection gets.
    pub next_collection_id: u64,
    /// Keyed by (collection, token).
    pub tokens: BTreeMap<(u64, u64), TokenInfo>,
    /// The number that the next token of each collection gets.
    pub next_token_id: BTreeMap<u64, u64>,
    /// The (owner, collection, token) of every token.
    pub token_owner_set: BTreeSet<(u64, u64, u64)>,
    pub events: Vec<Event>,
}

/// A dispatch error of this pallet.
pub open spec fn terr<T>(e: Error) -> Result<T, DispatchError> {
    Err(DispatchError::Nft(e))
}

/// The next token number of a collection, zero where there is none.
pub open spec fn next_in(m: Map<u64, u64>, c: u64) -> u64 {
    if m.contains_key(c) { m[c] } else { 0 }
}

/// The keys of `q` tokens of collection `c` numbered from `first`.
pub open spec fn run_of(c: u64, first: u64, q: u64) -> Set<(u64, u64)> {
    Set::new(|k: (u64, u64)| k.0 == c && first <= k.1 && k.1 < first + q)
}

/// `new` is `old` with tokens `first .. first + q` of collection `c` owned by
/// `to` with metadata `metadata`.
pub open spec fn with_run(old: Map<(u64, u64), TokenInfo>, new: Map<(u64, u64), TokenInfo>, c: u64, first: u64, q: u64, to: u64, metadata: Seq<u8>) -> bool {
    &&& new.dom() == old.dom().union(run_of(c, first, q))
    &&& forall|k: (u64, u64)| #[trigger] new.contains_key(k) && !run_of(c, first, q).contains(k) ==> new[k] == old[k]
    &&& forall|k: (u64, u64)| #[trigger] run_of(c, first, q).contains(k) ==> new[k].owner == to && new[k].metadata@ == metadata
}

/// `new` is the owner set `old` with the tokens `first .. first + q` of
/// collection `c` added for `to`.
pub open spec fn owners_with_run(old: Set<(u64, u64, u64)>, new: Set<(u64, u64, u64)>, c: u64, first: u64, q: u64, to: u64) -> bool {
    new == old.union(owner_run(c, first, q, to))
}

/// The (owner, collection, token) entries of `q` tokens of collection `c`
/// numbered from `first`, owned by `to`.
pub open spec fn owner_run(c: u64, first: u64, q: u64, to: u64) -> Set<(u64, u64, u64)> {
    Set::new(|k: (u64, u64, u64)| k.0 == to && k.1 == c && first <= k.2 && k.2 < first + q)
}

/// The owner set lists every token under its owner, and nothing else.
pub open spec fn owners_consistent(p: &Pallet) -> bool {
    forall|o: u64, c: u64, t: u64| #[trigger] p.token_owner_set@.contains((o, c, t))
        <==> (p.tokens@.contains_key((c, t)) && p.tokens@[(c, t)].owner == o)
}

/// No token of collection `c` is numbered `first .. first + q`.
pub open spec fn run_fresh(tokens: Map<(u64, u64), TokenInfo>, c: u64, first: u64, q: u64) -> bool {
    forall|t: u64| first <= t < first + q ==> !#[trigger] tokens.contains_key((c, t))
}

impl Pallet {
    /// An empty pallet.
    pub fn new(create_collection_deposit: u128) -> (r: Pallet)
        ensures
            r.create_collection_deposit == create_collection_deposit,
            r.collections@ == Map::<u64, CollectionInfo>::empty(),
            r.next_collection_id == 0,
            r.tokens@ == Map::<(u64, u64), TokenInfo>::empty(),
            r.next_token_id@ == Map::<u64, u64>::empty(),
            r.token_owner_set@ == Set::<(u64, u64, u64)>::empty(),
            r.events@ == Seq::<Event>::empty(),
            owners_consistent(&r),
    {
        Pallet {
            create_collection_deposit,
            collections: BTreeMap::new(),
            next_collection_id: 0,
            tokens: BTreeMap::new(),
            next_token_id: BTreeMap::new(),
            token_owner_set: BTreeSet::new(),
            events: Vec::new(),
        }
    }

    /// The number that the next collection gets.
    pub fn next_collection_id(&self) -> (r: u64)
        ensures
            r == self.next_collection_id,
    {
        self.next_collection_id
    }

    /// The number that the next token of `collection_id` gets.
    pub fn next_token_id(&self, collection_id: u64) -> (r: u64)
        ensures
            r == next_in(self.next_token_id@, collection_id),
    {
        match self.next_token_id.get(&collection_id) {
            Some(v) => *v,
            None => 0,
        }
    }

    /// The token `token_id` of `collection_id`, where there is one.
    pub fn tokens(&self, collection_id: u64, token_id: u64) -> (r: Option<&TokenInfo>)
        ensures
            r == (if self.tokens@.contains_key((collection_id, token_id)) {
                Some(&self.tokens@[(collection_id, token_id)])
            } else {
                None::<&TokenInfo>
            }),
    {
        self.tokens.get(&(collection_id, token_id))
    }

    /// Whether `owner` holds token `token_id` of `collection_id`.
    pub fn token_owner_set(&self, owner: u64, collection_id: u64, token_id: u64) -> (r: bool)
        ensures
            r == self.token_owner_set@.contains((owner, collection_id, token_id)),
    {
        self.token_owner_set.contains(&(owner, collection_id, token_id))
    }

    /// Creates a collection owned by `who`, numbered `next_collection_id`,
    /// reserving the collection deposit from `who`. The collection number is
    /// taken before the deposit is reserved.
    pub fn do_create_collection<C: ReservableCurrency>(&mut self, currency: &mut C, who: u64, properties: Vec<u8>)
        -> (r: Result<u64, DispatchError>)
        ensures
            final(self).create_collection_deposit == old(self).create_collection_deposit,
            final(self).tokens@ == old(self).tokens@,
            final(self).next_token_id@ == old(self).next_token_id@,
            final(self).token_owner_set@ == old(self).token_owner_set@,
            old(self).next_collection_id == u64::MAX ==> r == terr::<u64>(Error::NoAvailableCollectionId)
                && final(self).next_collection_id == old(self).next_collection_id,
            old(self).next_collection_id < u64::MAX ==> final(self).next_collection_id == old(self).next_collection_id + 1,
            old(self).next_collection_id < u64::MAX
                ==> (r is Ok <==> old(currency).reserve_allowed(who, old(self).create_collection_deposit)),
            r is Err ==> final(self).collections@ == old(self).collections@ && final(self).events@ == old(self).events@
                && same_funds(*old(currency), *final(currency)),
            r is Ok ==> {
                let id = old(self).next_collection_id;
                &&& r == Ok::<u64, DispatchError>(id)
                &&& reserve_effect(*old(currency), *final(currency), who, old(self).create_collection_deposit)
                &&& final(self).collections@.dom() == old(self).collections@.dom().insert(id)
                &&& forall|c: u64| c != id ==> #[trigger] final(self).collections@[c] == old(self).collections@[c]
                &&& final(self).collections@[id].owner == who
                &&& final(self).collections@[id].total_supply == 0
                &&& final(self).collections@[id].deposit == old(self).create_collection_deposit
                &&& final(self).collections@[id].properties@ == properties@
                &&& final(self).events@.len() == old(self).events@.len() + 1
                &&& final(self).events@.drop_last() == old(self).events@
                &&& final(self).events@.last() matches Event::CollectionCreated(c, w) && c == id && w == who
            },
    {
        let collection_id = self.next_collection_id;
        match collection_id.checked_add(1) {
            Some(n) => {
                self.next_collection_id = n;
            },
            None => {
                return Err(DispatchError::Nft(Error::NoAvailableCollectionId));
            },
        }
        let deposit = self.create_collection_deposit;
        currency.reserve(who, deposit)?;
        self.collections.insert(collection_id, CollectionInfo { owner: who, total_supply: 0, deposit, properties });
        self.events.push(Event::CollectionCreated(collection_id, who));
        assert(self.events@.drop_last() =~= old(self).events@);
        Ok(collection_id)
    }

    /// Mints `quantity` tokens of `collection_id` to `to`, which must own the
    /// collection, numbered on from the collection's next token number, each
    /// with `metadata`. Where the collection's supply would overflow, the
    /// tokens stay written while the supply and the next number do not move.
    pub fn do_mint(&mut self, to: u64, collection_id: u64, metadata: Vec<u8>, quantity: u64) -> (r: Result<Vec<u64>, DispatchError>)
        ensures
            final(self).create_collection_deposit == old(self).create_collection_deposit,
            final(self).next_collection_id == old(self).next_collection_id,
            ({
                let first = next_in(old(self).next_token_id@, collection_id);
                let c = collection_id;
                let unchanged = final(self).collections@ == old(self).collections@ && final(self).tokens@ == old(self).tokens@
                    && final(self).next_token_id@ == old(self).next_token_id@
                    && final(self).token_owner_set@ == old(self).token_owner_set@ && final(self).events@ == old(self).events@;
                &&& quantity < 1 ==> r == terr::<Vec<u64>>(Error::InvalidQuantity) && unchanged
                &&& quantity >= 1 && first + quantity > u64::MAX ==> r == terr::<Vec<u64>>(Error::NoAvailableTokenId) && unchanged
                &&& quantity >= 1 && first + quantity <= u64::MAX && !old(self).collections@.contains_key(c)
                    ==> r == terr::<Vec<u64>>(Error::CollectionNotFound) && unchanged
                &&& quantity >= 1 && first + quantity <= u64::MAX && old(self).collections@.contains_key(c)
                    && old(self).collections@[c].owner != to ==> r == terr::<Vec<u64>>(Error::NoPermission) && unchanged
                &&& quantity >= 1 && first + quantity <= u64::MAX && old(self).collections@.contains_key(c)
                    && old(self).collections@[c].owner == to ==> {
                    let info = old(self).collections@[c];
                    &&& with_run(old(self).tokens@, final(self).tokens@, c, first, quantity, to, metadata@)
                    &&& owners_with_run(old(self).token_owner_set@, final(self).token_owner_set@, c, first, quantity, to)
                    &&& info.total_supply + quantity > u128::MAX ==> r == terr::<Vec<u64>>(Error::NumOverflow)
                        && final(self).collections@ == old(self).collections@
                        && final(self).next_token_id@ == old(self).next_token_id@
                        && final(self).events@ == old(self).events@
                    &&& info.total_supply + quantity <= u128::MAX ==> {
                        &&& r matches Ok(ids) && ids@ == Seq::new(quantity as nat, |i: int| (first + i) as u64)
                        &&& final(self).next_token_id@ == old(self).next_token_id@.insert(c, (first + quantity) as u64)
                        &&& final(self).collections@.dom() == old(self).collections@.dom()
                        &&& forall|k: u64| k != c ==> #[trigger] final(self).collections@[k] == old(self).collections@[k]
                        &&& final(self).collections@[c].owner == info.owner
                        &&& final(self).collections@[c].deposit == info.deposit
                        &&& final(self).collections@[c].properties@ == info.properties@
                        &&& final(self).collections@[c].total_supply == info.total_supply + quantity
                        &&& final(self).events@.len() == old(self).events@.len() + 1
                        &&& final(self).events@.drop_last() == old(self).events@
                        &&& final(self).events@.last() matches Event::TokenMint(x, ids, w) && x == c && w == to
                            && ids@ == Seq::new(quantity as nat, |i: int| (first + i) as u64)
                    }
                }
            }),
    {
        if quantity < 1 {
            return Err(DispatchError::Nft(Error::InvalidQuantity));
        }
        let next_id = self.next_token_id(collection_id);
        let end = match next_id.checked_add(quantity) {
            Some(e) => e,
            None => {
                return Err(DispatchError::Nft(Error::NoAvailableTokenId));
            },
        };
        let (owner, supply, deposit, properties) = match self.collections.get(&collection_id) {
            Some(i) => (i.owner, i.total_supply, i.deposit, i.properties.clone()),
            None => {
                return Err(DispatchError::Nft(Error::CollectionNotFound));
            },
        };
        if to != owner {
            return Err(DispatchError::Nft(Error::NoPermission));
        }
        let mut token_ids: Vec<u64> = Vec::new();
        let mut i: u64 = 0;
        proof {
            assert(run_of(collection_id, next_id, 0) =~= Set::<(u64, u64)>::empty());
            assert(self.tokens@.dom() =~= old(self).tokens@.dom().union(run_of(collection_id, next_id, 0)));
            assert(self.token_owner_set@ =~= old(self).token_owner_set@.union(owner_run(collection_id, next_id, 0, to)));
        }
        while i < quantity
            invariant
                0 <= i <= quantity,
                next_id + quantity == end,
                end <= u64::MAX,
                token_ids@ == Seq::new(i as nat, |j: int| (next_id + j) as u64),
                with_run(old(self).tokens@, self.tokens@, collection_id, next_id, i, to, metadata@),
                owners_with_run(old(self).token_owner_set@, self.token_owner_set@, collection_id, next_id, i, to),
                self.collections@ == old(self).collections@,
                self.next_token_id@ == old(self).next_token_id@,
                self.next_collection_id == old(self).next_collection_id,
                self.create_collection_deposit == old(self).create_collection_deposit,
                self.events@ == old(self).events@,
            decreases quantity - i,
        {
            let token_id = next_id + i;
            token_ids.push(token_id);
            let md = metadata.clone();
            assert(md@ =~= metadata@);
            let ghost prev = self.tokens@;
            self.tokens.insert((collection_id, token_id), TokenInfo { owner: to, metadata: md });
            self.token_owner_set.insert((to, collection_id, token_id));
            i = i + 1;
            proof {
                let c = collection_id;
                assert(token_ids@ =~= Seq::new(i as nat, |j: int| (next_id + j) as u64));
                assert(self.tokens@.dom() =~= old(self).tokens@.dom().union(run_of(c, next_id, i)));
                assert forall|k: (u64, u64)| #[trigger] self.tokens@.contains_key(k) && !run_of(c, next_id, i).contains(k)
                    implies self.tokens@[k] == old(self).tokens@[k] by {
                    assert(k != (c, token_id));
                    assert(prev.contains_key(k) && !run_of(c, next_id, (i - 1) as u64).contains(k));
                }
                assert forall|k: (u64, u64)| #[trigger] run_of(c, next_id, i).contains(k)
                    implies self.tokens@[k].owner == to && self.tokens@[k].metadata@ == metadata@ by {
                    if k != (c, token_id) {
                        assert(run_of(c, next_id, (i - 1) as u64).contains(k));
                    }
                }
                assert(self.token_owner_set@ =~= old(self).token_owner_set@.union(owner_run(c, next_id, i, to)));
            }
        }
        let total = match supply.checked_add(quantity as u128) {
            Some(t) => t,
            None => {
                return Err(DispatchError::Nft(Error::NumOverflow));
            },
        };
        self.collections.insert(collection_id, CollectionInfo { owner, total_supply: total, deposit, properties });
        self.next_token_id.insert(collection_id, end);
        let listed = token_ids.clone();
        assert(listed@ =~= token_ids@);
        self.events.push(Event::TokenMint(collection_id, listed, to));
        assert(self.events@.drop_last() =~= old(self).events@);
        Ok(token_ids)
    }

    /// Burns token `token_id` of `collection_id`, which `who` must own.
    pub fn do_burn(&mut self, who: u64, collection_id: u64, token_id: u64) -> (r: Result<(), DispatchError>)
        ensures
            final(self).create_collection_deposit == old(self).create_collection_deposit,
            final(self).next_collection_id == old(self).next_collection_id,
            final(self).next_token_id@ == old(self).next_token_id@,
            r is Err ==> final(self).collections@ == old(self).collections@ && final(self).tokens@ == old(self).tokens@
                && final(self).token_owner_set@ == old(self).token_owner_set@ && final(self).events@ == old(self).events@,
            ({
                let k = (collection_id, token_id);
                let c = collection_id;
                &&& !old(self).tokens@.contains_key(k) ==> r == terr::<()>(Error::TokenNotFound)
                &&& old(self).tokens@.contains_key(k) && old(self).tokens@[k].owner != who ==> r == terr::<()>(Error::NoPermission)
                &&& old(self).tokens@.contains_key(k) && old(self).tokens@[k].owner == who && !old(self).collections@.contains_key(c)
                    ==> r == terr::<()>(Error::CollectionNotFound)
                &&& old(self).tokens@.contains_key(k) && old(self).tokens@[k].owner == who && old(self).collections@.contains_key(c)
                    && old(self).collections@[c].total_supply == 0 ==> r == terr::<()>(Error::NumOverflow)
                &&& r is Ok ==> {
                    let info = old(self).collections@[c];
                    &&& old(self).tokens@.contains_key(k) && old(self).tokens@[k].owner == who
                    &&& old(self).collections@.contains_key(c) && info.total_supply > 0
                    &&& final(self).tokens@ == old(self).tokens@.remove(k)
                    &&& final(self).token_owner_set@ == old(self).token_owner_set@.remove((who, collection_id, token_id))
                    &&& final(self).collections@.dom() == old(self).collections@.dom()
                    &&& forall|x: u64| x != c ==> #[trigger] final(self).collections@[x] == old(self).collections@[x]
                    &&& final(self).collections@[c].owner == info.owner
                    &&& final(self).collections@[c].deposit == info.deposit
                    &&& final(self).collections@[c].properties@ == info.properties@
                    &&& final(self).collections@[c].total_supply == info.total_supply - 1
                    &&& final(self).events@.len() == old(self).events@.len() + 1
                    &&& final(self).events@.drop_last() == old(self).events@
                    &&& final(self).events@.last() matches Event::TokenBurned(x, t, w) && x == c && t == token_id && w == who
                }
            }),
            owners_consistent(old(self)) ==> owners_consistent(final(self)),
    {
        let owner = match self.tokens.get(&(collection_id, token_id)) {
            Some(t) => t.owner,
            None => {
                return Err(DispatchError::Nft(Error::TokenNotFound));
            },
        };
        if owner != who {
            return Err(DispatchError::Nft(Error::NoPermission));
        }
        let (c_owner, supply, deposit, properties) = match self.collections.get(&collection_id) {
            Some(i) => (i.owner, i.total_supply, i.deposit, i.properties.clone()),
            None => {
                return Err(DispatchError::Nft(Error::CollectionNotFound));
            },
        };
        let total = match supply.checked_sub(1) {
            Some(t) => t,
            None => {
                return Err(DispatchError::Nft(Error::NumOverflow));
            },
        };
        self.collections.insert(collection_id, CollectionInfo { owner: c_owner, total_supply: total, deposit, properties });
        self.token_owner_set.remove(&(who, collection_id, token_id));
        self.tokens.remove(&(collection_id, token_id));
        self.events.push(Event::TokenBurned(collection_id, token_id, who));
        assert(self.events@.drop_last() =~= old(self).events@);
        proof {
            if owners_consistent(old(self)) {
                assert forall|o: u64, c: u64, t: u64| #[trigger] self.token_owner_set@.contains((o, c, t))
                    <==> (self.tokens@.contains_key((c, t)) && self.tokens@[(c, t)].owner == o) by {
                    assert(old(self).token_owner_set@.contains((o, c, t))
                        <==> (old(self).tokens@.contains_key((c, t)) && old(self).tokens@[(c, t)].owner == o));
                }
            }
        }
        Ok(())
    }

    /// Transfers token `token_id` of `collection_id` from `from`, which must
    /// own it, to `to`; nothing changes where the two are the same.
    pub fn do_transfer_from(&mut self, from: u64, to: u64, collection_id: u64, token_id: u64) -> (r: Result<(), DispatchError>)
        ensures
            final(self).create_collection_deposit == old(self).create_collection_deposit,
            final(self).next_collection_id == old(self).next_collection_id,
            final(self).next_token_id@ == old(self).next_token_id@,
            final(self).collections@ == old(self).collections@,
            ({
                let k = (collection_id, token_id);
                let unchanged = final(self).tokens@ == old(self).tokens@
                    && final(self).token_owner_set@ == old(self).token_owner_set@ && final(self).events@ == old(self).events@;
                &&& !old(self).tokens@.contains_key(k) ==> r == terr::<()>(Error::TokenNotFound) && unchanged
                &&& old(self).tokens@.contains_key(k) && old(self).tokens@[k].owner != from ==> r == terr::<()>(Error::NoPermission) && unchanged
                &&& old(self).tokens@.contains_key(k) && old(self).tokens@[k].owner == from && from == to ==> r is Ok && unchanged
                &&& old(self).tokens@.contains_key(k) && old(self).tokens@[k].owner == from && from != to ==> {
                    &&& r is Ok
                    &&& final(self).tokens@.dom() == old(self).tokens@.dom()
                    &&& forall|x: (u64, u64)| x != k ==> #[trigger] final(self).tokens@[x] == old(self).tokens@[x]
                    &&& final(self).tokens@[k].owner == to
                    &&& final(self).tokens@[k].metadata@ == old(self).tokens@[k].metadata@
                    &&& final(self).token_owner_set@ == old(self).token_owner_set@.remove((from, collection_id, token_id))
                        .insert((to, collection_id, token_id))
                    &&& final(self).events@ == old(self).events@.push(Event::TokenTransferred(collection_id, token_id, from, to))
                }
            }),
            owners_consistent(old(self)) ==> owners_consistent(final(self)),
    {
        let metadata = match self.tokens.get(&(collection_id, token_id)) {
            Some(t) => {
                if t.owner != from {
                    return Err(DispatchError::Nft(Error::NoPermission));
                }
                t.metadata.clone()
            },
            None => {
                return Err(DispatchError::Nft(Error::TokenNotFound));
            },
        };
        if from == to {
            return Ok(());
        }
        self.tokens.insert((collection_id, token_id), TokenInfo { owner: to, metadata });
        self.token_owner_set.remove(&(from, collection_id, token_id));
        self.token_owner_set.insert((to, collection_id, token_id));
        self.events.push(Event::TokenTransferred(collection_id, token_id, from, to));
        proof {
            if owners_consistent(old(self)) {
                assert forall|o: u64, c: u64, t: u64| #[trigger] self.token_owner_set@.contains((o, c, t))
                    <==> (self.tokens@.contains_key((c, t)) && self.tokens@[(c, t)].owner == o) by {
                    assert(old(self).token_owner_set@.contains((o, c, t))
                        <==> (old(self).tokens@.contains_key((c, t)) && old(self).tokens@[(c, t)].owner == o));
                }
            }
        }
        Ok(())
    }

    /// Destroys `collection_id`, which `who` must own and which must have no
    /// tokens left, and unreserves its deposit.
    pub fn do_destroy_collection<C: ReservableCurrency>(&mut self, currency: &mut C, who: u64, collection_id: u64)
        -> (r: Result<(), DispatchError>)
        ensures
            final(self).create_collection_deposit == old(self).create_collection_deposit,
            final(self).next_collection_id == old(self).next_collection_id,
            final(self).tokens@ == old(self).tokens@,
            final(self).token_owner_set@ == old(self).token_owner_set@,
            r is Err ==> final(self).collections@ == old(self).collections@ && final(self).next_token_id@ == old(self).next_token_id@
                && final(self).events@ == old(self).events@ && same_funds(*old(currency), *final(currency)),
            ({
                let c = collection_id;
                &&& !old(self).collections@.contains_key(c) ==> r == terr::<()>(Error::CollectionNotFound)
                &&& old(self).collections@.contains_key(c) && old(self).collections@[c].owner != who ==> r == terr::<()>(Error::NoPermission)
                &&& old(self).collections@.contains_key(c) && old(self).collections@[c].owner == who
                    && old(self).collections@[c].total_supply != 0 ==> r == terr::<()>(Error::CannotDestroyCollection)
                &&& old(self).collections@.contains_key(c) && old(self).collections@[c].owner == who
                    && old(self).collections@[c].total_supply == 0 ==> {
                    let deposit = old(self).collections@[c].deposit;
                    let moved = if deposit <= old(currency).reserved_balance(who) { deposit as nat } else { old(currency).reserved_balance(who) };
                    &&& r is Ok
                    &&& final(self).collections@ == old(self).collections@.remove(c)
                    &&& final(self).next_token_id@ == old(self).next_token_id@.remove(c)
                    &&& final(currency).reserved_balance(who) == old(currency).reserved_balance(who) - moved
                    &&& final(currency).free_balance(who) == old(currency).free_balance(who) + moved
                    &&& forall|a: u64| a != who ==> #[trigger] final(currency).free_balance(a) == old(currency).free_balance(a)
                        && final(currency).reserved_balance(a) == old(currency).reserved_balance(a)
                    &&& final(self).events@ == old(self).events@.push(Event::CollectionDestroyed(c, who))
                }
            }),
    {
        let (owner, supply, deposit) = match self.collections.get(&collection_id) {
            Some(i) => (i.owner, i.total_supply, i.deposit),
            None => {
                return Err(DispatchError::Nft(Error::CollectionNotFound));
            },
        };
        if owner != who {
            return Err(DispatchError::Nft(Error::NoPermission));
        }
        if supply != 0 {
            return Err(DispatchError::Nft(Error::CannotDestroyCollection));
        }
        self.collections.remove(&collection_id);
        self.next_token_id.remove(&collection_id);
        let _ = currency.unreserve(who, deposit);
        self.events.push(Event::CollectionDestroyed(collection_id, who));
        Ok(())
    }

    /// `do_create_collection` for the signer; a failed call changes nothing.
    pub fn create_collection<C: ReservableCurrency>(&mut self, currency: &mut C, origin: Origin, properties: Vec<u8>)
        -> (r: Result<(), DispatchError>)
        ensures
            final(self).create_collection_deposit == old(self).create_collection_deposit,
            final(self).tokens@ == old(self).tokens@,
            final(self).next_token_id@ == old(self).next_token_id@,
            final(self).token_owner_set@ == old(self).token_owner_set@,
            !(origin is Signed) ==> r == Err::<(), DispatchError>(DispatchError::BadOrigin),
            origin is Signed && old(self).next_collection_id == u64::MAX ==> r == terr::<()>(Error::NoAvailableCollectionId),
            origin is Signed && old(self).next_collection_id < u64::MAX
                ==> (r is Ok <==> old(currency).reserve_allowed(origin->Signed_0, old(self).create_collection_deposit)),
            r is Err ==> final(self).collections@ == old(self).collections@ && final(self).next_collection_id == old(self).next_collection_id
                && final(self).events@ == old(self).events@ && same_funds(*old(currency), *final(currency)),
            r is Ok ==> ({
                let id = old(self).next_collection_id;
                let who = origin->Signed_0;
                &&& origin is Signed
                &&& final(self).next_collection_id == id + 1
                &&& reserve_effect(*old(currency), *final(currency), who, old(self).create_collection_deposit)
                &&& final(self).collections@.dom() == old(self).collections@.dom().insert(id)
                &&& final(self).collections@[id].owner == who
                &&& final(self).collections@[id].total_supply == 0
                &&& final(self).collections@[id].properties@ == properties@
                &&& final(self).events@.len() == old(self).events@.len() + 1
                &&& final(self).events@.drop_last() == old(self).events@
            }),
    {
        let who = match ensure_signed(origin) {
            Ok(w) => w,
            Err(e) => {
                assert(same_funds(*old(currency), *currency));
                return Err(e);
            },
        };
        let saved_next = self.next_collection_id;
        match self.do_create_collection(currency, who, properties) {
            Ok(_) => Ok(()),
            Err(e) => {
                self.next_collection_id = saved_next;
                Err(e)
            },
        }
    }

    /// `do_mint` for the signer; a failed call changes nothing.
    pub fn mint(&mut self, origin: Origin, collection_id: u64, metadata: Vec<u8>, quantity: u64) -> (r: Result<(), DispatchError>)
        ensures
            final(self).create_collection_deposit == old(self).create_collection_deposit,
            final(self).next_collection_id == old(self).next_collection_id,
            !(origin is Signed) ==> r == Err::<(), DispatchError>(DispatchError::BadOrigin),
            r is Err ==> final(self).collections@ == old(self).collections@ && final(self).tokens@ == old(self).tokens@
                && final(self).next_token_id@ == old(self).next_token_id@
                && final(self).token_owner_set@ == old(self).token_owner_set@ && final(self).events@ == old(self).events@,
            origin is Signed ==> ({
                let to = origin->Signed_0;
                let first = next_in(old(self).next_token_id@, collection_id);
                let c = collection_id;
                &&& quantity < 1 ==> r == terr::<()>(Error::InvalidQuantity)
                &&& quantity >= 1 && first + quantity > u64::MAX ==> r == terr::<()>(Error::NoAvailableTokenId)
                &&& quantity >= 1 && first + quantity <= u64::MAX && !old(self).collections@.contains_key(c)
                    ==> r == terr::<()>(Error::CollectionNotFound)
                &&& quantity >= 1 && first + quantity <= u64::MAX && old(self).collections@.contains_key(c)
                    && old(self).collections@[c].owner != to ==> r == terr::<()>(Error::NoPermission)
                &&& quantity >= 1 && first + quantity <= u64::MAX && old(self).collections@.contains_key(c)
                    && old(self).collections@[c].owner == to && old(self).collections@[c].total_supply + quantity > u128::MAX
                    ==> r == terr::<()>(Error::NumOverflow)
                &&& r is Ok ==> {
                    &&& quantity >= 1 && first + quantity <= u64::MAX
                    &&& old(self).collections@.contains_key(c) && old(self).collections@[c].owner == to
                    &&& with_run(old(self).tokens@, final(self).tokens@, c, first, quantity, to, metadata@)
                    &&& owners_with_run(old(self).token_owner_set@, final(self).token_owner_set@, c, first, quantity, to)
                    &&& final(self).next_token_id@ == old(self).next_token_id@.insert(c, (first + quantity) as u64)
                    &&& final(self).collections@.dom() == old(self).collections@.dom()
                    &&& final(self).collections@[c].total_supply == old(self).collections@[c].total_supply + quantity
                    &&& final(self).events@.len() == old(self).events@.len() + 1
                    &&& final(self).events@.drop_last() == old(self).events@
                }
            }),
            owners_consistent(old(self)) && run_fresh(old(self).tokens@, collection_id, next_in(old(self).next_token_id@, collection_id), quantity)
                ==> owners_consistent(final(self)),
    {
        let who = ensure_signed(origin)?;
        let saved_tokens = self.tokens.clone();
        let saved_owners = self.token_owner_set.clone();
        let ghost md = metadata@;
        match self.do_mint(who, collection_id, metadata, quantity) {
            Ok(_) => {
                proof {
                    let first = next_in(old(self).next_token_id@, collection_id);
                    let c = collection_id;
                    if owners_consistent(old(self)) && run_fresh(old(self).tokens@, c, first, quantity) {
                        assert(with_run(old(self).tokens@, self.tokens@, c, first, quantity, who, md));
                        assert(owners_with_run(old(self).token_owner_set@, self.token_owner_set@, c, first, quantity, who));
                        assert forall|o: u64, c2: u64, t: u64| #[trigger] self.token_owner_set@.contains((o, c2, t))
                            <==> (self.tokens@.contains_key((c2, t)) && self.tokens@[(c2, t)].owner == o) by {
                            assert(old(self).token_owner_set@.contains((o, c2, t))
                                <==> (old(self).tokens@.contains_key((c2, t)) && old(self).tokens@[(c2, t)].owner == o));
                            if run_of(c, first, quantity).contains((c2, t)) {
                                assert(!old(self).tokens@.contains_key((c2, t)));
                                assert(self.tokens@.contains_key((c2, t)));
                                assert(self.tokens@[(c2, t)].owner == who);
                                assert(owner_run(c, first, quantity, who).contains((o, c2, t)) == (o == who));
                            } else {
                                assert(!owner_run(c, first, quantity, who).contains((o, c2, t)));
                                assert(self.token_owner_set@.contains((o, c2, t)) == old(self).token_owner_set@.contains((o, c2, t)));
                                assert(self.tokens@.contains_key((c2, t)) == old(self).tokens@.contains_key((c2, t)));
                                if self.tokens@.contains_key((c2, t)) {
                                    assert(self.tokens@[(c2, t)] == old(self).tokens@[(c2, t)]);
                                }
                            }
                        }
                    }
                }
                Ok(())
            },
            Err(e) => {
                self.tokens = saved_tokens;
                self.token_owner_set = saved_owners;
                Err(e)
            },
        }
    }

    /// `do_transfer_from` from the signer.
    pub fn transfer(&mut self, origin: Origin, to: u64, collection_id: u64, token_id: u64) -> (r: Result<(), DispatchError>)
        ensures
            final(self).create_collection_deposit == old(self).create_collection_deposit,
            final(self).next_collection_id == old(self).next_collection_id,
            final(self).next_token_id@ == old(self).next_token_id@,
            final(self).collections@ == old(self).collections@,
            !(origin is Signed) ==> r == Err::<(), DispatchError>(DispatchError::BadOrigin),
            r is Err ==> final(self).tokens@ == old(self).tokens@ && final(self).token_owner_set@ == old(self).token_owner_set@
                && final(self).events@ == old(self).events@,
            origin is Signed ==> ({
                let from = origin->Signed_0;
                let k = (collection_id, token_id);
                &&& !old(self).tokens@.contains_key(k) ==> r == terr::<()>(Error::TokenNotFound)
                &&& old(self).tokens@.contains_key(k) && old(self).tokens@[k].owner != from ==> r == terr::<()>(Error::NoPermission)
                &&& old(self).tokens@.contains_key(k) && old(self).tokens@[k].owner == from ==> r is Ok
                &&& old(self).tokens@.contains_key(k) && old(self).tokens@[k].owner == from && from != to ==> {
                    &&& final(self).tokens@[k].owner == to
                    &&& final(self).tokens@.dom() == old(self).tokens@.dom()
                    &&& final(self).token_owner_set@ == old(self).token_owner_set@.remove((from, collection_id, token_id))
                        .insert((to, collection_id, token_id))
                    &&& final(self).events@ == old(self).events@.push(Event::TokenTransferred(collection_id, token_id, from, to))
                }
            }),
            owners_consistent(old(self)) ==> owners_consistent(final(self)),
    {
        let who = ensure_signed(origin)?;
        self.do_transfer_from(who, to, collection_id, token_id)
    }

    /// `do_burn` for the signer.
    pub fn burn(&mut self, origin: Origin, collection_id: u64, token_id: u64) -> (r: Result<(), DispatchError>)
        ensures
            final(self).create_collection_deposit == old(self).create_collection_deposit,
            final(self).next_collection_id == old(self).next_collection_id,
            final(self).next_token_id@ == old(self).next_token_id@,
            !(origin is Signed) ==> r == Err::<(), DispatchError>(DispatchError::BadOrigin),
            r is Err ==> final(self).collections@ == old(self).collections@ && final(self).tokens@ == old(self).tokens@
                && final(self).token_owner_set@ == old(self).token_owner_set@ && final(self).events@ == old(self).events@,
            origin is Signed ==> ({
                let who = origin->Signed_0;
                let k = (collection_id, token_id);
                &&& !old(self).tokens@.contains_key(k) ==> r == terr::<()>(Error::TokenNotFound)
                &&& old(self).tokens@.contains_key(k) && old(self).tokens@[k].owner != who ==> r == terr::<()>(Error::NoPermission)
                &&& r is Ok ==> final(self).tokens@ == old(self).tokens@.remove(k)
                    && final(self).token_owner_set@ == old(self).token_owner_set@.remove((who, collection_id, token_id))
                    && final(self).collections@[collection_id].total_supply == old(self).collections@[collection_id].total_supply - 1
            }),
            owners_consistent(old(self)) ==> owners_consistent(final(self)),
    {
        let who = ensure_signed(origin)?;
        self.do_burn(who, collection_id, token_id)
    }

    /// `do_destroy_collection` for the signer.
    pub fn destroy_collection<C: ReservableCurrency>(&mut self, currency: &mut C, origin: Origin, collection_id: u64)
        -> (r: Result<(), DispatchError>)
        ensures
            final(self).tokens@ == old(self).tokens@,
            final(self).token_owner_set@ == old(self).token_owner_set@,
            !(origin is Signed) ==> r == Err::<(), DispatchError>(DispatchError::BadOrigin),
            r is Err ==> final(self).collections@ == old(self).collections@ && final(self).next_token_id@ == old(self).next_token_id@
                && final(self).events@ == old(self).events@ && same_funds(*old(currency), *final(currency)),
            origin is Signed ==> ({
                let who = origin->Signed_0;
                let c = collection_id;
                &&& !old(self).collections@.contains_key(c) ==> r == terr::<()>(Error::CollectionNotFound)
                &&& old(self).collections@.contains_key(c) && old(self).collections@[c].owner != who ==> r == terr::<()>(Error::NoPermission)
                &&& old(self).collections@.contains_key(c) && old(self).collections@[c].owner == who
                    && old(self).collections@[c].total_supply != 0 ==> r == terr::<()>(Error::CannotDestroyCollection)
                &&& old(self).collections@.contains_key(c) && old(self).collections@[c].owner == who
                    && old(self).collections@[c].total_supply == 0 ==> r is Ok
                    && final(self).collections@ == old(self).collections@.remove(c)
                    && final(self).next_token_id@ == old(self).next_token_id@.remove(c)
            }),
    {
        let who = match ensure_signed(origin) {
            Ok(w) => w,
            Err(e) => {
                assert(same_funds(*old(currency), *currency));
                return Err(e);
            },
        };
        self.do_destroy_collection(currency, who, collection_id)
    }
}

} // verus!
