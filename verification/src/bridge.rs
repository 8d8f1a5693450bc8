//! The bridge pallet: relayers vote on proposals that arrive from whitelisted
//! chains; a proposal that gathers the threshold of votes in favour is
//! approved and executed by the bridge's account, one that can no longer
//! reach it is rejected. Transfers out go to whitelisted chains, each with
//! the next deposit nonce of its chain.
use vstd::prelude::*;
use std::collections::{BTreeMap, BTreeSet};
use crate::hashing::{blake2_256, blake2_256_of, hash_key, hash_key_of, HashKey};
use crate::primitives::{ensure_signed, pallet_account_spec, DispatchError, Origin, PalletId};
use crate::wide::Wide;

verus! {

broadcast use vstd::laws_cmp::group_laws_cmp;

pub type ChainId = u8;

pub type DepositNonce = u64;

pub type ResourceId = [u8; 32];

#[derive(Clone, Copy, PartialEq, Eq, Debug, Structural)]
pub enum ProposalStatus {
    Initiated,
    Approved,
    Rejected,
}

/// The votes on a proposal, its status and the block at which it expires.
#[derive(Clone, Debug)]
pub struct ProposalVotes {
    pub votes_for: Vec<u64>,
    pub votes_against: Vec<u64>,
    pub status: ProposalStatus,
    pub expiry: u64,
}

#[derive(Debug)]
pub enum Event {
    RelayerThresholdChanged(u32),
    ChainWhitelisted(ChainId),
    RelayerAdded(u64),
    RelayerRemoved(u64),
    FungibleTransfer(ChainId, DepositNonce, ResourceId, Wide, Vec<u8>),
    NonFungibleTransfer(ChainId, DepositNonce, ResourceId, Vec<u8>, Vec<u8>, Vec<u8>),
    GenericTransfer(ChainId, DepositNonce, ResourceId, Vec<u8>),
    VoteFor(ChainId, DepositNonce, u64),
    VoteAgainst(ChainId, DepositNonce, u64),
    ProposalApproved(ChainId, DepositNonce),
    ProposalRejected(ChainId, DepositNonce),
    ProposalSucceeded(ChainId, DepositNonce),
    ProposalFailed(ChainId, DepositNonce),
}

#[derive(Clone, Copy, PartialEq, Eq, Debug)]
pub enum Error {
    ThresholdNotSet,
    InvalidChainId,
    InvalidThreshold,
    ChainNotWhitelisted,
    ChainAlreadyWhitelisted,
    ResourceDoesNotExist,
    RelayerAlreadyExists,
    RelayerInvalid,
    MustBeRelayer,
    RelayerAlreadyVoted,
    ProposalAlreadyExists,
    ProposalDoesNotExist,
    ProposalNotComplete,
    ProposalAlreadyComplete,
    ProposalExpired,
    MaxVotesReached,
}

/// What became of a proposal after a vote or an evaluation.
#[derive(Clone, Copy, PartialEq, Eq, Debug, Structural)]
pub enum Resolution {
    /// The proposal still waits for votes.
    Pending,
    /// The proposal is approved: it is to be dispatched from the bridge's
    /// account, and the result handed to `finalize_execution`.
    Approved,
    /// The proposal is rejected.
    Rejected,
}

/// Keyed by (source chain, nonce, the four words of the proposal's hash).
pub type VoteKey = (ChainId, DepositNonce, u64, u64, u64, u64);

/// The pallet's state and configuration.
pub struct Pallet {
    pub pallet_id: PalletId,
    /// This chain's own identifier.
    pub chain_id: ChainId,
    /// The number of blocks for which a proposal takes votes.
    pub proposal_lifetime: u64,
    /// The most votes a proposal can take on either side.
    pub max_votes: u32,
    pub relayers: BTreeSet<u64>,
    /// The metadata of each registered resource, keyed by the resource's words.
    pub resources: BTreeMap<HashKey, Vec<u8>>,
    /// The last deposit nonce of each whitelisted chain.
    pub chain_nonces: BTreeMap<ChainId, DepositNonce>,
    pub relayer_threshold: u32,
    pub relayer_count: u32,
    pub votes: BTreeMap<VoteKey, ProposalVotes>,
    pub events: Vec<Event>,
}

/// A dispatch error of this pallet.
pub open spec fn rerr<T>(e: Error) -> Result<T, DispatchError> {
    Err(DispatchError::Bridge(e))
}

/// The key of the votes on proposal `prop` (its encoding) with `nonce` from
/// `src_id`.
pub open spec fn vote_key(src_id: ChainId, nonce: DepositNonce, prop: Seq<u8>) -> VoteKey {
    let h = hash_key_of(blake2_256_of(prop));
    (src_id, nonce, h.0, h.1, h.2, h.3)
}

/// The resource identifier of `id` on `chain`: the chain in the last byte
/// and the first (at most 31) bytes of `id` right-aligned before it, zeros
/// elsewhere.
pub open spec fn resource_id_spec(chain: u8, id: Seq<u8>) -> Seq<u8> {
    let range = if id.len() > 31 { 31 } else { id.len() as int };
    Seq::new(32, |j: int| if j == 31 { chain } else if 31 - range <= j < 31 { id[j - (31 - range)] } else { 0u8 })
}

/// The votes on a proposal as values: for, against, status, expiry.
pub type Tally = (Seq<u64>, Seq<u64>, ProposalStatus, u64);

/// The votes of `v` as values.
pub open spec fn tally_of(v: ProposalVotes) -> Tally {
    (v.votes_for@, v.votes_against@, v.status, v.expiry)
}

/// The recorded votes as values.
pub open spec fn tallies(m: Map<VoteKey, ProposalVotes>) -> Map<VoteKey, Tally> {
    m.map_values(|v: ProposalVotes| tally_of(v))
}

/// The tallies of recorded votes are read key by key.
pub proof fn lemma_tallies(m: Map<VoteKey, ProposalVotes>, k: VoteKey)
    ensures
        tallies(m).contains_key(k) == m.contains_key(k),
        m.contains_key(k) ==> tallies(m)[k] == tally_of(m[k]),
{
}

/// Whether `who` voted on either side.
pub open spec fn voted(t: Tally, who: u64) -> bool {
    t.0.contains(who) || t.1.contains(who)
}

/// The status that the votes give with `threshold` of `total` relayers:
/// approved once the votes in favour reach the threshold, rejected once the
/// votes against leave too few relayers to reach it.
pub open spec fn complete_status(t: Tally, threshold: u32, total: u32) -> ProposalStatus {
    if t.0.len() >= threshold {
        ProposalStatus::Approved
    } else if total >= threshold && ((t.1.len() as u32) + threshold) % 0x1_0000_0000 > total {
        ProposalStatus::Rejected
    } else {
        ProposalStatus::Initiated
    }
}

/// The votes that a vote finds: those recorded, or fresh ones expiring
/// `lifetime` blocks after `now`.
pub open spec fn found_votes(m: Map<VoteKey, Tally>, key: VoteKey, now: u64, lifetime: u64) -> Tally {
    if m.contains_key(key) {
        m[key]
    } else {
        (Seq::empty(), Seq::empty(), ProposalStatus::Initiated, ((now + lifetime) % 0x1_0000_0000_0000_0000) as u64)
    }
}

/// Why a vote of `who` on `t` at block `now` is refused, in the order the
/// pallet checks.
pub open spec fn vote_check(t: Tally, who: u64, now: u64, in_favour: bool, max_votes: u32) -> Option<Error> {
    if t.2 != ProposalStatus::Initiated {
        Some(Error::ProposalAlreadyComplete)
    } else if t.3 <= now {
        Some(Error::ProposalExpired)
    } else if voted(t, who) {
        Some(Error::RelayerAlreadyVoted)
    } else if in_favour && t.0.len() >= max_votes {
        Some(Error::MaxVotesReached)
    } else if !in_favour && t.1.len() >= max_votes {
        Some(Error::MaxVotesReached)
    } else {
        None
    }
}

/// The votes after `who`'s vote is added.
pub open spec fn with_vote(t: Tally, who: u64, in_favour: bool) -> Tally {
    if in_favour { (t.0.push(who), t.1, t.2, t.3) } else { (t.0, t.1.push(who), t.2, t.3) }
}

/// The resolution that a status gives.
pub open spec fn resolution_of(st: ProposalStatus) -> Resolution {
    match st {
        ProposalStatus::Approved => Resolution::Approved,
        ProposalStatus::Rejected => Resolution::Rejected,
        ProposalStatus::Initiated => Resolution::Pending,
    }
}

/// The outcome of `who`'s vote on proposal `prop` with `nonce` from
/// `src_id` at block `now`, followed by its evaluation: the vote is refused
/// as `vote_check` says, or recorded and the proposal given the status that
/// the new votes give.
pub open spec fn vote_outcome(
    old: &Pallet,
    new: &Pallet,
    who: u64,
    nonce: DepositNonce,
    src_id: ChainId,
    prop: Seq<u8>,
    in_favour: bool,
    now: u64,
    r: Result<Resolution, DispatchError>,
) -> bool {
    let key = vote_key(src_id, nonce, prop);
    let t = found_votes(tallies(old.votes@), key, now, old.proposal_lifetime);
    let t1 = with_vote(t, who, in_favour);
    let st = complete_status(t1, old.relayer_threshold, old.relayer_count);
    let cast = if in_favour { Event::VoteFor(src_id, nonce, who) } else { Event::VoteAgainst(src_id, nonce, who) };
    &&& same_setup(old, new)
    &&& vote_check(t, who, now, in_favour, old.max_votes) matches Some(e) ==> r == rerr::<Resolution>(e)
        && new.votes@ == old.votes@ && new.events@ == old.events@
    &&& vote_check(t, who, now, in_favour, old.max_votes) is None ==> {
        &&& r == Ok::<Resolution, DispatchError>(resolution_of(st))
        &&& tallies(new.votes@) == tallies(old.votes@).insert(key, (t1.0, t1.1, st, t1.3))
        &&& st == ProposalStatus::Rejected ==> new.events@ == old.events@.push(cast).push(Event::ProposalRejected(src_id, nonce))
        &&& st != ProposalStatus::Rejected ==> new.events@ == old.events@.push(cast)
    }
}

/// Two states that hold the same configuration and registries.
pub open spec fn same_setup(a: &Pallet, b: &Pallet) -> bool {
    &&& a.pallet_id == b.pallet_id
    &&& a.chain_id == b.chain_id
    &&& a.proposal_lifetime == b.proposal_lifetime
    &&& a.max_votes == b.max_votes
    &&& a.relayers@ == b.relayers@
    &&& a.resources@ == b.resources@
    &&& a.chain_nonces@ == b.chain_nonces@
    &&& a.relayer_threshold == b.relayer_threshold
    &&& a.relayer_count == b.relayer_count
}

/// The resource identifier of `id` on `chain`; see `resource_id_spec`.
pub fn derive_resource_id(chain: u8, id: &[u8]) -> (r: ResourceId)
    ensures
        r@ == resource_id_spec(chain, id@),
{
    let mut r_id: ResourceId = [0; 32];
    r_id[31] = chain;
    let range: usize = if id.len() > 31 { 31 } else { id.len() };
    for i in 0..range
        invariant
            range <= 31,
            range <= id@.len(),
            range == (if id@.len() > 31 { 31 } else { id@.len() as int }),
            r_id[31] == chain,
            forall|j: int| 0 <= j < 31 - i ==> r_id[j] == 0u8,
            forall|j: int| 31 - i <= j < 31 ==> r_id[j] == id@[j - (31 - range)],
    {
        r_id[30 - i] = id[range - 1 - i];
    }
    assert(r_id@ =~= resource_id_spec(chain, id@));
    r_id
}

/// Whether `x` is among `v`.
fn list_contains(v: &Vec<u64>, x: u64) -> (r: bool)
    ensures
        r == v@.contains(x),
{
    for i in 0..v.len()
        invariant
            forall|j: int| 0 <= j < i ==> v@[j] != x,
    {
        if v[i] == x {
            assert(v@[i as int] == x);
            return true;
        }
    }
    false
}

/// The relayer count is the number of relayers.
pub open spec fn relayers_counted(p: &Pallet) -> bool {
    p.relayers@.finite() && p.relayer_count == p.relayers@.len()
}

impl Pallet {
    /// An empty pallet with the default relayer threshold.
    pub fn new(pallet_id: PalletId, chain_id: ChainId, proposal_lifetime: u64, default_relayer_threshold: u32, max_votes: u32)
        -> (r: Pallet)
        ensures
            r.pallet_id == pallet_id,
            r.chain_id == chain_id,
            r.proposal_lifetime == proposal_lifetime,
            r.max_votes == max_votes,
            r.relayers@ == Set::<u64>::empty(),
            r.resources@ == Map::<HashKey, Vec<u8>>::empty(),
            r.chain_nonces@ == Map::<ChainId, DepositNonce>::empty(),
            r.relayer_threshold == default_relayer_threshold,
            r.relayer_count == 0,
            relayers_counted(&r),
            r.votes@ == Map::<VoteKey, ProposalVotes>::empty(),
            r.events@ == Seq::<Event>::empty(),
    {
        Pallet {
            pallet_id,
            chain_id,
            proposal_lifetime,
            max_votes,
            relayers: BTreeSet::new(),
            resources: BTreeMap::new(),
            chain_nonces: BTreeMap::new(),
            relayer_threshold: default_relayer_threshold,
            relayer_count: 0,
            votes: BTreeMap::new(),
            events: Vec::new(),
        }
    }

    /// Admits the administrator's origin: the root origin.
    pub fn ensure_admin(origin: Origin) -> (r: Result<(), DispatchError>)
        ensures
            r == (if origin is Root { Ok::<(), DispatchError>(()) } else { Err(DispatchError::BadOrigin) }),
    {
        match origin {
            Origin::Root => Ok(()),
            _ => Err(DispatchError::BadOrigin),
        }
    }

    /// Admits only the bridge's own account, as the origin of an executed
    /// proposal; any other origin is handed back.
    pub fn ensure_bridge(&self, origin: Origin) -> (r: Result<u64, Origin>)
        ensures
            r == (if origin == Origin::Signed(pallet_account_spec(self.pallet_id.0)) {
                Ok::<u64, Origin>(pallet_account_spec(self.pallet_id.0))
            } else {
                Err(origin)
            }),
    {
        let bridge_id = self.account_id();
        match origin {
            Origin::Signed(who) => {
                if who == bridge_id {
                    Ok(bridge_id)
                } else {
                    Err(origin)
                }
            },
            _ => Err(origin),
        }
    }

    /// Whether `who` is a relayer.
    pub fn is_relayer(&self, who: u64) -> (r: bool)
        ensures
            r == self.relayers@.contains(who),
    {
        self.relayers.contains(&who)
    }

    /// Whether `who` is a relayer.
    pub fn relayers(&self, who: u64) -> (r: bool)
        ensures
            r == self.relayers@.contains(who),
    {
        self.is_relayer(who)
    }

    /// The bridge's account, which dispatches approved proposals.
    pub fn account_id(&self) -> (r: u64)
        ensures
            r == pallet_account_spec(self.pallet_id.0),
    {
        self.pallet_id.into_account_truncating()
    }

    /// Whether resource `id` is registered.
    pub fn resource_exists(&self, id: ResourceId) -> (r: bool)
        ensures
            r == self.resources@.contains_key(hash_key_of(id)),
    {
        self.resources.contains_key(&hash_key(&id))
    }

    /// The metadata of resource `id`, where it is registered.
    pub fn resources(&self, id: ResourceId) -> (r: Option<&Vec<u8>>)
        ensures
            r == (if self.resources@.contains_key(hash_key_of(id)) {
                Some(&self.resources@[hash_key_of(id)])
            } else {
                None::<&Vec<u8>>
            }),
    {
        self.resources.get(&hash_key(&id))
    }

    /// Whether chain `id` is whitelisted.
    pub fn chain_whitelisted(&self, id: ChainId) -> (r: bool)
        ensures
            r == self.chain_nonces@.contains_key(id),
    {
        self.chain_nonces.contains_key(&id)
    }

    /// The last deposit nonce of chain `id`, where it is whitelisted.
    pub fn chains(&self, id: ChainId) -> (r: Option<DepositNonce>)
        ensures
            r == (if self.chain_nonces@.contains_key(id) { Some(self.chain_nonces@[id]) } else { None::<DepositNonce> }),
    {
        match self.chain_nonces.get(&id) {
            Some(n) => Some(*n),
            None => None,
        }
    }

    /// The votes in favour that approve a proposal.
    pub fn relayer_threshold(&self) -> (r: u32)
        ensures
            r == self.relayer_threshold,
    {
        self.relayer_threshold
    }

    /// The number of relayers.
    pub fn relayer_count(&self) -> (r: u32)
        ensures
            r == self.relayer_count,
    {
        self.relayer_count
    }

    /// Takes the next deposit nonce of chain `id`, wrapping around as the
    /// runtime's release build computes it.
    fn bump_nonce(&mut self, id: ChainId) -> (r: DepositNonce)
        ensures
            r == ((if old(self).chain_nonces@.contains_key(id) { old(self).chain_nonces@[id] as int } else { 0 }) + 1)
                % 0x1_0000_0000_0000_0000,
            final(self).chain_nonces@ == old(self).chain_nonces@.insert(id, r),
            final(self).relayers@ == old(self).relayers@,
            final(self).resources@ == old(self).resources@,
            final(self).votes@ == old(self).votes@,
            final(self).events@ == old(self).events@,
            final(self).relayer_threshold == old(self).relayer_threshold,
            final(self).relayer_count == old(self).relayer_count,
            final(self).pallet_id == old(self).pallet_id,
            final(self).chain_id == old(self).chain_id,
            final(self).proposal_lifetime == old(self).proposal_lifetime,
            final(self).max_votes == old(self).max_votes,
    {
        let last: u64 = match self.chains(id) {
            Some(n) => n,
            None => 0,
        };
        let nonce = last.wrapping_add(1);
        self.chain_nonces.insert(id, nonce);
        nonce
    }

    /// Sets the votes in favour that approve a proposal; it must be positive.
    pub fn set_relayer_threshold(&mut self, threshold: u32) -> (r: Result<(), DispatchError>)
        ensures
            threshold == 0 ==> r == rerr::<()>(Error::InvalidThreshold) && final(self).relayer_threshold == old(self).relayer_threshold
                && final(self).events@ == old(self).events@,
            threshold > 0 ==> r is Ok && final(self).relayer_threshold == threshold
                && final(self).events@ == old(self).events@.push(Event::RelayerThresholdChanged(threshold)),
            final(self).relayers@ == old(self).relayers@,
            final(self).resources@ == old(self).resources@,
            final(self).chain_nonces@ == old(self).chain_nonces@,
            final(self).votes@ == old(self).votes@,
            final(self).relayer_count == old(self).relayer_count,
            final(self).pallet_id == old(self).pallet_id,
            final(self).chain_id == old(self).chain_id,
            final(self).proposal_lifetime == old(self).proposal_lifetime,
            final(self).max_votes == old(self).max_votes,
    {
        if threshold == 0 {
            return Err(DispatchError::Bridge(Error::InvalidThreshold));
        }
        self.relayer_threshold = threshold;
        self.events.push(Event::RelayerThresholdChanged(threshold));
        Ok(())
    }

    /// Registers resource `id` with metadata `method`, replacing any earlier.
    pub fn register_resource(&mut self, id: ResourceId, method: Vec<u8>) -> (r: Result<(), DispatchError>)
        ensures
            r is Ok,
            final(self).resources@ == old(self).resources@.insert(hash_key_of(id), method),
            final(self).relayers@ == old(self).relayers@,
            final(self).chain_nonces@ == old(self).chain_nonces@,
            final(self).votes@ == old(self).votes@,
            final(self).events@ == old(self).events@,
            final(self).relayer_threshold == old(self).relayer_threshold,
            final(self).relayer_count == old(self).relayer_count,
    {
        self.resources.insert(hash_key(&id), method);
        Ok(())
    }

    /// Removes resource `id`.
    pub fn unregister_resource(&mut self, id: ResourceId) -> (r: Result<(), DispatchError>)
        ensures
            r is Ok,
            final(self).resources@ == old(self).resources@.remove(hash_key_of(id)),
            final(self).relayers@ == old(self).relayers@,
            final(self).chain_nonces@ == old(self).chain_nonces@,
            final(self).votes@ == old(self).votes@,
            final(self).events@ == old(self).events@,
            final(self).relayer_threshold == old(self).relayer_threshold,
            final(self).relayer_count == old(self).relayer_count,
    {
        self.resources.remove(&hash_key(&id));
        Ok(())
    }

    /// Whitelists chain `id`, which must be another chain not yet
    /// whitelisted; its nonces start at zero.
    pub fn whitelist(&mut self, id: ChainId) -> (r: Result<(), DispatchError>)
        ensures
            id == old(self).chain_id ==> r == rerr::<()>(Error::InvalidChainId),
            id != old(self).chain_id && old(self).chain_nonces@.contains_key(id) ==> r == rerr::<()>(Error::ChainAlreadyWhitelisted),
            r is Err ==> final(self).chain_nonces@ == old(self).chain_nonces@ && final(self).events@ == old(self).events@,
            id != old(self).chain_id && !old(self).chain_nonces@.contains_key(id) ==> r is Ok
                && final(self).chain_nonces@ == old(self).chain_nonces@.insert(id, 0)
                && final(self).events@ == old(self).events@.push(Event::ChainWhitelisted(id)),
            final(self).relayers@ == old(self).relayers@,
            final(self).resources@ == old(self).resources@,
            final(self).votes@ == old(self).votes@,
            final(self).relayer_threshold == old(self).relayer_threshold,
            final(self).relayer_count == old(self).relayer_count,
            final(self).chain_id == old(self).chain_id,
    {
        if id == self.chain_id {
            return Err(DispatchError::Bridge(Error::InvalidChainId));
        }
        if self.chain_whitelisted(id) {
            return Err(DispatchError::Bridge(Error::ChainAlreadyWhitelisted));
        }
        self.chain_nonces.insert(id, 0);
        self.events.push(Event::ChainWhitelisted(id));
        Ok(())
    }

    /// Adds `relayer`, which must not be one yet, and counts it; the count
    /// wraps around as the runtime's release build computes it.
    pub fn register_relayer(&mut self, relayer: u64) -> (r: Result<(), DispatchError>)
        ensures
            old(self).relayers@.contains(relayer) ==> r == rerr::<()>(Error::RelayerAlreadyExists)
                && final(self).relayers@ == old(self).relayers@ && final(self).relayer_count == old(self).relayer_count
                && final(self).events@ == old(self).events@,
            !old(self).relayers@.contains(relayer) ==> r is Ok
                && final(self).relayers@ == old(self).relayers@.insert(relayer)
                && final(self).relayer_count == (old(self).relayer_count + 1) % 0x1_0000_0000
                && final(self).events@ == old(self).events@.push(Event::RelayerAdded(relayer)),
            relayers_counted(old(self)) && old(self).relayer_count < u32::MAX ==> relayers_counted(final(self)),
            final(self).resources@ == old(self).resources@,
            final(self).chain_nonces@ == old(self).chain_nonces@,
            final(self).votes@ == old(self).votes@,
            final(self).relayer_threshold == old(self).relayer_threshold,
    {
        if self.is_relayer(relayer) {
            return Err(DispatchError::Bridge(Error::RelayerAlreadyExists));
        }
        self.relayers.insert(relayer);
        self.relayer_count = self.relayer_count.wrapping_add(1);
        self.events.push(Event::RelayerAdded(relayer));
        Ok(())
    }

    /// Removes `relayer`, which must be one, and uncounts it; the count
    /// wraps around as the runtime's release build computes it.
    pub fn unregister_relayer(&mut self, relayer: u64) -> (r: Result<(), DispatchError>)
        ensures
            !old(self).relayers@.contains(relayer) ==> r == rerr::<()>(Error::RelayerInvalid)
                && final(self).relayers@ == old(self).relayers@ && final(self).relayer_count == old(self).relayer_count
                && final(self).events@ == old(self).events@,
            old(self).relayers@.contains(relayer) ==> r is Ok
                && final(self).relayers@ == old(self).relayers@.remove(relayer)
                && final(self).relayer_count == (old(self).relayer_count - 1 + 0x1_0000_0000) % 0x1_0000_0000
                && final(self).events@ == old(self).events@.push(Event::RelayerRemoved(relayer)),
            relayers_counted(old(self)) ==> relayers_counted(final(self)),
            final(self).resources@ == old(self).resources@,
            final(self).chain_nonces@ == old(self).chain_nonces@,
            final(self).votes@ == old(self).votes@,
            final(self).relayer_threshold == old(self).relayer_threshold,
    {
        if !self.is_relayer(relayer) {
            return Err(DispatchError::Bridge(Error::RelayerInvalid));
        }
        self.relayers.remove(&relayer);
        self.relayer_count = self.relayer_count.wrapping_sub(1);
        self.events.push(Event::RelayerRemoved(relayer));
        Ok(())
    }

    /// The key of the votes on proposal `prop` with `nonce` from `src_id`.
    fn key_of_votes(src_id: ChainId, nonce: DepositNonce, prop: &Vec<u8>) -> (r: VoteKey)
        ensures
            r == vote_key(src_id, nonce, prop@),
    {
        let h = hash_key(&blake2_256(prop));
        (src_id, nonce, h.0, h.1, h.2, h.3)
    }

    /// Records `who`'s vote on proposal `prop` (its encoding) with `nonce`
    /// from `src_id` at block `now`, as `vote_check` admits it.
    fn commit_vote(&mut self, who: u64, nonce: DepositNonce, src_id: ChainId, prop: &Vec<u8>, in_favour: bool, now: u64)
        -> (r: Result<(), DispatchError>)
        ensures
            same_setup(old(self), final(self)),
            ({
                let key = vote_key(src_id, nonce, prop@);
                let t = found_votes(tallies(old(self).votes@), key, now, old(self).proposal_lifetime);
                &&& r == match vote_check(t, who, now, in_favour, old(self).max_votes) {
                    Some(e) => rerr::<()>(e),
                    None => Ok(()),
                }
                &&& r is Err ==> final(self).votes@ == old(self).votes@ && final(self).events@ == old(self).events@
                &&& r is Ok ==> tallies(final(self).votes@) == tallies(old(self).votes@).insert(key, with_vote(t, who, in_favour))
                    && final(self).events@ == old(self).events@.push(
                        if in_favour { Event::VoteFor(src_id, nonce, who) } else { Event::VoteAgainst(src_id, nonce, who) },
                    )
            }),
    {
        let key = Self::key_of_votes(src_id, nonce, prop);
        let (mut votes_for, mut votes_against, status, expiry) = match self.votes.get(&key) {
            Some(v) => (v.votes_for.clone(), v.votes_against.clone(), v.status, v.expiry),
            None => (Vec::new(), Vec::new(), ProposalStatus::Initiated, now.wrapping_add(self.proposal_lifetime)),
        };
        proof {
            lemma_tallies(old(self).votes@, key);
            let t = found_votes(tallies(old(self).votes@), key, now, old(self).proposal_lifetime);
            assert(votes_for@ =~= t.0);
            assert(votes_against@ =~= t.1);
            assert(status == t.2);
            assert(expiry == t.3);
        }
        if status != ProposalStatus::Initiated {
            return Err(DispatchError::Bridge(Error::ProposalAlreadyComplete));
        }
        if expiry <= now {
            return Err(DispatchError::Bridge(Error::ProposalExpired));
        }
        if list_contains(&votes_for, who) || list_contains(&votes_against, who) {
            return Err(DispatchError::Bridge(Error::RelayerAlreadyVoted));
        }
        if in_favour {
            if votes_for.len() >= self.max_votes as usize {
                return Err(DispatchError::Bridge(Error::MaxVotesReached));
            }
            votes_for.push(who);
            self.events.push(Event::VoteFor(src_id, nonce, who));
        } else {
            if votes_against.len() >= self.max_votes as usize {
                return Err(DispatchError::Bridge(Error::MaxVotesReached));
            }
            votes_against.push(who);
            self.events.push(Event::VoteAgainst(src_id, nonce, who));
        }
        self.votes.insert(key, ProposalVotes { votes_for, votes_against, status, expiry });
        proof {
            let t = found_votes(tallies(old(self).votes@), key, now, old(self).proposal_lifetime);
            assert(tallies(self.votes@) =~= tallies(old(self).votes@).insert(key, with_vote(t, who, in_favour)));
        }
        Ok(())
    }

    /// Sets the status of `votes` that `complete_status` gives and returns it.
    fn try_to_complete(votes: &mut ProposalVotes, threshold: u32, total: u32) -> (r: ProposalStatus)
        ensures
            r == complete_status(tally_of(*old(votes)), threshold, total),
            final(votes).votes_for@ == old(votes).votes_for@,
            final(votes).votes_against@ == old(votes).votes_against@,
            final(votes).expiry == old(votes).expiry,
            r != ProposalStatus::Initiated ==> final(votes).status == r,
            r == ProposalStatus::Initiated ==> final(votes).status == old(votes).status,
    {
        if votes.votes_for.len() >= threshold as usize {
            votes.status = ProposalStatus::Approved;
            ProposalStatus::Approved
        } else if total >= threshold && (votes.votes_against.len() as u32).wrapping_add(threshold) > total {
            votes.status = ProposalStatus::Rejected;
            ProposalStatus::Rejected
        } else {
            ProposalStatus::Initiated
        }
    }

    /// Evaluates the votes on proposal `prop` with `nonce` from `src_id` at
    /// block `now` and records the status they give. An approved proposal is
    /// left to be dispatched, a rejected one is recorded as such.
    fn try_resolve_proposal(&mut self, nonce: DepositNonce, src_id: ChainId, prop: &Vec<u8>, now: u64)
        -> (r: Result<Resolution, DispatchError>)
        ensures
            same_setup(old(self), final(self)),
            ({
                let key = vote_key(src_id, nonce, prop@);
                let t = tallies(old(self).votes@)[key];
                let st = complete_status(t, old(self).relayer_threshold, old(self).relayer_count);
                &&& !old(self).votes@.contains_key(key) ==> r == rerr::<Resolution>(Error::ProposalDoesNotExist)
                &&& old(self).votes@.contains_key(key) && t.2 != ProposalStatus::Initiated ==> r == rerr::<Resolution>(Error::ProposalAlreadyComplete)
                &&& old(self).votes@.contains_key(key) && t.2 == ProposalStatus::Initiated && t.3 <= now
                    ==> r == rerr::<Resolution>(Error::ProposalExpired)
                &&& r is Err ==> final(self).votes@ == old(self).votes@ && final(self).events@ == old(self).events@
                &&& old(self).votes@.contains_key(key) && t.2 == ProposalStatus::Initiated && t.3 > now ==> {
                    &&& tallies(final(self).votes@) == tallies(old(self).votes@).insert(key, (t.0, t.1, st, t.3))
                    &&& st == ProposalStatus::Approved ==> r == Ok::<Resolution, DispatchError>(Resolution::Approved)
                        && final(self).events@ == old(self).events@
                    &&& st == ProposalStatus::Rejected ==> r == Ok::<Resolution, DispatchError>(Resolution::Rejected)
                        && final(self).events@ == old(self).events@.push(Event::ProposalRejected(src_id, nonce))
                    &&& st == ProposalStatus::Initiated ==> r == Ok::<Resolution, DispatchError>(Resolution::Pending)
                        && final(self).events@ == old(self).events@
                }
            }),
    {
        let key = Self::key_of_votes(src_id, nonce, prop);
        let (votes_for, votes_against, status, expiry) = match self.votes.get(&key) {
            Some(v) => (v.votes_for.clone(), v.votes_against.clone(), v.status, v.expiry),
            None => {
                return Err(DispatchError::Bridge(Error::ProposalDoesNotExist));
            },
        };
        let mut votes = ProposalVotes { votes_for, votes_against, status, expiry };
        proof {
            lemma_tallies(old(self).votes@, key);
            let t = tallies(old(self).votes@)[key];
            assert(votes.votes_for@ =~= t.0);
            assert(votes.votes_against@ =~= t.1);
        }
        if status != ProposalStatus::Initiated {
            return Err(DispatchError::Bridge(Error::ProposalAlreadyComplete));
        }
        if expiry <= now {
            return Err(DispatchError::Bridge(Error::ProposalExpired));
        }
        let st = Self::try_to_complete(&mut votes, self.relayer_threshold, self.relayer_count);
        self.votes.insert(key, votes);
        proof {
            let t = tallies(old(self).votes@)[key];
            let stc = complete_status(t, old(self).relayer_threshold, old(self).relayer_count);
            assert(tallies(self.votes@) =~= tallies(old(self).votes@).insert(key, (t.0, t.1, stc, t.3)));
        }
        match st {
            ProposalStatus::Approved => Ok(Resolution::Approved),
            ProposalStatus::Rejected => {
                self.cancel_execution(src_id, nonce);
                Ok(Resolution::Rejected)
            },
            ProposalStatus::Initiated => Ok(Resolution::Pending),
        }
    }

    /// Records a rejected proposal.
    fn cancel_execution(&mut self, src_id: ChainId, nonce: DepositNonce) -> (r: Result<(), DispatchError>)
        ensures
            r is Ok,
            same_setup(old(self), final(self)),
            final(self).votes@ == old(self).votes@,
            final(self).events@ == old(self).events@.push(Event::ProposalRejected(src_id, nonce)),
    {
        self.events.push(Event::ProposalRejected(src_id, nonce));
        Ok(())
    }

    /// Completes an approved proposal from the result of its dispatch from
    /// the bridge's account: the approval is recorded, and the success too
    /// where the dispatch succeeded; otherwise its error is returned.
    pub fn finalize_execution(&mut self, src_id: ChainId, nonce: DepositNonce, dispatched: Result<(), DispatchError>)
        -> (r: Result<(), DispatchError>)
        ensures
            same_setup(old(self), final(self)),
            final(self).votes@ == old(self).votes@,
            r == dispatched,
            dispatched is Ok ==> final(self).events@ == old(self).events@.push(Event::ProposalApproved(src_id, nonce))
                .push(Event::ProposalSucceeded(src_id, nonce)),
            dispatched is Err ==> final(self).events@ == old(self).events@.push(Event::ProposalApproved(src_id, nonce)),
    {
        self.events.push(Event::ProposalApproved(src_id, nonce));
        if dispatched.is_ok() {
            self.events.push(Event::ProposalSucceeded(src_id, nonce));
        }
        dispatched
    }

    /// Sends `amount` of resource `resource_id` to `to` on chain `dest_id`,
    /// which must be whitelisted, with the chain's next deposit nonce.
    pub fn transfer_fungible(&mut self, dest_id: ChainId, resource_id: ResourceId, to: Vec<u8>, amount: Wide)
        -> (r: Result<(), DispatchError>)
        ensures
            final(self).votes@ == old(self).votes@,
            final(self).relayers@ == old(self).relayers@,
            final(self).resources@ == old(self).resources@,
            !old(self).chain_nonces@.contains_key(dest_id) ==> r == rerr::<()>(Error::ChainNotWhitelisted)
                && final(self).chain_nonces@ == old(self).chain_nonces@ && final(self).events@ == old(self).events@,
            old(self).chain_nonces@.contains_key(dest_id) ==> ({
                let nonce = ((old(self).chain_nonces@[dest_id] + 1) % 0x1_0000_0000_0000_0000) as u64;
                &&& r is Ok
                &&& final(self).chain_nonces@ == old(self).chain_nonces@.insert(dest_id, nonce)
                &&& final(self).events@.len() == old(self).events@.len() + 1
                &&& final(self).events@.drop_last() == old(self).events@
                &&& final(self).events@.last() matches Event::FungibleTransfer(d, n, rid, a, t)
                    && d == dest_id && n == nonce && rid == resource_id && a == amount && t@ == to@
            }),
    {
        if !self.chain_whitelisted(dest_id) {
            return Err(DispatchError::Bridge(Error::ChainNotWhitelisted));
        }
        let nonce = self.bump_nonce(dest_id);
        self.events.push(Event::FungibleTransfer(dest_id, nonce, resource_id, amount, to));
        assert(self.events@.drop_last() =~= old(self).events@);
        Ok(())
    }

    /// Sends token `token_id` of resource `resource_id` to `to` on chain
    /// `dest_id`, which must be whitelisted, with the chain's next nonce.
    pub fn transfer_nonfungible(
        &mut self,
        dest_id: ChainId,
        resource_id: ResourceId,
        token_id: Vec<u8>,
        to: Vec<u8>,
        metadata: Vec<u8>,
    ) -> (r: Result<(), DispatchError>)
        ensures
            final(self).votes@ == old(self).votes@,
            final(self).relayers@ == old(self).relayers@,
            final(self).resources@ == old(self).resources@,
            !old(self).chain_nonces@.contains_key(dest_id) ==> r == rerr::<()>(Error::ChainNotWhitelisted)
                && final(self).chain_nonces@ == old(self).chain_nonces@ && final(self).events@ == old(self).events@,
            old(self).chain_nonces@.contains_key(dest_id) ==> ({
                let nonce = ((old(self).chain_nonces@[dest_id] + 1) % 0x1_0000_0000_0000_0000) as u64;
                &&& r is Ok
                &&& final(self).chain_nonces@ == old(self).chain_nonces@.insert(dest_id, nonce)
                &&& final(self).events@.len() == old(self).events@.len() + 1
                &&& final(self).events@.drop_last() == old(self).events@
                &&& final(self).events@.last() matches Event::NonFungibleTransfer(d, n, rid, tk, t, m)
                    && d == dest_id && n == nonce && rid == resource_id && tk@ == token_id@ && t@ == to@ && m@ == metadata@
            }),
    {
        if !self.chain_whitelisted(dest_id) {
            return Err(DispatchError::Bridge(Error::ChainNotWhitelisted));
        }
        let nonce = self.bump_nonce(dest_id);
        self.events.push(Event::NonFungibleTransfer(dest_id, nonce, resource_id, token_id, to, metadata));
        assert(self.events@.drop_last() =~= old(self).events@);
        Ok(())
    }

    /// Sends `metadata` for resource `resource_id` to chain `dest_id`, which
    /// must be whitelisted, with the chain's next nonce.
    pub fn transfer_generic(&mut self, dest_id: ChainId, resource_id: ResourceId, metadata: Vec<u8>) -> (r: Result<(), DispatchError>)
        ensures
            final(self).votes@ == old(self).votes@,
            final(self).relayers@ == old(self).relayers@,
            final(self).resources@ == old(self).resources@,
            !old(self).chain_nonces@.contains_key(dest_id) ==> r == rerr::<()>(Error::ChainNotWhitelisted)
                && final(self).chain_nonces@ == old(self).chain_nonces@ && final(self).events@ == old(self).events@,
            old(self).chain_nonces@.contains_key(dest_id) ==> ({
                let nonce = ((old(self).chain_nonces@[dest_id] + 1) % 0x1_0000_0000_0000_0000) as u64;
                &&& r is Ok
                &&& final(self).chain_nonces@ == old(self).chain_nonces@.insert(dest_id, nonce)
                &&& final(self).events@.len() == old(self).events@.len() + 1
                &&& final(self).events@.drop_last() == old(self).events@
                &&& final(self).events@.last() matches Event::GenericTransfer(d, n, rid, m)
                    && d == dest_id && n == nonce && rid == resource_id && m@ == metadata@
            }),
    {
        if !self.chain_whitelisted(dest_id) {
            return Err(DispatchError::Bridge(Error::ChainNotWhitelisted));
        }
        let nonce = self.bump_nonce(dest_id);
        self.events.push(Event::GenericTransfer(dest_id, nonce, resource_id, metadata));
        assert(self.events@.drop_last() =~= old(self).events@);
        Ok(())
    }

    /// Records `who`'s vote and evaluates the proposal, as `vote_outcome`
    /// describes.
    fn vote(&mut self, who: u64, nonce: DepositNonce, src_id: ChainId, prop: &Vec<u8>, in_favour: bool, now: u64)
        -> (r: Result<Resolution, DispatchError>)
        ensures
            vote_outcome(old(self), final(self), who, nonce, src_id, prop@, in_favour, now, r),
    {
        self.commit_vote(who, nonce, src_id, prop, in_favour, now)?;
        let ghost key = vote_key(src_id, nonce, prop@);
        let ghost t = found_votes(tallies(old(self).votes@), key, now, old(self).proposal_lifetime);
        let ghost t1 = with_vote(t, who, in_favour);
        proof {
            lemma_tallies(self.votes@, key);
            assert(tallies(self.votes@).contains_key(key));
            assert(tallies(self.votes@)[key] == t1);
        }
        let r = self.try_resolve_proposal(nonce, src_id, prop, now);
        proof {
            let st = complete_status(t1, old(self).relayer_threshold, old(self).relayer_count);
            assert(tallies(self.votes@) =~= tallies(old(self).votes@).insert(key, (t1.0, t1.1, st, t1.3)));
        }
        r
    }

    /// A vote in favour of a proposal, then its evaluation.
    fn vote_for(&mut self, who: u64, nonce: DepositNonce, src_id: ChainId, prop: &Vec<u8>, now: u64) -> (r: Result<Resolution, DispatchError>)
        ensures
            vote_outcome(old(self), final(self), who, nonce, src_id, prop@, true, now, r),
    {
        self.vote(who, nonce, src_id, prop, true, now)
    }

    /// A vote against a proposal, then its evaluation.
    fn vote_against(&mut self, who: u64, nonce: DepositNonce, src_id: ChainId, prop: &Vec<u8>, now: u64) -> (r: Result<Resolution, DispatchError>)
        ensures
            vote_outcome(old(self), final(self), who, nonce, src_id, prop@, false, now, r),
    {
        self.vote(who, nonce, src_id, prop, false, now)
    }

    /// Checks that the signer is a relayer, the chain whitelisted and the
    /// resource registered.
    fn relayer_checks(&self, origin: Origin, src_id: ChainId, r_id: ResourceId) -> (r: Result<u64, DispatchError>)
        ensures
            !(origin is Signed) ==> r == Err::<u64, DispatchError>(DispatchError::BadOrigin),
            origin is Signed && !self.relayers@.contains(origin->Signed_0) ==> r == rerr::<u64>(Error::MustBeRelayer),
            origin is Signed && self.relayers@.contains(origin->Signed_0) && !self.chain_nonces@.contains_key(src_id)
                ==> r == rerr::<u64>(Error::ChainNotWhitelisted),
            origin is Signed && self.relayers@.contains(origin->Signed_0) && self.chain_nonces@.contains_key(src_id)
                && !self.resources@.contains_key(hash_key_of(r_id)) ==> r == rerr::<u64>(Error::ResourceDoesNotExist),
            origin is Signed && self.relayers@.contains(origin->Signed_0) && self.chain_nonces@.contains_key(src_id)
                && self.resources@.contains_key(hash_key_of(r_id)) ==> r == Ok::<u64, DispatchError>(origin->Signed_0),
    {
        let who = ensure_signed(origin)?;
        if !self.is_relayer(who) {
            return Err(DispatchError::Bridge(Error::MustBeRelayer));
        }
        if !self.chain_whitelisted(src_id) {
            return Err(DispatchError::Bridge(Error::ChainNotWhitelisted));
        }
        if !self.resource_exists(r_id) {
            return Err(DispatchError::Bridge(Error::ResourceDoesNotExist));
        }
        Ok(who)
    }

    /// A relayer's vote in favour of proposal `call` (its encoding) with
    /// `nonce` from `src_id` at block `now`. Where the proposal is approved,
    /// the caller dispatches it from the bridge's account and hands the
    /// result to `finalize_execution`.
    pub fn acknowledge_proposal(&mut self, origin: Origin, now: u64, nonce: DepositNonce, src_id: ChainId, r_id: ResourceId, call: &Vec<u8>)
        -> (r: Result<Resolution, DispatchError>)
        ensures
            !(origin is Signed) ==> r == Err::<Resolution, DispatchError>(DispatchError::BadOrigin),
            origin is Signed && !old(self).relayers@.contains(origin->Signed_0) ==> r == rerr::<Resolution>(Error::MustBeRelayer),
            origin is Signed && old(self).relayers@.contains(origin->Signed_0) && !old(self).chain_nonces@.contains_key(src_id)
                ==> r == rerr::<Resolution>(Error::ChainNotWhitelisted),
            origin is Signed && old(self).relayers@.contains(origin->Signed_0) && old(self).chain_nonces@.contains_key(src_id)
                && !old(self).resources@.contains_key(hash_key_of(r_id)) ==> r == rerr::<Resolution>(Error::ResourceDoesNotExist),
            !(origin is Signed && old(self).relayers@.contains(origin->Signed_0) && old(self).chain_nonces@.contains_key(src_id)
                && old(self).resources@.contains_key(hash_key_of(r_id))) ==> same_setup(old(self), final(self))
                && final(self).votes@ == old(self).votes@ && final(self).events@ == old(self).events@,
            origin is Signed && old(self).relayers@.contains(origin->Signed_0) && old(self).chain_nonces@.contains_key(src_id)
                && old(self).resources@.contains_key(hash_key_of(r_id))
                ==> vote_outcome(old(self), final(self), origin->Signed_0, nonce, src_id, call@, true, now, r),
    {
        let who = match self.relayer_checks(origin, src_id, r_id) {
            Ok(w) => w,
            Err(e) => {
                return Err(e);
            },
        };
        self.vote_for(who, nonce, src_id, call, now)
    }

    /// A relayer's vote against proposal `call` (its encoding) with `nonce`
    /// from `src_id` at block `now`.
    pub fn reject_proposal(&mut self, origin: Origin, now: u64, nonce: DepositNonce, src_id: ChainId, r_id: ResourceId, call: &Vec<u8>)
        -> (r: Result<Resolution, DispatchError>)
        ensures
            !(origin is Signed) ==> r == Err::<Resolution, DispatchError>(DispatchError::BadOrigin),
            origin is Signed && !old(self).relayers@.contains(origin->Signed_0) ==> r == rerr::<Resolution>(Error::MustBeRelayer),
            origin is Signed && old(self).relayers@.contains(origin->Signed_0) && !old(self).chain_nonces@.contains_key(src_id)
                ==> r == rerr::<Resolution>(Error::ChainNotWhitelisted),
            origin is Signed && old(self).relayers@.contains(origin->Signed_0) && old(self).chain_nonces@.contains_key(src_id)
                && !old(self).resources@.contains_key(hash_key_of(r_id)) ==> r == rerr::<Resolution>(Error::ResourceDoesNotExist),
            !(origin is Signed && old(self).relayers@.contains(origin->Signed_0) && old(self).chain_nonces@.contains_key(src_id)
                && old(self).resources@.contains_key(hash_key_of(r_id))) ==> same_setup(old(self), final(self))
                && final(self).votes@ == old(self).votes@ && final(self).events@ == old(self).events@,
            origin is Signed && old(self).relayers@.contains(origin->Signed_0) && old(self).chain_nonces@.contains_key(src_id)
                && old(self).resources@.contains_key(hash_key_of(r_id))
                ==> vote_outcome(old(self), final(self), origin->Signed_0, nonce, src_id, call@, false, now, r),
    {
        let who = match self.relayer_checks(origin, src_id, r_id) {
            Ok(w) => w,
            Err(e) => {
                return Err(e);
            },
        };
        self.vote_against(who, nonce, src_id, call, now)
    }

    /// Evaluates the votes on proposal `prop` at block `now` for any signer.
    pub fn eval_vote_state(&mut self, origin: Origin, now: u64, nonce: DepositNonce, src_id: ChainId, prop: &Vec<u8>)
        -> (r: Result<Resolution, DispatchError>)
        ensures
            same_setup(old(self), final(self)),
            !(origin is Signed) ==> r == Err::<Resolution, DispatchError>(DispatchError::BadOrigin)
                && final(self).votes@ == old(self).votes@ && final(self).events@ == old(self).events@,
            origin is Signed ==> ({
                let key = vote_key(src_id, nonce, prop@);
                let t = tallies(old(self).votes@)[key];
                let st = complete_status(t, old(self).relayer_threshold, old(self).relayer_count);
                &&& !old(self).votes@.contains_key(key) ==> r == rerr::<Resolution>(Error::ProposalDoesNotExist)
                &&& old(self).votes@.contains_key(key) && t.2 != ProposalStatus::Initiated ==> r == rerr::<Resolution>(Error::ProposalAlreadyComplete)
                &&& old(self).votes@.contains_key(key) && t.2 == ProposalStatus::Initiated && t.3 <= now
                    ==> r == rerr::<Resolution>(Error::ProposalExpired)
                &&& r is Err ==> final(self).votes@ == old(self).votes@ && final(self).events@ == old(self).events@
                &&& old(self).votes@.contains_key(key) && t.2 == ProposalStatus::Initiated && t.3 > now ==> {
                    &&& r == Ok::<Resolution, DispatchError>(resolution_of(st))
                    &&& tallies(final(self).votes@) == tallies(old(self).votes@).insert(key, (t.0, t.1, st, t.3))
                    &&& st == ProposalStatus::Rejected ==> final(self).events@ == old(self).events@.push(Event::ProposalRejected(src_id, nonce))
                    &&& st != ProposalStatus::Rejected ==> final(self).events@ == old(self).events@
                }
            }),
    {
        ensure_signed(origin)?;
        self.try_resolve_proposal(nonce, src_id, prop, now)
    }

    /// Sets the relayer threshold; for the administrator.
    pub fn set_threshold(&mut self, origin: Origin, threshold: u32) -> (r: Result<(), DispatchError>)
        ensures
            final(self).relayers@ == old(self).relayers@,
            final(self).resources@ == old(self).resources@,
            final(self).chain_nonces@ == old(self).chain_nonces@,
            final(self).votes@ == old(self).votes@,
            final(self).relayer_count == old(self).relayer_count,
            !(origin is Root) ==> r == Err::<(), DispatchError>(DispatchError::BadOrigin),
            origin is Root && threshold == 0 ==> r == rerr::<()>(Error::InvalidThreshold),
            r is Err ==> final(self).relayer_threshold == old(self).relayer_threshold && final(self).events@ == old(self).events@,
            origin is Root && threshold > 0 ==> r is Ok && final(self).relayer_threshold == threshold
                && final(self).events@ == old(self).events@.push(Event::RelayerThresholdChanged(threshold)),
    {
        Self::ensure_admin(origin)?;
        self.set_relayer_threshold(threshold)
    }

    /// Registers a resource; for the administrator.
    pub fn set_resource(&mut self, origin: Origin, id: ResourceId, method: Vec<u8>) -> (r: Result<(), DispatchError>)
        ensures
            final(self).relayers@ == old(self).relayers@,
            final(self).chain_nonces@ == old(self).chain_nonces@,
            final(self).votes@ == old(self).votes@,
            final(self).events@ == old(self).events@,
            !(origin is Root) ==> r == Err::<(), DispatchError>(DispatchError::BadOrigin) && final(self).resources@ == old(self).resources@,
            origin is Root ==> r is Ok && final(self).resources@ == old(self).resources@.insert(hash_key_of(id), method),
    {
        Self::ensure_admin(origin)?;
        self.register_resource(id, method)
    }

    /// Removes a resource; for the administrator.
    pub fn remove_resource(&mut self, origin: Origin, id: ResourceId) -> (r: Result<(), DispatchError>)
        ensures
            final(self).relayers@ == old(self).relayers@,
            final(self).chain_nonces@ == old(self).chain_nonces@,
            final(self).votes@ == old(self).votes@,
            final(self).events@ == old(self).events@,
            !(origin is Root) ==> r == Err::<(), DispatchError>(DispatchError::BadOrigin) && final(self).resources@ == old(self).resources@,
            origin is Root ==> r is Ok && final(self).resources@ == old(self).resources@.remove(hash_key_of(id)),
    {
        Self::ensure_admin(origin)?;
        self.unregister_resource(id)
    }

    /// Whitelists a chain; for the administrator.
    pub fn whitelist_chain(&mut self, origin: Origin, id: ChainId) -> (r: Result<(), DispatchError>)
        ensures
            final(self).relayers@ == old(self).relayers@,
            final(self).resources@ == old(self).resources@,
            final(self).votes@ == old(self).votes@,
            !(origin is Root) ==> r == Err::<(), DispatchError>(DispatchError::BadOrigin),
            origin is Root && id == old(self).chain_id ==> r == rerr::<()>(Error::InvalidChainId),
            origin is Root && id != old(self).chain_id && old(self).chain_nonces@.contains_key(id) ==> r == rerr::<()>(Error::ChainAlreadyWhitelisted),
            r is Err ==> final(self).chain_nonces@ == old(self).chain_nonces@ && final(self).events@ == old(self).events@,
            origin is Root && id != old(self).chain_id && !old(self).chain_nonces@.contains_key(id) ==> r is Ok
                && final(self).chain_nonces@ == old(self).chain_nonces@.insert(id, 0)
                && final(self).events@ == old(self).events@.push(Event::ChainWhitelisted(id)),
    {
        Self::ensure_admin(origin)?;
        self.whitelist(id)
    }

    /// Adds a relayer; for the administrator.
    pub fn add_relayer(&mut self, origin: Origin, v: u64) -> (r: Result<(), DispatchError>)
        ensures
            final(self).resources@ == old(self).resources@,
            final(self).chain_nonces@ == old(self).chain_nonces@,
            final(self).votes@ == old(self).votes@,
            !(origin is Root) ==> r == Err::<(), DispatchError>(DispatchError::BadOrigin),
            origin is Root && old(self).relayers@.contains(v) ==> r == rerr::<()>(Error::RelayerAlreadyExists),
            r is Err ==> final(self).relayers@ == old(self).relayers@ && final(self).relayer_count == old(self).relayer_count
                && final(self).events@ == old(self).events@,
            origin is Root && !old(self).relayers@.contains(v) ==> r is Ok
                && final(self).relayers@ == old(self).relayers@.insert(v)
                && final(self).relayer_count == (old(self).relayer_count + 1) % 0x1_0000_0000
                && final(self).events@ == old(self).events@.push(Event::RelayerAdded(v)),
            relayers_counted(old(self)) && old(self).relayer_count < u32::MAX ==> relayers_counted(final(self)),
    {
        Self::ensure_admin(origin)?;
        self.register_relayer(v)
    }

    /// Removes a relayer; for the administrator.
    pub fn remove_relayer(&mut self, origin: Origin, v: u64) -> (r: Result<(), DispatchError>)
        ensures
            final(self).resources@ == old(self).resources@,
            final(self).chain_nonces@ == old(self).chain_nonces@,
            final(self).votes@ == old(self).votes@,
            !(origin is Root) ==> r == Err::<(), DispatchError>(DispatchError::BadOrigin),
            origin is Root && !old(self).relayers@.contains(v) ==> r == rerr::<()>(Error::RelayerInvalid),
            r is Err ==> final(self).relayers@ == old(self).relayers@ && final(self).relayer_count == old(self).relayer_count
                && final(self).events@ == old(self).events@,
            origin is Root && old(self).relayers@.contains(v) ==> r is Ok
                && final(self).relayers@ == old(self).relayers@.remove(v)
                && final(self).relayer_count == (old(self).relayer_count - 1 + 0x1_0000_0000) % 0x1_0000_0000
                && final(self).events@ == old(self).events@.push(Event::RelayerRemoved(v)),
            relayers_counted(old(self)) ==> relayers_counted(final(self)),
    {
        Self::ensure_admin(origin)?;
        self.unregister_relayer(v)
    }
}

/// No relayer appears twice among the votes on any proposal.
pub open spec fn votes_once(m: Map<VoteKey, Tally>) -> bool {
    forall|k: VoteKey| #[trigger] m.contains_key(k) ==> {
        &&& m[k].0.no_duplicates()
        &&& m[k].1.no_duplicates()
        &&& forall|x: u64| !(m[k].0.contains(x) && m[k].1.contains(x))
    }
}

/// A relayer's vote on a proposal counts once: where no relayer appears
/// twice among the votes of any proposal, none does after a vote is cast.
pub proof fn law_vote_counts_once(
    old: &Pallet,
    new: &Pallet,
    who: u64,
    nonce: DepositNonce,
    src_id: ChainId,
    prop: Seq<u8>,
    in_favour: bool,
    now: u64,
    r: Result<Resolution, DispatchError>,
)
    requires
        votes_once(tallies(old.votes@)),
        vote_outcome(old, new, who, nonce, src_id, prop, in_favour, now, r),
    ensures
        votes_once(tallies(new.votes@)),
{
    let key = vote_key(src_id, nonce, prop);
    let t = found_votes(tallies(old.votes@), key, now, old.proposal_lifetime);
    if vote_check(t, who, now, in_favour, old.max_votes) is None {
        let t1 = with_vote(t, who, in_favour);
        assert(!voted(t, who));
        assert(t.0.no_duplicates() && t.1.no_duplicates() && forall|x: u64| !(t.0.contains(x) && t.1.contains(x)));
        if in_favour {
            assert(t1.0 =~= t.0.push(who));
            assert forall|i: int, j: int| 0 <= i < t1.0.len() && 0 <= j < t1.0.len() && i != j implies t1.0[i] != t1.0[j] by {
                if i == t.0.len() as int {
                    assert(t.0.contains(t1.0[j]));
                } else if j == t.0.len() as int {
                    assert(t.0.contains(t1.0[i]));
                }
            }
            assert forall|x: u64| !(t1.0.contains(x) && t1.1.contains(x)) by {
                if t1.0.contains(x) {
                    let i = choose|i: int| 0 <= i < t1.0.len() && t1.0[i] == x;
                    if i < t.0.len() {
                        assert(t.0.contains(x));
                    }
                }
            }
        } else {
            assert(t1.1 =~= t.1.push(who));
            assert forall|i: int, j: int| 0 <= i < t1.1.len() && 0 <= j < t1.1.len() && i != j implies t1.1[i] != t1.1[j] by {
                if i == t.1.len() as int {
                    assert(t.1.contains(t1.1[j]));
                } else if j == t.1.len() as int {
                    assert(t.1.contains(t1.1[i]));
                }
            }
            assert forall|x: u64| !(t1.0.contains(x) && t1.1.contains(x)) by {
                if t1.1.contains(x) {
                    let i = choose|i: int| 0 <= i < t1.1.len() && t1.1[i] == x;
                    if i < t.1.len() {
                        assert(t.1.contains(x));
                    }
                }
            }
        }
    }
}

/// The origin check that admits only the bridge's own account.
pub struct EnsureBridge;

impl EnsureBridge {
    /// The bridge's account where `o` is signed by it, else `o` back.
    pub fn try_origin(bridge: &Pallet, o: Origin) -> (r: Result<u64, Origin>)
        ensures
            r == (if o == Origin::Signed(pallet_account_spec(bridge.pallet_id.0)) {
                Ok::<u64, Origin>(pallet_account_spec(bridge.pallet_id.0))
            } else {
                Err(o)
            }),
    {
        bridge.ensure_bridge(o)
    }
}


/// How votes resolve a proposal with `threshold` of `total` relayers: it is
/// approved exactly when the votes in favour reach the threshold; it is
/// rejected only when the votes in favour fall short and the votes against
/// leave too few relayers to reach the threshold (votes against plus the
/// threshold exceed the relayers), and then whenever that sum fits 32 bits
/// and the threshold is within the relayers; otherwise it stays open.
pub proof fn law_resolution_by_votes(t: Tally, threshold: u32, total: u32)
    requires
        t.1.len() <= u32::MAX,
    ensures
        (complete_status(t, threshold, total) == ProposalStatus::Approved) == (t.0.len() >= threshold),
        complete_status(t, threshold, total) == ProposalStatus::Rejected
            ==> t.0.len() < threshold && total >= threshold && t.1.len() + threshold > total,
        t.0.len() < threshold && total >= threshold && t.1.len() + threshold > total && t.1.len() + threshold <= u32::MAX
            ==> complete_status(t, threshold, total) == ProposalStatus::Rejected,
        complete_status(t, threshold, total) == ProposalStatus::Initiated
            || complete_status(t, threshold, total) == ProposalStatus::Approved
            || complete_status(t, threshold, total) == ProposalStatus::Rejected,
{
    let a = t.1.len();
    assert((a as u32) == a);
    assert(((a as u32) + threshold) % 0x1_0000_0000 <= (a as u32) + threshold) by {
        vstd::arithmetic::div_mod::lemma_mod_decreases(((a as u32) + threshold) as nat, 0x1_0000_0000nat);
    }
    if a + threshold <= u32::MAX {
        vstd::arithmetic::div_mod::lemma_small_mod(((a as u32) + threshold) as nat, 0x1_0000_0000nat);
    }
}

} // verus!
