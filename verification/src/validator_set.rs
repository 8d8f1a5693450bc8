//! The validator-set pallet: the validators of the next session, the
//! validators the administrator approved, and those reported offline, which
//! leave the set when the next session starts.
use vstd::prelude::*;
use crate::primitives::{ensure_signed, DispatchError, Origin};

verus! {

#[derive(Clone, Copy, PartialEq, Eq, Debug)]
pub enum Event {
    ValidatorAdditionInitiated(u64),
    ValidatorRemovalInitiated(u64),
}

#[derive(Clone, Copy, PartialEq, Eq, Debug)]
pub enum Error {
    TooLowValidatorCount,
    Duplicate,
    ValidatorNotApproved,
    BadOrigin,
}

/// The pallet's state and configuration.
pub struct Pallet {
    /// The fewest validators the set may keep.
    pub min_authorities: u32,
    /// The bound on each list of validators.
    pub max_authorities: u32,
    pub validators: Vec<u64>,
    pub approved_validators: Vec<u64>,
    /// The validators reported offline, to leave at the next session.
    pub offline_validators: Vec<u64>,
    pub events: Vec<Event>,
}

/// A dispatch error of this pallet.
pub open spec fn verr(e: Error) -> Result<(), DispatchError> {
    Err(DispatchError::ValidatorSet(e))
}

/// `s` without the occurrences of `x`, in order.
pub open spec fn without(s: Seq<u64>, x: u64) -> Seq<u64>
    decreases s.len(),
{
    if s.len() == 0 {
        s
    } else if s.last() == x {
        without(s.drop_last(), x)
    } else {
        without(s.drop_last(), x).push(s.last())
    }
}

/// `s` without the members of `xs`, in order.
pub open spec fn without_all(s: Seq<u64>, xs: Seq<u64>) -> Seq<u64>
    decreases s.len(),
{
    if s.len() == 0 {
        s
    } else if xs.contains(s.last()) {
        without_all(s.drop_last(), xs)
    } else {
        without_all(s.drop_last(), xs).push(s.last())
    }
}

/// Taking every occurrence of `x` out of a list leaves the other members,
/// and no member twice where there was none twice before.
pub proof fn law_without(s: Seq<u64>, x: u64)
    ensures
        forall|y: u64| #[trigger] without(s, x).contains(y) == (s.contains(y) && y != x),
        s.no_duplicates() ==> without(s, x).no_duplicates(),
    decreases s.len(),
{
    if s.len() > 0 {
        let p = s.drop_last();
        law_without(p, x);
        assert forall|y: u64| #[trigger] s.contains(y) == (p.contains(y) || y == s.last()) by {
            if s.contains(y) {
                let i = choose|i: int| 0 <= i < s.len() && s[i] == y;
                if i < p.len() {
                    assert(p[i] == y);
                }
            }
            if p.contains(y) {
                let i = choose|i: int| 0 <= i < p.len() && p[i] == y;
                assert(s[i] == y);
            }
            if y == s.last() {
                assert(s[s.len() - 1] == y);
            }
        }
        if s.last() != x {
            let w = without(p, x);
            assert forall|y: u64| #[trigger] w.push(s.last()).contains(y) == (w.contains(y) || y == s.last()) by {
                if w.push(s.last()).contains(y) {
                    let i = choose|i: int| 0 <= i < w.len() + 1 && w.push(s.last())[i] == y;
                    if i < w.len() {
                        assert(w[i] == y);
                    }
                }
                if w.contains(y) {
                    let i = choose|i: int| 0 <= i < w.len() && w[i] == y;
                    assert(w.push(s.last())[i] == y);
                }
                if y == s.last() {
                    assert(w.push(s.last())[w.len() as int] == y);
                }
            }
            if s.no_duplicates() {
                assert(p.no_duplicates());
                assert(!p.contains(s.last())) by {
                    if p.contains(s.last()) {
                        let i = choose|i: int| 0 <= i < p.len() && p[i] == s.last();
                        assert(s[i] == s[s.len() - 1]);
                    }
                }
                let v = w.push(s.last());
                assert forall|i: int, j: int| 0 <= i < v.len() && 0 <= j < v.len() && i != j implies v[i] != v[j] by {
                    if i == w.len() as int {
                        assert(w.contains(v[j]));
                    } else if j == w.len() as int {
                        assert(w.contains(v[i]));
                    }
                }
            }
        } else if s.no_duplicates() {
            assert(p.no_duplicates());
        }
    }
}

/// Taking the members of `xs` out of a list leaves the other members, and
/// no member twice where there was none twice before.
pub proof fn law_without_all(s: Seq<u64>, xs: Seq<u64>)
    ensures
        forall|y: u64| #[trigger] without_all(s, xs).contains(y) == (s.contains(y) && !xs.contains(y)),
        s.no_duplicates() ==> without_all(s, xs).no_duplicates(),
    decreases s.len(),
{
    if s.len() > 0 {
        let p = s.drop_last();
        law_without_all(p, xs);
        assert forall|y: u64| #[trigger] s.contains(y) == (p.contains(y) || y == s.last()) by {
            if s.contains(y) {
                let i = choose|i: int| 0 <= i < s.len() && s[i] == y;
                if i < p.len() {
                    assert(p[i] == y);
                }
            }
            if p.contains(y) {
                let i = choose|i: int| 0 <= i < p.len() && p[i] == y;
                assert(s[i] == y);
            }
            if y == s.last() {
                assert(s[s.len() - 1] == y);
            }
        }
        if !xs.contains(s.last()) {
            let w = without_all(p, xs);
            assert forall|y: u64| #[trigger] w.push(s.last()).contains(y) == (w.contains(y) || y == s.last()) by {
                if w.push(s.last()).contains(y) {
                    let i = choose|i: int| 0 <= i < w.len() + 1 && w.push(s.last())[i] == y;
                    if i < w.len() {
                        assert(w[i] == y);
                    }
                }
                if w.contains(y) {
                    let i = choose|i: int| 0 <= i < w.len() && w[i] == y;
                    assert(w.push(s.last())[i] == y);
                }
                if y == s.last() {
                    assert(w.push(s.last())[w.len() as int] == y);
                }
            }
            if s.no_duplicates() {
                assert(p.no_duplicates());
                assert(!p.contains(s.last())) by {
                    if p.contains(s.last()) {
                        let i = choose|i: int| 0 <= i < p.len() && p[i] == s.last();
                        assert(s[i] == s[s.len() - 1]);
                    }
                }
                let v = w.push(s.last());
                assert forall|i: int, j: int| 0 <= i < v.len() && 0 <= j < v.len() && i != j implies v[i] != v[j] by {
                    if i == w.len() as int {
                        assert(w.contains(v[j]));
                    } else if j == w.len() as int {
                        assert(w.contains(v[i]));
                    }
                }
            }
        } else if s.no_duplicates() {
            assert(p.no_duplicates());
        }
    }
}

/// Adding a member that a list does not hold keeps every member once.
pub proof fn lemma_push_distinct(s: Seq<u64>, x: u64)
    requires
        s.no_duplicates(),
        !s.contains(x),
    ensures
        s.push(x).no_duplicates(),
{
    let v = s.push(x);
    assert forall|i: int, j: int| 0 <= i < v.len() && 0 <= j < v.len() && i != j implies v[i] != v[j] by {
        if i == s.len() as int {
            assert(s[j] == v[j]);
        } else if j == s.len() as int {
            assert(s[i] == v[i]);
        }
    }
}

/// Whether `x` is among `v`.
fn list_contains(v: &Vec<u64>, x: u64) -> (r: bool)
    ensures
        r == v@.contains(x),
{
    for i in 0..v.len()
        invariant
            forall|j: int| 0 <= j < i ==> v@[j] != x,
    {
        if v[i] == x {
            assert(v@[i as int] == x);
            return true;
        }
    }
    false
}

/// `v` without the occurrences of `x`.
fn remove_all(v: &Vec<u64>, x: u64) -> (r: Vec<u64>)
    ensures
        r@ == without(v@, x),
{
    let mut out: Vec<u64> = Vec::new();
    for i in 0..v.len()
        invariant
            out@ == without(v@.take(i as int), x),
    {
        assert(v@.take(i + 1).drop_last() =~= v@.take(i as int));
        if v[i] != x {
            out.push(v[i]);
        }
    }
    assert(v@.take(v.len() as int) =~= v@);
    out
}

/// `v` without the members of `xs`.
fn remove_members(v: &Vec<u64>, xs: &Vec<u64>) -> (r: Vec<u64>)
    ensures
        r@ == without_all(v@, xs@),
{
    let mut out: Vec<u64> = Vec::new();
    for i in 0..v.len()
        invariant
            out@ == without_all(v@.take(i as int), xs@),
    {
        assert(v@.take(i + 1).drop_last() =~= v@.take(i as int));
        if !list_contains(xs, v[i]) {
            out.push(v[i]);
        }
    }
    assert(v@.take(v.len() as int) =~= v@);
    out
}

/// Two states with the same configuration.
pub open spec fn same_bounds(a: &Pallet, b: &Pallet) -> bool {
    a.min_authorities == b.min_authorities && a.max_authorities == b.max_authorities
}

impl Pallet {
    /// An empty pallet with the given bounds.
    pub fn new(min_authorities: u32, max_authorities: u32) -> (r: Pallet)
        ensures
            r.min_authorities == min_authorities,
            r.max_authorities == max_authorities,
            r.validators@ == Seq::<u64>::empty(),
            r.approved_validators@ == Seq::<u64>::empty(),
            r.offline_validators@ == Seq::<u64>::empty(),
            r.events@ == Seq::<Event>::empty(),
    {
        Pallet {
            min_authorities,
            max_authorities,
            validators: Vec::new(),
            approved_validators: Vec::new(),
            offline_validators: Vec::new(),
            events: Vec::new(),
        }
    }

    /// The validators of the next session.
    pub fn validators(&self) -> (r: &Vec<u64>)
        ensures
            r@ == self.validators@,
    {
        &self.validators
    }

    /// The validators the administrator approved.
    pub fn approved_validators(&self) -> (r: &Vec<u64>)
        ensures
            r@ == self.approved_validators@,
    {
        &self.approved_validators
    }

    /// The validators reported offline.
    pub fn validators_to_remove(&self) -> (r: &Vec<u64>)
        ensures
            r@ == self.offline_validators@,
    {
        &self.offline_validators
    }

    /// Sets the first validators, who are also approved; there must be at
    /// least the minimum and fewer than the bound, and none yet.
    pub fn initialize_validators(&mut self, validators: &Vec<u64>)
        requires
            validators.len() >= old(self).min_authorities,
            validators.len() < old(self).max_authorities,
            old(self).validators@.len() == 0,
        ensures
            same_bounds(old(self), final(self)),
            final(self).validators@ == validators@,
            final(self).approved_validators@ == validators@,
            final(self).offline_validators@ == old(self).offline_validators@,
            final(self).events@ == old(self).events@,
    {
        self.validators = validators.clone();
        self.approved_validators = validators.clone();
        assert(self.validators@ =~= validators@);
        assert(self.approved_validators@ =~= validators@);
    }

    /// Adds `validator_id` to the next session's validators, where it is not
    /// one yet.
    fn do_add_validator(&mut self, validator_id: u64) -> (r: Result<(), DispatchError>)
        requires
            !old(self).validators@.contains(validator_id) ==> old(self).validators@.len() + 1 <= old(self).max_authorities,
        ensures
            same_bounds(old(self), final(self)),
            final(self).approved_validators@ == old(self).approved_validators@,
            final(self).offline_validators@ == old(self).offline_validators@,
            old(self).validators@.contains(validator_id) ==> r == verr(Error::Duplicate)
                && final(self).validators@ == old(self).validators@ && final(self).events@ == old(self).events@,
            !old(self).validators@.contains(validator_id) ==> r is Ok
                && final(self).validators@ == old(self).validators@.push(validator_id)
                && final(self).events@ == old(self).events@.push(Event::ValidatorAdditionInitiated(validator_id)),
    {
        if list_contains(&self.validators, validator_id) {
            return Err(DispatchError::ValidatorSet(Error::Duplicate));
        }
        self.validators.push(validator_id);
        self.events.push(Event::ValidatorAdditionInitiated(validator_id));
        Ok(())
    }

    /// Removes every occurrence of `validator_id` from the next session's
    /// validators, where the set keeps its minimum without one of them.
    fn do_remove_validator(&mut self, validator_id: u64) -> (r: Result<(), DispatchError>)
        ensures
            same_bounds(old(self), final(self)),
            final(self).approved_validators@ == old(self).approved_validators@,
            final(self).offline_validators@ == old(self).offline_validators@,
            (if old(self).validators@.len() > 0 { old(self).validators@.len() - 1 } else { 0 }) < old(self).min_authorities
                ==> r == verr(Error::TooLowValidatorCount) && final(self).validators@ == old(self).validators@
                && final(self).events@ == old(self).events@,
            (if old(self).validators@.len() > 0 { old(self).validators@.len() - 1 } else { 0 }) >= old(self).min_authorities
                ==> r is Ok && final(self).validators@ == without(old(self).validators@, validator_id)
                && final(self).events@ == old(self).events@.push(Event::ValidatorRemovalInitiated(validator_id)),
    {
        let kept = self.validators.len().saturating_sub(1);
        if (kept as u64) < (self.min_authorities as u64) {
            return Err(DispatchError::ValidatorSet(Error::TooLowValidatorCount));
        }
        self.validators = remove_all(&self.validators, validator_id);
        self.events.push(Event::ValidatorRemovalInitiated(validator_id));
        Ok(())
    }

    /// Approves `validator_id`, where it is not approved yet.
    fn approve_validator(&mut self, validator_id: u64) -> (r: Result<(), DispatchError>)
        requires
            !old(self).approved_validators@.contains(validator_id)
                ==> old(self).approved_validators@.len() + 1 <= old(self).max_authorities,
        ensures
            same_bounds(old(self), final(self)),
            final(self).validators@ == old(self).validators@,
            final(self).offline_validators@ == old(self).offline_validators@,
            final(self).events@ == old(self).events@,
            old(self).approved_validators@.contains(validator_id) ==> r == verr(Error::Duplicate)
                && final(self).approved_validators@ == old(self).approved_validators@,
            !old(self).approved_validators@.contains(validator_id) ==> r is Ok
                && final(self).approved_validators@ == old(self).approved_validators@.push(validator_id),
    {
        if list_contains(&self.approved_validators, validator_id) {
            return Err(DispatchError::ValidatorSet(Error::Duplicate));
        }
        self.approved_validators.push(validator_id);
        Ok(())
    }

    /// Leaves the approvals as they are: the filtered list is not stored.
    fn unapprove_validator(&mut self, validator_id: u64) -> (r: Result<(), DispatchError>)
        ensures
            r is Ok,
            same_bounds(old(self), final(self)),
            final(self).validators@ == old(self).validators@,
            final(self).approved_validators@ == old(self).approved_validators@,
            final(self).offline_validators@ == old(self).offline_validators@,
            final(self).events@ == old(self).events@,
    {
        let _approved = remove_all(&self.approved_validators, validator_id);
        Ok(())
    }

    /// Marks `validator_id` offline, to leave at the next session.
    fn mark_for_removal(&mut self, validator_id: u64)
        requires
            old(self).offline_validators@.len() + 1 <= old(self).max_authorities,
        ensures
            same_bounds(old(self), final(self)),
            final(self).validators@ == old(self).validators@,
            final(self).approved_validators@ == old(self).approved_validators@,
            final(self).offline_validators@ == old(self).offline_validators@.push(validator_id),
            final(self).events@ == old(self).events@,
    {
        self.offline_validators.push(validator_id);
    }

    /// Takes the validators marked offline out of the set and clears the
    /// marks.
    fn remove_offline_validators(&mut self)
        ensures
            same_bounds(old(self), final(self)),
            final(self).validators@ == without_all(old(self).validators@, old(self).offline_validators@),
            final(self).approved_validators@ == old(self).approved_validators@,
            final(self).offline_validators@ == Seq::<u64>::empty(),
            final(self).events@ == old(self).events@,
    {
        self.validators = remove_members(&self.validators, &self.offline_validators);
        self.offline_validators = Vec::new();
    }

    /// Starts a session: the offline validators leave, and the set that
    /// remains is the new session's.
    pub fn new_session(&mut self, new_index: u32) -> (r: Option<Vec<u64>>)
        ensures
            same_bounds(old(self), final(self)),
            final(self).validators@ == without_all(old(self).validators@, old(self).offline_validators@),
            final(self).approved_validators@ == old(self).approved_validators@,
            final(self).offline_validators@ == Seq::<u64>::empty(),
            final(self).events@ == old(self).events@,
            r matches Some(v) && v@ == final(self).validators@,
            forall|x: u64| #[trigger] old(self).offline_validators@.contains(x) ==> !final(self).validators@.contains(x),
            old(self).validators@.no_duplicates() ==> final(self).validators@.no_duplicates(),
    {
        proof {
            law_without_all(old(self).validators@, old(self).offline_validators@);
        }
        self.remove_offline_validators();
        let v = self.validators.clone();
        assert(v@ =~= self.validators@);
        Some(v)
    }

    /// Marks offline each validator that an offence names, in order.
    pub fn report_offence(&mut self, offenders: &Vec<(u64, u64)>) -> (r: Result<(), DispatchError>)
        requires
            old(self).offline_validators@.len() + offenders.len() <= old(self).max_authorities,
        ensures
            r is Ok,
            same_bounds(old(self), final(self)),
            final(self).validators@ == old(self).validators@,
            final(self).approved_validators@ == old(self).approved_validators@,
            final(self).offline_validators@ == old(self).offline_validators@ + offenders@.map_values(|o: (u64, u64)| o.0),
            final(self).events@ == old(self).events@,
    {
        for i in 0..offenders.len()
            invariant
                same_bounds(old(self), self),
                old(self).offline_validators@.len() + offenders.len() <= old(self).max_authorities,
                self.validators@ == old(self).validators@,
                self.approved_validators@ == old(self).approved_validators@,
                self.offline_validators@ == old(self).offline_validators@ + offenders@.take(i as int).map_values(|o: (u64, u64)| o.0),
                self.events@ == old(self).events@,
        {
            let (v, _) = offenders[i];
            self.mark_for_removal(v);
            assert(offenders@.take(i + 1).map_values(|o: (u64, u64)| o.0) =~= offenders@.take(i as int).map_values(|o: (u64, u64)| o.0).push(v));
        }
        assert(offenders@.take(offenders.len() as int) =~= offenders@);
        Ok(())
    }

    /// Adds and approves a validator; for the administrator. A failed call
    /// changes nothing.
    pub fn add_validator(&mut self, origin: Origin, validator_id: u64) -> (r: Result<(), DispatchError>)
        requires
            origin is Root && !old(self).validators@.contains(validator_id) ==> old(self).validators@.len() + 1 <= old(self).max_authorities
                && (!old(self).approved_validators@.contains(validator_id)
                    ==> old(self).approved_validators@.len() + 1 <= old(self).max_authorities),
        ensures
            same_bounds(old(self), final(self)),
            final(self).offline_validators@ == old(self).offline_validators@,
            !(origin is Root) ==> r == Err::<(), DispatchError>(DispatchError::BadOrigin),
            origin is Root && old(self).validators@.contains(validator_id) ==> r == verr(Error::Duplicate),
            origin is Root && !old(self).validators@.contains(validator_id) && old(self).approved_validators@.contains(validator_id)
                ==> r == verr(Error::Duplicate),
            r is Err ==> final(self).validators@ == old(self).validators@ && final(self).approved_validators@ == old(self).approved_validators@
                && final(self).events@ == old(self).events@,
            origin is Root && !old(self).validators@.contains(validator_id) && !old(self).approved_validators@.contains(validator_id)
                ==> r is Ok && final(self).validators@ == old(self).validators@.push(validator_id)
                && final(self).approved_validators@ == old(self).approved_validators@.push(validator_id)
                && final(self).events@ == old(self).events@.push(Event::ValidatorAdditionInitiated(validator_id)),
            old(self).validators@.no_duplicates() ==> final(self).validators@.no_duplicates(),
            old(self).approved_validators@.no_duplicates() ==> final(self).approved_validators@.no_duplicates(),
    {
        match origin {
            Origin::Root => {},
            _ => {
                return Err(DispatchError::BadOrigin);
            },
        }
        proof {
            if old(self).validators@.no_duplicates() && !old(self).validators@.contains(validator_id) {
                lemma_push_distinct(old(self).validators@, validator_id);
            }
            if old(self).approved_validators@.no_duplicates() && !old(self).approved_validators@.contains(validator_id) {
                lemma_push_distinct(old(self).approved_validators@, validator_id);
            }
        }
        let n_validators = self.validators.len();
        let n_events = self.events.len();
        self.do_add_validator(validator_id)?;
        let r = self.approve_validator(validator_id);
        if r.is_err() {
            self.validators.truncate(n_validators);
            self.events.truncate(n_events);
            assert(self.validators@ =~= old(self).validators@);
            assert(self.events@ =~= old(self).events@);
        }
        r
    }

    /// Removes a validator from the set; for the administrator. Its
    /// approval stays.
    pub fn remove_validator(&mut self, origin: Origin, validator_id: u64) -> (r: Result<(), DispatchError>)
        ensures
            same_bounds(old(self), final(self)),
            final(self).offline_validators@ == old(self).offline_validators@,
            final(self).approved_validators@ == old(self).approved_validators@,
            !(origin is Root) ==> r == Err::<(), DispatchError>(DispatchError::BadOrigin) && final(self).validators@ == old(self).validators@
                && final(self).events@ == old(self).events@,
            origin is Root && (if old(self).validators@.len() > 0 { old(self).validators@.len() - 1 } else { 0 }) < old(self).min_authorities
                ==> r == verr(Error::TooLowValidatorCount) && final(self).validators@ == old(self).validators@
                && final(self).events@ == old(self).events@,
            origin is Root && (if old(self).validators@.len() > 0 { old(self).validators@.len() - 1 } else { 0 }) >= old(self).min_authorities
                ==> r is Ok && final(self).validators@ == without(old(self).validators@, validator_id)
                && final(self).events@ == old(self).events@.push(Event::ValidatorRemovalInitiated(validator_id)),
            r is Ok ==> !final(self).validators@.contains(validator_id),
            old(self).validators@.no_duplicates() ==> final(self).validators@.no_duplicates(),
    {
        match origin {
            Origin::Root => {},
            _ => {
                return Err(DispatchError::BadOrigin);
            },
        }
        proof {
            law_without(old(self).validators@, validator_id);
        }
        self.do_remove_validator(validator_id)?;
        self.unapprove_validator(validator_id)
    }

    /// Adds an approved validator back to the set; only the validator may.
    pub fn add_validator_again(&mut self, origin: Origin, validator_id: u64) -> (r: Result<(), DispatchError>)
        requires
            origin is Signed && origin->Signed_0 == validator_id && old(self).approved_validators@.contains(validator_id)
                && !old(self).validators@.contains(validator_id) ==> old(self).validators@.len() + 1 <= old(self).max_authorities,
        ensures
            same_bounds(old(self), final(self)),
            final(self).offline_validators@ == old(self).offline_validators@,
            final(self).approved_validators@ == old(self).approved_validators@,
            !(origin is Signed) ==> r == Err::<(), DispatchError>(DispatchError::BadOrigin),
            origin is Signed && origin->Signed_0 != validator_id ==> r == verr(Error::BadOrigin),
            origin is Signed && origin->Signed_0 == validator_id && !old(self).approved_validators@.contains(validator_id)
                ==> r == verr(Error::ValidatorNotApproved),
            origin is Signed && origin->Signed_0 == validator_id && old(self).approved_validators@.contains(validator_id)
                && old(self).validators@.contains(validator_id) ==> r == verr(Error::Duplicate),
            origin is Signed && origin->Signed_0 == validator_id && old(self).approved_validators@.contains(validator_id)
                && !old(self).validators@.contains(validator_id) ==> r is Ok,
            r is Err ==> final(self).validators@ == old(self).validators@ && final(self).events@ == old(self).events@,
            r is Ok ==> final(self).validators@ == old(self).validators@.push(validator_id)
                && final(self).events@ == old(self).events@.push(Event::ValidatorAdditionInitiated(validator_id)),
            old(self).validators@.no_duplicates() ==> final(self).validators@.no_duplicates(),
    {
        proof {
            if old(self).validators@.no_duplicates() && !old(self).validators@.contains(validator_id) {
                lemma_push_distinct(old(self).validators@, validator_id);
            }
        }
        let who = ensure_signed(origin)?;
        if who != validator_id {
            return Err(DispatchError::ValidatorSet(Error::BadOrigin));
        }
        if !list_contains(&self.approved_validators, validator_id) {
            return Err(DispatchError::ValidatorSet(Error::ValidatorNotApproved));
        }
        self.do_add_validator(validator_id)
    }
}

/// The validators that the chain starts with.
pub struct GenesisConfig {
    pub initial_validators: Vec<u64>,
}

impl GenesisConfig {
    /// Sets the initial validators as the first, approved validators.
    pub fn build(&self, pallet: &mut Pallet)
        requires
            self.initial_validators.len() >= old(pallet).min_authorities,
            self.initial_validators.len() < old(pallet).max_authorities,
            old(pallet).validators@.len() == 0,
        ensures
            same_bounds(old(pallet), final(pallet)),
            final(pallet).validators@ == self.initial_validators@,
            final(pallet).approved_validators@ == self.initial_validators@,
            final(pallet).offline_validators@ == old(pallet).offline_validators@,
            final(pallet).events@ == old(pallet).events@,
    {
        pallet.initialize_validators(&self.initial_validators);
    }
}

/// The identification of a validator: its own account.
pub struct ValidatorOf;

impl ValidatorOf {
    /// The validator identified by `account`: the account itself.
    pub fn convert(account: u64) -> (r: Option<u64>)
        ensures
            r == Some(account),
    {
        Some(account)
    }
}

} // verus!
