//! The mutable state of the search: for each session, the small set of
//! applicants currently assigned to it.

use smallvec::SmallVec;
use vstd::prelude::*;

verus! {

/// No session is ever staffed by more tutors than this.
pub const MAX_TUTORS_PER_SESSION: usize = 5;

/// The applicants assigned to one session, by their position in the applicant
/// list. The tutors are kept in a `SmallVec`, inline up to the capacity of a
/// session.
#[verifier::external_body]
pub struct SessionAllocation {
    assigned: SmallVec<[u16; 5]>,
}

/// The tutors that an allocation holds, in the order in which they were
/// assigned.
pub uninterp spec fn assigned_tutors(allocation: SessionAllocation) -> Seq<u16>;

impl View for SessionAllocation {
    type V = Seq<u16>;

    open spec fn view(&self) -> Seq<u16> {
        assigned_tutors(*self)
    }
}

/// A team is valid when it respects the capacity of a session and names no
/// applicant twice.
pub open spec fn team_wf(team: Seq<u16>) -> bool {
    &&& team.len() <= MAX_TUTORS_PER_SESSION
    &&& team.no_duplicates()
}

/// The teams of a whole allocation state, session by session.
pub open spec fn teams(state: Seq<SessionAllocation>) -> Seq<Seq<u16>> {
    Seq::new(state.len(), |i: int| state[i]@)
}

/// Every team of the state is valid.
pub open spec fn teams_wf(state: Seq<Seq<u16>>) -> bool {
    forall|i: int| 0 <= i < state.len() ==> team_wf(#[trigger] state[i])
}

impl SessionAllocation {
    /// `SmallVec::new`: a vector without elements.
    #[verifier::external_body]
    fn empty() -> (r: SessionAllocation)
        ensures
            assigned_tutors(r) == Seq::<u16>::empty(),
    {
        SessionAllocation { assigned: SmallVec::new() }
    }

    /// `SmallVec::len`: the number of elements stored.
    #[verifier::external_body]
    fn count(&self) -> (r: usize)
        ensures
            r == assigned_tutors(*self).len(),
    {
        self.assigned.len()
    }

    /// Indexing a `SmallVec`, which indexes the slice of its elements.
    #[verifier::external_body]
    fn tutor_at(&self, index: usize) -> (r: u16)
        requires
            index < assigned_tutors(*self).len(),
        ensures
            r == assigned_tutors(*self)[index as int],
    {
        self.assigned[index]
    }

    /// `SmallVec::push`: the item is appended after the elements already there.
    #[verifier::external_body]
    pub(crate) fn append(&mut self, applicant: u16)
        ensures
            assigned_tutors(*final(self)) == assigned_tutors(*old(self)).push(applicant),
    {
        self.assigned.push(applicant)
    }

    /// `SmallVec::remove`: the element at `index` is returned and those after
    /// it move one place to the left.
    #[verifier::external_body]
    pub(crate) fn take_out(&mut self, index: usize) -> (r: u16)
        requires
            index < assigned_tutors(*old(self)).len(),
        ensures
            r == assigned_tutors(*old(self))[index as int],
            assigned_tutors(*final(self)) == assigned_tutors(*old(self)).remove(index as int),
    {
        self.assigned.remove(index)
    }

    /// `Clone` for `SmallVec`: a new vector with the same elements.
    #[verifier::external_body]
    fn duplicate(&self) -> (r: SessionAllocation)
        ensures
            assigned_tutors(r) == assigned_tutors(*self),
    {
        SessionAllocation { assigned: self.assigned.clone() }
    }

    /// A session to which nobody is assigned.
    pub fn new() -> (r: SessionAllocation)
        ensures
            r@ == Seq::<u16>::empty(),
    {
        SessionAllocation::empty()
    }

    /// The number of tutors assigned.
    pub fn len(&self) -> (r: usize)
        ensures
            r == self@.len(),
    {
        self.count()
    }

    /// The tutor in position `index`.
    pub fn get(&self, index: usize) -> (r: u16)
        requires
            index < self@.len(),
        ensures
            r == self@[index as int],
    {
        self.tutor_at(index)
    }

    /// Whether `applicant` is among the tutors assigned.
    pub fn contains(&self, applicant: u16) -> (r: bool)
        ensures
            r == self@.contains(applicant),
    {
        let n = self.count();
        let mut i: usize = 0;
        while i < n
            invariant
                n == self@.len(),
                i <= n,
                forall|k: int| 0 <= k < i ==> self@[k] != applicant,
            decreases n - i,
        {
            if self.tutor_at(i) == applicant {
                return true;
            }
            i += 1;
        }
        false
    }

    /// The tutors assigned, in order.
    pub fn tutors(&self) -> (r: Vec<u16>)
        ensures
            r@ == self@,
    {
        let n = self.count();
        let mut list: Vec<u16> = Vec::new();
        let mut i: usize = 0;
        while i < n
            invariant
                n == self@.len(),
                i <= n,
                list@ == self@.take(i as int),
            decreases n - i,
        {
            list.push(self.tutor_at(i));
            i += 1;
        }
        list
    }

    /// The allocation that holds exactly `tutors`, if they form a valid team:
    /// at most as many as a session can take, and nobody twice.
    pub fn from_tutors(tutors: &Vec<u16>) -> (r: Option<SessionAllocation>)
        ensures
            r is Some <==> team_wf(tutors@),
            r matches Some(allocation) ==> allocation@ == tutors@,
    {
        if tutors.len() > MAX_TUTORS_PER_SESSION {
            return None;
        }
        let mut allocation = SessionAllocation::empty();
        let mut i: usize = 0;
        while i < tutors.len()
            invariant
                i <= tutors.len(),
                allocation@ == tutors@.take(i as int),
                tutors@.take(i as int).no_duplicates(),
            decreases tutors.len() - i,
        {
            if allocation.contains(tutors[i]) {
                proof {
                    let k = choose|k: int| 0 <= k < i && tutors@.take(i as int)[k] == tutors@[i as int];
                    assert(tutors@[k] == tutors@[i as int]);
                }
                return None;
            }
            allocation.append(tutors[i]);
            proof {
                let before = tutors@.take(i as int);
                let after = tutors@.take(i + 1);
                assert(after == before.push(tutors@[i as int]));
                assert forall|a: int, b: int|
                    0 <= a < after.len() && 0 <= b < after.len() && a != b implies #[trigger] after[a]
                    != #[trigger] after[b] by {
                    if a < i && b < i {
                        assert(before[a] != before[b]);
                    } else if a == i {
                        assert(before[b] == after[b]);
                    } else {
                        assert(before[a] == after[a]);
                    }
                }
            }
            i += 1;
        }
        assert(tutors@.take(tutors.len() as int) == tutors@);
        Some(allocation)
    }
}

impl Clone for SessionAllocation {
    fn clone(&self) -> (r: SessionAllocation)
        ensures
            r@ == self@,
    {
        self.duplicate()
    }
}

/// The state in which no session has a tutor.
pub fn empty_state(sessions: usize) -> (state: Vec<SessionAllocation>)
    ensures
        state@.len() == sessions,
        forall|i: int| 0 <= i < sessions ==> (#[trigger] state@[i])@ == Seq::<u16>::empty(),
{
    let mut state: Vec<SessionAllocation> = Vec::new();
    let mut i: usize = 0;
    while i < sessions
        invariant
            i <= sessions,
            state@.len() == i,
            forall|k: int| 0 <= k < i ==> (#[trigger] state@[k])@ == Seq::<u16>::empty(),
        decreases sessions - i,
    {
        state.push(SessionAllocation::empty());
        i += 1;
    }
    state
}

/// A copy of a state: the same teams, session by session.
pub fn copy_state(state: &Vec<SessionAllocation>) -> (copy: Vec<SessionAllocation>)
    ensures
        teams(copy@) == teams(state@),
{
    let mut copy: Vec<SessionAllocation> = Vec::new();
    let mut i: usize = 0;
    while i < state.len()
        invariant
            i <= state.len(),
            copy@.len() == i,
            forall|k: int| 0 <= k < i ==> (#[trigger] copy@[k])@ == state@[k]@,
        decreases state.len() - i,
    {
        copy.push(state[i].duplicate());
        i += 1;
    }
    assert(teams(copy@) =~= teams(state@));
    copy
}

} // verus!
