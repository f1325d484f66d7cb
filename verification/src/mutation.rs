//! The one move of the search: a random session gains or loses one tutor.

use crate::allocation::{team_wf, teams, SessionAllocation, MAX_TUTORS_PER_SESSION};
use crate::model::{Problem, Solver};
use crate::random::{drawn_below, drawn_between, Generator};
use crate::types::Availability;
use vstd::prelude::*;

verus! {

/// What a move changed.
#[derive(Clone, Copy, Debug, PartialEq, Eq, Structural)]
pub enum Mutation {
    AddToSession { session: usize, applicant: u16 },
    RemoveFromSession { session: usize, applicant: u16 },
}

/// Removing one member of a team without repetitions leaves a team without
/// repetitions.
pub proof fn lemma_remove_keeps_team(team: Seq<u16>, index: int)
    requires
        team_wf(team),
        0 <= index < team.len(),
    ensures
        team_wf(team.remove(index)),
        forall|k: int| 0 <= k < team.remove(index).len() ==> team.contains(#[trigger] team.remove(index)[k]),
{
    let rest = team.remove(index);
    assert forall|a: int, b: int| 0 <= a < rest.len() && 0 <= b < rest.len() && a != b implies
        #[trigger] rest[a] != #[trigger] rest[b] by {
        let x = if a < index { a } else { a + 1 };
        let y = if b < index { b } else { b + 1 };
        assert(rest[a] == team[x]);
        assert(rest[b] == team[y]);
    }
    assert forall|k: int| 0 <= k < rest.len() implies team.contains(#[trigger] rest[k]) by {
        let x = if k < index { k } else { k + 1 };
        assert(rest[k] == team[x]);
    }
}

/// Adding somebody new to a team that has room leaves a valid team.
pub proof fn lemma_push_keeps_team(team: Seq<u16>, applicant: u16)
    requires
        team_wf(team),
        team.len() < MAX_TUTORS_PER_SESSION,
        !team.contains(applicant),
    ensures
        team_wf(team.push(applicant)),
{
    let more = team.push(applicant);
    assert forall|a: int, b: int| 0 <= a < more.len() && 0 <= b < more.len() && a != b implies
        #[trigger] more[a] != #[trigger] more[b] by {
        if a < team.len() && b < team.len() {
            assert(team[a] != team[b]);
        } else if a < team.len() {
            assert(team.contains(team[a]));
        } else {
            assert(team.contains(team[b]));
        }
    }
}

impl Problem {
    /// Whether `applicant` may join `team` in `session`: they did not rate
    /// the session impossible and are not on the team yet.
    pub open spec fn is_candidate(self, team: Seq<u16>, session: int, applicant: int) -> bool {
        self.rating(applicant, session) != Availability::Impossible && !team.contains(
            applicant as u16,
        )
    }

    /// Those among the first `n` applicants who may join `team` in `session`,
    /// in the order of the applicant list.
    pub open spec fn candidates(self, team: Seq<u16>, session: int, n: nat) -> Seq<usize>
        decreases n,
    {
        if n == 0 {
            Seq::empty()
        } else {
            let before = self.candidates(team, session, (n - 1) as nat);
            if self.is_candidate(team, session, n - 1) {
                before.push((n - 1) as usize)
            } else {
                before
            }
        }
    }

    /// What one move makes of an allocation when the generator is in state
    /// `generator`: the new allocation, the state the generator is left in,
    /// and what changed. A session is drawn, then a coin for adding or
    /// removing. To add, the session must have room and a candidate, and one
    /// candidate is drawn; to remove, it must have a tutor, and one is drawn.
    /// Where the move cannot be made the allocation stays as it is.
    pub open spec fn mutated(self, state: Seq<Seq<u16>>, generator: u64) -> (
        Seq<Seq<u16>>,
        u64,
        Option<Mutation>,
    ) {
        let first = drawn_below(generator, state.len() as u64);
        let session = first.1 as int;
        let second = drawn_between(first.0, 0, 1);
        let team = state[session];
        if second.1 == 0 {
            let candidates = self.candidates(team, session, self.applicants.len());
            if team.len() == MAX_TUTORS_PER_SESSION || candidates.len() == 0 {
                (state, second.0, None)
            } else {
                let third = drawn_below(second.0, candidates.len() as u64);
                let applicant = candidates[third.1 as int] as u16;
                (
                    state.update(session, team.push(applicant)),
                    third.0,
                    Some(Mutation::AddToSession { session: session as usize, applicant }),
                )
            }
        } else {
            if team.len() == 0 {
                (state, second.0, None)
            } else {
                let third = drawn_below(second.0, team.len() as u64);
                (
                    state.update(session, team.remove(third.1 as int)),
                    third.0,
                    Some(
                        Mutation::RemoveFromSession {
                            session: session as usize,
                            applicant: team[third.1 as int],
                        },
                    ),
                )
            }
        }
    }

    /// The candidates among the first `n` applicants are exactly those of them
    /// who may join the team, each once, in rising order.
    pub proof fn lemma_candidates(self, team: Seq<u16>, session: int, n: nat)
        requires
            n <= usize::MAX,
        ensures
            self.candidates(team, session, n).len() <= n,
            forall|i: int|
                0 <= i < self.candidates(team, session, n).len() ==> (#[trigger] self.candidates(
                    team,
                    session,
                    n,
                )[i]) < n && self.is_candidate(
                    team,
                    session,
                    self.candidates(team, session, n)[i] as int,
                ),
            forall|i: int, j: int|
                0 <= i < j < self.candidates(team, session, n).len() ==> (
                #[trigger] self.candidates(team, session, n)[i]) < (#[trigger] self.candidates(
                    team,
                    session,
                    n,
                )[j]),
            forall|a: int|
                0 <= a < n && #[trigger] self.is_candidate(team, session, a) ==> self.candidates(
                    team,
                    session,
                    n,
                ).contains(a as usize),
        decreases n,
    {
        if n > 0 {
            self.lemma_candidates(team, session, (n - 1) as nat);
            let before = self.candidates(team, session, (n - 1) as nat);
            let all = self.candidates(team, session, n);
            assert forall|i: int| 0 <= i < all.len() implies (#[trigger] all[i]) < n
                && self.is_candidate(team, session, all[i] as int) by {
                if i < before.len() {
                    assert(all[i] == before[i]);
                }
            }
            assert forall|i: int, j: int| 0 <= i < j < all.len() implies (#[trigger] all[i]) < (
            #[trigger] all[j]) by {
                assert(all[i] == before[i]);
                if j < before.len() {
                    assert(all[j] == before[j]);
                }
            }
            assert forall|a: int|
                0 <= a < n && #[trigger] self.is_candidate(team, session, a) implies all.contains(
                a as usize,
            ) by {
                if a < n - 1 {
                    let i = choose|i: int| 0 <= i < before.len() && before[i] == a as usize;
                    assert(all[i] == a as usize);
                } else {
                    assert(all[all.len() - 1] == a as usize);
                }
            }
        }
    }

}

impl<'a> Solver<'a> {
    /// The applicants who may join the team of `session`, in the order of
    /// the applicant list.
    pub fn possible_applicants(&self, allocation: &SessionAllocation, session: usize) -> (r: Vec<
        usize,
    >)
        requires
            self@.wf(),
            session < self@.sessions.len(),
        ensures
            r@ == self@.candidates(allocation@, session as int, self@.applicants.len()),
    {
        let mut list: Vec<usize> = Vec::new();
        let mut a: usize = 0;
        while a < self.applicants.len()
            invariant
                self@.wf(),
                session < self@.sessions.len(),
                a <= self@.applicants.len(),
                list@ == self@.candidates(allocation@, session as int, a as nat),
            decreases self@.applicants.len() - a,
        {
            assert(self@.applicants[a as int] == self.applicants@[a as int]@);
            let rating = self.applicants[a].availabilities[session];
            if rating != Availability::Impossible && !allocation.contains(a as u16) {
                list.push(a);
            }
            a += 1;
        }
        list
    }

    /// Puts `applicant` on the team of `session`, after those already there.
    pub fn add_to_session(
        &self,
        allocations: &mut Vec<SessionAllocation>,
        session: usize,
        applicant: u16,
    )
        requires
            self@.admits(teams(old(allocations)@)),
            session < old(allocations)@.len(),
            old(allocations)@[session as int]@.len() < MAX_TUTORS_PER_SESSION,
            applicant < self@.applicants.len(),
            !old(allocations)@[session as int]@.contains(applicant),
        ensures
            teams(final(allocations)@) == teams(old(allocations)@).update(
                session as int,
                old(allocations)@[session as int]@.push(applicant),
            ),
            self@.admits(teams(final(allocations)@)),
    {
        let ghost before = teams(allocations@);
        let ghost team = before[session as int];
        assert(team_wf(team));
        allocations[session].append(applicant);
        proof {
            lemma_push_keeps_team(team, applicant);
            let after = teams(allocations@);
            assert(after =~= before.update(session as int, team.push(applicant)));
            assert forall|s: int, k: int| 0 <= s < after.len() && 0 <= k < after[s].len() implies (
            #[trigger] after[s][k]) < self@.applicants.len() by {
                if s != session || k < team.len() {
                    assert(after[s][k] == before[s][k]);
                }
            }
        }
    }

    /// Takes the tutor in position `position` off the team of `session`; the
    /// tutors after them move up.
    pub fn remove_from_session(
        &self,
        allocations: &mut Vec<SessionAllocation>,
        session: usize,
        position: usize,
    ) -> (applicant: u16)
        requires
            self@.admits(teams(old(allocations)@)),
            session < old(allocations)@.len(),
            position < old(allocations)@[session as int]@.len(),
        ensures
            applicant == old(allocations)@[session as int]@[position as int],
            teams(final(allocations)@) == teams(old(allocations)@).update(
                session as int,
                old(allocations)@[session as int]@.remove(position as int),
            ),
            self@.admits(teams(final(allocations)@)),
    {
        let ghost before = teams(allocations@);
        let ghost team = before[session as int];
        assert(team_wf(team));
        let applicant: u16 = allocations[session].take_out(position);
        proof {
            lemma_remove_keeps_team(team, position as int);
            let after = teams(allocations@);
            assert(after =~= before.update(session as int, team.remove(position as int)));
            assert forall|s: int, k: int| 0 <= s < after.len() && 0 <= k < after[s].len() implies (
            #[trigger] after[s][k]) < self@.applicants.len() by {
                if s != session {
                    assert(after[s][k] == before[s][k]);
                } else {
                    let x = choose|x: int| 0 <= x < team.len() && team[x] == after[s][k];
                    assert(before[s][x] == after[s][k]);
                }
            }
        }
        applicant
    }

    /// Makes one random move on `allocations`, in place, and tells what
    /// changed; `None` where the move that was drawn cannot be made, in which
    /// case nothing changed. No session ever gets more tutors than it can
    /// take, or the same tutor twice.
    pub fn mutate_allocation(
        &self,
        allocations: &mut Vec<SessionAllocation>,
        generator: &mut Generator,
    ) -> (r: Option<Mutation>)
        requires
            self@.wf(),
            self@.admits(teams(old(allocations)@)),
            old(allocations)@.len() > 0,
        ensures
            (teams(final(allocations)@), final(generator).state, r) == self@.mutated(
                teams(old(allocations)@),
                old(generator).state,
            ),
            self@.admits(teams(final(allocations)@)),
            match r {
                Some(Mutation::AddToSession { session, applicant }) => {
                    &&& session < old(allocations)@.len()
                    &&& old(allocations)@[session as int]@.len() < MAX_TUTORS_PER_SESSION
                    &&& applicant < self@.applicants.len()
                    &&& self@.is_candidate(
                        old(allocations)@[session as int]@,
                        session as int,
                        applicant as int,
                    )
                    &&& teams(final(allocations)@) == teams(old(allocations)@).update(
                        session as int,
                        old(allocations)@[session as int]@.push(applicant),
                    )
                },
                Some(Mutation::RemoveFromSession { session, applicant }) => {
                    &&& session < old(allocations)@.len()
                    &&& exists|position: int|
                        0 <= position < old(allocations)@[session as int]@.len()
                            && applicant == old(allocations)@[session as int]@[position] && teams(
                            final(allocations)@,
                        ) == teams(old(allocations)@).update(
                            session as int,
                            #[trigger] old(allocations)@[session as int]@.remove(position),
                        )
                },
                None => teams(final(allocations)@) == teams(old(allocations)@),
            },
    {
        let ghost before = teams(allocations@);
        let session_index: usize = generator.below(allocations.len());
        let action: u8 = generator.between(0, 1);
        let ghost team = before[session_index as int];
        assert(team == allocations@[session_index as int]@);
        if action == 0 {
            if allocations[session_index].len() == MAX_TUTORS_PER_SESSION {
                return None;
            }
            let all_possible_applicants = self.possible_applicants(
                &allocations[session_index],
                session_index,
            );
            if all_possible_applicants.len() == 0 {
                return None;
            }
            proof {
                self@.lemma_candidates(team, session_index as int, self@.applicants.len());
                assert(team_wf(team));
            }
            let pick: usize = generator.below(all_possible_applicants.len());
            let applicant: u16 = all_possible_applicants[pick] as u16;
            assert(self@.is_candidate(team, session_index as int, applicant as int));
            self.add_to_session(allocations, session_index, applicant);
            Some(Mutation::AddToSession { session: session_index, applicant })
        } else {
            let tutors: usize = allocations[session_index].len();
            if tutors == 0 {
                return None;
            }
            let pick: usize = generator.below(tutors);
            let applicant: u16 = self.remove_from_session(allocations, session_index, pick);
            assert(teams(allocations@) == before.update(
                session_index as int,
                team.remove(pick as int),
            ));
            Some(Mutation::RemoveFromSession { session: session_index, applicant })
        }
    }
}

} // verus!
