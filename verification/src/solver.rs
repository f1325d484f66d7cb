//! The cost model in executable form: one pass over the weeks, and within
//! each week one pass over its sessions.

use crate::allocation::{team_wf, teams, SessionAllocation, MAX_TUTORS_PER_SESSION};
use crate::cost::{
    hours_deviation_cost, minimum_hours_cost, preference_cost, spread_cost, sum_upto,
    term_floor_cost, understaffing_cost,
};
use crate::model::{Problem, Solver};
use crate::types::Availability;
use vstd::prelude::*;

verus! {

/// A list of `n` zeros.
fn zeros(n: usize) -> (list: Vec<u64>)
    ensures
        list@.len() == n,
        forall|i: int| 0 <= i < n ==> #[trigger] list@[i] == 0,
{
    let mut list: Vec<u64> = Vec::new();
    let mut i: usize = 0;
    while i < n
        invariant
            i <= n,
            list@.len() == i,
            forall|k: int| 0 <= k < i ==> #[trigger] list@[k] == 0,
        decreases n - i,
    {
        list.push(0);
        i += 1;
    }
    list
}

impl Problem {
    /// No tutor of the first `n` sessions of `week` rated their session
    /// impossible.
    pub open spec fn week_possible(self, state: Seq<Seq<u16>>, week: int, n: int) -> bool {
        forall|j: int, k: int|
            0 <= j < n && 0 <= k < state[self.week_sessions(week)[j] as int].len()
                ==> !#[trigger] self.impossible_at(state, self.week_sessions(week)[j] as int, k)
    }

    /// If no week holds an impossible assignment, the allocation holds none.
    proof fn lemma_no_impossible(self, state: Seq<Seq<u16>>)
        requires
            self.wf(),
            self.admits(state),
            forall|w: int|
                0 <= w < self.weeks.len() ==> #[trigger] self.week_possible(
                    state,
                    w,
                    self.week_sessions(w).len() as int,
                ),
        ensures
            !self.has_impossible(state),
    {
        assert forall|s: int, k: int| 0 <= s < state.len() && 0 <= k < state[s].len() implies !(
        #[trigger] self.impossible_at(state, s, k)) by {
            let session = self.sessions[s];
            assert(self.has_week(s));
            let w = choose|w: int|
                0 <= w < self.weeks.len() && (#[trigger] self.weeks[w]).week == session.week;
            assert(self.week_wf(w));
            let indexes = self.week_sessions(w);
            assert(indexes.contains(s as usize));
            let j = choose|j: int| 0 <= j < indexes.len() && indexes[j] == s as usize;
            assert(self.week_possible(state, w, indexes.len() as int));
            assert(!self.impossible_at(state, indexes[j] as int, k));
        }
    }

}

impl<'a> Solver<'a> {
    /// Scores an allocation: `None` if a tutor is assigned to a session they
    /// rated impossible or an applicant works more hours in a week than they
    /// accept, and the total of all penalties otherwise.
    pub fn eval_allocation(&self, allocations: &[SessionAllocation]) -> (r: Option<u64>)
        requires
            self@.wf(),
            self@.admits(teams(allocations@)),
        ensures
            r is Some <==> self@.feasible(teams(allocations@)),
            r matches Some(cost) ==> cost == self@.total_cost(teams(allocations@)),
            match r {
                Some(cost) => self@.cost(teams(allocations@)) == Some(cost as int),
                None => self@.cost(teams(allocations@)) is None,
            },
    {
        let ghost state = teams(allocations@);
        let applicants: usize = self.applicants.len();
        let mut total_cost: u64 = 0;
        let mut overall: Vec<u64> = zeros(applicants);
        let mut w: usize = 0;
        while w < self.weeks.len()
            invariant
                self@.wf(),
                self@.admits(state),
                state == teams(allocations@),
                applicants == self@.applicants.len(),
                w <= self@.weeks.len(),
                total_cost == sum_upto(w as nat, self@.week_cost_term(state)),
                overall@.len() == applicants,
                forall|a: int|
                    0 <= a < applicants ==> #[trigger] overall@[a] == sum_upto(
                        w as nat,
                        self@.term_hours_term(state, a),
                    ),
                forall|v: int|
                    0 <= v < w ==> #[trigger] self@.week_possible(
                        state,
                        v,
                        self@.week_sessions(v).len() as int,
                    ),
                forall|v: int, a: int|
                    0 <= v < w && 0 <= a < applicants ==> !#[trigger] self@.over_maximum(state, v, a),
            decreases self@.weeks.len() - w,
        {
            let week = &self.weeks[w];
            let sessions: usize = week.session_indexes.len();
            assert(self@.week_wf(w as int));
            let mut sessions_cost: u64 = 0;
            let mut effective: u64 = 0;
            let mut weekly: Vec<u64> = zeros(applicants);
            let mut smallest: usize = MAX_TUTORS_PER_SESSION;
            let mut largest: usize = 0;
            let mut j: usize = 0;
            while j < sessions
                invariant
                    self@.wf(),
                    self@.admits(state),
                    state == teams(allocations@),
                    applicants == self@.applicants.len(),
                    w < self@.weeks.len(),
                    self@.week_wf(w as int),
                    sessions == self@.week_sessions(w as int).len(),
                    week == self.weeks@[w as int],
                    j <= sessions,
                    sessions_cost == sum_upto(j as nat, self@.session_cost_term(state, w as int)),
                    effective == sum_upto(j as nat, self@.effective_hours_term(state, w as int)),
                    weekly@.len() == applicants,
                    forall|a: int|
                        0 <= a < applicants ==> #[trigger] weekly@[a] == sum_upto(
                            j as nat,
                            self@.weekly_hours_term(state, w as int, a),
                        ),
                    smallest == self@.smallest_team(state, w as int, j as nat),
                    largest == self@.largest_team(state, w as int, j as nat),
                    self@.week_possible(state, w as int, j as int),
                decreases sessions - j,
            {
                let session_index: usize = week.session_indexes[j];
                let allocation = &allocations[session_index];
                let session = &self.sessions[session_index];
                let length: u64 = session.length_hours as u64;
                let tutors: usize = allocation.len();
                let ghost team = state[session_index as int];
                assert(team == allocation@);
                assert(team_wf(team));
                let mut preferences: u64 = 0;
                let mut k: usize = 0;
                while k < tutors
                    invariant
                        self@.wf(),
                        self@.admits(state),
                        state == teams(allocations@),
                        applicants == self@.applicants.len(),
                        w < self@.weeks.len(),
                        self@.week_wf(w as int),
                        j < self@.week_sessions(w as int).len(),
                        session_index == self@.week_sessions(w as int)[j as int],
                        session_index < state.len(),
                        allocation == allocations@[session_index as int],
                        team == state[session_index as int],
                        team == allocation@,
                        tutors == team.len(),
                        tutors <= MAX_TUTORS_PER_SESSION,
                        length == self@.length(session_index as int),
                        k <= tutors,
                        preferences == sum_upto(
                            k as nat,
                            self@.preference_term(state, session_index as int),
                        ),
                        weekly@.len() == applicants,
                        forall|a: int|
                            0 <= a < applicants ==> #[trigger] weekly@[a] == sum_upto(
                                j as nat,
                                self@.weekly_hours_term(state, w as int, a),
                            ) + sum_upto(
                                k as nat,
                                self@.tutor_hours_term(state, session_index as int, a),
                            ),
                        self@.week_possible(state, w as int, j as int),
                        forall|i: int|
                            0 <= i < k ==> !#[trigger] self@.impossible_at(
                                state,
                                session_index as int,
                                i,
                            ),
                    decreases tutors - k,
                {
                    let applicant: usize = allocation.get(k) as usize;
                    assert(applicant == state[session_index as int][k as int]);
                    assert(self@.applicants[applicant as int] == self.applicants@[applicant as int]@);
                    let rating = self.applicants[applicant].availabilities[session_index];
                    if rating == Availability::Impossible {
                        assert(self@.impossible_at(state, session_index as int, k as int));
                        return None;
                    }
                    proof {
                        self@.lemma_preference_bounded(state, session_index as int, (k + 1) as nat);
                        self@.lemma_weekly_hours_bounded(
                            state,
                            w as int,
                            applicant as int,
                            j as nat,
                        );
                        self@.lemma_tutor_hours_bounded(
                            state,
                            session_index as int,
                            applicant as int,
                            (k + 1) as nat,
                        );
                    }
                    preferences = preferences + preference_cost(rating);
                    let hours: u64 = weekly[applicant] + length;
                    weekly.set(applicant, hours);
                    k += 1;
                }
                proof {
                    self@.lemma_session_sum_bounded(state, w as int, (j + 1) as nat);
                    self@.lemma_effective_bounded(state, w as int, (j + 1) as nat);
                    assert(length * tutors <= 1275) by (nonlinear_arith)
                        requires
                            length <= 255,
                            tutors <= 5,
                    ;
                }
                sessions_cost = sessions_cost + preferences + understaffing_cost(
                    session.min_allocation,
                    tutors,
                );
                effective = effective + length * (tutors as u64);
                if session.min_allocation.is_none() {
                    if tutors < smallest {
                        smallest = tutors;
                    }
                    if tutors > largest {
                        largest = tutors;
                    }
                }
                proof {
                    assert forall|jj: int, kk: int|
                        0 <= jj < j + 1 && 0 <= kk < state[self@.week_sessions(
                            w as int,
                        )[jj] as int].len() implies !#[trigger] self@.impossible_at(
                        state,
                        self@.week_sessions(w as int)[jj] as int,
                        kk,
                    ) by {
                        if jj < j {
                            assert(self@.week_possible(state, w as int, j as int));
                        }
                    }
                }
                j += 1;
            }
            let mut shortfalls: u64 = 0;
            let mut a: usize = 0;
            while a < applicants
                invariant
                    self@.wf(),
                    self@.admits(state),
                    state == teams(allocations@),
                    applicants == self@.applicants.len(),
                    w < self@.weeks.len(),
                    a <= applicants,
                    shortfalls == sum_upto(a as nat, self@.minimum_hours_term(state, w as int)),
                    weekly@.len() == applicants,
                    forall|i: int|
                        0 <= i < applicants ==> #[trigger] weekly@[i] == self@.weekly_hours(
                            state,
                            w as int,
                            i,
                        ),
                    overall@.len() == applicants,
                    forall|i: int|
                        0 <= i < a ==> #[trigger] overall@[i] == sum_upto(
                            (w + 1) as nat,
                            self@.term_hours_term(state, i),
                        ),
                    forall|i: int|
                        a <= i < applicants ==> #[trigger] overall@[i] == sum_upto(
                            w as nat,
                            self@.term_hours_term(state, i),
                        ),
                    forall|i: int| 0 <= i < a ==> !#[trigger] self@.over_maximum(state, w as int, i),
                decreases applicants - a,
            {
                let applicant = &self.applicants[a];
                let hours: u64 = weekly[a];
                if hours > applicant.max_hours_per_week as u64 {
                    assert(self@.over_maximum(state, w as int, a as int));
                    return None;
                }
                proof {
                    self@.lemma_minimum_hours_bounded(state, w as int, (a + 1) as nat);
                    self@.lemma_term_hours_bounded(state, a as int, (w + 1) as nat);
                }
                shortfalls = shortfalls + minimum_hours_cost(applicant.min_hours_per_week, hours);
                let total: u64 = overall[a] + hours;
                overall.set(a, total);
                a += 1;
            }
            proof {
                self@.lemma_weeks_bounded(state, (w + 1) as nat);
                self@.lemma_week_cost_bounded(state, w as int);
                self@.lemma_effective_bounded(state, w as int, sessions as nat);
                self@.lemma_team_sizes_bounded(state, w as int, sessions as nat);
            }
            let deviation: u64 = hours_deviation_cost(week.desired_total_hours, effective);
            let spread: u64 = spread_cost(smallest, largest);
            total_cost = total_cost + (sessions_cost + shortfalls + deviation + spread);
            w += 1;
        }
        let mut floors: u64 = 0;
        let mut a: usize = 0;
        while a < applicants
            invariant
                self@.wf(),
                self@.admits(state),
                applicants == self@.applicants.len(),
                a <= applicants,
                floors == sum_upto(a as nat, self@.term_floor_term(state)),
                overall@.len() == applicants,
                forall|i: int|
                    0 <= i < applicants ==> #[trigger] overall@[i] == self@.term_hours(state, i),
            decreases applicants - a,
        {
            proof {
                self@.lemma_term_floor_bounded(state, (a + 1) as nat);
            }
            floors = floors + term_floor_cost(overall[a]);
            a += 1;
        }
        proof {
            self@.lemma_total_cost_bounded(state);
            self@.lemma_no_impossible(state);
        }
        Some(total_cost + floors)
    }
}

} // verus!
