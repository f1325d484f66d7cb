//! The cost model as mathematics: what an allocation costs, and when it is
//! infeasible, stated over a problem and the teams of each session.

use crate::allocation::{team_wf, teams_wf, MAX_TUTORS_PER_SESSION};
use crate::cost::{
    hours_deviation_penalty, lemma_spread_penalty_monotonic, lemma_sum_bounded, lemma_sum_differs_at,
    lemma_three_halves_power_bound, minimum_hours_penalty, preference_penalty, spread_penalty,
    sum_upto, term_floor_penalty, understaffing_penalty,
};
use crate::types::{
    applicant_views, session_views, Applicant, ApplicantView, Availability, Session, SessionView,
    WeekNum,
};
use vstd::prelude::*;

verus! {

/// One week of the term: its number, the tutoring hours wanted in it, and the
/// sessions that fall in it, by their position in the session list.
pub struct Week {
    pub week: WeekNum,
    pub desired_total_hours: u16,
    pub session_indexes: Vec<usize>,
}

/// A week as plain values.
pub struct WeekView {
    pub week: WeekNum,
    pub desired_total_hours: u16,
    pub session_indexes: Seq<usize>,
}

impl View for Week {
    type V = WeekView;

    open spec fn view(&self) -> WeekView {
        WeekView {
            week: self.week,
            desired_total_hours: self.desired_total_hours,
            session_indexes: self.session_indexes@,
        }
    }
}

/// A problem instance: the sessions of the term, the applicants of one
/// course, and the weeks that group the sessions.
pub struct Solver<'a> {
    pub sessions: &'a [Session],
    pub applicants: &'a [Applicant],
    pub weeks: Vec<Week>,
}

/// A problem instance as plain values. The cost model and the search are
/// stated over it.
pub struct Problem {
    pub sessions: Seq<SessionView>,
    pub applicants: Seq<ApplicantView>,
    pub weeks: Seq<WeekView>,
}

impl<'a> View for Solver<'a> {
    type V = Problem;

    open spec fn view(&self) -> Problem {
        Problem {
            sessions: session_views(self.sessions@),
            applicants: applicant_views(self.applicants@),
            weeks: Seq::new(self.weeks@.len(), |w: int| self.weeks@[w]@),
        }
    }
}

/// The positions, among the first `n` sessions, of those that fall in week
/// `week`, in rising order.
pub open spec fn week_indexes(sessions: Seq<SessionView>, week: WeekNum, n: nat) -> Seq<usize>
    decreases n,
{
    if n == 0 {
        Seq::empty()
    } else {
        let before = week_indexes(sessions, week, (n - 1) as nat);
        if sessions[n - 1].week == week {
            before.push((n - 1) as usize)
        } else {
            before
        }
    }
}

/// The problem that sessions, applicants and desired hours pose: one week
/// for each entry of desired hours, in the order of the entries, with the
/// sessions that carry its number.
pub open spec fn problem_of(
    sessions: Seq<SessionView>,
    applicants: Seq<ApplicantView>,
    desired_hours: Seq<(WeekNum, u16)>,
) -> Problem {
    Problem {
        sessions,
        applicants,
        weeks: Seq::new(
            desired_hours.len(),
            |w: int|
                WeekView {
                    week: desired_hours[w].0,
                    desired_total_hours: desired_hours[w].1,
                    session_indexes: week_indexes(sessions, desired_hours[w].0, sessions.len()),
                },
        ),
    }
}

/// The largest number of sessions a problem may have. It keeps every cost
/// within 64 bits.
pub const MAX_SESSIONS: usize = 0xffff_ffff;

/// The largest number of applicants a problem may have: each is known to a
/// team by a 16-bit position.
pub const MAX_APPLICANTS: usize = 0x1_0000;

/// The week numbers that occur among the sessions.
pub open spec fn session_weeks(sessions: Seq<SessionView>) -> Set<int> {
    Set::new(|week: int| exists|i: int| 0 <= i < sessions.len() && #[trigger] sessions[i].week.0 == week)
}

/// There are as many entries of desired hours as the sessions have distinct
/// week numbers.
pub open spec fn weeks_consistent(sessions: Seq<SessionView>, desired_hours: Seq<(WeekNum, u16)>) -> bool {
    desired_hours.len() == session_weeks(sessions).len()
}

/// Desired hours are given for week number `week`.
pub open spec fn week_listed(desired_hours: Seq<(WeekNum, u16)>, week: WeekNum) -> bool {
    exists|w: int| 0 <= w < desired_hours.len() && (#[trigger] desired_hours[w]).0 == week
}

/// Every session falls in a week for which desired hours are given.
pub open spec fn weeks_cover(sessions: Seq<SessionView>, desired_hours: Seq<(WeekNum, u16)>) -> bool {
    forall|i: int| 0 <= i < sessions.len() ==> week_listed(desired_hours, (#[trigger] sessions[i]).week)
}

/// The sessions of `week` are exactly those among `sessions` with its number,
/// in rising order.
pub open spec fn week_groups(sessions: Seq<SessionView>, week: WeekView) -> bool {
    let indexes = week.session_indexes;
    &&& indexes.len() <= sessions.len()
    &&& forall|j: int| 0 <= j < indexes.len() ==> (#[trigger] indexes[j]) < sessions.len()
    &&& forall|i: int, j: int|
        0 <= i < j < indexes.len() ==> (#[trigger] indexes[i]) < (#[trigger] indexes[j])
    &&& forall|s: int|
        0 <= s < sessions.len() ==> ((#[trigger] sessions[s]).week == week.week
            <==> indexes.contains(s as usize))
}

/// Each applicant has rated every session.
pub open spec fn ratings_complete(sessions: Seq<SessionView>, applicants: Seq<ApplicantView>) -> bool {
    forall|a: int|
        0 <= a < applicants.len() ==> (#[trigger] applicants[a]).availabilities.len()
            == sessions.len()
}

impl Problem {
    /// How applicant `applicant` rated session `session`.
    pub open spec fn rating(self, applicant: int, session: int) -> Availability {
        self.applicants[applicant].availabilities[session]
    }

    /// The length of a session in hours.
    pub open spec fn length(self, session: int) -> int {
        self.sessions[session].length_hours as int
    }

    /// The sessions of a week, by position in the session list.
    pub open spec fn week_sessions(self, week: int) -> Seq<usize> {
        self.weeks[week].session_indexes
    }

    /// The sessions of week `week` are exactly those with its number, in
    /// rising order.
    pub open spec fn week_wf(self, week: int) -> bool {
        week_groups(self.sessions, self.weeks[week])
    }

    /// Session `session` falls in one of the weeks of the problem.
    pub open spec fn has_week(self, session: int) -> bool {
        exists|w: int|
            0 <= w < self.weeks.len() && (#[trigger] self.weeks[w]).week
                == self.sessions[session].week
    }

    /// The problem is one that the search accepts: it is of a size that the
    /// arithmetic can hold, every applicant has rated every session, the weeks
    /// group the sessions by week number, there are as many weeks as distinct
    /// week numbers, and no session is left without a week.
    pub open spec fn wf(self) -> bool {
        &&& self.sessions.len() <= MAX_SESSIONS
        &&& self.applicants.len() <= MAX_APPLICANTS
        &&& self.weeks.len() <= 256
        &&& ratings_complete(self.sessions, self.applicants)
        &&& forall|w: int| 0 <= w < self.weeks.len() ==> #[trigger] self.week_wf(w)
        &&& self.weeks.len() == session_weeks(self.sessions).len()
        &&& forall|s: int| 0 <= s < self.sessions.len() ==> #[trigger] self.has_week(s)
    }

    /// `state` is an allocation for this problem: one valid team for each
    /// session, made of applicants of the problem.
    pub open spec fn admits(self, state: Seq<Seq<u16>>) -> bool {
        &&& state.len() == self.sessions.len()
        &&& teams_wf(state)
        &&& forall|s: int, k: int|
            0 <= s < state.len() && 0 <= k < state[s].len() ==> (#[trigger] state[s][k])
                < self.applicants.len()
    }

    /// The hours that the tutor in position `k` of a session's team adds to
    /// the load of `applicant`: the length of the session if the tutor is that
    /// applicant.
    pub open spec fn tutor_hours_term(
        self,
        state: Seq<Seq<u16>>,
        session: int,
        applicant: int,
    ) -> spec_fn(int) -> int {
        |k: int|
            if state[session][k] as int == applicant {
                self.length(session)
            } else {
                0
            }
    }

    /// The hours that `applicant` works in `session`.
    pub open spec fn session_hours(self, state: Seq<Seq<u16>>, session: int, applicant: int) -> int {
        sum_upto(state[session].len(), self.tutor_hours_term(state, session, applicant))
    }

    pub open spec fn weekly_hours_term(
        self,
        state: Seq<Seq<u16>>,
        week: int,
        applicant: int,
    ) -> spec_fn(int) -> int {
        |j: int| self.session_hours(state, self.week_sessions(week)[j] as int, applicant)
    }

    /// The hours that `applicant` works in the sessions of `week`.
    pub open spec fn weekly_hours(self, state: Seq<Seq<u16>>, week: int, applicant: int) -> int {
        sum_upto(self.week_sessions(week).len(), self.weekly_hours_term(state, week, applicant))
    }

    pub open spec fn term_hours_term(self, state: Seq<Seq<u16>>, applicant: int) -> spec_fn(
        int,
    ) -> int {
        |w: int| self.weekly_hours(state, w, applicant)
    }

    /// The hours that `applicant` works over all the weeks.
    pub open spec fn term_hours(self, state: Seq<Seq<u16>>, applicant: int) -> int {
        sum_upto(self.weeks.len(), self.term_hours_term(state, applicant))
    }

    pub open spec fn preference_term(self, state: Seq<Seq<u16>>, session: int) -> spec_fn(
        int,
    ) -> int {
        |k: int| preference_penalty(self.rating(state[session][k] as int, session))
    }

    /// What a session adds to the cost by itself: the preference penalty of
    /// each tutor on its team, and the penalty for missing a required minimum.
    pub open spec fn session_cost(self, state: Seq<Seq<u16>>, session: int) -> int {
        sum_upto(state[session].len(), self.preference_term(state, session))
            + understaffing_penalty(
            self.sessions[session].min_allocation,
            state[session].len() as int,
        )
    }

    pub open spec fn session_cost_term(self, state: Seq<Seq<u16>>, week: int) -> spec_fn(
        int,
    ) -> int {
        |j: int| self.session_cost(state, self.week_sessions(week)[j] as int)
    }

    pub open spec fn effective_hours_term(self, state: Seq<Seq<u16>>, week: int) -> spec_fn(
        int,
    ) -> int {
        |j: int|
            self.length(self.week_sessions(week)[j] as int) * state[self.week_sessions(
                week,
            )[j] as int].len()
    }

    /// The tutoring hours of a week: each session's length times the size of
    /// its team.
    pub open spec fn effective_hours(self, state: Seq<Seq<u16>>, week: int) -> int {
        sum_upto(self.week_sessions(week).len(), self.effective_hours_term(state, week))
    }

    /// Whether a session takes part in the comparison of team sizes: it has
    /// no required minimum of its own.
    pub open spec fn counts_for_spread(self, session: int) -> bool {
        self.sessions[session].min_allocation is None
    }

    /// The size of the smallest team among the first `n` sessions of a week
    /// that count for the spread, or the capacity of a session if that is
    /// smaller.
    pub open spec fn smallest_team(self, state: Seq<Seq<u16>>, week: int, n: nat) -> int
        decreases n,
    {
        if n == 0 {
            MAX_TUTORS_PER_SESSION as int
        } else {
            let before = self.smallest_team(state, week, (n - 1) as nat);
            let session = self.week_sessions(week)[n - 1] as int;
            if self.counts_for_spread(session) && state[session].len() < before {
                state[session].len() as int
            } else {
                before
            }
        }
    }

    /// The size of the largest team among the first `n` sessions of a week
    /// that count for the spread, or 0 if there is none.
    pub open spec fn largest_team(self, state: Seq<Seq<u16>>, week: int, n: nat) -> int
        decreases n,
    {
        if n == 0 {
            0
        } else {
            let before = self.largest_team(state, week, (n - 1) as nat);
            let session = self.week_sessions(week)[n - 1] as int;
            if self.counts_for_spread(session) && state[session].len() > before {
                state[session].len() as int
            } else {
                before
            }
        }
    }

    pub open spec fn minimum_hours_term(self, state: Seq<Seq<u16>>, week: int) -> spec_fn(
        int,
    ) -> int {
        |a: int|
            minimum_hours_penalty(
                self.applicants[a].min_hours_per_week,
                self.weekly_hours(state, week, a),
            )
    }

    /// What a week adds to the cost: its sessions, the applicants kept below
    /// their weekly minimum, the distance from the hours wanted, and the
    /// spread of its team sizes.
    pub open spec fn week_cost(self, state: Seq<Seq<u16>>, week: int) -> int {
        let sessions = self.week_sessions(week).len();
        sum_upto(sessions, self.session_cost_term(state, week)) + sum_upto(
            self.applicants.len(),
            self.minimum_hours_term(state, week),
        ) + hours_deviation_penalty(
            self.weeks[week].desired_total_hours as int,
            self.effective_hours(state, week),
        ) + spread_penalty(
            self.smallest_team(state, week, sessions),
            self.largest_team(state, week, sessions),
        )
    }

    pub open spec fn week_cost_term(self, state: Seq<Seq<u16>>) -> spec_fn(int) -> int {
        |w: int| self.week_cost(state, w)
    }

    pub open spec fn term_floor_term(self, state: Seq<Seq<u16>>) -> spec_fn(int) -> int {
        |a: int| term_floor_penalty(self.term_hours(state, a))
    }

    /// The cost of an allocation: the cost of each week, and for each
    /// applicant the penalty for too few hours over the whole term.
    pub open spec fn total_cost(self, state: Seq<Seq<u16>>) -> int {
        sum_upto(self.weeks.len(), self.week_cost_term(state)) + sum_upto(
            self.applicants.len(),
            self.term_floor_term(state),
        )
    }

    /// The tutor in position `k` of `session` rated that session impossible.
    pub open spec fn impossible_at(self, state: Seq<Seq<u16>>, session: int, k: int) -> bool {
        self.rating(state[session][k] as int, session) == Availability::Impossible
    }

    /// Some tutor is assigned to a session that they rated impossible.
    pub open spec fn has_impossible(self, state: Seq<Seq<u16>>) -> bool {
        exists|s: int, k: int|
            0 <= s < state.len() && 0 <= k < state[s].len() && #[trigger] self.impossible_at(
                state,
                s,
                k,
            )
    }

    /// `applicant` works more hours in `week` than they accept.
    pub open spec fn over_maximum(self, state: Seq<Seq<u16>>, week: int, applicant: int) -> bool {
        self.weekly_hours(state, week, applicant)
            > self.applicants[applicant].max_hours_per_week
    }

    /// Some applicant works more hours in some week than they accept.
    pub open spec fn exceeds_maximum(self, state: Seq<Seq<u16>>) -> bool {
        exists|w: int, a: int|
            0 <= w < self.weeks.len() && 0 <= a < self.applicants.len()
                && #[trigger] self.over_maximum(state, w, a)
    }

    /// No hard constraint is violated.
    pub open spec fn feasible(self, state: Seq<Seq<u16>>) -> bool {
        !self.has_impossible(state) && !self.exceeds_maximum(state)
    }

    /// What the cost model says of an allocation: nothing if it is
    /// infeasible, else its cost.
    pub open spec fn cost(self, state: Seq<Seq<u16>>) -> Option<int> {
        if self.feasible(state) {
            Some(self.total_cost(state))
        } else {
            None
        }
    }

    /// An allocation in which somebody is assigned to a session that they
    /// rated impossible is infeasible: it has no cost.
    pub proof fn lemma_impossible_is_infeasible(self, state: Seq<Seq<u16>>, session: int, k: int)
        requires
            0 <= session < state.len(),
            0 <= k < state[session].len(),
            self.rating(state[session][k] as int, session) == Availability::Impossible,
        ensures
            self.cost(state) is None,
    {
        assert(self.impossible_at(state, session, k));
    }

    /// An allocation in which some applicant works more hours in some week
    /// than they accept is infeasible: it has no cost.
    pub proof fn lemma_overload_is_infeasible(self, state: Seq<Seq<u16>>, week: int, applicant: int)
        requires
            0 <= week < self.weeks.len(),
            0 <= applicant < self.applicants.len(),
            self.weekly_hours(state, week, applicant)
                > self.applicants[applicant].max_hours_per_week,
        ensures
            self.cost(state) is None,
    {
        assert(self.over_maximum(state, week, applicant));
    }

    /// The gap between the largest and the smallest team of a week, among the
    /// sessions that count for the spread.
    pub open spec fn spread_gap(self, state: Seq<Seq<u16>>, week: int) -> int {
        self.largest_team(state, week, self.week_sessions(week).len()) - self.smallest_team(
            state,
            week,
            self.week_sessions(week).len(),
        )
    }

    /// What the spread of its team sizes adds to the cost of a week: a fixed
    /// price for each tutor of the gap, once the gap is more than the
    /// tolerance.
    pub open spec fn spread_term(self, state: Seq<Seq<u16>>, week: int) -> int {
        if self.spread_gap(state, week) > 2 {
            50 * self.spread_gap(state, week)
        } else {
            0
        }
    }

    /// Of two allocations that give a week the same session costs, the same
    /// shortfalls of weekly minimums and the same tutoring hours, the one with
    /// the wider gap between its largest and its smallest team does not cost
    /// less in that week.
    pub proof fn lemma_week_cost_grows_with_spread(
        self,
        narrow: Seq<Seq<u16>>,
        wide: Seq<Seq<u16>>,
        week: int,
    )
        requires
            sum_upto(self.week_sessions(week).len(), self.session_cost_term(narrow, week))
                == sum_upto(self.week_sessions(week).len(), self.session_cost_term(wide, week)),
            sum_upto(self.applicants.len(), self.minimum_hours_term(narrow, week)) == sum_upto(
                self.applicants.len(),
                self.minimum_hours_term(wide, week),
            ),
            self.effective_hours(narrow, week) == self.effective_hours(wide, week),
            self.spread_gap(narrow, week) <= self.spread_gap(wide, week),
        ensures
            self.spread_term(narrow, week) <= self.spread_term(wide, week),
            self.week_cost(narrow, week) <= self.week_cost(wide, week),
            self.week_cost(wide, week) - self.week_cost(narrow, week) == self.spread_term(
                wide,
                week,
            ) - self.spread_term(narrow, week),
    {
        let sessions = self.week_sessions(week).len();
        lemma_spread_penalty_monotonic(
            self.smallest_team(narrow, week, sessions),
            self.largest_team(narrow, week, sessions),
            self.smallest_team(wide, week, sessions),
            self.largest_team(wide, week, sessions),
        );
    }

    /// Of two allocations that differ in cost only by the spread of one week,
    /// the one with the wider gap in that week does not cost less, and costs
    /// more by what the spread penalty of that week is higher.
    pub proof fn lemma_cost_grows_with_spread(
        self,
        narrow: Seq<Seq<u16>>,
        wide: Seq<Seq<u16>>,
        week: int,
    )
        requires
            0 <= week < self.weeks.len(),
            forall|other: int|
                0 <= other < self.weeks.len() && other != week ==> #[trigger] self.week_cost(
                    narrow,
                    other,
                ) == self.week_cost(wide, other),
            sum_upto(self.applicants.len(), self.term_floor_term(narrow)) == sum_upto(
                self.applicants.len(),
                self.term_floor_term(wide),
            ),
            sum_upto(self.week_sessions(week).len(), self.session_cost_term(narrow, week))
                == sum_upto(self.week_sessions(week).len(), self.session_cost_term(wide, week)),
            sum_upto(self.applicants.len(), self.minimum_hours_term(narrow, week)) == sum_upto(
                self.applicants.len(),
                self.minimum_hours_term(wide, week),
            ),
            self.effective_hours(narrow, week) == self.effective_hours(wide, week),
            self.spread_gap(narrow, week) <= self.spread_gap(wide, week),
        ensures
            self.total_cost(narrow) <= self.total_cost(wide),
            self.total_cost(wide) - self.total_cost(narrow) == self.spread_term(wide, week)
                - self.spread_term(narrow, week),
    {
        self.lemma_week_cost_grows_with_spread(narrow, wide, week);
        let f = self.week_cost_term(narrow);
        let g = self.week_cost_term(wide);
        assert forall|other: int| 0 <= other < self.weeks.len() && other != week implies #[trigger] f(
            other,
        ) == g(other) by {
            assert(self.week_cost(narrow, other) == self.week_cost(wide, other));
        }
        lemma_sum_differs_at(self.weeks.len(), f, g, week);
    }

    /// An upper bound on the cost of one week.
    pub open spec fn week_bound(self) -> int {
        (self.sessions.len() * 3532250 + self.applicants.len() * 335544320 + 85896724750) as int
    }

    pub proof fn lemma_preference_bounded(self, state: Seq<Seq<u16>>, session: int, k: nat)
        requires
            0 <= session < state.len(),
            k <= state[session].len(),
        ensures
            0 <= sum_upto(k, self.preference_term(state, session)) <= 100 * k,
    {
        lemma_sum_bounded(k, self.preference_term(state, session), 100);
    }

    pub proof fn lemma_tutor_hours_bounded(
        self,
        state: Seq<Seq<u16>>,
        session: int,
        applicant: int,
        k: nat,
    )
        requires
            0 <= session < state.len(),
        ensures
            0 <= sum_upto(k, self.tutor_hours_term(state, session, applicant)) <= 255 * k,
    {
        lemma_sum_bounded(k, self.tutor_hours_term(state, session, applicant), 255);
    }

    pub proof fn lemma_session_cost_bounded(self, state: Seq<Seq<u16>>, session: int)
        requires
            self.admits(state),
            0 <= session < state.len(),
        ensures
            0 <= self.session_cost(state, session) <= 3277250,
    {
        assert(team_wf(state[session]));
        self.lemma_preference_bounded(state, session, state[session].len());
    }

    pub proof fn lemma_session_hours_bounded(self, state: Seq<Seq<u16>>, session: int, applicant: int)
        requires
            self.admits(state),
            0 <= session < state.len(),
        ensures
            0 <= self.session_hours(state, session, applicant) <= 1275,
    {
        assert(team_wf(state[session]));
        self.lemma_tutor_hours_bounded(state, session, applicant, state[session].len());
    }

    pub proof fn lemma_session_sum_bounded(self, state: Seq<Seq<u16>>, week: int, j: nat)
        requires
            self.wf(),
            self.admits(state),
            0 <= week < self.weeks.len(),
            j <= self.week_sessions(week).len(),
        ensures
            0 <= sum_upto(j, self.session_cost_term(state, week)) <= j * 3277250,
    {
        assert(self.week_wf(week));
        let f = self.session_cost_term(state, week);
        assert forall|i: int| 0 <= i < j implies 0 <= #[trigger] f(i) <= 3277250 by {
            self.lemma_session_cost_bounded(state, self.week_sessions(week)[i] as int);
        }
        lemma_sum_bounded(j, f, 3277250);
    }

    pub proof fn lemma_effective_bounded(self, state: Seq<Seq<u16>>, week: int, j: nat)
        requires
            self.wf(),
            self.admits(state),
            0 <= week < self.weeks.len(),
            j <= self.week_sessions(week).len(),
        ensures
            0 <= sum_upto(j, self.effective_hours_term(state, week)) <= j * 1275,
    {
        assert(self.week_wf(week));
        let f = self.effective_hours_term(state, week);
        assert forall|i: int| 0 <= i < j implies 0 <= #[trigger] f(i) <= 1275 by {
            let session = self.week_sessions(week)[i] as int;
            assert(team_wf(state[session]));
            let length = self.length(session);
            let size = state[session].len() as int;
            assert(0 <= length * size <= 1275) by (nonlinear_arith)
                requires
                    0 <= length <= 255,
                    0 <= size <= 5,
            ;
        }
        lemma_sum_bounded(j, f, 1275);
    }

    pub proof fn lemma_weekly_hours_bounded(
        self,
        state: Seq<Seq<u16>>,
        week: int,
        applicant: int,
        j: nat,
    )
        requires
            self.wf(),
            self.admits(state),
            0 <= week < self.weeks.len(),
            j <= self.week_sessions(week).len(),
        ensures
            0 <= sum_upto(j, self.weekly_hours_term(state, week, applicant)) <= j * 1275,
    {
        assert(self.week_wf(week));
        let f = self.weekly_hours_term(state, week, applicant);
        assert forall|i: int| 0 <= i < j implies 0 <= #[trigger] f(i) <= 1275 by {
            self.lemma_session_hours_bounded(state, self.week_sessions(week)[i] as int, applicant);
        }
        lemma_sum_bounded(j, f, 1275);
    }

    pub proof fn lemma_minimum_hours_bounded(self, state: Seq<Seq<u16>>, week: int, a: nat)
        requires
            self.wf(),
            self.admits(state),
            0 <= week < self.weeks.len(),
            a <= self.applicants.len(),
        ensures
            0 <= sum_upto(a, self.minimum_hours_term(state, week)) <= a * 335544320,
    {
        let f = self.minimum_hours_term(state, week);
        assert forall|i: int| 0 <= i < a implies 0 <= #[trigger] f(i) <= 335544320 by {
            self.lemma_weekly_hours_bounded(state, week, i, self.week_sessions(week).len());
            let hours = self.weekly_hours(state, week, i);
            match self.applicants[i].min_hours_per_week {
                Some(wanted) => {
                    if hours < wanted {
                        lemma_three_halves_power_bound((wanted - hours) as nat);
                    }
                },
                None => {},
            }
        }
        lemma_sum_bounded(a, f, 335544320);
    }

    pub proof fn lemma_team_sizes_bounded(self, state: Seq<Seq<u16>>, week: int, n: nat)
        requires
            self.wf(),
            self.admits(state),
            0 <= week < self.weeks.len(),
            n <= self.week_sessions(week).len(),
        ensures
            0 <= self.smallest_team(state, week, n) <= MAX_TUTORS_PER_SESSION,
            0 <= self.largest_team(state, week, n) <= MAX_TUTORS_PER_SESSION,
        decreases n,
    {
        if n > 0 {
            self.lemma_team_sizes_bounded(state, week, (n - 1) as nat);
            assert(self.week_wf(week));
            assert(team_wf(state[self.week_sessions(week)[n - 1] as int]));
        }
    }

    pub proof fn lemma_week_cost_bounded(self, state: Seq<Seq<u16>>, week: int)
        requires
            self.wf(),
            self.admits(state),
            0 <= week < self.weeks.len(),
        ensures
            0 <= self.week_cost(state, week) <= self.week_bound(),
    {
        let sessions = self.week_sessions(week).len();
        assert(self.week_wf(week));
        self.lemma_session_sum_bounded(state, week, sessions);
        self.lemma_minimum_hours_bounded(state, week, self.applicants.len());
        self.lemma_effective_bounded(state, week, sessions);
        self.lemma_team_sizes_bounded(state, week, sessions);
        let shortfall = self.weeks[week].desired_total_hours - self.effective_hours(state, week);
        if shortfall > 0 {
            assert(0 <= shortfall * shortfall <= 0xffff * 0xffff) by (nonlinear_arith)
                requires
                    0 < shortfall <= 0xffff,
            ;
        }
    }

    pub proof fn lemma_weeks_bounded(self, state: Seq<Seq<u16>>, w: nat)
        requires
            self.wf(),
            self.admits(state),
            w <= self.weeks.len(),
        ensures
            0 <= sum_upto(w, self.week_cost_term(state)) <= 256 * self.week_bound(),
    {
        let f = self.week_cost_term(state);
        let bound = self.week_bound();
        assert forall|i: int| 0 <= i < w implies 0 <= #[trigger] f(i) <= bound by {
            self.lemma_week_cost_bounded(state, i);
        }
        lemma_sum_bounded(w, f, bound);
        assert(w * bound <= 256 * bound) by (nonlinear_arith)
            requires
                0 <= w <= 256,
                0 <= bound,
        ;
    }

    pub proof fn lemma_term_hours_bounded(self, state: Seq<Seq<u16>>, applicant: int, w: nat)
        requires
            self.wf(),
            self.admits(state),
            w <= self.weeks.len(),
        ensures
            0 <= sum_upto(w, self.term_hours_term(state, applicant)) <= 256 * (self.sessions.len()
                * 1275),
    {
        let f = self.term_hours_term(state, applicant);
        let bound = (self.sessions.len() * 1275) as int;
        assert forall|i: int| 0 <= i < w implies 0 <= #[trigger] f(i) <= bound by {
            assert(self.week_wf(i));
            self.lemma_weekly_hours_bounded(state, i, applicant, self.week_sessions(i).len());
        }
        lemma_sum_bounded(w, f, bound);
        assert(w * bound <= 256 * bound) by (nonlinear_arith)
            requires
                0 <= w <= 256,
                0 <= bound,
        ;
    }

    pub proof fn lemma_term_floor_bounded(self, state: Seq<Seq<u16>>, a: nat)
        requires
            self.wf(),
            self.admits(state),
            a <= self.applicants.len(),
        ensures
            0 <= sum_upto(a, self.term_floor_term(state)) <= a * 60,
    {
        let f = self.term_floor_term(state);
        assert forall|i: int| 0 <= i < a implies 0 <= #[trigger] f(i) <= 60 by {
            self.lemma_term_hours_bounded(state, i, self.weeks.len());
        }
        lemma_sum_bounded(a, f, 60);
    }

    /// The cost of an allocation fits in 64 bits.
    pub proof fn lemma_total_cost_bounded(self, state: Seq<Seq<u16>>)
        requires
            self.wf(),
            self.admits(state),
        ensures
            0 <= self.total_cost(state) <= u64::MAX,
    {
        self.lemma_weeks_bounded(state, self.weeks.len());
        self.lemma_term_floor_bounded(state, self.applicants.len());
    }
}

} // verus!
