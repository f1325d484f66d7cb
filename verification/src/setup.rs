//! Setting a problem up: grouping the sessions into weeks, and the checks
//! that guard the search against a malformed term.

use crate::model::{
    problem_of, ratings_complete, session_weeks, week_groups, week_indexes, week_listed,
    weeks_consistent, weeks_cover, Problem, Solver, Week, WeekView, MAX_APPLICANTS, MAX_SESSIONS,
};
use crate::types::{
    applicant_views, session_views, Applicant, ApplicantView, Session, SessionView, WeekNum,
};
use vstd::prelude::*;
use vstd::seq_lib::seq_to_set_is_finite;
use vstd::set_lib::{lemma_int_range, lemma_len_subset, set_int_range};

verus! {

/// Week numbers are bytes, so there are at most 256 of them.
pub proof fn lemma_session_weeks_bounded(sessions: Seq<SessionView>)
    ensures
        session_weeks(sessions).finite(),
        session_weeks(sessions).len() <= 256,
{
    lemma_int_range(0, 256);
    assert(session_weeks(sessions).subset_of(set_int_range(0, 256)));
    lemma_len_subset(session_weeks(sessions), set_int_range(0, 256));
}

/// One more session adds its week number to those already seen.
proof fn lemma_session_weeks_step(sessions: Seq<SessionView>, i: int)
    requires
        0 <= i < sessions.len(),
    ensures
        session_weeks(sessions.take(i + 1)) == session_weeks(sessions.take(i)).insert(
            sessions[i].week.0 as int,
        ),
{
    let before = sessions.take(i);
    let after = sessions.take(i + 1);
    assert forall|week: int|
        session_weeks(after).contains(week) <==> session_weeks(before).insert(
            sessions[i].week.0 as int,
        ).contains(week) by {
        if session_weeks(after).contains(week) {
            let k = choose|k: int| 0 <= k < after.len() && #[trigger] after[k].week.0 == week;
            if k < i {
                assert(before[k].week.0 == week);
            }
        }
        if session_weeks(before).contains(week) {
            let k = choose|k: int| 0 <= k < before.len() && #[trigger] before[k].week.0 == week;
            assert(after[k].week.0 == week);
        }
        if week == sessions[i].week.0 {
            assert(after[i].week.0 == week);
        }
    }
    assert(session_weeks(after) =~= session_weeks(before).insert(sessions[i].week.0 as int));
}

/// How many distinct week numbers the sessions have.
pub fn count_session_weeks(sessions: &[Session]) -> (count: usize)
    ensures
        count == session_weeks(session_views(sessions@)).len(),
        count <= 256,
{
    let ghost views = session_views(sessions@);
    let mut seen: Vec<bool> = Vec::new();
    let mut n: usize = 0;
    while n < 256
        invariant
            n <= 256,
            seen@.len() == n,
            forall|k: int| 0 <= k < n ==> !#[trigger] seen@[k],
        decreases 256 - n,
    {
        seen.push(false);
        n += 1;
    }
    let mut count: usize = 0;
    let mut i: usize = 0;
    proof {
        assert(session_weeks(views.take(0)) =~= Set::<int>::empty());
    }
    while i < sessions.len()
        invariant
            views == session_views(sessions@),
            i <= sessions@.len(),
            seen@.len() == 256,
            forall|week: int|
                0 <= week < 256 ==> (#[trigger] seen@[week] <==> session_weeks(
                    views.take(i as int),
                ).contains(week)),
            session_weeks(views.take(i as int)).finite(),
            count == session_weeks(views.take(i as int)).len(),
            count <= 256,
        decreases sessions@.len() - i,
    {
        let week: usize = sessions[i].week.0 as usize;
        proof {
            assert(views[i as int].week == sessions@[i as int].week);
            lemma_session_weeks_step(views, i as int);
            lemma_session_weeks_bounded(views.take(i + 1));
        }
        if !seen[week] {
            seen.set(week, true);
            count += 1;
        }
        i += 1;
    }
    assert(views.take(views.len() as int) == views);
    count
}

/// Whether every session falls in a week for which desired hours are given.
pub fn covers_sessions(sessions: &[Session], desired_hours: &[(WeekNum, u16)]) -> (r: bool)
    ensures
        r == weeks_cover(session_views(sessions@), desired_hours@),
{
    let ghost views = session_views(sessions@);
    let mut i: usize = 0;
    while i < sessions.len()
        invariant
            views == session_views(sessions@),
            i <= sessions@.len(),
            weeks_cover(views.take(i as int), desired_hours@),
        decreases sessions@.len() - i,
    {
        let week = sessions[i].week;
        assert(views[i as int].week == week);
        let mut found = false;
        let mut w: usize = 0;
        while w < desired_hours.len() && !found
            invariant
                w <= desired_hours@.len(),
                found ==> week_listed(desired_hours@, week),
                !found ==> forall|v: int| 0 <= v < w ==> (#[trigger] desired_hours@[v]).0 != week,
            decreases desired_hours@.len() - w + (if found { 0int } else { 1int }),
        {
            if desired_hours[w].0 == week {
                found = true;
            } else {
                w += 1;
            }
        }
        if !found {
            assert(!week_listed(desired_hours@, views[i as int].week));
            return false;
        }
        proof {
            let before = views.take(i as int);
            let after = views.take(i + 1);
            assert forall|s: int| 0 <= s < after.len() implies week_listed(
                desired_hours@,
                (#[trigger] after[s]).week,
            ) by {
                if s < i {
                    assert(before[s] == after[s]);
                }
            }
        }
        i += 1;
    }
    assert(views.take(views.len() as int) == views);
    true
}

/// Whether each applicant has rated every session.
pub fn ratings_are_complete(sessions: &[Session], applicants: &[Applicant]) -> (r: bool)
    ensures
        r == ratings_complete(session_views(sessions@), applicant_views(applicants@)),
{
    let ghost views = applicant_views(applicants@);
    let mut a: usize = 0;
    while a < applicants.len()
        invariant
            views == applicant_views(applicants@),
            a <= applicants@.len(),
            forall|i: int| 0 <= i < a ==> (#[trigger] views[i]).availabilities.len() == sessions@.len(),
        decreases applicants@.len() - a,
    {
        assert(views[a as int].availabilities == applicants@[a as int].availabilities@);
        if applicants[a].availabilities.len() != sessions.len() {
            return false;
        }
        a += 1;
    }
    true
}

/// The sessions of a week are exactly those among the first `n` with its
/// number, each once, in rising order.
pub proof fn lemma_week_indexes(sessions: Seq<SessionView>, week: WeekNum, n: nat)
    requires
        n <= sessions.len(),
        n <= usize::MAX,
    ensures
        week_indexes(sessions, week, n).len() <= n,
        forall|j: int|
            0 <= j < week_indexes(sessions, week, n).len() ==> (#[trigger] week_indexes(
                sessions,
                week,
                n,
            )[j]) < n,
        forall|i: int, j: int|
            0 <= i < j < week_indexes(sessions, week, n).len() ==> (#[trigger] week_indexes(
                sessions,
                week,
                n,
            )[i]) < (#[trigger] week_indexes(sessions, week, n)[j]),
        forall|s: int|
            0 <= s < n ==> ((#[trigger] sessions[s]).week == week <==> week_indexes(
                sessions,
                week,
                n,
            ).contains(s as usize)),
    decreases n,
{
    if n > 0 {
        lemma_week_indexes(sessions, week, (n - 1) as nat);
        let before = week_indexes(sessions, week, (n - 1) as nat);
        let all = week_indexes(sessions, week, n);
        assert forall|j: int| 0 <= j < all.len() implies (#[trigger] all[j]) < n by {
            if j < before.len() {
                assert(all[j] == before[j]);
            }
        }
        assert forall|i: int, j: int| 0 <= i < j < all.len() implies (#[trigger] all[i]) < (
        #[trigger] all[j]) by {
            assert(all[i] == before[i]);
            if j < before.len() {
                assert(all[j] == before[j]);
            }
        }
        assert forall|s: int| 0 <= s < n implies ((#[trigger] sessions[s]).week == week
            <==> all.contains(s as usize)) by {
            if s < n - 1 {
                if before.contains(s as usize) {
                    let j = choose|j: int| 0 <= j < before.len() && before[j] == s as usize;
                    assert(all[j] == s as usize);
                }
                if all.contains(s as usize) {
                    let j = choose|j: int| 0 <= j < all.len() && all[j] == s as usize;
                    if j < before.len() {
                        assert(before[j] == s as usize);
                    }
                }
            } else {
                if sessions[s].week == week {
                    assert(all[all.len() - 1] == s as usize);
                }
                if all.contains(s as usize) {
                    let j = choose|j: int| 0 <= j < all.len() && all[j] == s as usize;
                    if j < before.len() {
                        assert(before[j] == all[j]);
                    }
                }
            }
        }
    }
}

/// The sessions with week number `week`, by position, in rising order.
fn sessions_of_week(sessions: &[Session], week: WeekNum, desired_total_hours: u16) -> (r: Week)
    ensures
        r@ == (WeekView {
            week,
            desired_total_hours,
            session_indexes: week_indexes(session_views(sessions@), week, sessions@.len()),
        }),
        week_groups(session_views(sessions@), r@),
{
    let ghost views = session_views(sessions@);
    let mut indexes: Vec<usize> = Vec::new();
    let mut i: usize = 0;
    while i < sessions.len()
        invariant
            views == session_views(sessions@),
            i <= sessions@.len(),
            indexes@ == week_indexes(views, week, i as nat),
        decreases sessions@.len() - i,
    {
        assert(views[i as int].week == sessions@[i as int].week);
        if sessions[i].week == week {
            indexes.push(i);
        }
        i += 1;
    }
    proof {
        lemma_week_indexes(views, week, views.len());
    }
    Week { week, desired_total_hours, session_indexes: indexes }
}

impl Problem {
    /// The week numbers of the weeks of the problem, week by week.
    pub open spec fn week_numbers(self) -> Seq<int> {
        Seq::new(self.weeks.len(), |w: int| self.weeks[w].week.0 as int)
    }

    /// In a problem that the search accepts no two weeks have the same
    /// number.
    pub proof fn lemma_weeks_differ(self)
        requires
            self.wf(),
        ensures
            self.week_numbers().no_duplicates(),
    {
        let numbers = self.week_numbers();
        let listed = numbers.to_set();
        let used = session_weeks(self.sessions);
        seq_to_set_is_finite(numbers);
        assert forall|week: int| used.contains(week) implies listed.contains(week) by {
            let s = choose|s: int|
                0 <= s < self.sessions.len() && #[trigger] self.sessions[s].week.0 == week;
            assert(self.has_week(s));
            let w = choose|w: int|
                0 <= w < self.weeks.len() && (#[trigger] self.weeks[w]).week
                    == self.sessions[s].week;
            assert(numbers[w] == week);
        }
        lemma_len_subset(used, listed);
        numbers.lemma_cardinality_of_set();
        numbers.lemma_no_dup_set_cardinality();
    }

    /// In a problem that the search accepts every session belongs to exactly
    /// one week: it stands among the sessions of one week, and of no other.
    pub proof fn lemma_one_week_each(self, session: int)
        requires
            self.wf(),
            0 <= session < self.sessions.len(),
        ensures
            exists|w: int|
                0 <= w < self.weeks.len() && #[trigger] self.week_sessions(w).contains(
                    session as usize,
                ),
            forall|first: int, second: int|
                0 <= first < self.weeks.len() && 0 <= second < self.weeks.len()
                    && #[trigger] self.week_sessions(first).contains(session as usize)
                    && #[trigger] self.week_sessions(second).contains(session as usize) ==> first
                    == second,
    {
        self.lemma_weeks_differ();
        assert(self.has_week(session));
        let w = choose|w: int|
            0 <= w < self.weeks.len() && (#[trigger] self.weeks[w]).week
                == self.sessions[session].week;
        assert(self.week_wf(w));
        assert(self.week_sessions(w).contains(session as usize));
        assert forall|first: int, second: int|
            0 <= first < self.weeks.len() && 0 <= second < self.weeks.len()
                && #[trigger] self.week_sessions(first).contains(session as usize)
                && #[trigger] self.week_sessions(second).contains(
                session as usize,
            ) implies first == second by {
            assert(self.week_wf(first));
            assert(self.week_wf(second));
            assert(self.weeks[first].week == self.sessions[session].week);
            assert(self.weeks[second].week == self.sessions[session].week);
            assert(self.week_numbers()[first] == self.week_numbers()[second]);
        }
    }

    /// What a term must satisfy before it can be solved: it is of a size the
    /// arithmetic can hold, every applicant has rated every session, there
    /// are as many entries of desired hours as distinct week numbers, and
    /// every session falls in a week with desired hours.
    pub open spec fn accepts(
        sessions: Seq<SessionView>,
        applicants: Seq<ApplicantView>,
        desired_hours: Seq<(WeekNum, u16)>,
    ) -> bool {
        &&& sessions.len() <= MAX_SESSIONS
        &&& applicants.len() <= MAX_APPLICANTS
        &&& ratings_complete(sessions, applicants)
        &&& weeks_consistent(sessions, desired_hours)
        &&& weeks_cover(sessions, desired_hours)
    }

    /// The problem that an acceptable term poses is one that the search
    /// accepts.
    pub proof fn lemma_accepted(
        sessions: Seq<SessionView>,
        applicants: Seq<ApplicantView>,
        desired_hours: Seq<(WeekNum, u16)>,
    )
        requires
            Self::accepts(sessions, applicants, desired_hours),
        ensures
            problem_of(sessions, applicants, desired_hours).wf(),
    {
        let problem = problem_of(sessions, applicants, desired_hours);
        lemma_session_weeks_bounded(sessions);
        assert forall|w: int| 0 <= w < problem.weeks.len() implies #[trigger] problem.week_wf(
            w,
        ) by {
            lemma_week_indexes(sessions, desired_hours[w].0, sessions.len());
        }
        assert forall|s: int| 0 <= s < problem.sessions.len() implies #[trigger] problem.has_week(
            s,
        ) by {
            assert(week_listed(desired_hours, sessions[s].week));
            let v = choose|v: int|
                0 <= v < desired_hours.len() && (#[trigger] desired_hours[v]).0
                    == sessions[s].week;
            assert(problem.weeks[v].week == sessions[s].week);
        }
    }
}

impl<'a> Solver<'a> {
    /// Tests what `new` requires.
    pub fn can_solve(
        sessions: &[Session],
        applicants: &[Applicant],
        desired_hours: &[(WeekNum, u16)],
    ) -> (r: bool)
        ensures
            r == Problem::accepts(
                session_views(sessions@),
                applicant_views(applicants@),
                desired_hours@,
            ),
    {
        sessions.len() <= MAX_SESSIONS && applicants.len() <= MAX_APPLICANTS
            && ratings_are_complete(sessions, applicants) && desired_hours.len()
            == count_session_weeks(sessions) && covers_sessions(sessions, desired_hours)
    }

    /// Groups the sessions into one week for each entry of desired hours, in
    /// the order of the entries.
    pub fn new(
        sessions: &'a [Session],
        applicants: &'a [Applicant],
        desired_hours: &[(WeekNum, u16)],
    ) -> (solver: Solver<'a>)
        requires
            Problem::accepts(
                session_views(sessions@),
                applicant_views(applicants@),
                desired_hours@,
            ),
        ensures
            solver@ == problem_of(
                session_views(sessions@),
                applicant_views(applicants@),
                desired_hours@,
            ),
            solver@.wf(),
            solver.sessions@ == sessions@,
            solver.applicants@ == applicants@,
    {
        let ghost views = session_views(sessions@);
        let mut weeks: Vec<Week> = Vec::new();
        let mut w: usize = 0;
        while w < desired_hours.len()
            invariant
                views == session_views(sessions@),
                w <= desired_hours@.len(),
                weeks@.len() == w,
                forall|v: int|
                    0 <= v < w ==> (#[trigger] weeks@[v])@ == (WeekView {
                        week: desired_hours@[v].0,
                        desired_total_hours: desired_hours@[v].1,
                        session_indexes: week_indexes(views, desired_hours@[v].0, views.len()),
                    }) && week_groups(views, weeks@[v]@),
            decreases desired_hours@.len() - w,
        {
            let entry = desired_hours[w];
            weeks.push(sessions_of_week(sessions, entry.0, entry.1));
            w += 1;
        }
        let solver = Solver { sessions, applicants, weeks };
        proof {
            let wanted = problem_of(views, applicant_views(applicants@), desired_hours@);
            assert(solver@.weeks =~= wanted.weeks);
            assert(solver@ == wanted);
            Problem::lemma_accepted(views, applicant_views(applicants@), desired_hours@);
        }
        solver
    }
}

} // verus!
