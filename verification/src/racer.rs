//! Racing seeds: the same problem is searched once from each seed, the seed
//! whose run ends cheapest wins, and its allocation is published with the
//! full records of the tutors.

use crate::allocation::{team_wf, teams, SessionAllocation, MAX_TUTORS_PER_SESSION};
use crate::annealer::{functional, solve};
use crate::model::{problem_of, Problem, Solver};
use crate::types::{
    applicant_views, session_views, Applicant, ApplicantView, Availability, Course, Session,
    SessionView, WeekNum,
};
use vstd::prelude::*;

verus! {

/// The value that starts a run's random source.
pub type Seed = u64;

/// A session as published: its data and the tutors assigned to it.
#[derive(Debug)]
pub struct SolvedSession {
    pub session: Session,
    pub applicants: Vec<Applicant>,
}

/// A published session as plain values.
pub struct SolvedView {
    pub session: SessionView,
    pub applicants: Seq<ApplicantView>,
}

impl View for SolvedSession {
    type V = SolvedView;

    open spec fn view(&self) -> SolvedView {
        SolvedView { session: self.session@, applicants: applicant_views(self.applicants@) }
    }
}

/// The published sessions of a list as plain values.
pub open spec fn solved_views(solved: Seq<SolvedSession>) -> Seq<SolvedView> {
    Seq::new(solved.len(), |i: int| solved[i]@)
}

/// Those among the first `n` applicants who teach `course`, in the order of
/// the list.
pub open spec fn of_course_upto(applicants: Seq<ApplicantView>, course: Course, n: nat) -> Seq<
    ApplicantView,
>
    decreases n,
{
    if n == 0 {
        Seq::empty()
    } else {
        let before = of_course_upto(applicants, course, (n - 1) as nat);
        if applicants[n - 1].course == course {
            before.push(applicants[n - 1])
        } else {
            before
        }
    }
}

/// The applicants who teach `course`, in the order of the list.
pub open spec fn of_course(applicants: Seq<ApplicantView>, course: Course) -> Seq<ApplicantView> {
    of_course_upto(applicants, course, applicants.len())
}

/// The positions, among the first `n` applicants, of those who teach
/// `course`, in rising order.
pub open spec fn course_members(applicants: Seq<ApplicantView>, course: Course, n: nat) -> Seq<int>
    decreases n,
{
    if n == 0 {
        Seq::empty()
    } else {
        let before = course_members(applicants, course, (n - 1) as nat);
        if applicants[n - 1].course == course {
            before.push(n - 1)
        } else {
            before
        }
    }
}

/// The applicants of a course are exactly the applicants of the list who
/// teach it, each once, in the order of the list: they stand in the list at
/// the positions of the members of the course, which rise.
pub proof fn lemma_course_members(applicants: Seq<ApplicantView>, course: Course, n: nat)
    requires
        n <= applicants.len(),
    ensures
        course_members(applicants, course, n).len() == of_course_upto(applicants, course, n).len(),
        course_members(applicants, course, n).len() <= n,
        forall|i: int|
            0 <= i < course_members(applicants, course, n).len() ==> 0 <= (
            #[trigger] course_members(applicants, course, n)[i]) < n && applicants[course_members(
                applicants,
                course,
                n,
            )[i]].course == course && of_course_upto(applicants, course, n)[i]
                == applicants[course_members(applicants, course, n)[i]],
        forall|i: int, j: int|
            0 <= i < j < course_members(applicants, course, n).len() ==> (
            #[trigger] course_members(applicants, course, n)[i]) < (#[trigger] course_members(
                applicants,
                course,
                n,
            )[j]),
        forall|a: int|
            0 <= a < n && (#[trigger] applicants[a]).course == course ==> course_members(
                applicants,
                course,
                n,
            ).contains(a),
    decreases n,
{
    if n > 0 {
        lemma_course_members(applicants, course, (n - 1) as nat);
        let before = course_members(applicants, course, (n - 1) as nat);
        let all = course_members(applicants, course, n);
        let chosen_before = of_course_upto(applicants, course, (n - 1) as nat);
        let chosen = of_course_upto(applicants, course, n);
        assert forall|i: int| 0 <= i < all.len() implies 0 <= (#[trigger] all[i]) < n
            && applicants[all[i]].course == course && chosen[i] == applicants[all[i]] by {
            if i < before.len() {
                assert(all[i] == before[i]);
                assert(chosen[i] == chosen_before[i]);
            }
        }
        assert forall|i: int, j: int| 0 <= i < j < all.len() implies (#[trigger] all[i]) < (
        #[trigger] all[j]) by {
            assert(all[i] == before[i]);
            if j < before.len() {
                assert(all[j] == before[j]);
            }
        }
        assert forall|a: int|
            0 <= a < n && (#[trigger] applicants[a]).course == course implies all.contains(a) by {
            if a < n - 1 {
                let i = choose|i: int| 0 <= i < before.len() && before[i] == a;
                assert(all[i] == a);
            } else {
                assert(all[all.len() - 1] == a);
            }
        }
    }
}

/// Of a list whose applicants all teach `course`, the applicants of the
/// course are the whole list.
pub proof fn lemma_all_of_course(applicants: Seq<ApplicantView>, course: Course, n: nat)
    requires
        n <= applicants.len(),
        forall|i: int| 0 <= i < applicants.len() ==> (#[trigger] applicants[i]).course == course,
    ensures
        of_course_upto(applicants, course, n) == applicants.take(n as int),
    decreases n,
{
    if n > 0 {
        lemma_all_of_course(applicants, course, (n - 1) as nat);
        assert(applicants.take(n as int) =~= applicants.take(n - 1).push(applicants[n - 1]));
    } else {
        assert(applicants.take(0) =~= Seq::<ApplicantView>::empty());
    }
}

/// Applicants of other courses have no part in a problem: taking the
/// applicants of a course from the applicants of that course changes
/// nothing.
pub proof fn lemma_of_course_again(applicants: Seq<ApplicantView>, course: Course)
    ensures
        of_course(of_course(applicants, course), course) == of_course(applicants, course),
{
    let chosen = of_course(applicants, course);
    lemma_course_members(applicants, course, applicants.len());
    let members = course_members(applicants, course, applicants.len());
    assert forall|i: int| 0 <= i < chosen.len() implies (#[trigger] chosen[i]).course == course by {
        assert(chosen[i] == applicants[members[i]]);
    }
    lemma_all_of_course(chosen, course, chosen.len());
    assert(chosen.take(chosen.len() as int) =~= chosen);
}

/// Copies of the applicants who teach `course`, in the order of the list.
pub fn applicants_of_course(applicants: &[Applicant], course: Course) -> (r: Vec<Applicant>)
    ensures
        applicant_views(r@) == of_course(applicant_views(applicants@), course),
{
    let ghost views = applicant_views(applicants@);
    let mut list: Vec<Applicant> = Vec::new();
    let mut a: usize = 0;
    assert(applicant_views(list@) =~= of_course_upto(views, course, 0));
    while a < applicants.len()
        invariant
            views == applicant_views(applicants@),
            a <= applicants@.len(),
            applicant_views(list@) == of_course_upto(views, course, a as nat),
        decreases applicants@.len() - a,
    {
        let ghost before = applicant_views(list@);
        assert(views[a as int] == applicants@[a as int]@);
        if applicants[a].course == course {
            list.push(applicants[a].clone());
            assert(applicant_views(list@) =~= before.push(views[a as int]));
        }
        a += 1;
    }
    list
}

/// `winner` is the position of the lowest cost, and of the first such where
/// several are equally low.
pub open spec fn is_first_minimum(costs: Seq<u64>, winner: int) -> bool {
    &&& 0 <= winner < costs.len()
    &&& forall|i: int| 0 <= i < costs.len() ==> costs[winner] <= #[trigger] costs[i]
    &&& forall|i: int| 0 <= i < winner ==> costs[winner] < #[trigger] costs[i]
}

/// The seed whose run ended cheapest; among equally cheap runs, the one
/// that comes first.
pub fn best_seed(seeds: &[Seed], costs: &[u64]) -> (r: Seed)
    requires
        seeds@.len() == costs@.len(),
        seeds@.len() > 0,
    ensures
        exists|winner: int| #[trigger] is_first_minimum(costs@, winner) && r == seeds@[winner],
{
    let mut winner: usize = 0;
    let mut i: usize = 1;
    while i < costs.len()
        invariant
            seeds@.len() == costs@.len(),
            1 <= i <= costs@.len(),
            is_first_minimum(costs@.take(i as int), winner as int),
        decreases costs@.len() - i,
    {
        if costs[i] < costs[winner] {
            winner = i;
        }
        proof {
            let after = costs@.take(i + 1);
            let before = costs@.take(i as int);
            assert forall|k: int| 0 <= k < after.len() implies after[winner as int]
                <= #[trigger] after[k] by {
                if k < i {
                    assert(before[k] == after[k]);
                }
            }
            assert forall|k: int| 0 <= k < winner implies after[winner as int]
                < #[trigger] after[k] by {
                assert(before[k] == after[k]);
            }
        }
        i += 1;
    }
    assert(costs@.take(costs@.len() as int) == costs@);
    seeds[winner]
}

/// The seed to use without a race: the only one, where there is only one.
pub fn uncontested(seeds: &[Seed]) -> (r: Option<Seed>)
    requires
        seeds@.len() > 0,
    ensures
        seeds@.len() == 1 ==> r == Some(seeds@[0]),
        seeds@.len() > 1 ==> r is None,
{
    if seeds.len() > 1 {
        None
    } else {
        Some(seeds[0])
    }
}

/// What is published of an allocation: each session of the problem with the
/// records of the tutors on its team, in the order in which they were
/// assigned.
pub open spec fn published(problem: Problem, state: Seq<Seq<u16>>) -> Seq<SolvedView> {
    Seq::new(
        problem.sessions.len(),
        |s: int|
            SolvedView {
                session: problem.sessions[s],
                applicants: Seq::new(
                    state[s].len(),
                    |k: int| problem.applicants[state[s][k] as int],
                ),
            },
    )
}

/// Publishes an allocation: each session with copies of the records of its
/// tutors, in the order in which they were assigned.
pub fn solved_sessions(solver: &Solver, allocation: &[SessionAllocation]) -> (r: Vec<SolvedSession>)
    requires
        solver@.admits(teams(allocation@)),
    ensures
        solved_views(r@) == published(solver@, teams(allocation@)),
{
    let ghost state = teams(allocation@);
    let ghost wanted = published(solver@, state);
    let mut solved: Vec<SolvedSession> = Vec::new();
    let mut s: usize = 0;
    while s < allocation.len()
        invariant
            solver@.admits(state),
            state == teams(allocation@),
            wanted == published(solver@, state),
            s <= allocation@.len(),
            solved@.len() == s,
            forall|i: int| 0 <= i < s ==> (#[trigger] solved@[i])@ == wanted[i],
        decreases allocation@.len() - s,
    {
        let team = &allocation[s];
        assert(team@ == state[s as int]);
        let mut tutors: Vec<Applicant> = Vec::new();
        let mut k: usize = 0;
        while k < team.len()
            invariant
                solver@.admits(state),
                s < state.len(),
                team@ == state[s as int],
                k <= team@.len(),
                tutors@.len() == k,
                forall|i: int|
                    0 <= i < k ==> (#[trigger] tutors@[i])@ == solver@.applicants[team@[i] as int],
            decreases team@.len() - k,
        {
            let applicant: usize = team.get(k) as usize;
            assert(applicant == state[s as int][k as int]);
            assert(solver@.applicants[applicant as int] == solver.applicants@[applicant as int]@);
            tutors.push(solver.applicants[applicant].clone());
            k += 1;
        }
        assert(solver@.sessions[s as int] == solver.sessions@[s as int]@);
        assert(applicant_views(tutors@) =~= wanted[s as int].applicants);
        solved.push(SolvedSession { session: solver.sessions[s].clone(), applicants: tutors });
        s += 1;
    }
    assert(solved_views(solved@) =~= wanted);
    solved
}

/// `costs` are the costs at which runs from `seeds` ended, seed by seed.
pub open spec fn raced<F: Fn(u64, u64, u64, u64) -> (bool, u64)>(
    problem: Problem,
    seeds: Seq<Seed>,
    quick: bool,
    accept: F,
    costs: Seq<u64>,
) -> bool {
    &&& costs.len() == seeds.len()
    &&& forall|k: int|
        0 <= k < seeds.len() ==> problem.ends_at(seeds[k], quick, accept, #[trigger] costs[k])
}

/// `seed` is the seed that a race among `seeds` names: the only seed, or else
/// the first of those whose runs ended cheapest.
pub open spec fn won_by<F: Fn(u64, u64, u64, u64) -> (bool, u64)>(
    problem: Problem,
    seeds: Seq<Seed>,
    quick: bool,
    accept: F,
    seed: Seed,
) -> bool {
    &&& seeds.contains(seed)
    &&& seeds.len() == 1 ==> seed == seeds[0]
    &&& seeds.len() > 1 ==> exists|costs: Seq<u64>, winner: int|
        #![trigger is_first_minimum(costs, winner)]
        raced(problem, seeds, quick, accept, costs) && is_first_minimum(costs, winner) && seed
            == seeds[winner]
}

/// `solved` and `seed` are the solution of a term: in the problem that the
/// sessions, the applicants and the desired hours pose, `seed` is the seed
/// that a race among `seeds` names, and `solved` is what is published of the
/// allocation in which the run from that seed ends.
pub open spec fn solves<F: Fn(u64, u64, u64, u64) -> (bool, u64)>(
    sessions: Seq<SessionView>,
    applicants: Seq<ApplicantView>,
    desired_hours: Seq<(WeekNum, u16)>,
    seeds: Seq<Seed>,
    quick: bool,
    accept: F,
    solved: Seq<SolvedView>,
    seed: Seed,
) -> bool {
    let problem = problem_of(sessions, applicants, desired_hours);
    &&& won_by(problem, seeds, quick, accept, seed)
    &&& exists|cost: u64, state: Seq<Seq<u16>>|
        #![trigger problem.ends_in(seed, quick, accept, cost, state)]
        problem.admits(state) && problem.cost(state) == Some(cost as int) && problem.ends_in(
            seed,
            quick,
            accept,
            cost,
            state,
        ) && solved == published(problem, state)
}

/// The tutors published for session `session` are applicants of the list,
/// none of them twice, who teach `course` and did not rate the session
/// impossible; `team` gives their positions in the list.
pub open spec fn is_team_of(
    applicants: Seq<ApplicantView>,
    course: Course,
    tutors: Seq<ApplicantView>,
    session: int,
    team: Seq<int>,
) -> bool {
    &&& team.len() == tutors.len()
    &&& team.no_duplicates()
    &&& forall|k: int|
        0 <= k < team.len() ==> 0 <= (#[trigger] team[k]) < applicants.len()
            && applicants[team[k]].course == course && tutors[k] == applicants[team[k]]
            && applicants[team[k]].availabilities[session] != Availability::Impossible
}

/// Every published session is one of the sessions, in their order, with at
/// most as many tutors as a session can take; the tutors are applicants of
/// the list, none of them twice in a session, who teach `course` and did not
/// rate the session impossible.
pub open spec fn staffed(
    sessions: Seq<SessionView>,
    applicants: Seq<ApplicantView>,
    course: Course,
    solved: Seq<SolvedView>,
) -> bool {
    &&& solved.len() == sessions.len()
    &&& forall|s: int|
        0 <= s < solved.len() ==> (#[trigger] solved[s]).session == sessions[s]
            && solved[s].applicants.len() <= MAX_TUTORS_PER_SESSION && exists|team: Seq<int>|
            #[trigger] is_team_of(applicants, course, solved[s].applicants, s, team)
}

/// What is published of a feasible allocation of the applicants of a
/// course names only them, none twice in a session, each for a session that
/// they can work.
pub proof fn lemma_published_is_staffed(
    sessions: Seq<SessionView>,
    applicants: Seq<ApplicantView>,
    course: Course,
    desired_hours: Seq<(WeekNum, u16)>,
    state: Seq<Seq<u16>>,
)
    requires
        problem_of(sessions, of_course(applicants, course), desired_hours).admits(state),
        problem_of(sessions, of_course(applicants, course), desired_hours).cost(state) is Some,
    ensures
        staffed(
            sessions,
            applicants,
            course,
            published(problem_of(sessions, of_course(applicants, course), desired_hours), state),
        ),
{
    let chosen = of_course(applicants, course);
    let problem = problem_of(sessions, chosen, desired_hours);
    let solved = published(problem, state);
    lemma_course_members(applicants, course, applicants.len());
    let members = course_members(applicants, course, applicants.len());
    assert forall|s: int| 0 <= s < solved.len() implies (#[trigger] solved[s]).session
        == sessions[s] && solved[s].applicants.len() <= MAX_TUTORS_PER_SESSION && exists|
        team: Seq<int>,
    | #[trigger] is_team_of(applicants, course, solved[s].applicants, s, team) by {
        assert(team_wf(state[s]));
        let team = Seq::new(state[s].len(), |k: int| members[state[s][k] as int]);
        assert forall|k: int| 0 <= k < team.len() implies 0 <= (#[trigger] team[k])
            < applicants.len() && applicants[team[k]].course == course && solved[s].applicants[k]
            == applicants[team[k]] && applicants[team[k]].availabilities[s]
            != Availability::Impossible by {
            let member = state[s][k] as int;
            assert(chosen[member] == applicants[members[member]]);
            assert(!problem.impossible_at(state, s, k));
        }
        assert forall|i: int, j: int| 0 <= i < team.len() && 0 <= j < team.len() && i != j implies #[trigger] team[i]
            != #[trigger] team[j] by {
            let a = state[s][i] as int;
            let b = state[s][j] as int;
            assert(state[s][i] != state[s][j]);
            if a < b {
                assert(members[a] < members[b]);
            } else {
                assert(members[b] < members[a]);
            }
        }
        assert(is_team_of(applicants, course, solved[s].applicants, s, team));
    }
}

/// A solution of a term is staffed from the applicants of the course.
pub proof fn lemma_solution_is_staffed<F: Fn(u64, u64, u64, u64) -> (bool, u64)>(
    sessions: Seq<SessionView>,
    applicants: Seq<ApplicantView>,
    course: Course,
    desired_hours: Seq<(WeekNum, u16)>,
    seeds: Seq<Seed>,
    quick: bool,
    accept: F,
    solved: Seq<SolvedView>,
    seed: Seed,
)
    requires
        solves(
            sessions,
            of_course(applicants, course),
            desired_hours,
            seeds,
            quick,
            accept,
            solved,
            seed,
        ),
    ensures
        staffed(sessions, applicants, course, solved),
        seeds.contains(seed),
{
    let problem = problem_of(sessions, of_course(applicants, course), desired_hours);
    let (cost, state) = choose|cost: u64, state: Seq<Seq<u16>>|
        #![trigger problem.ends_in(seed, quick, accept, cost, state)]
        problem.admits(state) && problem.cost(state) == Some(cost as int) && problem.ends_in(
            seed,
            quick,
            accept,
            cost,
            state,
        ) && solved == published(problem, state);
    lemma_published_is_staffed(sessions, applicants, course, desired_hours, state);
}

/// A race names one seed: two races among the same seeds, on the same
/// problem and with the same rule, name the same seed, provided the rule
/// gives one answer to each question.
pub proof fn lemma_race_is_determined<F: Fn(u64, u64, u64, u64) -> (bool, u64)>(
    problem: Problem,
    seeds: Seq<Seed>,
    quick: bool,
    accept: F,
    first: Seed,
    second: Seed,
)
    requires
        functional(accept),
        won_by(problem, seeds, quick, accept, first),
        won_by(problem, seeds, quick, accept, second),
    ensures
        first == second,
{
    if seeds.len() > 1 {
        let (costs1, winner1) = choose|costs: Seq<u64>, winner: int|
            #![trigger is_first_minimum(costs, winner)]
            raced(problem, seeds, quick, accept, costs) && is_first_minimum(costs, winner)
                && first == seeds[winner];
        let (costs2, winner2) = choose|costs: Seq<u64>, winner: int|
            #![trigger is_first_minimum(costs, winner)]
            raced(problem, seeds, quick, accept, costs) && is_first_minimum(costs, winner)
                && second == seeds[winner];
        assert forall|k: int| 0 <= k < seeds.len() implies #[trigger] costs1[k] == costs2[k] by {
            assert(problem.ends_at(seeds[k], quick, accept, costs1[k]));
            assert(problem.ends_at(seeds[k], quick, accept, costs2[k]));
            problem.lemma_cost_is_determined(seeds[k], quick, accept, costs1[k], costs2[k]);
        }
        assert(costs1[winner1] == costs2[winner1]);
        assert(costs1[winner2] == costs2[winner2]);
        if winner1 < winner2 {
            assert(costs2[winner2] < costs2[winner1]);
            assert(costs1[winner1] <= costs1[winner2]);
        } else if winner2 < winner1 {
            assert(costs1[winner1] < costs1[winner2]);
            assert(costs2[winner2] <= costs2[winner1]);
        }
    }
}

/// The seed whose run ends strictly cheaper than the run of every other
/// seed wins the race, provided the rule gives one answer to each question.
pub proof fn lemma_cheapest_seed_wins<F: Fn(u64, u64, u64, u64) -> (bool, u64)>(
    problem: Problem,
    seeds: Seq<Seed>,
    quick: bool,
    accept: F,
    winner: Seed,
    k: int,
    cost: u64,
)
    requires
        functional(accept),
        won_by(problem, seeds, quick, accept, winner),
        0 <= k < seeds.len(),
        problem.ends_at(seeds[k], quick, accept, cost),
        forall|j: int, other: u64|
            0 <= j < seeds.len() && seeds[j] != seeds[k] && #[trigger] problem.ends_at(
                seeds[j],
                quick,
                accept,
                other,
            ) ==> cost < other,
    ensures
        winner == seeds[k],
{
    if seeds.len() > 1 {
        let (costs, first) = choose|costs: Seq<u64>, first: int|
            #![trigger is_first_minimum(costs, first)]
            raced(problem, seeds, quick, accept, costs) && is_first_minimum(costs, first)
                && winner == seeds[first];
        assert(problem.ends_at(seeds[k], quick, accept, costs[k]));
        problem.lemma_cost_is_determined(seeds[k], quick, accept, cost, costs[k]);
        assert(problem.ends_at(seeds[first], quick, accept, costs[first]));
        assert(costs[first] <= costs[k]);
    }
}

/// What is published depends on the winning seed alone: two solutions of
/// the same term with the same seed, whatever seeds it was raced against,
/// publish the same, provided the rule gives one answer to each question.
pub proof fn lemma_solution_is_determined<F: Fn(u64, u64, u64, u64) -> (bool, u64)>(
    sessions: Seq<SessionView>,
    applicants: Seq<ApplicantView>,
    desired_hours: Seq<(WeekNum, u16)>,
    first_seeds: Seq<Seed>,
    second_seeds: Seq<Seed>,
    quick: bool,
    accept: F,
    first: Seq<SolvedView>,
    second: Seq<SolvedView>,
    seed: Seed,
)
    requires
        functional(accept),
        solves(sessions, applicants, desired_hours, first_seeds, quick, accept, first, seed),
        solves(sessions, applicants, desired_hours, second_seeds, quick, accept, second, seed),
    ensures
        first == second,
{
    let problem = problem_of(sessions, applicants, desired_hours);
    let (cost1, state1) = choose|cost: u64, state: Seq<Seq<u16>>|
        #![trigger problem.ends_in(seed, quick, accept, cost, state)]
        problem.admits(state) && problem.cost(state) == Some(cost as int) && problem.ends_in(
            seed,
            quick,
            accept,
            cost,
            state,
        ) && first == published(problem, state);
    let (cost2, state2) = choose|cost: u64, state: Seq<Seq<u16>>|
        #![trigger problem.ends_in(seed, quick, accept, cost, state)]
        problem.admits(state) && problem.cost(state) == Some(cost as int) && problem.ends_in(
            seed,
            quick,
            accept,
            cost,
            state,
        ) && second == published(problem, state);
    problem.lemma_end_is_determined(seed, quick, accept, cost1, state1, cost2, state2);
}

/// Runs the search once from each seed and names the seed whose run ended
/// cheapest, the first of them where several did. A single seed wins
/// without a run.
pub fn race<F: Fn(u64, u64, u64, u64) -> (bool, u64)>(
    solver: &Solver,
    seeds: &[Seed],
    quick: bool,
    accept: &F,
) -> (r: Seed)
    requires
        solver@.wf(),
        solver@.sessions.len() > 0,
        seeds@.len() > 0,
        forall|increase: u64, step: u64, total: u64, generator: u64|
            call_requires(*accept, (increase, step, total, generator)),
    ensures
        won_by(solver@, seeds@, quick, *accept, r),
{
    match uncontested(seeds) {
        Some(seed) => seed,
        None => {
            let mut costs: Vec<u64> = Vec::new();
            let mut i: usize = 0;
            while i < seeds.len()
                invariant
                    solver@.wf(),
                    solver@.sessions.len() > 0,
                    forall|increase: u64, step: u64, total: u64, generator: u64|
                        call_requires(*accept, (increase, step, total, generator)),
                    i <= seeds@.len(),
                    costs@.len() == i,
                    forall|k: int|
                        0 <= k < i ==> solver@.ends_at(
                            seeds@[k],
                            quick,
                            *accept,
                            #[trigger] costs@[k],
                        ),
                decreases seeds@.len() - i,
            {
                let outcome = solve(solver, seeds[i], quick, accept);
                costs.push(outcome.0);
                i += 1;
            }
            assert(raced(solver@, seeds@, quick, *accept, costs@));
            best_seed(seeds, costs.as_slice())
        },
    }
}

/// Searches the problem of one course from each seed and publishes the
/// allocation of the seed whose run ended cheapest, together with that seed.
/// With a single seed there is no race. `accept` settles the moves that
/// raise the cost, as in `solve`.
pub fn solve_many_times<F: Fn(u64, u64, u64, u64) -> (bool, u64)>(
    seeds: Vec<Seed>,
    course: Course,
    applicants: &[Applicant],
    sessions: &[Session],
    desired_hours: &[(WeekNum, u16)],
    quick: bool,
    accept: &F,
) -> (r: (Vec<SolvedSession>, Seed))
    requires
        seeds@.len() > 0,
        sessions@.len() > 0,
        Problem::accepts(
            session_views(sessions@),
            of_course(applicant_views(applicants@), course),
            desired_hours@,
        ),
        forall|increase: u64, step: u64, total: u64, generator: u64|
            call_requires(*accept, (increase, step, total, generator)),
    ensures
        solves(
            session_views(sessions@),
            of_course(applicant_views(applicants@), course),
            desired_hours@,
            seeds@,
            quick,
            *accept,
            solved_views(r.0@),
            r.1,
        ),
        staffed(session_views(sessions@), applicant_views(applicants@), course, solved_views(r.0@)),
        seeds@.contains(r.1),
        seeds@.len() == 1 ==> r.1 == seeds@[0],
        r.0@.len() == sessions@.len(),
{
    let filtered = applicants_of_course(applicants, course);
    let solver = Solver::new(sessions, filtered.as_slice(), desired_hours);
    let best = race(&solver, seeds.as_slice(), quick, accept);
    let outcome = solve(&solver, best, quick, accept);
    let solved = solved_sessions(&solver, outcome.1.as_slice());
    proof {
        lemma_published_is_staffed(
            session_views(sessions@),
            applicant_views(applicants@),
            course,
            desired_hours@,
            teams(outcome.1@),
        );
    }
    (solved, best)
}

} // verus!
