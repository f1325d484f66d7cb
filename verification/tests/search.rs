use help_sessions::allocation::{copy_state, empty_state, SessionAllocation, MAX_TUTORS_PER_SESSION};
use help_sessions::annealer::{solve, Annealer, Proposal, FULL_STEPS, QUICK_STEPS};
use help_sessions::cost::{
    hours_deviation_cost, minimum_hours_cost, preference_cost, spread_cost, term_floor_cost,
    three_halves, understaffing_cost,
};
use help_sessions::model::Solver;
use help_sessions::mutation::Mutation;
use help_sessions::racer::{
    applicants_of_course, best_seed, race, solve_many_times, solved_sessions, uncontested,
};
use help_sessions::random::Generator;
use help_sessions::setup::{count_session_weeks, covers_sessions, ratings_are_complete};
use help_sessions::types::{Applicant, Availability, Course, Day, Session, Venue, WeekNum};

fn session(id: usize, week: u8, length: u8, minimum: Option<u16>) -> Session {
    Session {
        id,
        day: Day::Mon,
        week: WeekNum(week),
        venue: Venue::FaceToFace,
        time_24hr: 10,
        length_hours: length,
        location: String::from("Brass Lab"),
        min_allocation: minimum,
    }
}

fn applicant(id: u32, ratings: Vec<Availability>, max: u16, min: Option<u16>) -> Applicant {
    Applicant {
        id,
        email: format!("z{id}@ad.unsw.edu.au"),
        name: format!("Tutor {id}"),
        zid: format!("z{id}"),
        course: Course::Comp1511,
        max_hours_per_week: max,
        availabilities: ratings,
        min_hours_per_week: min,
    }
}

fn team(tutors: &[u16]) -> SessionAllocation {
    SessionAllocation::from_tutors(&tutors.to_vec()).unwrap()
}

/// The rule of the search for moves that raise the cost: kept with a
/// probability that falls with the increase and with the step.
fn by_temperature(increase: u64, step: u64, total: u64, state: u64) -> (bool, u64) {
    let mut rng = fastrand::Rng::with_seed(state);
    let temperature = 1.5 * (total as f32) / (step as f32);
    let accept_prob = (-(increase as f32) / temperature).exp();
    let keep = rng.f32() < accept_prob;
    (keep, rng.get_seed())
}

fn never(_increase: u64, _step: u64, _total: u64, state: u64) -> (bool, u64) {
    (false, state)
}

fn two_by_two() -> (Vec<Session>, Vec<Applicant>, Vec<(WeekNum, u16)>) {
    let sessions = vec![session(0, 1, 6, Some(1)), session(1, 1, 6, Some(1))];
    let applicants = vec![
        applicant(0, vec![Availability::Preferred, Availability::Preferred], 10, None),
        applicant(1, vec![Availability::Preferred, Availability::Preferred], 10, None),
    ];
    (sessions, applicants, vec![(WeekNum(1), 12)])
}

#[test]
fn two_sessions_two_tutors_end_at_no_cost() {
    let (sessions, applicants, desired) = two_by_two();
    assert!(Solver::can_solve(&sessions, &applicants, &desired));
    let solver = Solver::new(&sessions, &applicants, &desired);
    let (cost, allocation) = solve(&solver, 15, true, &by_temperature);
    assert_eq!(cost, 0);
    assert_eq!(allocation.len(), 2);
    assert_eq!(allocation[0].len(), 1);
    assert_eq!(allocation[1].len(), 1);
    assert_ne!(allocation[0].get(0), allocation[1].get(0));
    assert_eq!(solver.eval_allocation(&allocation), Some(0));
}

#[test]
fn published_solution_staffs_both_sessions() {
    let (sessions, applicants, desired) = two_by_two();
    let (solved, seed) = solve_many_times(
        vec![1, 25, 2, 31],
        Course::Comp1511,
        &applicants,
        &sessions,
        &desired,
        true,
        &by_temperature,
    );
    assert_eq!(seed, 25);
    assert_eq!(solved.len(), 2);
    assert_eq!(solved[0].session.id, 0);
    assert_eq!(solved[1].session.id, 1);
    assert_eq!(solved[0].applicants.len(), 1);
    assert_eq!(solved[1].applicants.len(), 1);
    assert_ne!(solved[0].applicants[0].id, solved[1].applicants[0].id);
}

#[test]
fn session_short_of_its_minimum_by_two_costs_a_hundred() {
    assert_eq!(understaffing_cost(Some(3), 1), 100);
    assert_eq!(understaffing_cost(Some(3), 3), 0);
    assert_eq!(understaffing_cost(Some(3), 4), 0);
    assert_eq!(understaffing_cost(None, 0), 0);
    let sessions = vec![session(0, 1, 6, Some(3))];
    let applicants = vec![applicant(0, vec![Availability::Preferred], 10, None)];
    let desired = vec![(WeekNum(1), 6)];
    let solver = Solver::new(&sessions, &applicants, &desired);
    assert_eq!(solver.eval_allocation(&[team(&[0])]), Some(100));
}

#[test]
fn empty_allocation_pays_for_missing_hours_and_floors() {
    let (sessions, applicants, desired) = two_by_two();
    let solver = Solver::new(&sessions, &applicants, &desired);
    let nobody = empty_state(2);
    // two sessions short of one tutor, twelve hours missing, two applicants
    // without any hours
    assert_eq!(solver.eval_allocation(&nobody), Some(2 * 50 + 20 * 144 + 2 * 60));
}

#[test]
fn impossible_assignment_is_infeasible() {
    let sessions = vec![session(0, 1, 2, None), session(1, 1, 2, None)];
    let applicants = vec![
        applicant(0, vec![Availability::Possible, Availability::Impossible], 10, None),
        applicant(1, vec![Availability::Dislike, Availability::Preferred], 10, None),
    ];
    let desired = vec![(WeekNum(1), 4)];
    let solver = Solver::new(&sessions, &applicants, &desired);
    assert_eq!(solver.eval_allocation(&[team(&[0]), team(&[0])]), None);
    assert_eq!(solver.eval_allocation(&[team(&[1]), team(&[1, 0])]), None);
    // possible 5, disliked 100, preferred 0; hours on target; floors 10 * 4 each
    assert_eq!(solver.eval_allocation(&[team(&[0, 1]), team(&[])]), Some(5 + 100 + 40 + 40));
    assert_eq!(solver.eval_allocation(&[team(&[0]), team(&[1])]), Some(5 + 40 + 40));
}

#[test]
fn hours_above_the_weekly_maximum_are_infeasible() {
    let sessions = vec![session(0, 1, 3, None), session(1, 1, 3, None), session(2, 2, 3, None)];
    let all = vec![Availability::Preferred; 3];
    let applicants = vec![applicant(0, all.clone(), 5, None), applicant(1, all, 6, None)];
    let desired = vec![(WeekNum(1), 6), (WeekNum(2), 3)];
    let solver = Solver::new(&sessions, &applicants, &desired);
    // applicant 0 would work six hours in week 1
    assert_eq!(solver.eval_allocation(&[team(&[0]), team(&[0]), team(&[])]), None);
    // applicant 1 may; week 2 is three hours short; applicant 0 has no hours
    assert_eq!(
        solver.eval_allocation(&[team(&[1]), team(&[1]), team(&[])]),
        Some(20 * 9 + 60)
    );
    // three hours in each week are within the maximum of five
    assert_eq!(
        solver.eval_allocation(&[team(&[0]), team(&[1]), team(&[0])]),
        Some(10 * 3)
    );
}

#[test]
fn evaluating_twice_gives_the_same_cost() {
    let (sessions, applicants, desired) = two_by_two();
    let solver = Solver::new(&sessions, &applicants, &desired);
    let state = vec![team(&[0, 1]), team(&[1])];
    let first = solver.eval_allocation(&state);
    let second = solver.eval_allocation(&state);
    assert_eq!(first, second);
    // six hours above the target, and applicant 1 at twelve hours a week
    assert_eq!(first, None);
    let state = vec![team(&[0, 1]), team(&[])];
    assert_eq!(solver.eval_allocation(&state), solver.eval_allocation(&state));
    assert_eq!(solver.eval_allocation(&state), Some(50));
}

#[test]
fn spread_of_team_sizes() {
    assert_eq!(spread_cost(1, 3), 0);
    assert_eq!(spread_cost(1, 4), 150);
    assert_eq!(spread_cost(1, 5), 200);
    assert_eq!(spread_cost(2, 5), 150);
    assert_eq!(spread_cost(5, 0), 0);
    assert!(spread_cost(1, 4) <= spread_cost(1, 5));
    let sessions = vec![session(0, 1, 1, None), session(1, 1, 1, None), session(2, 1, 1, None)];
    let all = vec![Availability::Preferred; 3];
    let applicants: Vec<Applicant> =
        (0..5).map(|id| applicant(id, all.clone(), 10, None)).collect();
    let desired = vec![(WeekNum(1), 5)];
    let solver = Solver::new(&sessions, &applicants, &desired);
    // teams of 4, 1 and none: the gap is 4; every applicant is below the floor
    let floors = 5 * 10 * (6 - 1);
    assert_eq!(
        solver.eval_allocation(&[team(&[0, 1, 2, 3]), team(&[4]), team(&[])]),
        Some(200 + floors)
    );
    // teams of 3, 2 and none: the gap is 3
    assert_eq!(
        solver.eval_allocation(&[team(&[0, 1, 2]), team(&[3, 4]), team(&[])]),
        Some(150 + floors)
    );
    // teams of 2, 2 and 1: no spread penalty
    assert_eq!(
        solver.eval_allocation(&[team(&[0, 1]), team(&[2, 3]), team(&[4])]),
        Some(floors)
    );
}

#[test]
fn session_without_tutors_counts_for_the_spread() {
    let sessions = vec![session(0, 1, 2, None), session(1, 1, 2, None)];
    let both = vec![Availability::Preferred; 2];
    let applicants: Vec<Applicant> =
        (0..3).map(|id| applicant(id, both.clone(), 10, None)).collect();
    let desired = vec![(WeekNum(1), 6)];
    let solver = Solver::new(&sessions, &applicants, &desired);
    // teams of 3 and none: 50 for each tutor of the gap, and three applicants
    // four hours below the floor
    assert_eq!(solver.eval_allocation(&[team(&[0, 1, 2]), team(&[])]), Some(150 + 120));
    // teams of 2 and none: within the tolerance; two hours missing
    assert_eq!(
        solver.eval_allocation(&[team(&[0, 1]), team(&[])]),
        Some(20 * 4 + 40 + 40 + 60)
    );
}

#[test]
fn wider_gap_never_costs_less() {
    let sessions = vec![session(0, 1, 2, None), session(1, 1, 0, None)];
    let both = vec![Availability::Preferred; 2];
    let applicants: Vec<Applicant> =
        (0..5).map(|id| applicant(id, both.clone(), 10, None)).collect();
    let desired = vec![(WeekNum(1), 8)];
    let solver = Solver::new(&sessions, &applicants, &desired);
    // the second session has no length, so only the spread tells the two apart
    let narrow = solver.eval_allocation(&[team(&[0, 1, 2, 3]), team(&[4])]);
    let wide = solver.eval_allocation(&[team(&[0, 1, 2, 3]), team(&[])]);
    assert_eq!(narrow, Some(150 + 4 * 40 + 60));
    assert_eq!(wide, Some(200 + 4 * 40 + 60));
    assert!(narrow <= wide);
    // a session with a minimum of its own stays out of the comparison
    let sessions = vec![session(0, 1, 2, None), session(1, 1, 0, Some(0))];
    let solver = Solver::new(&sessions, &applicants, &desired);
    assert_eq!(
        solver.eval_allocation(&[team(&[0, 1, 2, 3]), team(&[])]),
        Some(4 * 40 + 60)
    );
}

#[test]
fn penalty_terms_have_their_values() {
    assert_eq!(preference_cost(Availability::Dislike), 100);
    assert_eq!(preference_cost(Availability::Possible), 5);
    assert_eq!(preference_cost(Availability::Preferred), 0);
    assert_eq!(three_halves(0), 0);
    assert_eq!(three_halves(1), 1);
    assert_eq!(three_halves(2), 2);
    assert_eq!(three_halves(3), 5);
    assert_eq!(three_halves(4), 8);
    assert_eq!(three_halves(10), 31);
    assert_eq!(three_halves(65535), 16776832);
    assert_eq!(minimum_hours_cost(Some(4), 0), 160);
    assert_eq!(minimum_hours_cost(Some(4), 1), 100);
    assert_eq!(minimum_hours_cost(Some(4), 4), 0);
    assert_eq!(minimum_hours_cost(Some(4), 9), 0);
    assert_eq!(minimum_hours_cost(None, 0), 0);
    assert_eq!(hours_deviation_cost(10, 7), 180);
    assert_eq!(hours_deviation_cost(10, 10), 0);
    assert_eq!(hours_deviation_cost(10, 13), 600);
    assert_eq!(term_floor_cost(0), 60);
    assert_eq!(term_floor_cost(5), 10);
    assert_eq!(term_floor_cost(6), 0);
    assert_eq!(term_floor_cost(40), 0);
}

#[test]
fn weekly_minimum_shortfall_is_charged_each_week() {
    let sessions = vec![session(0, 1, 2, None), session(1, 2, 2, None)];
    let both = vec![Availability::Preferred; 2];
    let applicants = vec![applicant(0, both, 10, Some(3))];
    let desired = vec![(WeekNum(1), 2), (WeekNum(2), 2)];
    let solver = Solver::new(&sessions, &applicants, &desired);
    // week 1: one hour short of the minimum; week 2: three hours short and
    // two tutoring hours missing; four hours below the floor of the term
    assert_eq!(
        solver.eval_allocation(&[team(&[0]), team(&[])]),
        Some(20 + 20 * 5 + 20 * 4 + 10 * 4)
    );
}

#[test]
fn mutation_keeps_teams_small_and_without_repeats() {
    let sessions = vec![session(0, 1, 1, None), session(1, 1, 1, None)];
    let mut applicants: Vec<Applicant> = (0..8)
        .map(|id| applicant(id, vec![Availability::Preferred, Availability::Possible], 10, None))
        .collect();
    applicants[3].availabilities[0] = Availability::Impossible;
    let desired = vec![(WeekNum(1), 4)];
    let solver = Solver::new(&sessions, &applicants, &desired);
    let mut state = empty_state(2);
    let mut generator = Generator::with_seed(42);
    let mut added = 0;
    let mut removed = 0;
    let mut skipped = 0;
    for _ in 0..5000 {
        let before = copy_state(&state);
        match solver.mutate_allocation(&mut state, &mut generator) {
            Some(Mutation::AddToSession { session, applicant }) => {
                added += 1;
                assert_eq!(state[session].len(), before[session].len() + 1);
                assert!(!before[session].contains(applicant));
                assert_eq!(state[session].get(state[session].len() - 1), applicant);
                assert!(!(session == 0 && applicant == 3));
            }
            Some(Mutation::RemoveFromSession { session, applicant }) => {
                removed += 1;
                assert_eq!(state[session].len() + 1, before[session].len());
                assert!(before[session].contains(applicant));
                assert!(!state[session].contains(applicant));
            }
            None => {
                skipped += 1;
                assert_eq!(state[0].tutors(), before[0].tutors());
                assert_eq!(state[1].tutors(), before[1].tutors());
            }
        }
        for allocation in &state {
            let tutors = allocation.tutors();
            assert!(tutors.len() <= MAX_TUTORS_PER_SESSION);
            for (i, tutor) in tutors.iter().enumerate() {
                assert!((*tutor as usize) < applicants.len());
                assert!(!tutors[..i].contains(tutor));
            }
        }
    }
    assert!(added > 0 && removed > 0 && skipped > 0);
}

#[test]
fn generator_follows_fastrand() {
    let mut generator = Generator::with_seed(7);
    let mut rng = fastrand::Rng::with_seed(7);
    for bound in 1..200usize {
        assert_eq!(generator.below(bound), rng.usize(..bound));
        assert_eq!(generator.between(0, 1), rng.u8(0..=1));
        assert_eq!(generator.state, rng.get_seed());
    }
    let mut again = Generator::with_seed(7);
    assert_ne!(again.below(1000), 1000);
    assert_ne!(again.state, 7);
}

#[test]
fn same_seed_same_run() {
    let sessions: Vec<Session> =
        (0..6).map(|id| session(id, 1 + (id as u8) / 3, 2, None)).collect();
    let ratings = vec![
        Availability::Preferred,
        Availability::Possible,
        Availability::Dislike,
        Availability::Impossible,
        Availability::Preferred,
        Availability::Possible,
    ];
    let applicants: Vec<Applicant> = (0..4)
        .map(|id| {
            let mut mine = ratings.clone();
            mine.rotate_left(id as usize);
            applicant(id, mine, 4, Some(2))
        })
        .collect();
    let desired = vec![(WeekNum(1), 8), (WeekNum(2), 8)];
    let solver = Solver::new(&sessions, &applicants, &desired);
    let (first_cost, first) = solve(&solver, 99, true, &by_temperature);
    let (second_cost, second) = solve(&solver, 99, true, &by_temperature);
    assert_eq!(first_cost, second_cost);
    for (a, b) in first.iter().zip(second.iter()) {
        assert_eq!(a.tutors(), b.tutors());
    }
    assert_eq!(solver.eval_allocation(&first), Some(first_cost));
}

#[test]
fn annealer_steps_through_its_budget() {
    let (sessions, applicants, desired) = two_by_two();
    let solver = Solver::new(&sessions, &applicants, &desired);
    let mut annealer = Annealer::new(&solver, 5, true);
    assert_eq!(annealer.total_steps, QUICK_STEPS);
    assert_eq!(annealer.accepted_cost, 3100);
    assert_eq!(Annealer::new(&solver, 5, false).total_steps, FULL_STEPS);
    let mut steps = 0;
    while !annealer.finished() {
        let cost_before = annealer.accepted_cost;
        match annealer.propose(&solver) {
            Proposal::Undecided { increase } => {
                assert_eq!(annealer.pending, Some(cost_before + increase));
                assert!(increase > 0);
                annealer.settle(steps % 2 == 0, annealer.generator);
                if steps % 2 == 0 {
                    assert_eq!(annealer.accepted_cost, cost_before + increase);
                } else {
                    assert_eq!(annealer.accepted_cost, cost_before);
                }
            }
            Proposal::Accepted => assert!(annealer.accepted_cost <= cost_before),
            Proposal::Infeasible | Proposal::Skipped => {
                assert_eq!(annealer.accepted_cost, cost_before)
            }
        }
        assert_eq!(annealer.pending, None);
        assert_eq!(
            solver.eval_allocation(&annealer.accepted),
            Some(annealer.accepted_cost)
        );
        steps += 1;
        assert_eq!(annealer.step, steps);
    }
    assert_eq!(steps, QUICK_STEPS);
}

#[test]
fn greedy_run_never_gets_worse() {
    let (sessions, applicants, desired) = two_by_two();
    let solver = Solver::new(&sessions, &applicants, &desired);
    let (cost, allocation) = solve(&solver, 11, true, &never);
    assert!(cost <= 3100);
    assert_eq!(solver.eval_allocation(&allocation), Some(cost));
}

#[test]
fn cheapest_seed_wins_and_the_first_of_equals() {
    assert_eq!(best_seed(&[5, 7, 11], &[40, 10, 25]), 7);
    assert_eq!(best_seed(&[5, 7, 11], &[10, 10, 10]), 5);
    assert_eq!(best_seed(&[5, 7, 11], &[30, 20, 20]), 7);
    assert_eq!(best_seed(&[5, 7, 11], &[30, 20, 0]), 11);
    assert_eq!(best_seed(&[9], &[1234]), 9);
}

#[test]
fn race_returns_the_seed_of_the_cheapest_run() {
    let sessions: Vec<Session> = (0..4).map(|id| session(id, 1, 3, None)).collect();
    let applicants: Vec<Applicant> = (0..3)
        .map(|id| {
            applicant(
                id,
                vec![
                    Availability::Dislike,
                    Availability::Possible,
                    Availability::Preferred,
                    Availability::Possible,
                ],
                9,
                Some(3),
            )
        })
        .collect();
    let desired = vec![(WeekNum(1), 30)];
    let solver = Solver::new(&sessions, &applicants, &desired);
    let seeds = [5, 7, 11];
    let costs: Vec<u64> =
        seeds.iter().map(|seed| solve(&solver, *seed, true, &by_temperature).0).collect();
    let winner = race(&solver, &seeds, true, &by_temperature);
    assert_eq!(winner, best_seed(&seeds, &costs));
    let lowest = *costs.iter().min().unwrap();
    let position = seeds.iter().position(|seed| *seed == winner).unwrap();
    assert_eq!(costs[position], lowest);
    assert!(costs[..position].iter().all(|cost| *cost > lowest));
    let (solved, seed) = solve_many_times(
        seeds.to_vec(),
        Course::Comp1511,
        &applicants,
        &sessions,
        &desired,
        true,
        &by_temperature,
    );
    assert_eq!(seed, winner);
    let (_, alone) = solve(&solver, winner, true, &by_temperature);
    for (published, allocation) in solved.iter().zip(alone.iter()) {
        let ids: Vec<u32> = published.applicants.iter().map(|a| a.id).collect();
        let expected: Vec<u32> = allocation.tutors().iter().map(|a| *a as u32).collect();
        assert_eq!(ids, expected);
    }
}

#[test]
fn single_seed_is_used_without_a_race() {
    assert_eq!(uncontested(&[17]), Some(17));
    assert_eq!(uncontested(&[17, 4]), None);
    assert_eq!(uncontested(&[17, 17]), None);
    let (sessions, applicants, desired) = two_by_two();
    let solver = Solver::new(&sessions, &applicants, &desired);
    assert_eq!(race(&solver, &[17], true, &by_temperature), 17);
    let (solved, seed) = solve_many_times(
        vec![17],
        Course::Comp1511,
        &applicants,
        &sessions,
        &desired,
        true,
        &by_temperature,
    );
    assert_eq!(seed, 17);
    let (_, alone) = solve(&solver, 17, true, &by_temperature);
    for (published, allocation) in solved.iter().zip(alone.iter()) {
        let ids: Vec<u32> = published.applicants.iter().map(|a| a.id).collect();
        let expected: Vec<u32> = allocation.tutors().iter().map(|a| *a as u32).collect();
        assert_eq!(ids, expected);
    }
}

#[test]
fn only_applicants_of_the_course_are_considered() {
    let sessions = vec![session(0, 1, 6, None)];
    let mut applicants = vec![
        applicant(10, vec![Availability::Preferred], 10, None),
        applicant(11, vec![Availability::Preferred], 10, None),
        applicant(12, vec![Availability::Preferred], 10, None),
    ];
    applicants[0].course = Course::Comp2521;
    applicants[2].course = Course::Comp1521;
    let chosen = applicants_of_course(&applicants, Course::Comp1511);
    assert_eq!(chosen.len(), 1);
    assert_eq!(chosen[0].id, 11);
    assert_eq!(chosen[0].email, "z11@ad.unsw.edu.au");
    assert_eq!(applicants_of_course(&applicants, Course::Comp1521)[0].id, 12);
    let desired = vec![(WeekNum(1), 6)];
    let (solved, _) = solve_many_times(
        vec![2],
        Course::Comp1511,
        &applicants,
        &sessions,
        &desired,
        true,
        &by_temperature,
    );
    assert_eq!(solved.len(), 1);
    assert_eq!(solved[0].applicants.len(), 1);
    assert_eq!(solved[0].applicants[0].id, 11);
    assert_eq!(solved[0].applicants[0].name, "Tutor 11");
}

#[test]
fn solved_sessions_carry_full_records() {
    let (sessions, applicants, desired) = two_by_two();
    let solver = Solver::new(&sessions, &applicants, &desired);
    let solved = solved_sessions(&solver, &[team(&[1, 0]), team(&[])]);
    assert_eq!(solved.len(), 2);
    assert_eq!(solved[0].session.location, "Brass Lab");
    assert_eq!(solved[0].applicants.len(), 2);
    assert_eq!(solved[0].applicants[0].zid, "z1");
    assert_eq!(solved[0].applicants[1].zid, "z0");
    assert_eq!(solved[0].applicants[1].availabilities, applicants[0].availabilities);
    assert!(solved[1].applicants.is_empty());
}

#[test]
fn teams_are_built_only_from_valid_lists() {
    assert!(SessionAllocation::from_tutors(&vec![1, 2, 3, 4, 5]).is_some());
    assert!(SessionAllocation::from_tutors(&vec![1, 2, 3, 4, 5, 6]).is_none());
    assert!(SessionAllocation::from_tutors(&vec![1, 2, 1]).is_none());
    let allocation = team(&[4, 9]);
    assert_eq!(allocation.len(), 2);
    assert_eq!(allocation.get(1), 9);
    assert!(allocation.contains(4));
    assert!(!allocation.contains(5));
    assert_eq!(allocation.clone().tutors(), vec![4, 9]);
    assert_eq!(SessionAllocation::new().len(), 0);
}

#[test]
fn setup_checks_the_term() {
    let sessions = vec![session(0, 1, 1, None), session(1, 3, 1, None), session(2, 1, 1, None)];
    assert_eq!(count_session_weeks(&sessions), 2);
    assert_eq!(count_session_weeks(&[]), 0);
    assert!(covers_sessions(&sessions, &[(WeekNum(3), 1), (WeekNum(1), 2)]));
    assert!(!covers_sessions(&sessions, &[(WeekNum(3), 1), (WeekNum(2), 2)]));
    let rated = vec![applicant(0, vec![Availability::Possible; 3], 5, None)];
    let unrated = vec![applicant(0, vec![Availability::Possible; 2], 5, None)];
    assert!(ratings_are_complete(&sessions, &rated));
    assert!(!ratings_are_complete(&sessions, &unrated));
    assert!(Solver::can_solve(&sessions, &rated, &[(WeekNum(1), 2), (WeekNum(3), 1)]));
    assert!(!Solver::can_solve(&sessions, &rated, &[(WeekNum(1), 2)]));
    assert!(!Solver::can_solve(&sessions, &rated, &[(WeekNum(1), 2), (WeekNum(2), 1)]));
    assert!(!Solver::can_solve(&sessions, &unrated, &[(WeekNum(1), 2), (WeekNum(3), 1)]));
    let solver = Solver::new(&sessions, &rated, &[(WeekNum(3), 4), (WeekNum(1), 2)]);
    assert_eq!(solver.weeks.len(), 2);
    assert_eq!(solver.weeks[0].session_indexes, vec![1]);
    assert_eq!(solver.weeks[0].desired_total_hours, 4);
    assert_eq!(solver.weeks[1].session_indexes, vec![0, 2]);
}

#[test]
fn candidates_and_single_moves() {
    let sessions = vec![session(0, 1, 1, None), session(1, 1, 1, None)];
    let mut applicants: Vec<Applicant> = (0..6)
        .map(|id| applicant(id, vec![Availability::Preferred, Availability::Possible], 10, None))
        .collect();
    applicants[1].availabilities[0] = Availability::Impossible;
    applicants[4].availabilities[0] = Availability::Impossible;
    applicants[5].availabilities[1] = Availability::Impossible;
    let desired = vec![(WeekNum(1), 4)];
    let solver = Solver::new(&sessions, &applicants, &desired);
    let mut state = vec![team(&[3]), team(&[0, 1, 2, 3, 4])];
    assert_eq!(solver.possible_applicants(&state[0], 0), vec![0, 2, 5]);
    assert_eq!(solver.possible_applicants(&state[1], 1), Vec::<usize>::new());
    assert_eq!(solver.possible_applicants(&SessionAllocation::new(), 1), vec![0, 1, 2, 3, 4]);
    solver.add_to_session(&mut state, 0, 5);
    assert_eq!(state[0].tutors(), vec![3, 5]);
    assert_eq!(state[1].tutors(), vec![0, 1, 2, 3, 4]);
    assert_eq!(solver.remove_from_session(&mut state, 1, 1), 1);
    assert_eq!(state[1].tutors(), vec![0, 2, 3, 4]);
    assert_eq!(solver.remove_from_session(&mut state, 1, 3), 4);
    assert_eq!(state[1].tutors(), vec![0, 2, 3]);
    assert_eq!(solver.remove_from_session(&mut state, 0, 0), 3);
    assert_eq!(state[0].tutors(), vec![5]);
}

#[test]
fn working_copy_is_judged_against_the_accepted_allocation() {
    let sessions = vec![session(0, 1, 6, Some(1)), session(1, 1, 6, Some(1))];
    let applicants = vec![
        applicant(0, vec![Availability::Preferred, Availability::Impossible], 10, None),
        applicant(1, vec![Availability::Dislike, Availability::Preferred], 10, None),
    ];
    let desired = vec![(WeekNum(1), 12)];
    let solver = Solver::new(&sessions, &applicants, &desired);
    let mut annealer = Annealer::new(&solver, 1, true);
    assert_eq!(annealer.accepted_cost, 3100);
    // cheaper: accepted
    annealer.candidate = vec![team(&[0]), team(&[])];
    assert_eq!(annealer.consider(&solver), Proposal::Accepted);
    assert_eq!(annealer.accepted_cost, 50 + 20 * 36 + 60);
    assert_eq!(annealer.accepted[0].tutors(), vec![0]);
    assert_eq!(annealer.pending, None);
    // impossible for applicant 0: given up
    annealer.candidate = vec![team(&[0]), team(&[0])];
    assert_eq!(annealer.consider(&solver), Proposal::Infeasible);
    assert_eq!(annealer.candidate[1].tutors(), Vec::<u16>::new());
    assert_eq!(annealer.accepted_cost, 830);
    // twelve hours in one week for applicant 1: given up
    annealer.candidate = vec![team(&[0, 1]), team(&[1])];
    assert_eq!(annealer.consider(&solver), Proposal::Infeasible);
    assert_eq!(annealer.candidate[0].tutors(), vec![0]);
    // dearer: waits; kept when settled so
    annealer.candidate = vec![team(&[1]), team(&[])];
    assert_eq!(annealer.consider(&solver), Proposal::Undecided { increase: 100 });
    assert_eq!(annealer.pending, Some(930));
    assert_eq!(annealer.accepted_cost, 830);
    annealer.settle(true, Generator::with_seed(77));
    assert_eq!(annealer.accepted_cost, 930);
    assert_eq!(annealer.accepted[0].tutors(), vec![1]);
    assert_eq!(annealer.generator.state, 77);
    assert_eq!(annealer.pending, None);
    // equally dear: accepted
    annealer.candidate = vec![team(&[1]), team(&[])];
    assert_eq!(annealer.consider(&solver), Proposal::Accepted);
    // dearer: waits; given up when settled so
    annealer.candidate = vec![team(&[]), team(&[])];
    assert_eq!(annealer.consider(&solver), Proposal::Undecided { increase: 3100 - 930 });
    annealer.settle(false, Generator::with_seed(78));
    assert_eq!(annealer.accepted_cost, 930);
    assert_eq!(annealer.candidate[0].tutors(), vec![1]);
    assert_eq!(annealer.generator.state, 78);
    // the best there is
    annealer.candidate = vec![team(&[0]), team(&[1])];
    assert_eq!(annealer.consider(&solver), Proposal::Accepted);
    assert_eq!(annealer.accepted_cost, 0);
    assert_eq!(annealer.into_result().0, 0);
}

#[test]
fn applicants_of_other_courses_change_nothing() {
    let sessions: Vec<Session> = (0..4).map(|id| session(id, 1 + (id as u8) / 2, 3, None)).collect();
    let ratings = vec![
        Availability::Preferred,
        Availability::Possible,
        Availability::Dislike,
        Availability::Preferred,
    ];
    let mut applicants: Vec<Applicant> = (0..6)
        .map(|id| {
            let mut mine = ratings.clone();
            mine.rotate_left(id as usize % 4);
            applicant(id, mine, 6, None)
        })
        .collect();
    applicants[0].course = Course::Comp2521;
    applicants[3].course = Course::Comp1521;
    applicants[3].availabilities = vec![Availability::Impossible; 4];
    let desired = vec![(WeekNum(1), 9), (WeekNum(2), 9)];
    let chosen = applicants_of_course(&applicants, Course::Comp1511);
    let ids: Vec<u32> = chosen.iter().map(|a| a.id).collect();
    assert_eq!(ids, vec![1, 2, 4, 5]);
    assert_eq!(applicants_of_course(&chosen, Course::Comp1511).len(), 4);
    let (mixed, mixed_seed) = solve_many_times(
        vec![4, 9],
        Course::Comp1511,
        &applicants,
        &sessions,
        &desired,
        true,
        &by_temperature,
    );
    let (alone, alone_seed) = solve_many_times(
        vec![4, 9],
        Course::Comp1511,
        &chosen,
        &sessions,
        &desired,
        true,
        &by_temperature,
    );
    assert_eq!(mixed_seed, alone_seed);
    for (a, b) in mixed.iter().zip(alone.iter()) {
        let left: Vec<u32> = a.applicants.iter().map(|x| x.id).collect();
        let right: Vec<u32> = b.applicants.iter().map(|x| x.id).collect();
        assert_eq!(left, right);
        assert!(left.iter().all(|id| [1, 2, 4, 5].contains(id)));
        for (i, id) in left.iter().enumerate() {
            assert!(!left[..i].contains(id));
        }
        assert_eq!(a.session.id, b.session.id);
    }
}
