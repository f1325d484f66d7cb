//! One run of the search, as a machine that is stepped from outside. A step
//! proposes a move and settles it by itself unless the move is feasible but
//! worse: then the caller decides, by the temperature of the step, whether
//! the move is kept.

use crate::allocation::{copy_state, empty_state, teams, SessionAllocation};
use crate::cost::lemma_sum_zero;
use crate::model::{Problem, Solver};
use crate::random::Generator;
use vstd::prelude::*;

verus! {

/// The number of steps of a normal run.
pub const FULL_STEPS: u64 = 8_000_000;

/// The number of steps of a quick, approximate run.
pub const QUICK_STEPS: u64 = 30_000;

/// What a step came to.
#[derive(Clone, Copy, Debug, PartialEq, Eq, Structural)]
pub enum Proposal {
    /// The move that was drawn could not be made: nothing changed.
    Skipped,
    /// The move broke a hard constraint and was undone.
    Infeasible,
    /// The move did not raise the cost and was kept.
    Accepted,
    /// The move raised the cost by `increase`, and waits to be settled.
    Undecided { increase: u64 },
}

/// A run in progress.
pub struct Annealer {
    /// The allocation accepted last.
    pub accepted: Vec<SessionAllocation>,
    /// Its cost.
    pub accepted_cost: u64,
    /// The working copy, on which moves are tried.
    pub candidate: Vec<SessionAllocation>,
    /// The cost of the working copy, while it waits to be settled.
    pub pending: Option<u64>,
    /// The number of steps taken.
    pub step: u64,
    /// The number of steps of the whole run.
    pub total_steps: u64,
    /// The random source of the run.
    pub generator: Generator,
}

/// A run in progress, as plain values.
pub struct Run {
    pub accepted: Seq<Seq<u16>>,
    pub accepted_cost: u64,
    pub candidate: Seq<Seq<u16>>,
    pub pending: Option<u64>,
    pub step: u64,
    pub total_steps: u64,
    pub generator: u64,
}

impl View for Annealer {
    type V = Run;

    open spec fn view(&self) -> Run {
        Run {
            accepted: teams(self.accepted@),
            accepted_cost: self.accepted_cost,
            candidate: teams(self.candidate@),
            pending: self.pending,
            step: self.step,
            total_steps: self.total_steps,
            generator: self.generator.state,
        }
    }
}

/// The allocation of `sessions` sessions in which nobody is assigned.
pub open spec fn nobody(sessions: nat) -> Seq<Seq<u16>> {
    Seq::new(sessions, |i: int| Seq::<u16>::empty())
}

/// The number of steps of a run.
pub open spec fn budget(quick: bool) -> u64 {
    if quick {
        QUICK_STEPS
    } else {
        FULL_STEPS
    }
}

impl Problem {
    /// The run is in a state that the search can be in: both allocations are
    /// for this problem, the accepted one is feasible and has the cost on
    /// record, and the working copy either equals it or is feasible, dearer,
    /// and waiting to be settled.
    pub open spec fn runs(self, run: Run) -> bool {
        &&& self.admits(run.accepted)
        &&& self.admits(run.candidate)
        &&& self.cost(run.accepted) == Some(run.accepted_cost as int)
        &&& run.step <= run.total_steps
        &&& match run.pending {
            Some(cost) => cost > run.accepted_cost && self.cost(run.candidate) == Some(cost as int),
            None => run.candidate == run.accepted,
        }
    }

    /// Where a run with seed `seed` starts: nobody is assigned anywhere.
    pub open spec fn started(self, seed: u64, quick: bool) -> Run {
        Run {
            accepted: nobody(self.sessions.len()),
            accepted_cost: self.total_cost(nobody(self.sessions.len())) as u64,
            candidate: nobody(self.sessions.len()),
            pending: None,
            step: 0,
            total_steps: budget(quick),
            generator: seed,
        }
    }

    /// What judging the working copy makes of a run. An infeasible copy is
    /// given up for the accepted allocation. A copy that costs no more than
    /// the accepted allocation takes its place. A dearer copy stays, waiting
    /// to be settled.
    pub open spec fn considered(self, run: Run) -> (Run, Proposal) {
        match self.cost(run.candidate) {
            None => (Run { candidate: run.accepted, ..run }, Proposal::Infeasible),
            Some(cost) => if cost <= run.accepted_cost {
                (
                    Run { accepted: run.candidate, accepted_cost: cost as u64, ..run },
                    Proposal::Accepted,
                )
            } else {
                (
                    Run { pending: Some(cost as u64), ..run },
                    Proposal::Undecided { increase: (cost - run.accepted_cost) as u64 },
                )
            },
        }
    }

    /// What one step makes of a run, and what it came to. A move is made on
    /// the working copy. If none could be made, nothing but the step count and
    /// the generator changes; else the working copy is judged.
    pub open spec fn proposed(self, run: Run) -> (Run, Proposal) {
        let moved = self.mutated(run.candidate, run.generator);
        let next = Run {
            candidate: moved.0,
            step: (run.step + 1) as u64,
            generator: moved.1,
            ..run
        };
        if moved.2 is None {
            (next, Proposal::Skipped)
        } else {
            self.considered(next)
        }
    }

    /// The allocation without tutors is feasible: nobody works an impossible
    /// session, and nobody works at all.
    pub proof fn lemma_nobody_feasible(self)
        requires
            self.wf(),
        ensures
            self.admits(nobody(self.sessions.len())),
            self.feasible(nobody(self.sessions.len())),
    {
        let state = nobody(self.sessions.len());
        assert forall|w: int, a: int|
            0 <= w < self.weeks.len() && 0 <= a < self.applicants.len() implies !#[trigger] self.over_maximum(
            state,
            w,
            a,
        ) by {
            assert(self.week_wf(w));
            lemma_sum_zero(self.week_sessions(w).len(), self.weekly_hours_term(state, w, a));
        }
    }
}

/// What settling makes of a run whose working copy waits: if the move is
/// accepted the working copy becomes the accepted allocation, otherwise it is
/// given up. The generator goes on from `generator`, the state in which the
/// draw that decided left it.
pub open spec fn settled(run: Run, accept: bool, generator: u64) -> Run {
    if accept {
        Run {
            accepted: run.candidate,
            accepted_cost: run.pending->Some_0,
            pending: None,
            generator,
            ..run
        }
    } else {
        Run { candidate: run.accepted, pending: None, generator, ..run }
    }
}

impl Annealer {
    /// Starts a run from the empty allocation.
    pub fn new(solver: &Solver, seed: u64, quick: bool) -> (annealer: Annealer)
        requires
            solver@.wf(),
        ensures
            annealer@ == solver@.started(seed, quick),
            solver@.runs(annealer@),
    {
        let accepted = empty_state(solver.sessions.len());
        let candidate = empty_state(solver.sessions.len());
        proof {
            solver@.lemma_nobody_feasible();
            assert(teams(accepted@) =~= nobody(solver@.sessions.len()));
            assert(teams(candidate@) =~= nobody(solver@.sessions.len()));
        }
        let accepted_cost = match solver.eval_allocation(accepted.as_slice()) {
            Some(cost) => cost,
            None => 0,
        };
        Annealer {
            accepted,
            accepted_cost,
            candidate,
            pending: None,
            step: 0,
            total_steps: if quick {
                QUICK_STEPS
            } else {
                FULL_STEPS
            },
            generator: Generator::with_seed(seed),
        }
    }

    /// Whether the run has used up its steps.
    pub fn finished(&self) -> (r: bool)
        ensures
            r == (self@.step >= self@.total_steps),
    {
        self.step >= self.total_steps
    }

    /// Judges the working copy against the accepted allocation: gives it up
    /// if it is infeasible, accepts it if it costs no more, and leaves it
    /// waiting if it costs more.
    pub fn consider(&mut self, solver: &Solver) -> (r: Proposal)
        requires
            solver@.wf(),
            solver@.admits(old(self)@.accepted),
            solver@.admits(old(self)@.candidate),
            solver@.cost(old(self)@.accepted) == Some(old(self)@.accepted_cost as int),
            old(self)@.step <= old(self)@.total_steps,
            old(self)@.pending is None,
        ensures
            (final(self)@, r) == solver@.considered(old(self)@),
            solver@.runs(final(self)@),
            r is Undecided <==> final(self)@.pending is Some,
            r !is Skipped,
    {
        match solver.eval_allocation(self.candidate.as_slice()) {
            None => {
                self.candidate = copy_state(&self.accepted);
                Proposal::Infeasible
            },
            Some(cost) => {
                if cost <= self.accepted_cost {
                    self.accepted = copy_state(&self.candidate);
                    self.accepted_cost = cost;
                    Proposal::Accepted
                } else {
                    self.pending = Some(cost);
                    Proposal::Undecided { increase: cost - self.accepted_cost }
                }
            },
        }
    }

    /// Takes one step: makes a random move on the working copy and, if one
    /// could be made, judges the copy.
    pub fn propose(&mut self, solver: &Solver) -> (r: Proposal)
        requires
            solver@.wf(),
            solver@.sessions.len() > 0,
            solver@.runs(old(self)@),
            old(self)@.pending is None,
            old(self)@.step < old(self)@.total_steps,
        ensures
            (final(self)@, r) == solver@.proposed(old(self)@),
            solver@.runs(final(self)@),
            r is Undecided <==> final(self)@.pending is Some,
    {
        self.step = self.step + 1;
        let mutation = solver.mutate_allocation(&mut self.candidate, &mut self.generator);
        if mutation.is_none() {
            return Proposal::Skipped;
        }
        self.consider(solver)
    }

    /// Settles the move that waits: keeps it if `accept`, gives it up
    /// otherwise. `generator` is the random source as the decision left it.
    pub fn settle(&mut self, accept: bool, generator: Generator)
        requires
            old(self)@.pending is Some,
        ensures
            final(self)@ == settled(old(self)@, accept, generator.state),
    {
        if accept {
            self.accepted = copy_state(&self.candidate);
            self.accepted_cost = match self.pending {
                Some(cost) => cost,
                None => self.accepted_cost,
            };
        } else {
            self.candidate = copy_state(&self.accepted);
        }
        self.pending = None;
        self.generator = generator;
    }

    /// The result of the run: the cost and the allocation accepted last.
    pub fn into_result(self) -> (r: (u64, Vec<SessionAllocation>))
        ensures
            r.0 == self@.accepted_cost,
            teams(r.1@) == self@.accepted,
    {
        (self.accepted_cost, self.accepted)
    }
}

/// Settling keeps a run in a state that the search can be in.
pub proof fn lemma_settled_runs(problem: Problem, run: Run, accept: bool, generator: u64)
    requires
        problem.runs(run),
        run.pending is Some,
    ensures
        problem.runs(settled(run, accept, generator)),
{
}

/// The rule gives the same answer whenever it is asked the same question.
pub open spec fn functional<F: Fn(u64, u64, u64, u64) -> (bool, u64)>(accept: F) -> bool {
    forall|question: (u64, u64, u64, u64), first: (bool, u64), second: (bool, u64)|
        #![trigger call_ensures(accept, question, first), call_ensures(accept, question, second)]
        call_ensures(accept, question, first) && call_ensures(accept, question, second) ==> first
            == second
}

impl Problem {
    /// `to` is what one whole step makes of `from` when dearer moves are
    /// settled by `accept`: the step as proposed, and, where the move was
    /// dearer, settled as `accept` answered when it was given the increase,
    /// the number of the step, the number of steps of the run and the state
    /// of the generator.
    pub open spec fn steps_to<F: Fn(u64, u64, u64, u64) -> (bool, u64)>(
        self,
        accept: F,
        from: Run,
        to: Run,
    ) -> bool {
        let proposal = self.proposed(from);
        match proposal.1 {
            Proposal::Undecided { increase } => exists|keep: bool, generator: u64|
                #![trigger settled(proposal.0, keep, generator)]
                call_ensures(
                    accept,
                    (increase, proposal.0.step, proposal.0.total_steps, proposal.0.generator),
                    (keep, generator),
                ) && to == settled(proposal.0, keep, generator),
            _ => to == proposal.0,
        }
    }

    /// `trace` is the course of a run with seed `seed` in which dearer moves
    /// are settled by `accept`, from its start, state by state.
    pub open spec fn is_trace<F: Fn(u64, u64, u64, u64) -> (bool, u64)>(
        self,
        seed: u64,
        quick: bool,
        accept: F,
        trace: Seq<Run>,
    ) -> bool {
        &&& trace.len() > 0
        &&& trace[0] == self.started(seed, quick)
        &&& forall|i: int|
            0 < i < trace.len() ==> #[trigger] self.steps_to(accept, trace[i - 1], trace[i])
    }

    /// A run with seed `seed`, taken to the end of its budget, ends with an
    /// accepted allocation of cost `cost`.
    pub open spec fn ends_at<F: Fn(u64, u64, u64, u64) -> (bool, u64)>(
        self,
        seed: u64,
        quick: bool,
        accept: F,
        cost: u64,
    ) -> bool {
        exists|trace: Seq<Run>|
            #![trigger self.is_trace(seed, quick, accept, trace)]
            self.is_trace(seed, quick, accept, trace) && trace.len() == budget(quick) + 1
                && trace.last().accepted_cost == cost
    }

    /// A run with seed `seed`, taken to the end of its budget, ends with
    /// `state` as its accepted allocation, at cost `cost`.
    pub open spec fn ends_in<F: Fn(u64, u64, u64, u64) -> (bool, u64)>(
        self,
        seed: u64,
        quick: bool,
        accept: F,
        cost: u64,
        state: Seq<Seq<u16>>,
    ) -> bool {
        exists|trace: Seq<Run>|
            #![trigger self.is_trace(seed, quick, accept, trace)]
            self.is_trace(seed, quick, accept, trace) && trace.len() == budget(quick) + 1
                && trace.last().accepted == state && trace.last().accepted_cost == cost
    }

    /// With a rule that gives one answer to each question, a step has one
    /// outcome.
    pub proof fn lemma_step_is_determined<F: Fn(u64, u64, u64, u64) -> (bool, u64)>(
        self,
        accept: F,
        from: Run,
        first: Run,
        second: Run,
    )
        requires
            functional(accept),
            self.steps_to(accept, from, first),
            self.steps_to(accept, from, second),
        ensures
            first == second,
    {
        let proposal = self.proposed(from);
        match proposal.1 {
            Proposal::Undecided { increase } => {
                let question = (
                    increase,
                    proposal.0.step,
                    proposal.0.total_steps,
                    proposal.0.generator,
                );
                let (keep1, generator1) = choose|keep: bool, generator: u64|
                    #![trigger settled(proposal.0, keep, generator)]
                    call_ensures(accept, question, (keep, generator)) && first == settled(
                        proposal.0,
                        keep,
                        generator,
                    );
                let (keep2, generator2) = choose|keep: bool, generator: u64|
                    #![trigger settled(proposal.0, keep, generator)]
                    call_ensures(accept, question, (keep, generator)) && second == settled(
                        proposal.0,
                        keep,
                        generator,
                    );
                assert((keep1, generator1) == (keep2, generator2));
            },
            _ => {},
        }
    }

    /// Two runs on the same problem, from the same seed and with the same
    /// rule for dearer moves, pass through the same states, provided the rule
    /// gives one answer to each question: after any number of steps they hold
    /// the same allocations and the same costs.
    pub proof fn lemma_runs_are_determined<F: Fn(u64, u64, u64, u64) -> (bool, u64)>(
        self,
        seed: u64,
        quick: bool,
        accept: F,
        first: Seq<Run>,
        second: Seq<Run>,
        steps: int,
    )
        requires
            functional(accept),
            self.is_trace(seed, quick, accept, first),
            self.is_trace(seed, quick, accept, second),
            0 <= steps < first.len(),
            steps < second.len(),
        ensures
            first[steps] == second[steps],
        decreases steps,
    {
        if steps > 0 {
            self.lemma_runs_are_determined(seed, quick, accept, first, second, steps - 1);
            assert(self.steps_to(accept, first[steps - 1], first[steps]));
            assert(self.steps_to(accept, second[steps - 1], second[steps]));
            self.lemma_step_is_determined(accept, first[steps - 1], first[steps], second[steps]);
        }
    }

    /// Two runs to the end, on the same problem, from the same seed and with
    /// the same rule, end in the same allocation at the same cost, provided
    /// the rule gives one answer to each question.
    pub proof fn lemma_end_is_determined<F: Fn(u64, u64, u64, u64) -> (bool, u64)>(
        self,
        seed: u64,
        quick: bool,
        accept: F,
        first_cost: u64,
        first: Seq<Seq<u16>>,
        second_cost: u64,
        second: Seq<Seq<u16>>,
    )
        requires
            functional(accept),
            self.ends_in(seed, quick, accept, first_cost, first),
            self.ends_in(seed, quick, accept, second_cost, second),
        ensures
            first_cost == second_cost,
            first == second,
    {
        let one = choose|trace: Seq<Run>|
            #![trigger self.is_trace(seed, quick, accept, trace)]
            self.is_trace(seed, quick, accept, trace) && trace.len() == budget(quick) + 1
                && trace.last().accepted == first && trace.last().accepted_cost == first_cost;
        let other = choose|trace: Seq<Run>|
            #![trigger self.is_trace(seed, quick, accept, trace)]
            self.is_trace(seed, quick, accept, trace) && trace.len() == budget(quick) + 1
                && trace.last().accepted == second && trace.last().accepted_cost == second_cost;
        self.lemma_runs_are_determined(seed, quick, accept, one, other, budget(quick) as int);
    }

    /// Two runs to the end, on the same problem, from the same seed and with
    /// the same rule, end at the same cost, provided the rule gives one
    /// answer to each question.
    pub proof fn lemma_cost_is_determined<F: Fn(u64, u64, u64, u64) -> (bool, u64)>(
        self,
        seed: u64,
        quick: bool,
        accept: F,
        first_cost: u64,
        second_cost: u64,
    )
        requires
            functional(accept),
            self.ends_at(seed, quick, accept, first_cost),
            self.ends_at(seed, quick, accept, second_cost),
        ensures
            first_cost == second_cost,
    {
        let one = choose|trace: Seq<Run>|
            #![trigger self.is_trace(seed, quick, accept, trace)]
            self.is_trace(seed, quick, accept, trace) && trace.len() == budget(quick) + 1
                && trace.last().accepted_cost == first_cost;
        let other = choose|trace: Seq<Run>|
            #![trigger self.is_trace(seed, quick, accept, trace)]
            self.is_trace(seed, quick, accept, trace) && trace.len() == budget(quick) + 1
                && trace.last().accepted_cost == second_cost;
        self.lemma_runs_are_determined(seed, quick, accept, one, other, budget(quick) as int);
    }
}

/// Runs the search from seed `seed` to the end of its budget. `accept`
/// settles the moves that raise the cost: it is given the increase, the
/// number of the step (from 1), the number of steps of the run and the state
/// of the generator, and returns whether the move is kept and the state in
/// which it leaves the generator. The result is the cost and the allocation
/// accepted last, which need not be the cheapest that the run has seen.
pub fn solve<F: Fn(u64, u64, u64, u64) -> (bool, u64)>(
    solver: &Solver,
    seed: u64,
    quick: bool,
    accept: &F,
) -> (r: (u64, Vec<SessionAllocation>))
    requires
        solver@.wf(),
        solver@.sessions.len() > 0,
        forall|increase: u64, step: u64, total: u64, generator: u64|
            call_requires(*accept, (increase, step, total, generator)),
    ensures
        solver@.admits(teams(r.1@)),
        solver@.cost(teams(r.1@)) == Some(r.0 as int),
        solver@.ends_in(seed, quick, *accept, r.0, teams(r.1@)),
        solver@.ends_at(seed, quick, *accept, r.0),
{
    let mut annealer = Annealer::new(solver, seed, quick);
    let ghost mut trace: Seq<Run> = seq![annealer@];
    while !annealer.finished()
        invariant
            solver@.wf(),
            solver@.sessions.len() > 0,
            forall|increase: u64, step: u64, total: u64, generator: u64|
                call_requires(*accept, (increase, step, total, generator)),
            solver@.runs(annealer@),
            annealer@.pending is None,
            annealer@.total_steps == budget(quick),
            solver@.is_trace(seed, quick, *accept, trace),
            trace.len() == annealer@.step + 1,
            trace.last() == annealer@,
        decreases annealer@.total_steps - annealer@.step,
    {
        let ghost from = annealer@;
        match annealer.propose(solver) {
            Proposal::Undecided { increase } => {
                let ghost waiting = annealer@;
                let decision = accept(
                    increase,
                    annealer.step,
                    annealer.total_steps,
                    annealer.generator.state,
                );
                annealer.settle(decision.0, Generator { state: decision.1 });
                proof {
                    lemma_settled_runs(solver@, waiting, decision.0, decision.1);
                    assert(call_ensures(
                        *accept,
                        (increase, waiting.step, waiting.total_steps, waiting.generator),
                        (decision.0, decision.1),
                    ));
                    assert(annealer@ == settled(waiting, decision.0, decision.1));
                }
            },
            _ => {},
        }
        proof {
            assert(solver@.steps_to(*accept, from, annealer@));
            let ghost longer = trace.push(annealer@);
            assert forall|i: int| 0 < i < longer.len() implies #[trigger] solver@.steps_to(
                *accept,
                longer[i - 1],
                longer[i],
            ) by {
                if i < trace.len() {
                    assert(longer[i] == trace[i]);
                    assert(longer[i - 1] == trace[i - 1]);
                    assert(solver@.steps_to(*accept, trace[i - 1], trace[i]));
                }
            }
            trace = longer;
        }
    }
    proof {
        assert(solver@.is_trace(seed, quick, *accept, trace));
    }
    annealer.into_result()
}

} // verus!
