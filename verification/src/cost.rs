//! The penalty terms of the cost model, each as a function of the few numbers
//! it depends on, together with the sums that combine them.

use crate::types::Availability;
use vstd::prelude::*;

verus! {

/// What a tutor who dislikes a session costs.
pub const DISLIKE_PENALTY: u64 = 100;

/// What a tutor for whom a session is merely possible costs.
pub const POSSIBLE_PENALTY: u64 = 5;

/// The price of each tutor missing from a session with a required minimum, and
/// of each tutor of difference in an uneven week.
pub const STAFFING_PENALTY: u64 = 50;

/// The factor on an applicant's weekly shortfall, raised to the power 3/2.
pub const MINIMUM_HOURS_PENALTY: u64 = 20;

/// The factor on the square of the hours a week falls short of its target.
pub const UNDER_TARGET_PENALTY: u64 = 20;

/// The price of each hour a week is staffed above its target.
pub const OVER_TARGET_PENALTY: u64 = 200;

/// The hours over the whole term below which an applicant is penalised.
pub const TERM_FLOOR_HOURS: u64 = 6;

/// The price of each hour an applicant stays below the floor of the term.
pub const TERM_FLOOR_PENALTY: u64 = 10;

/// Team sizes in a week may differ by this much without penalty.
pub const SPREAD_TOLERANCE: usize = 2;

/// `f(0) + f(1) + ... + f(n - 1)`.
pub open spec fn sum_upto(n: nat, f: spec_fn(int) -> int) -> int
    decreases n,
{
    if n == 0 {
        0
    } else {
        sum_upto((n - 1) as nat, f) + f(n - 1)
    }
}

/// A sum of terms between 0 and `bound` lies between 0 and `n * bound`.
pub proof fn lemma_sum_bounded(n: nat, f: spec_fn(int) -> int, bound: int)
    requires
        forall|i: int| 0 <= i < n ==> 0 <= #[trigger] f(i) <= bound,
    ensures
        0 <= sum_upto(n, f) <= n * bound,
    decreases n,
{
    if n > 0 {
        lemma_sum_bounded((n - 1) as nat, f, bound);
        assert(n * bound == (n - 1) * bound + bound) by (nonlinear_arith);
    } else {
        assert(n * bound == 0) by (nonlinear_arith)
            requires
                n == 0,
        ;
    }
}

/// A sum of terms that are all 0 is 0.
pub proof fn lemma_sum_zero(n: nat, f: spec_fn(int) -> int)
    requires
        forall|i: int| 0 <= i < n ==> #[trigger] f(i) == 0,
    ensures
        sum_upto(n, f) == 0,
    decreases n,
{
    if n > 0 {
        lemma_sum_zero((n - 1) as nat, f);
    }
}

/// Two sums whose terms agree are equal.
pub proof fn lemma_sum_equal(n: nat, f: spec_fn(int) -> int, g: spec_fn(int) -> int)
    requires
        forall|i: int| 0 <= i < n ==> #[trigger] f(i) == g(i),
    ensures
        sum_upto(n, f) == sum_upto(n, g),
    decreases n,
{
    if n > 0 {
        lemma_sum_equal((n - 1) as nat, f, g);
    }
}

/// Two sums whose terms agree but for term `k` differ by what that term
/// differs.
pub proof fn lemma_sum_differs_at(n: nat, f: spec_fn(int) -> int, g: spec_fn(int) -> int, k: int)
    requires
        0 <= k < n,
        forall|i: int| 0 <= i < n && i != k ==> #[trigger] f(i) == g(i),
    ensures
        sum_upto(n, g) - sum_upto(n, f) == g(k) - f(k),
    decreases n,
{
    if n - 1 == k {
        lemma_sum_equal((n - 1) as nat, f, g);
    } else {
        lemma_sum_differs_at((n - 1) as nat, f, g, k);
    }
}

/// The penalty for one tutor working one session: nothing where the session
/// is preferred, a little where it is possible, a lot where it is disliked.
/// An impossible session has no price: it makes the allocation infeasible.
pub open spec fn preference_penalty(rating: Availability) -> int {
    match rating {
        Availability::Impossible => 0,
        Availability::Dislike => DISLIKE_PENALTY as int,
        Availability::Possible => POSSIBLE_PENALTY as int,
        Availability::Preferred => 0,
    }
}

/// The penalty for a session with a required minimum that has `tutors`
/// tutors: a fixed price for each tutor missing. Sessions without a minimum
/// pay nothing.
pub open spec fn understaffing_penalty(minimum: Option<u16>, tutors: int) -> int {
    match minimum {
        Some(required) => if tutors < required {
            STAFFING_PENALTY * (required - tutors)
        } else {
            0
        },
        None => 0,
    }
}

/// The penalty for a week whose smallest team has `smallest` tutors and whose
/// largest has `largest`: a fixed price for each tutor of difference, once the
/// difference is more than the tolerance.
pub open spec fn spread_penalty(smallest: int, largest: int) -> int {
    if largest > smallest + SPREAD_TOLERANCE {
        STAFFING_PENALTY * (largest - smallest)
    } else {
        0
    }
}

/// The largest integer whose square is at most `n`.
pub open spec fn floor_sqrt(n: nat) -> nat
    decreases n,
{
    if n == 0 {
        0
    } else {
        let below = floor_sqrt((n - 1) as nat);
        if (below + 1) * (below + 1) <= n {
            below + 1
        } else {
            below
        }
    }
}

/// `root` is the largest integer whose square is at most `n`.
pub open spec fn is_floor_sqrt(n: int, root: int) -> bool {
    0 <= root && root * root <= n < (root + 1) * (root + 1)
}

/// `floor_sqrt` is the integer square root.
pub proof fn lemma_floor_sqrt(n: nat)
    ensures
        is_floor_sqrt(n as int, floor_sqrt(n) as int),
    decreases n,
{
    if n > 0 {
        lemma_floor_sqrt((n - 1) as nat);
        let below = floor_sqrt((n - 1) as nat) as int;
        assert((below + 2) * (below + 2) > (below + 1) * (below + 1) + 1) by (nonlinear_arith)
            requires
                below >= 0,
        ;
    }
}

/// There is only one integer square root.
pub proof fn lemma_floor_sqrt_unique(n: int, a: int, b: int)
    requires
        is_floor_sqrt(n, a),
        is_floor_sqrt(n, b),
    ensures
        a == b,
{
    if a < b {
        assert((a + 1) * (a + 1) <= b * b) by (nonlinear_arith)
            requires
                0 <= a,
                a + 1 <= b,
        ;
    } else if b < a {
        assert((b + 1) * (b + 1) <= a * a) by (nonlinear_arith)
            requires
                0 <= b,
                b + 1 <= a,
        ;
    }
}

/// `hours` to the power 3/2, rounded down: the integer square root of the
/// cube.
pub open spec fn three_halves_power(hours: nat) -> nat {
    floor_sqrt(hours * hours * hours)
}

/// The penalty for an applicant who asked for a weekly minimum and works
/// `hours` in a week: the shortfall to the power 3/2, rounded down, times a
/// fixed factor. Applicants without a minimum pay nothing.
pub open spec fn minimum_hours_penalty(minimum: Option<u16>, hours: int) -> int {
    match minimum {
        Some(wanted) => if hours < wanted {
            MINIMUM_HOURS_PENALTY * three_halves_power((wanted - hours) as nat)
        } else {
            0
        },
        None => 0,
    }
}

/// The penalty for a week that should have `desired` tutoring hours and has
/// `effective`: quadratic in the hours missing, linear in the hours above.
pub open spec fn hours_deviation_penalty(desired: int, effective: int) -> int {
    if effective < desired {
        UNDER_TARGET_PENALTY * ((desired - effective) * (desired - effective))
    } else {
        OVER_TARGET_PENALTY * (effective - desired)
    }
}

/// The penalty for an applicant who works `total` hours over the whole term:
/// a fixed price for each hour below the floor.
pub open spec fn term_floor_penalty(total: int) -> int {
    if total < TERM_FLOOR_HOURS {
        TERM_FLOOR_PENALTY * (TERM_FLOOR_HOURS - total)
    } else {
        0
    }
}

/// The spread penalty never shrinks when the gap between the largest and the
/// smallest team of a week grows.
pub proof fn lemma_spread_penalty_monotonic(
    smallest: int,
    largest: int,
    wider_smallest: int,
    wider_largest: int,
)
    requires
        largest - smallest <= wider_largest - wider_smallest,
    ensures
        spread_penalty(smallest, largest) <= spread_penalty(wider_smallest, wider_largest),
{
}

/// The penalty for one tutor working a session that they rated `rating`.
pub fn preference_cost(rating: Availability) -> (r: u64)
    ensures
        r == preference_penalty(rating),
{
    match rating {
        Availability::Impossible => 0,
        Availability::Dislike => DISLIKE_PENALTY,
        Availability::Possible => POSSIBLE_PENALTY,
        Availability::Preferred => 0,
    }
}

/// The penalty for a session with `tutors` tutors and the required minimum
/// `minimum`, if it has one.
pub fn understaffing_cost(minimum: Option<u16>, tutors: usize) -> (r: u64)
    ensures
        r == understaffing_penalty(minimum, tutors as int),
        r <= 3276750,
{
    match minimum {
        Some(required) => {
            if tutors < required as usize {
                STAFFING_PENALTY * ((required as usize - tutors) as u64)
            } else {
                0
            }
        },
        None => 0,
    }
}

/// The penalty for a week whose smallest team has `smallest` tutors and
/// whose largest has `largest`.
pub fn spread_cost(smallest: usize, largest: usize) -> (r: u64)
    requires
        largest <= u32::MAX,
    ensures
        r == spread_penalty(smallest as int, largest as int),
{
    if smallest <= usize::MAX - SPREAD_TOLERANCE && largest > smallest + SPREAD_TOLERANCE {
        STAFFING_PENALTY * ((largest - smallest) as u64)
    } else {
        0
    }
}

/// The cube of a shortfall of hours fits in 48 bits, so its root in 24.
pub proof fn lemma_three_halves_power_bound(hours: nat)
    requires
        hours <= u16::MAX,
    ensures
        hours * hours * hours < 0x1_0000_0000_0000,
        three_halves_power(hours) < 0x100_0000,
{
    assert(hours * hours * hours < 0x1_0000_0000_0000) by (nonlinear_arith)
        requires
            hours <= 0xffff,
    ;
    lemma_floor_sqrt(hours * hours * hours);
    let root = three_halves_power(hours) as int;
    if root >= 0x100_0000 {
        assert(root * root >= 0x1_0000_0000_0000) by (nonlinear_arith)
            requires
                root >= 0x100_0000,
        ;
    }
}

/// The integer square root of the cube of `hours`.
pub fn three_halves(hours: u16) -> (r: u64)
    ensures
        r == three_halves_power(hours as nat),
        r < 0x100_0000,
{
    let h: u64 = hours as u64;
    proof {
        lemma_three_halves_power_bound(hours as nat);
        assert(h * h <= 0xffff * 0xffff) by (nonlinear_arith)
            requires
                h <= 0xffff,
        ;
        assert(h * h * h == (hours as nat) * (hours as nat) * (hours as nat));
    }
    let cube: u64 = h * h * h;
    let mut low: u64 = 0;
    let mut high: u64 = 0x100_0000;
    assert(high * high == 0x1_0000_0000_0000) by (nonlinear_arith)
        requires
            high == 0x100_0000,
    ;
    while high - low > 1
        invariant
            low < high <= 0x100_0000,
            low * low <= cube < high * high,
        decreases high - low,
    {
        let middle: u64 = low + (high - low) / 2;
        assert(middle * middle <= 0x100_0000 * 0x100_0000) by (nonlinear_arith)
            requires
                middle <= 0x100_0000,
        ;
        if middle * middle <= cube {
            low = middle;
        } else {
            high = middle;
        }
    }
    proof {
        lemma_floor_sqrt(cube as nat);
        lemma_floor_sqrt_unique(cube as int, low as int, floor_sqrt(cube as nat) as int);
    }
    low
}

/// The penalty for an applicant who works `hours` in a week and asked for
/// the weekly minimum `minimum`, if they asked for one.
pub fn minimum_hours_cost(minimum: Option<u16>, hours: u64) -> (r: u64)
    ensures
        r == minimum_hours_penalty(minimum, hours as int),
        r <= 335544320,
{
    match minimum {
        Some(wanted) => {
            if hours < wanted as u64 {
                let shortfall: u16 = wanted - (hours as u16);
                MINIMUM_HOURS_PENALTY * three_halves(shortfall)
            } else {
                0
            }
        },
        None => 0,
    }
}

/// The penalty for a week that should have `desired` tutoring hours and has
/// `effective`.
pub fn hours_deviation_cost(desired: u16, effective: u64) -> (r: u64)
    requires
        effective <= 0x1_0000_0000_0000,
    ensures
        r == hours_deviation_penalty(desired as int, effective as int),
        r <= 200 * effective + 85896724500,
{
    if effective < desired as u64 {
        let shortfall: u64 = desired as u64 - effective;
        assert(shortfall * shortfall <= 0xffff * 0xffff) by (nonlinear_arith)
            requires
                shortfall <= 0xffff,
        ;
        UNDER_TARGET_PENALTY * (shortfall * shortfall)
    } else {
        OVER_TARGET_PENALTY * (effective - desired as u64)
    }
}

/// The penalty for an applicant who works `total` hours over the whole term.
pub fn term_floor_cost(total: u64) -> (r: u64)
    ensures
        r == term_floor_penalty(total as int),
        r <= 60,
{
    if total < TERM_FLOOR_HOURS {
        TERM_FLOOR_PENALTY * (TERM_FLOOR_HOURS - total)
    } else {
        0
    }
}

} // verus!
