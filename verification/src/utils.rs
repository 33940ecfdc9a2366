use vstd::prelude::*;

verus! {

/// `passes` is four times the square root of `nb_points`, rounded to the
/// nearest whole number.
///
/// The two bounds say that `passes` lies within one half of `4 * sqrt(nb_points)`,
/// after squaring and clearing the fractions. `64 * nb_points` is even and the
/// square of an odd number is odd, so the distance is never exactly one half
/// and no rule for ties is needed.
pub open spec fn is_nb_iterations(nb_points: nat, passes: nat) -> bool {
    &&& passes == 0 || (2 * passes - 1) * (2 * passes - 1) <= 64 * nb_points
    &&& 64 * nb_points < (2 * passes + 1) * (2 * passes + 1)
}

/// Only one number of passes fits a given number of points.
pub proof fn lemma_nb_iterations_unique(nb_points: nat, a: nat, b: nat)
    requires
        is_nb_iterations(nb_points, a),
        is_nb_iterations(nb_points, b),
    ensures
        a == b,
{
    if a < b {
        assert((2 * a + 1) * (2 * a + 1) <= (2 * b - 1) * (2 * b - 1)) by (nonlinear_arith)
            requires
                a < b,
        ;
    } else if b < a {
        assert((2 * b + 1) * (2 * b + 1) <= (2 * a - 1) * (2 * a - 1)) by (nonlinear_arith)
            requires
                b < a,
        ;
    }
}

/// The number of passes is zero only for zero points, never exceeds four
/// times the number of points, and from sixteen points on never exceeds the
/// number of points itself.
pub proof fn lemma_nb_iterations_bounds(nb_points: nat, passes: nat)
    requires
        is_nb_iterations(nb_points, passes),
    ensures
        passes == 0 <==> nb_points == 0,
        passes <= 4 * nb_points,
        nb_points >= 16 ==> passes <= nb_points,
{
    if passes > 0 {
        assert((2 * passes - 1) * (2 * passes - 1) >= 1) by (nonlinear_arith)
            requires
                passes > 0,
        ;
    }
    if passes > 4 * nb_points {
        assert((2 * passes - 1) * (2 * passes - 1) > 64 * nb_points) by (nonlinear_arith)
            requires
                passes > 4 * nb_points,
        ;
    }
    if nb_points >= 16 && passes > nb_points {
        assert((2 * passes - 1) * (2 * passes - 1) > 64 * nb_points) by (nonlinear_arith)
            requires
                nb_points >= 16,
                passes > nb_points,
        ;
    }
}

/// The number of relaxation passes that suits `nb_points` pairs of points:
/// `round(4 * sqrt(nb_points))`.
pub fn get_nb_iterations(nb_points: usize) -> (passes: usize)
    ensures
        is_nb_iterations(nb_points as nat, passes as nat),
{
    let target: u128 = 64 * (nb_points as u128);
    // `low` is never too many passes and `high` always is.
    let mut low: u128 = 0;
    let mut high: u128 = 0x8_0000_0000;
    assert((2 * high - 1) * (2 * high - 1) > target) by (nonlinear_arith)
        requires
            high == 0x8_0000_0000,
            target <= 64 * 0xffff_ffff_ffff_ffff,
    ;
    while high - low > 1
        invariant
            low < high <= 0x8_0000_0000,
            target == 64 * nb_points,
            low == 0 || (2 * low - 1) * (2 * low - 1) <= target,
            (2 * high - 1) * (2 * high - 1) > target,
        decreases high - low,
    {
        let middle: u128 = low + (high - low) / 2;
        let odd: u128 = 2 * middle - 1;
        assert(odd * odd <= 0xf_ffff_ffff * 0xf_ffff_ffff) by (nonlinear_arith)
            requires
                odd <= 0xf_ffff_ffff,
        ;
        if odd * odd <= target {
            low = middle;
        } else {
            high = middle;
        }
    }
    proof {
        lemma_nb_iterations_bounds(nb_points as nat, low as nat);
    }
    low as usize
}

} // verus!
