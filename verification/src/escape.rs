//! The counting side of the escape-time loop. The trajectory of a point is
//! followed elsewhere, in floating point; what is decided here is whether it
//! is followed one step further, and what count the pixel gets.

use vstd::prelude::*;

verus! {

/// Most steps a trajectory is followed for. A count never exceeds it, so
/// every count fits a colour channel as it is.
pub const MAX_ITERATIONS: u8 = 255;

/// Steps that a trajectory takes before it first leaves the escape radius,
/// from whether it was still inside before each step.
pub open spec fn leading_inside(inside: Seq<bool>) -> nat
    decreases inside.len(),
{
    if inside.len() == 0 || !inside[0] {
        0
    } else {
        1 + leading_inside(inside.drop_first())
    }
}

/// The count that a trajectory ends with: the steps taken before it first
/// left the radius, `MAX_ITERATIONS` at most.
pub open spec fn escape_count(inside: Seq<bool>) -> nat {
    if leading_inside(inside) < MAX_ITERATIONS {
        leading_inside(inside)
    } else {
        MAX_ITERATIONS as nat
    }
}

/// The final count of a trajectory that has taken `iteration` steps and
/// whose further course is `inside`.
pub open spec fn steps_from(inside: Seq<bool>, iteration: nat) -> nat
    decreases inside.len(),
{
    if inside.len() == 0 || !inside[0] || iteration >= MAX_ITERATIONS {
        iteration
    } else {
        steps_from(inside.drop_first(), iteration + 1)
    }
}

/// One turn of the escape-time loop, after `iteration` steps: the count
/// after one more step where the point is still inside the radius and the
/// cap is not reached, `None` where `iteration` is final.
pub fn advance(iteration: u8, inside: bool) -> (next: Option<u8>)
    ensures
        next == (if inside && iteration < MAX_ITERATIONS {
            Some((iteration + 1) as u8)
        } else {
            None
        }),
        forall|rest: Seq<bool>|
            #![trigger steps_from(seq![inside] + rest, iteration as nat)]
            steps_from(seq![inside] + rest, iteration as nat) == (match next {
                Some(n) => steps_from(rest, n as nat),
                None => iteration as nat,
            }),
{
    assert forall|rest: Seq<bool>|
        #![trigger steps_from(seq![inside] + rest, iteration as nat)]
        (seq![inside] + rest).drop_first() == rest by {
        assert((seq![inside] + rest).drop_first() =~= rest);
    }
    if inside && iteration < MAX_ITERATIONS {
        Some(iteration + 1)
    } else {
        None
    }
}

/// After `iteration` steps the loop ends with that many steps more as the
/// point stays inside the radius for, and with the cap at most.
pub proof fn lemma_steps_from_counts_leading(inside: Seq<bool>, iteration: nat)
    requires
        iteration <= MAX_ITERATIONS,
    ensures
        steps_from(inside, iteration) == (if iteration + leading_inside(inside)
            < MAX_ITERATIONS {
            iteration + leading_inside(inside)
        } else {
            MAX_ITERATIONS as nat
        }),
        iteration <= steps_from(inside, iteration) <= MAX_ITERATIONS,
    decreases inside.len(),
{
    if inside.len() > 0 && inside[0] && iteration < MAX_ITERATIONS {
        lemma_steps_from_counts_leading(inside.drop_first(), iteration + 1);
    }
}

/// Followed turn by turn from no steps taken, the loop ends with
/// `escape_count`, which fits a colour channel.
pub proof fn lemma_loop_ends_with_escape_count(inside: Seq<bool>)
    ensures
        steps_from(inside, 0) == escape_count(inside),
        escape_count(inside) <= MAX_ITERATIONS,
{
    lemma_steps_from_counts_leading(inside, 0);
}

} // verus!
