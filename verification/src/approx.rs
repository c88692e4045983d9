//! Approximate equality of amounts, within a tolerance.
//!
//! Fee and reward calculations round, so a test often expects a value within a
//! small distance of another rather than equal to it.
use vstd::prelude::*;
use crate::text::{push_i128, signed_decimal};

verus! {

pub open spec fn abs_diff(a: int, b: int) -> int {
    if a >= b {
        a - b
    } else {
        b - a
    }
}

pub open spec fn negative_tolerance_text(actual: i128, expected: i128, tolerance: i128) -> Seq<char> {
    "assert_approx_eq! failed: tolerance must be non-negative.\n\nactual    = "@ + signed_decimal(
        actual as int,
    ) + "\nexpected  = "@ + signed_decimal(expected as int) + "\ntolerance = "@ + signed_decimal(
        tolerance as int,
    )
}

pub open spec fn exceeds_tolerance_text(actual: i128, expected: i128, tolerance: i128) -> Seq<char> {
    "assert_approx_eq! failed: difference exceeds tolerance.\n\nactual     = "@ + signed_decimal(
        actual as int,
    ) + "\nexpected   = "@ + signed_decimal(expected as int) + "\ndifference = "@ + signed_decimal(
        abs_diff(actual as int, expected as int),
    ) + "\ntolerance  = "@ + signed_decimal(tolerance as int)
}

/// `Ok` when `actual` is within `tolerance` of `expected`. A negative
/// tolerance, or a difference beyond it, is an error that says which.
pub fn assert_approx_eq(actual: i128, expected: i128, tolerance: i128) -> (r: Result<(), String>)
    requires
        abs_diff(actual as int, expected as int) <= i128::MAX,
    ensures
        r is Ok <==> (tolerance >= 0 && abs_diff(actual as int, expected as int) <= tolerance),
        r matches Err(m) ==> m@ == (if tolerance < 0 {
            negative_tolerance_text(actual, expected, tolerance)
        } else {
            exceeds_tolerance_text(actual, expected, tolerance)
        }),
{
    if tolerance < 0 {
        let mut out = String::from_str(
            "assert_approx_eq! failed: tolerance must be non-negative.\n\nactual    = ",
        );
        push_i128(&mut out, actual);
        out.append("\nexpected  = ");
        push_i128(&mut out, expected);
        out.append("\ntolerance = ");
        push_i128(&mut out, tolerance);
        proof {
            assert(out@ =~= negative_tolerance_text(actual, expected, tolerance));
        }
        return Err(out);
    }
    let diff: i128 = if actual >= expected {
        actual - expected
    } else {
        expected - actual
    };
    if diff <= tolerance {
        Ok(())
    } else {
        let mut out = String::from_str(
            "assert_approx_eq! failed: difference exceeds tolerance.\n\nactual     = ",
        );
        push_i128(&mut out, actual);
        out.append("\nexpected   = ");
        push_i128(&mut out, expected);
        out.append("\ndifference = ");
        push_i128(&mut out, diff);
        out.append("\ntolerance  = ");
        push_i128(&mut out, tolerance);
        proof {
            assert(out@ =~= exceeds_tolerance_text(actual, expected, tolerance));
        }
        Err(out)
    }
}

/// Approximate equality is symmetric: swapping actual and expected never
/// changes whether the check passes.
pub proof fn lemma_approx_eq_symmetric(actual: int, expected: int, tolerance: int)
    ensures
        (tolerance >= 0 && abs_diff(actual, expected) <= tolerance) == (tolerance >= 0 && abs_diff(
            expected,
            actual,
        ) <= tolerance),
{
}

} // verus!
