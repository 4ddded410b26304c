//! Conversions between milliseconds and the alignment's units of time, and small helpers.

use vstd::prelude::*;
use vstd::string::StringExecFns;

verus! {

/// The quotient of `value` by `unit`, rounded towards zero.
pub open spec fn truncated_quotient(value: int, unit: int) -> int {
    if value >= 0 {
        value / unit
    } else {
        -((-value) / unit)
    }
}

/// Converts a time in milliseconds to the alignment's time points, which count units of
/// `interval` milliseconds: the time is divided by `interval`, rounding towards zero.
pub fn to_alass_timepoint(t: i64, interval: i64) -> (point: i64)
    requires
        interval >= 1,
    ensures
        point == truncated_quotient(t as int, interval as int),
{
    proof {
        if t < 0 {
            assert(0 <= (-t) / (interval as int) <= -t) by (nonlinear_arith)
                requires
                    t < 0,
                    interval >= 1,
            ;
        } else {
            assert(0 <= t / interval <= t) by (nonlinear_arith)
                requires
                    t >= 0,
                    interval >= 1,
            ;
        }
    }
    t / interval
}

/// Whether `t` units of `interval` milliseconds are a number of milliseconds that an `i64`
/// holds.
pub open spec fn delta_fits(t: i64, interval: i64) -> bool {
    i64::MIN <= t * interval <= i64::MAX
}

/// Converts a shift in the alignment's units of `interval` milliseconds to milliseconds.
pub fn to_subparse_delta(t: i64, interval: i64) -> (delta: i64)
    requires
        delta_fits(t, interval),
    ensures
        delta == t * interval,
{
    t * interval
}

/// Converts shifts in the alignment's units of `interval` milliseconds to milliseconds.
pub fn to_subparse_deltas(v: &[i64], interval: i64) -> (deltas: Vec<i64>)
    requires
        forall|i: int| 0 <= i < v@.len() ==> delta_fits(#[trigger] v@[i], interval),
    ensures
        deltas@.len() == v@.len(),
        forall|i: int| 0 <= i < v@.len() ==> #[trigger] deltas@[i] == v@[i] * interval,
{
    let mut deltas: Vec<i64> = Vec::new();
    let mut i: usize = 0;
    while i < v.len()
        invariant
            i <= v@.len(),
            deltas@.len() == i,
            forall|k: int| 0 <= k < v@.len() ==> delta_fits(#[trigger] v@[k], interval),
            forall|k: int| 0 <= k < i ==> #[trigger] deltas@[k] == v@[k] * interval,
        decreases v@.len() - i,
    {
        deltas.push(to_subparse_delta(v[i], interval));
        i += 1;
    }
    deltas
}

/// Puts the three pieces of text one behind the other.
pub(crate) fn joined3(a: &str, b: &str, c: &str) -> (text: String)
    ensures
        text@ == a@ + b@ + c@,
{
    let mut text = String::from_str(a);
    text.append(b);
    text.append(c);
    text
}

} // verus!
