//! The exact part of speed: elapsed time between points, and the greatest
//! of the speeds that are defined.

use crate::algo::window::window_count;
use crate::algo::PointInTime;
use crate::double::Double;
use vstd::prelude::*;

verus! {

/// The whole seconds between two instants, whichever is the earlier.
pub open spec fn distance_in_time(a: i64, b: i64) -> int {
    if a <= b {
        b - a
    } else {
        a - b
    }
}

/// The whole seconds between two instants, whichever is the earlier.
pub fn seconds_between(a: i64, b: i64) -> (elapsed: u64)
    ensures
        elapsed == distance_in_time(a, b),
{
    if a <= b {
        (b as i128 - a as i128) as u64
    } else {
        (a as i128 - b as i128) as u64
    }
}

/// The seconds that pass from each point to the next: one figure for each
/// pair of neighbours, in order. Neighbours that are out of order count as
/// if they were in order.
pub fn elapsed_seconds<P: PointInTime>(points: &[P]) -> (out: Vec<u64>)
    ensures
        out@.len() == window_count(points@.len() as int, 2),
        forall|i: int|
            0 <= i < out@.len() ==> #[trigger] out@[i] == distance_in_time(
                points@[i].instant(),
                points@[i + 1].instant(),
            ),
{
    let mut out: Vec<u64> = Vec::new();
    let n: usize = points.len();
    if n < 2 {
        return out;
    }
    let mut i: usize = 0;
    while i < n - 1
        invariant
            n == points@.len(),
            n >= 2,
            i <= n - 1,
            out@.len() == i,
            forall|k: int|
                0 <= k < i ==> #[trigger] out@[k] == distance_in_time(
                    points@[k].instant(),
                    points@[k + 1].instant(),
                ),
        decreases n - 1 - i,
    {
        out.push(seconds_between(points[i].timestamp(), points[i + 1].timestamp()));
        i += 1;
    }
    out
}

/// `speeds[at]` is defined, no defined speed is greater, and none that
/// follows it is as great.
pub open spec fn is_last_greatest(speeds: Seq<Double>, at: int) -> bool {
    &&& 0 <= at < speeds.len()
    &&& !speeds[at].is_nan()
    &&& forall|j: int|
        0 <= j < speeds.len() && !(#[trigger] speeds[j]).is_nan() ==> speeds[j].rank()
            <= speeds[at].rank()
    &&& forall|j: int|
        at < j < speeds.len() && !(#[trigger] speeds[j]).is_nan() ==> speeds[j].rank()
            < speeds[at].rank()
}

/// The greatest of the speeds that are defined, or nothing if none is.
/// Among equal greatest speeds the last one is returned.
pub fn speed_max(speeds: &[Double]) -> (greatest: Option<Double>)
    ensures
        match greatest {
            Some(v) => exists|at: int| is_last_greatest(speeds@, at) && speeds@[at] == v,
            None => forall|j: int| 0 <= j < speeds@.len() ==> (#[trigger] speeds@[j]).is_nan(),
        },
{
    let mut best: Option<Double> = None;
    let ghost mut at: int = 0;
    let mut i: usize = 0;
    while i < speeds.len()
        invariant
            i <= speeds@.len(),
            match best {
                Some(v) => is_last_greatest(speeds@.take(i as int), at) && speeds@[at] == v,
                None => forall|j: int| 0 <= j < i ==> (#[trigger] speeds@[j]).is_nan(),
            },
        decreases speeds@.len() - i,
    {
        let v: Double = speeds[i];
        let ghost seen = speeds@.take(i as int);
        let ghost next = speeds@.take(i + 1);
        if !v.is_nan() {
            let replace: bool = match best {
                Some(b) => b.key() <= v.key(),
                None => true,
            };
            if replace {
                proof {
                    assert forall|j: int| 0 <= j < next.len() && !(#[trigger] next[j]).is_nan() implies next[j].rank()
                        <= v.rank() by {
                        if j < i {
                            assert(seen[j] == next[j]);
                        }
                    }
                    at = i as int;
                }
                best = Some(v);
            } else {
                proof {
                    assert forall|j: int| 0 <= j < next.len() && !(#[trigger] next[j]).is_nan() implies next[j].rank()
                        <= next[at].rank() by {
                        if j < i {
                            assert(seen[j] == next[j]);
                        }
                    }
                    assert forall|j: int| at < j < next.len() && !(#[trigger] next[j]).is_nan() implies next[j].rank()
                        < next[at].rank() by {
                        if j < i {
                            assert(seen[j] == next[j]);
                        }
                    }
                }
            }
        } else {
            proof {
                if best.is_some() {
                    assert forall|j: int| 0 <= j < next.len() && !(#[trigger] next[j]).is_nan() implies next[j].rank()
                        <= next[at].rank() by {
                        if j < i {
                            assert(seen[j] == next[j]);
                        }
                    }
                    assert forall|j: int| at < j < next.len() && !(#[trigger] next[j]).is_nan() implies next[j].rank()
                        < next[at].rank() by {
                        if j < i {
                            assert(seen[j] == next[j]);
                        }
                    }
                }
            }
        }
        i += 1;
    }
    assert(speeds@.take(speeds@.len() as int) =~= speeds@);
    best
}

} // verus!
