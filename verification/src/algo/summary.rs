//! What a summary is taken of: the values that are defined.

use crate::double::Double;
use vstd::prelude::*;

verus! {

/// The values that are not NaN, in order.
pub open spec fn defined(values: Seq<Double>) -> Seq<Double>
    decreases values.len(),
{
    if values.len() == 0 {
        Seq::empty()
    } else {
        let earlier = defined(values.drop_last());
        if values.last().is_nan() {
            earlier
        } else {
            earlier.push(values.last())
        }
    }
}

/// The positions of the values that are not NaN, ascending.
pub open spec fn defined_positions(values: Seq<Double>) -> Seq<usize>
    decreases values.len(),
{
    if values.len() == 0 {
        Seq::empty()
    } else {
        let earlier = defined_positions(values.drop_last());
        if values.last().is_nan() {
            earlier
        } else {
            earlier.push((values.len() - 1) as usize)
        }
    }
}

/// Nothing that is left is a NaN, and nothing was added.
pub proof fn lemma_defined_holds_no_nan(values: Seq<Double>)
    ensures
        defined(values).len() <= values.len(),
        forall|k: int|
            0 <= k < defined(values).len() ==> !(#[trigger] defined(values)[k]).is_nan()
                && values.contains(defined(values)[k]),
    decreases values.len(),
{
    if values.len() > 0 {
        let front = values.drop_last();
        lemma_defined_holds_no_nan(front);
        assert forall|k: int| 0 <= k < defined(values).len() implies !(#[trigger] defined(
            values,
        )[k]).is_nan() && values.contains(defined(values)[k]) by {
            if k < defined(front).len() {
                let v = defined(front)[k];
                assert(front.contains(v));
                let w = choose|w: int| 0 <= w < front.len() && front[w] == v;
                assert(values[w] == v);
            } else {
                assert(values[values.len() - 1] == defined(values)[k]);
            }
        }
    }
}

/// Values that hold no NaN are all kept: filtering twice is filtering once.
pub proof fn lemma_defined_keeps_defined(values: Seq<Double>)
    requires
        forall|i: int| 0 <= i < values.len() ==> !(#[trigger] values[i]).is_nan(),
    ensures
        defined(values) == values,
    decreases values.len(),
{
    if values.len() > 0 {
        lemma_defined_keeps_defined(values.drop_last());
        assert(values =~= values.drop_last().push(values.last()));
    } else {
        assert(values =~= Seq::<Double>::empty());
    }
}

/// The defined values are the values at the defined positions.
pub proof fn lemma_defined_positions(values: Seq<Double>)
    requires
        values.len() <= usize::MAX,
    ensures
        defined_positions(values).len() == defined(values).len(),
        forall|k: int|
            0 <= k < defined(values).len() ==> {
                let at = #[trigger] defined_positions(values)[k];
                &&& at < values.len()
                &&& values[at as int] == defined(values)[k]
            },
        forall|j: int, k: int|
            0 <= j < k < defined_positions(values).len() ==> defined_positions(values)[j]
                < defined_positions(values)[k],
    decreases values.len(),
{
    if values.len() > 0 {
        let front = values.drop_last();
        lemma_defined_positions(front);
        assert forall|k: int| 0 <= k < defined(values).len() implies {
            let at = #[trigger] defined_positions(values)[k];
            &&& at < values.len()
            &&& values[at as int] == defined(values)[k]
        } by {
            if k < defined(front).len() {
                let at = defined_positions(front)[k];
                assert(front[at as int] == values[at as int]);
            }
        }
        assert forall|j: int, k: int| 0 <= j < k < defined_positions(values).len() implies defined_positions(
            values,
        )[j] < defined_positions(values)[k] by {
            let at = defined_positions(front)[j];
            assert(at < front.len());
        }
    }
}

/// Drops the values that are NaN and keeps the others in order.
pub fn retain_defined(values: &[Double]) -> (out: Vec<Double>)
    ensures
        out@ == defined(values@),
        forall|k: int| 0 <= k < out@.len() ==> !(#[trigger] out@[k]).is_nan(),
        (forall|i: int| 0 <= i < values@.len() ==> !(#[trigger] values@[i]).is_nan()) ==> out@
            == values@,
{
    let mut out: Vec<Double> = Vec::new();
    let mut i: usize = 0;
    assert(values@.take(0) =~= Seq::<Double>::empty());
    while i < values.len()
        invariant
            i <= values@.len(),
            out@ == defined(values@.take(i as int)),
        decreases values@.len() - i,
    {
        assert(values@.take(i + 1).drop_last() =~= values@.take(i as int));
        let v: Double = values[i];
        if !v.is_nan() {
            out.push(v);
        }
        i += 1;
    }
    proof {
        assert(values@.take(values@.len() as int) =~= values@);
        lemma_defined_holds_no_nan(values@);
        if forall|i: int| 0 <= i < values@.len() ==> !(#[trigger] values@[i]).is_nan() {
            lemma_defined_keeps_defined(values@);
        }
    }
    out
}

/// The positions of the values that are not NaN, ascending: the windows
/// that contribute to a sum over windows.
pub fn positions_of_defined(values: &[Double]) -> (out: Vec<usize>)
    ensures
        out@ == defined_positions(values@),
        out@.len() == defined(values@).len(),
        forall|k: int|
            0 <= k < out@.len() ==> (#[trigger] out@[k]) < values@.len() && values@[out@[k] as int]
                == defined(values@)[k],
        forall|j: int, k: int| 0 <= j < k < out@.len() ==> out@[j] < out@[k],
{
    let mut out: Vec<usize> = Vec::new();
    let mut i: usize = 0;
    assert(values@.take(0) =~= Seq::<Double>::empty());
    while i < values.len()
        invariant
            i <= values@.len(),
            out@ == defined_positions(values@.take(i as int)),
        decreases values@.len() - i,
    {
        assert(values@.take(i + 1).drop_last() =~= values@.take(i as int));
        let v: Double = values[i];
        if !v.is_nan() {
            out.push(i);
        }
        i += 1;
    }
    proof {
        assert(values@.take(values@.len() as int) =~= values@);
        lemma_defined_positions(values@);
    }
    out
}

} // verus!
