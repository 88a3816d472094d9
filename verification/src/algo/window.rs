//! Sliding windows and chunks over a sequence.

use crate::algo::PointInTime;
use crate::model::Coordinate;
use vstd::arithmetic::div_mod::lemma_fundamental_div_mod_converse;
use vstd::prelude::*;

verus! {

/// How many windows of `width` items a sequence of `len` items has.
pub open spec fn window_count(len: int, width: int) -> int {
    if len >= width {
        len - width + 1
    } else {
        0
    }
}

/// How many chunks of `size` items a sequence of `len` items falls into,
/// the last one possibly shorter.
pub open spec fn chunk_count(len: int, size: int) -> int
    recommends
        size > 0,
{
    (len + size - 1) / size
}

/// Where the chunk at `position` ends.
pub open spec fn chunk_end(len: int, size: int, position: int) -> int {
    if (position + 1) * size <= len {
        (position + 1) * size
    } else {
        len
    }
}

/// The items of all `parts`, one part after the other.
pub open spec fn joined<T>(parts: Seq<&[T]>) -> Seq<T>
    decreases parts.len(),
{
    if parts.len() == 0 {
        Seq::empty()
    } else {
        joined(parts.drop_last()) + parts.last()@
    }
}

/// All windows of `width` consecutive items, sliding by one, in order.
/// A sequence shorter than `width` has none.
pub fn windows<'a, T>(items: &'a [T], width: usize) -> (out: Vec<&'a [T]>)
    requires
        width > 0,
    ensures
        out@.len() == window_count(items@.len() as int, width as int),
        forall|i: int|
            0 <= i < out@.len() ==> (#[trigger] out@[i])@ == items@.subrange(i, i + width),
{
    let n: usize = items.len();
    let mut out: Vec<&'a [T]> = Vec::new();
    if n < width {
        return out;
    }
    let last: usize = n - width;
    let mut i: usize = 0;
    while i <= last
        invariant
            n == items@.len(),
            0 < width <= n,
            last == n - width,
            i <= last + 1,
            out@.len() == i,
            forall|k: int| 0 <= k < i ==> (#[trigger] out@[k])@ == items@.subrange(k, k + width),
        decreases last + 1 - i,
    {
        let window: &'a [T] = &items[i..i + width];
        out.push(window);
        i += 1;
    }
    out
}

/// The sequence cut into consecutive chunks of `size` items; the last chunk
/// holds what is left, between one and `size` items. The chunks, joined,
/// are the sequence.
pub fn chunks<'a, T>(items: &'a [T], size: usize) -> (out: Vec<&'a [T]>)
    requires
        size > 0,
    ensures
        out@.len() == chunk_count(items@.len() as int, size as int),
        joined(out@) == items@,
        forall|i: int|
            0 <= i < out@.len() ==> (#[trigger] out@[i])@ == items@.subrange(
                i * size,
                chunk_end(items@.len() as int, size as int, i),
            ),
        forall|i: int| 0 <= i < out@.len() - 1 ==> (#[trigger] out@[i])@.len() == size,
        out@.len() > 0 ==> 1 <= out@[out@.len() - 1]@.len() <= size,
{
    let n: usize = items.len();
    let mut out: Vec<&'a [T]> = Vec::new();
    let mut start: usize = 0;
    assert(0 * size == 0);
    assert(items@.subrange(0, 0) =~= Seq::<T>::empty());
    while start < n
        invariant
            n == items@.len(),
            size > 0,
            start <= n,
            start < n ==> start == out@.len() * size,
            start == n ==> ((out@.len() - 1) * size < n && n <= out@.len() * size) || (n == 0
                && out@.len() == 0),
            forall|k: int|
                0 <= k < out@.len() ==> (#[trigger] out@[k])@ == items@.subrange(
                    k * size,
                    chunk_end(n as int, size as int, k),
                ),
            forall|k: int| 0 <= k < out@.len() - 1 ==> (#[trigger] out@[k])@.len() == size,
            out@.len() > 0 ==> 1 <= out@[out@.len() - 1]@.len() <= size,
            start < n && out@.len() > 0 ==> out@[out@.len() - 1]@.len() == size,
            joined(out@) == items@.subrange(0, start as int),
        decreases n - start,
    {
        let ghost k = out@.len() as int;
        let ghost done = out@;
        let end: usize = if n - start > size {
            start + size
        } else {
            n
        };
        assert((k + 1) * size == k * size + size) by (nonlinear_arith);
        assert((k + 1 - 1) * size == k * size);
        let chunk: &'a [T] = &items[start..end];
        out.push(chunk);
        proof {
            assert(out@.drop_last() =~= done);
            assert(items@.subrange(0, start as int) + items@.subrange(start as int, end as int)
                =~= items@.subrange(0, end as int));
        }
        start = end;
    }
    proof {
        assert(items@.subrange(0, n as int) =~= items@);
        let k = out@.len() as int;
        if n == 0 {
            assert(k == 0);
            assert((0 + size - 1) / (size as int) == 0) by {
                lemma_fundamental_div_mod_converse(size as int - 1, size as int, 0, size as int - 1);
            }
        } else {
            assert((k - 1) * size + size == k * size) by (nonlinear_arith);
            lemma_fundamental_div_mod_converse(
                n as int + size - 1,
                size as int,
                k,
                n as int - 1 - (k - 1) * size,
            );
        }
    }
    out
}

/// The locations of the points, in order.
pub fn coordinates<P: PointInTime>(points: &[P]) -> (out: Vec<Coordinate>)
    ensures
        out@.len() == points@.len(),
        forall|i: int| 0 <= i < out@.len() ==> #[trigger] out@[i] == points@[i].position(),
{
    let mut out: Vec<Coordinate> = Vec::new();
    let mut i: usize = 0;
    while i < points.len()
        invariant
            i <= points@.len(),
            out@.len() == i,
            forall|k: int| 0 <= k < i ==> #[trigger] out@[k] == points@[k].position(),
        decreases points@.len() - i,
    {
        out.push(points[i].point());
        i += 1;
    }
    out
}

} // verus!
