//! Chronological order: what it means for a sequence of points, and a sort
//! that establishes it without disturbing points that share an instant.

use crate::algo::PointInTime;
use std::collections::VecDeque;
use vstd::prelude::*;
use vstd::relations::{sorted_by, total_ordering};
use vstd::seq_lib::lemma_sorted_unique;

verus! {

/// No point of `s` is later than a point that follows it.
pub open spec fn chronological<P: PointInTime>(s: Seq<P>) -> bool {
    forall|i: int, j: int| 0 <= i <= j < s.len() ==> s[i].instant() <= s[j].instant()
}

/// The points of `s` that were recorded at instant `t`, in the order in
/// which they stand in `s`.
pub open spec fn at_instant<P: PointInTime>(s: Seq<P>, t: i64) -> Seq<P>
    decreases s.len(),
{
    if s.len() == 0 {
        Seq::empty()
    } else {
        let earlier = at_instant(s.drop_last(), t);
        if s.last().instant() == t {
            earlier.push(s.last())
        } else {
            earlier
        }
    }
}

/// `after` holds exactly the points of `before`, and points that share an
/// instant stand in `after` in the order they had in `before`.
pub open spec fn keeps_simultaneous_order<P: PointInTime>(before: Seq<P>, after: Seq<P>) -> bool {
    forall|t: i64| #[trigger] at_instant(after, t) == at_instant(before, t)
}

/// `after` is `before` put in chronological order by a stable sort.
pub open spec fn sorted_chronologically<P: PointInTime>(before: Seq<P>, after: Seq<P>) -> bool {
    &&& chronological(after)
    &&& keeps_simultaneous_order(before, after)
}

/// Appending a point appends it to the points of its own instant and
/// leaves every other instant alone.
pub proof fn lemma_at_instant_push<P: PointInTime>(s: Seq<P>, p: P, t: i64)
    ensures
        at_instant(s.push(p), t) == if p.instant() == t {
            at_instant(s, t).push(p)
        } else {
            at_instant(s, t)
        },
{
    assert(s.push(p).drop_last() =~= s);
}

/// The points of an instant in a concatenation are those of the first part
/// followed by those of the second.
pub proof fn lemma_at_instant_concat<P: PointInTime>(a: Seq<P>, b: Seq<P>, t: i64)
    ensures
        at_instant(a + b, t) == at_instant(a, t) + at_instant(b, t),
    decreases b.len(),
{
    if b.len() == 0 {
        assert(a + b =~= a);
        assert(at_instant(a, t) + at_instant(b, t) =~= at_instant(a, t));
    } else {
        lemma_at_instant_concat(a, b.drop_last(), t);
        assert((a + b).drop_last() =~= a + b.drop_last());
        assert((a + b).last() == b.last());
        if b.last().instant() == t {
            assert((at_instant(a, t) + at_instant(b.drop_last(), t)).push(b.last()) =~= at_instant(
                a,
                t,
            ) + at_instant(b.drop_last(), t).push(b.last()));
        }
    }
}

/// Every point found at instant `t` was recorded at `t` and stands in `s`.
pub proof fn lemma_at_instant_members<P: PointInTime>(s: Seq<P>, t: i64)
    ensures
        at_instant(s, t).len() <= s.len(),
        forall|k: int|
            0 <= k < at_instant(s, t).len() ==> (#[trigger] at_instant(s, t)[k]).instant() == t
                && s.contains(at_instant(s, t)[k]),
    decreases s.len(),
{
    if s.len() > 0 {
        lemma_at_instant_members(s.drop_last(), t);
        let earlier = at_instant(s.drop_last(), t);
        assert forall|k: int| 0 <= k < at_instant(s, t).len() implies (#[trigger] at_instant(
            s,
            t,
        )[k]).instant() == t && s.contains(at_instant(s, t)[k]) by {
            if k < earlier.len() {
                let p = earlier[k];
                assert(s.drop_last().contains(p));
                let w = choose|w: int| 0 <= w < s.drop_last().len() && s.drop_last()[w] == p;
                assert(s[w] == p);
            } else {
                assert(at_instant(s, t)[k] == s[s.len() - 1]);
            }
        }
    }
}

/// Every point of `s` is found at its own instant.
pub proof fn lemma_at_instant_finds<P: PointInTime>(s: Seq<P>, i: int)
    requires
        0 <= i < s.len(),
    ensures
        at_instant(s, s[i].instant()).contains(s[i]),
    decreases s.len(),
{
    let t = s[i].instant();
    if i == s.len() - 1 {
        let found = at_instant(s, t);
        assert(found[found.len() - 1] == s[i]);
    } else {
        lemma_at_instant_finds(s.drop_last(), i);
        let earlier = at_instant(s.drop_last(), t);
        let w = choose|w: int| 0 <= w < earlier.len() && earlier[w] == s[i];
        assert(at_instant(s, t)[w] == s[i]);
    }
}

/// A sequence has one chronological arrangement that keeps simultaneous
/// points in order: two such arrangements of the same points are equal.
pub proof fn lemma_chronological_order_is_unique<P: PointInTime>(a: Seq<P>, b: Seq<P>)
    requires
        chronological(a),
        chronological(b),
        keeps_simultaneous_order(a, b),
    ensures
        a == b,
    decreases a.len(),
{
    if a.len() == 0 {
        if b.len() > 0 {
            lemma_at_instant_finds(b, 0);
            assert(at_instant(b, b[0].instant()) == at_instant(a, b[0].instant()));
        }
        assert(a =~= b);
    } else {
        let m = a.last().instant();
        assert(at_instant(b, m) == at_instant(a, m));
        assert(at_instant(a, m).last() == a.last());
        assert(b.len() > 0);
        let n = b.last().instant();
        assert(at_instant(b, n) == at_instant(a, n));
        assert(at_instant(b, n).last() == b.last());
        // the latest instant of one is an instant of the other
        lemma_at_instant_members(a, n);
        lemma_at_instant_members(b, m);
        let pa = at_instant(a, n)[0];
        assert(a.contains(pa));
        let ia = choose|i: int| 0 <= i < a.len() && a[i] == pa;
        assert(a[ia].instant() <= a[a.len() - 1].instant());
        let pb = at_instant(b, m)[0];
        assert(b.contains(pb));
        let ib = choose|i: int| 0 <= i < b.len() && b[i] == pb;
        assert(b[ib].instant() <= b[b.len() - 1].instant());
        assert(m == n);
        assert(a.last() == b.last());
        let a0 = a.drop_last();
        let b0 = b.drop_last();
        assert forall|t: i64| #[trigger] at_instant(b0, t) == at_instant(a0, t) by {
            assert(at_instant(b, t) == at_instant(a, t));
            if t == m {
                assert(at_instant(a0, t) =~= at_instant(a0, t).push(a.last()).drop_last());
                assert(at_instant(b0, t) =~= at_instant(b0, t).push(b.last()).drop_last());
            }
        }
        assert(chronological(a0)) by {
            assert forall|i: int, j: int| 0 <= i <= j < a0.len() implies a0[i].instant()
                <= a0[j].instant() by {
                assert(a[i].instant() <= a[j].instant());
            }
        }
        assert(chronological(b0)) by {
            assert forall|i: int, j: int| 0 <= i <= j < b0.len() implies b0[i].instant()
                <= b0[j].instant() by {
                assert(b[i].instant() <= b[j].instant());
            }
        }
        lemma_chronological_order_is_unique(a0, b0);
        assert(a =~= a0.push(a.last()));
        assert(b =~= b0.push(b.last()));
    }
}

/// Sorting what is already chronological changes nothing: whatever way a
/// sort breaks ties among simultaneous points, if it keeps them in order it
/// hands a chronological sequence back as it was.
pub proof fn lemma_sort_is_idempotent<P: PointInTime>(before: Seq<P>, after: Seq<P>)
    requires
        chronological(before),
        sorted_chronologically(before, after),
    ensures
        after == before,
{
    lemma_chronological_order_is_unique(before, after);
}

/// The same holds of any sort whose order is total: if a tie-break makes
/// `precedes` a total order, a sequence that is sorted by it is the only
/// sorted arrangement of its points, so sorting it again changes nothing.
pub proof fn lemma_total_order_sort_is_idempotent<P>(
    before: Seq<P>,
    after: Seq<P>,
    precedes: spec_fn(P, P) -> bool,
)
    requires
        total_ordering(precedes),
        sorted_by(before, precedes),
        sorted_by(after, precedes),
        after.to_multiset() == before.to_multiset(),
    ensures
        after == before,
{
    lemma_sorted_unique(after, before, precedes);
}

/// How often `p` occurs among the points of instant `t`: as often as in the
/// whole sequence if `t` is its instant, and not at all otherwise.
proof fn lemma_at_instant_count<P: PointInTime>(s: Seq<P>, t: i64, p: P)
    ensures
        at_instant(s, t).to_multiset().count(p) == if p.instant() == t {
            s.to_multiset().count(p)
        } else {
            0
        },
    decreases s.len(),
{
    broadcast use vstd::seq_lib::group_to_multiset_ensures;

    if s.len() == 0 {
        assert(at_instant(s, t) =~= Seq::<P>::empty());
        assert(s =~= Seq::<P>::empty());
    } else {
        let rest = s.drop_last();
        lemma_at_instant_count(rest, t, p);
        assert(s =~= rest.push(s.last()));
        assert(rest.push(s.last()).to_multiset() =~= rest.to_multiset().insert(s.last()));
        if s.last().instant() == t {
            let earlier = at_instant(rest, t);
            assert(earlier.push(s.last()).to_multiset() =~= earlier.to_multiset().insert(
                s.last(),
            ));
        }
    }
}

/// An arrangement that keeps simultaneous points in order is a permutation:
/// it holds every point as often as the sequence it was made from.
pub proof fn lemma_keeps_every_point<P: PointInTime>(before: Seq<P>, after: Seq<P>)
    requires
        keeps_simultaneous_order(before, after),
    ensures
        after.to_multiset() == before.to_multiset(),
        after.len() == before.len(),
{
    broadcast use vstd::seq_lib::group_to_multiset_ensures;

    assert forall|p: P| after.to_multiset().count(p) == before.to_multiset().count(p) by {
        let t = p.instant();
        lemma_at_instant_count(after, t, p);
        lemma_at_instant_count(before, t, p);
        assert(at_instant(after, t) == at_instant(before, t));
    }
    assert(after.to_multiset() =~= before.to_multiset());
    after.to_multiset_ensures();
    before.to_multiset_ensures();
}

/// Merges two chronological queues into one, taking from `front` first
/// whenever the two heads share an instant.
fn merge<P: PointInTime>(front: VecDeque<P>, back: VecDeque<P>) -> (merged: VecDeque<P>)
    requires
        chronological(front@),
        chronological(back@),
    ensures
        chronological(merged@),
        forall|t: i64| #[trigger]
            at_instant(merged@, t) == at_instant(front@, t) + at_instant(back@, t),
{
    let ghost a0 = front@;
    let ghost b0 = back@;
    let mut front = front;
    let mut back = back;
    let mut out: VecDeque<P> = VecDeque::new();
    assert forall|t: i64| #[trigger]
        at_instant(out@, t) + at_instant(front@, t) + at_instant(back@, t) == at_instant(a0, t)
            + at_instant(b0, t) by {
        assert(at_instant(out@, t) + at_instant(a0, t) =~= at_instant(a0, t));
    }
    while front.len() > 0 && back.len() > 0
        invariant
            chronological(front@),
            chronological(back@),
            chronological(out@),
            forall|i: int, j: int|
                0 <= i < out@.len() && 0 <= j < front@.len() ==> out@[i].instant()
                    <= front@[j].instant(),
            forall|i: int, j: int|
                0 <= i < out@.len() && 0 <= j < back@.len() ==> out@[i].instant()
                    <= back@[j].instant(),
            forall|t: i64| #[trigger]
                at_instant(out@, t) + at_instant(front@, t) + at_instant(back@, t) == at_instant(
                    a0,
                    t,
                ) + at_instant(b0, t),
        decreases front@.len() + back@.len(),
    {
        let ghost out0 = out@;
        let ghost f0 = front@;
        let ghost k0 = back@;
        if front[0].timestamp() <= back[0].timestamp() {
            let p = front.pop_front().unwrap();
            out.push_back(p);
            proof {
                assert(f0 =~= seq![p] + front@);
                assert forall|t: i64| #[trigger]
                    at_instant(out@, t) + at_instant(front@, t) + at_instant(back@, t)
                        == at_instant(a0, t) + at_instant(b0, t) by {
                    lemma_at_instant_push(out0, p, t);
                    lemma_at_instant_concat(seq![p], front@, t);
                    lemma_at_instant_push(Seq::<P>::empty(), p, t);
                    assert(seq![p] =~= Seq::<P>::empty().push(p));
                    assert(at_instant(out0, t) + at_instant(f0, t) + at_instant(k0, t)
                        == at_instant(a0, t) + at_instant(b0, t));
                    assert(at_instant(out@, t) + at_instant(front@, t) =~= at_instant(out0, t)
                        + at_instant(f0, t));
                }
                assert forall|i: int, j: int| 0 <= i <= j < front@.len() implies front@[i].instant()
                    <= front@[j].instant() by {
                    assert(f0[i + 1].instant() <= f0[j + 1].instant());
                }
                assert forall|i: int, j: int| 0 <= i <= j < out@.len() implies out@[i].instant()
                    <= out@[j].instant() by {
                    if j < out0.len() {
                        assert(out0[i].instant() <= out0[j].instant());
                    } else if i < out0.len() {
                        assert(out0[i].instant() <= f0[0].instant());
                    }
                }
                assert forall|i: int, j: int|
                    0 <= i < out@.len() && 0 <= j < front@.len() implies out@[i].instant()
                    <= front@[j].instant() by {
                    if i < out0.len() {
                        assert(out0[i].instant() <= f0[j + 1].instant());
                    } else {
                        assert(f0[0].instant() <= f0[j + 1].instant());
                    }
                }
                assert forall|i: int, j: int|
                    0 <= i < out@.len() && 0 <= j < back@.len() implies out@[i].instant()
                    <= back@[j].instant() by {
                    if i < out0.len() {
                        assert(out0[i].instant() <= k0[j].instant());
                    } else {
                        assert(k0[0].instant() <= k0[j].instant());
                    }
                }
            }
        } else {
            let p = back.pop_front().unwrap();
            out.push_back(p);
            proof {
                assert(k0 =~= seq![p] + back@);
                assert forall|t: i64| #[trigger]
                    at_instant(out@, t) + at_instant(front@, t) + at_instant(back@, t)
                        == at_instant(a0, t) + at_instant(b0, t) by {
                    lemma_at_instant_push(out0, p, t);
                    lemma_at_instant_concat(seq![p], back@, t);
                    lemma_at_instant_push(Seq::<P>::empty(), p, t);
                    assert(seq![p] =~= Seq::<P>::empty().push(p));
                    assert(at_instant(out0, t) + at_instant(f0, t) + at_instant(k0, t)
                        == at_instant(a0, t) + at_instant(b0, t));
                    if p.instant() == t {
                        // nothing that is left in front was recorded at t
                        lemma_at_instant_members(f0, t);
                        if at_instant(f0, t).len() > 0 {
                            let q = at_instant(f0, t)[0];
                            assert(f0.contains(q));
                            let w = choose|w: int| 0 <= w < f0.len() && f0[w] == q;
                            assert(f0[0].instant() <= f0[w].instant());
                        }
                        assert(at_instant(f0, t) =~= Seq::<P>::empty());
                        assert(at_instant(out@, t) + at_instant(front@, t) + at_instant(back@, t)
                            =~= at_instant(out0, t) + at_instant(f0, t) + at_instant(k0, t));
                    } else {
                        assert(at_instant(back@, t) =~= at_instant(k0, t));
                    }
                }
                assert forall|i: int, j: int| 0 <= i <= j < back@.len() implies back@[i].instant()
                    <= back@[j].instant() by {
                    assert(k0[i + 1].instant() <= k0[j + 1].instant());
                }
                assert forall|i: int, j: int| 0 <= i <= j < out@.len() implies out@[i].instant()
                    <= out@[j].instant() by {
                    if j < out0.len() {
                        assert(out0[i].instant() <= out0[j].instant());
                    } else if i < out0.len() {
                        assert(out0[i].instant() <= k0[0].instant());
                    }
                }
                assert forall|i: int, j: int|
                    0 <= i < out@.len() && 0 <= j < back@.len() implies out@[i].instant()
                    <= back@[j].instant() by {
                    if i < out0.len() {
                        assert(out0[i].instant() <= k0[j + 1].instant());
                    } else {
                        assert(k0[0].instant() <= k0[j + 1].instant());
                    }
                }
                assert forall|i: int, j: int|
                    0 <= i < out@.len() && 0 <= j < front@.len() implies out@[i].instant()
                    <= front@[j].instant() by {
                    if i < out0.len() {
                        assert(out0[i].instant() <= f0[j].instant());
                    } else {
                        assert(f0[0].instant() <= f0[j].instant());
                    }
                }
            }
        }
    }
    let ghost out0 = out@;
    let ghost f0 = front@;
    let ghost k0 = back@;
    out.append(&mut front);
    out.append(&mut back);
    proof {
        assert(out@ =~= out0 + f0 + k0);
        assert forall|t: i64| #[trigger]
            at_instant(out@, t) == at_instant(a0, t) + at_instant(b0, t) by {
            lemma_at_instant_concat(out0 + f0, k0, t);
            lemma_at_instant_concat(out0, f0, t);
            assert(at_instant(out0, t) + at_instant(f0, t) + at_instant(k0, t) == at_instant(a0, t)
                + at_instant(b0, t));
        }
        assert forall|i: int, j: int| 0 <= i <= j < out@.len() implies out@[i].instant()
            <= out@[j].instant() by {
            // one of the two rests is empty
            if j < out0.len() {
                assert(out0[i].instant() <= out0[j].instant());
            } else if f0.len() > 0 {
                if i < out0.len() {
                    assert(out0[i].instant() <= f0[j - out0.len()].instant());
                } else {
                    assert(f0[i - out0.len()].instant() <= f0[j - out0.len()].instant());
                }
            } else {
                if i < out0.len() {
                    assert(out0[i].instant() <= k0[j - out0.len()].instant());
                } else {
                    assert(k0[i - out0.len()].instant() <= k0[j - out0.len()].instant());
                }
            }
        }
    }
    out
}

/// Merge sort on a queue.
fn sort_queue<P: PointInTime>(queue: VecDeque<P>) -> (sorted: VecDeque<P>)
    ensures
        sorted_chronologically(queue@, sorted@),
    decreases queue@.len(),
{
    let ghost all = queue@;
    let mut queue = queue;
    let n: usize = queue.len();
    if n <= 1 {
        return queue;
    }
    let back = queue.split_off(n / 2);
    let ghost first_half = queue@;
    let ghost second_half = back@;
    let front = sort_queue(queue);
    let back = sort_queue(back);
    let merged = merge(front, back);
    proof {
        assert(all =~= first_half + second_half);
        assert forall|t: i64| #[trigger] at_instant(merged@, t) == at_instant(all, t) by {
            lemma_at_instant_concat(first_half, second_half, t);
            assert(at_instant(front@, t) == at_instant(first_half, t));
            assert(at_instant(back@, t) == at_instant(second_half, t));
        }
    }
    merged
}

/// Whether no point is later than its successor.
pub fn is_chronological<P: PointInTime>(points: &[P]) -> (ordered: bool)
    ensures
        ordered == chronological(points@),
{
    let n: usize = points.len();
    if n < 2 {
        return true;
    }
    let mut i: usize = 1;
    while i < n
        invariant
            n == points@.len(),
            1 <= i <= n,
            forall|j: int, k: int| 0 <= j <= k < i ==> points@[j].instant() <= points@[k].instant(),
        decreases n - i,
    {
        if points[i - 1].timestamp() > points[i].timestamp() {
            return false;
        }
        proof {
            assert forall|j: int, k: int| 0 <= j <= k < i + 1 implies points@[j].instant()
                <= points@[k].instant() by {
                if k == i && j < i {
                    assert(points@[j].instant() <= points@[i - 1].instant());
                }
            }
        }
        i += 1;
    }
    true
}

/// Sorting by time, in place.
pub trait SortChronologically {
    /// The kind of point that is sorted.
    type Point: PointInTime;

    /// The points, in the order in which they stand.
    spec fn points(&self) -> Seq<Self::Point>;

    /// Puts the points in chronological order. The sort is stable: points
    /// that share an instant keep the order in which they stood.
    fn sort_chronologically(&mut self)
        ensures
            sorted_chronologically(old(self).points(), final(self).points()),
    ;
}

impl<P: PointInTime> SortChronologically for Vec<P> {
    type Point = P;

    open spec fn points(&self) -> Seq<P> {
        self@
    }

    /// Merge sort. Besides what every implementation promises: the vector
    /// holds the same points as before, and one that was chronological is
    /// left as it was.
    fn sort_chronologically(&mut self)
        ensures
            final(self)@.to_multiset() == old(self)@.to_multiset(),
            final(self)@.len() == old(self)@.len(),
            chronological(old(self)@) ==> final(self)@ == old(self)@,
    {
        let ghost before = self@;
        let mut queue: VecDeque<P> = VecDeque::new();
        while self.len() > 0
            invariant
                self@ + queue@ == before,
            decreases self@.len(),
        {
            let ghost rest = self@;
            let ghost moved = queue@;
            let p = self.pop().unwrap();
            queue.push_front(p);
            assert(self@ + queue@ =~= rest + moved);
        }
        assert(queue@ =~= before);
        let mut queue = sort_queue(queue);
        let ghost after = queue@;
        while queue.len() > 0
            invariant
                self@ + queue@ == after,
            decreases queue@.len(),
        {
            let ghost done = self@;
            let ghost rest = queue@;
            let p = queue.pop_front().unwrap();
            self.push(p);
            assert(self@ + queue@ =~= done + rest);
        }
        assert(self@ =~= after);
        proof {
            lemma_keeps_every_point(before, after);
            if chronological(before) {
                lemma_sort_is_idempotent(before, after);
            }
        }
    }
}

} // verus!
