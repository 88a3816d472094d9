//! Trajectory assembly: from a stream of located posts to one
//! chronological trajectory per author.

use crate::algo::time::{
    at_instant, lemma_chronological_order_is_unique, lemma_keeps_every_point,
    sorted_chronologically, SortChronologically,
};
use crate::algo::PointInTime;
use crate::model::{TrajectoryView, UserTrajectory};
use crate::tweet::User;
use std::collections::HashMap;
use vstd::prelude::*;

verus! {

/// One located post as the assembler sees it: who posted, and the point.
pub struct Sighting<P> {
    pub user_id: u64,
    pub user_name: Seq<char>,
    pub user_screen_name: Seq<char>,
    pub point: P,
}

/// The sighting that handing `user` and `point` to the assembler records.
pub open spec fn sighting<P>(user: User, point: P) -> Sighting<P> {
    Sighting {
        user_id: user.id,
        user_name: user.name@,
        user_screen_name: user.screen_name@,
        point,
    }
}

/// The points of one author, in the order in which the stream brought them.
pub open spec fn points_of<P>(stream: Seq<Sighting<P>>, user_id: u64) -> Seq<P>
    decreases stream.len(),
{
    if stream.len() == 0 {
        Seq::empty()
    } else {
        let earlier = points_of(stream.drop_last(), user_id);
        if stream.last().user_id == user_id {
            earlier.push(stream.last().point)
        } else {
            earlier
        }
    }
}

/// The authors of the stream, each once, in the order of their first post.
pub open spec fn authors<P>(stream: Seq<Sighting<P>>) -> Seq<u64>
    decreases stream.len(),
{
    if stream.len() == 0 {
        Seq::empty()
    } else {
        let earlier = authors(stream.drop_last());
        if earlier.contains(stream.last().user_id) {
            earlier
        } else {
            earlier.push(stream.last().user_id)
        }
    }
}

/// The first sighting of an author. Names are taken from it; what later
/// posts call the author is ignored.
pub open spec fn introduction<P>(stream: Seq<Sighting<P>>, user_id: u64) -> Sighting<P>
    recommends
        authors(stream).contains(user_id),
    decreases stream.len(),
{
    if stream.len() == 0 {
        arbitrary()
    } else if authors(stream.drop_last()).contains(user_id) {
        introduction(stream.drop_last(), user_id)
    } else {
        stream.last()
    }
}

/// Those of `ids` that have at least two points in the stream, in the order
/// of `ids`.
pub open spec fn with_two_points<P>(stream: Seq<Sighting<P>>, ids: Seq<u64>) -> Seq<u64>
    decreases ids.len(),
{
    if ids.len() == 0 {
        Seq::empty()
    } else {
        let earlier = with_two_points(stream, ids.drop_last());
        if points_of(stream, ids.last()).len() >= 2 {
            earlier.push(ids.last())
        } else {
            earlier
        }
    }
}

/// The authors for whom a trajectory is emitted: those with at least two
/// points, in the order of their first post.
pub open spec fn emitted_authors<P>(stream: Seq<Sighting<P>>) -> Seq<u64> {
    with_two_points(stream, authors(stream))
}

/// `trajectory` is what the stream says of `user_id`: named as in the
/// author's first post, with all the author's points, sorted by time, points
/// of the same instant in the order of arrival.
pub open spec fn is_trajectory_of<P: PointInTime>(
    stream: Seq<Sighting<P>>,
    user_id: u64,
    trajectory: TrajectoryView<P>,
) -> bool {
    &&& trajectory.user_id == user_id
    &&& trajectory.user_name == introduction(stream, user_id).user_name
    &&& trajectory.user_screen_name == introduction(stream, user_id).user_screen_name
    &&& sorted_chronologically(points_of(stream, user_id), trajectory.points)
}

/// `out` is the assembly of the stream: one trajectory for each emitted
/// author, in their order.
pub open spec fn assembles_to<P: PointInTime>(
    stream: Seq<Sighting<P>>,
    out: Seq<TrajectoryView<P>>,
) -> bool {
    &&& out.len() == emitted_authors(stream).len()
    &&& forall|i: int|
        0 <= i < out.len() ==> is_trajectory_of(stream, emitted_authors(stream)[i], #[trigger] out[i])
}

/// The views of a vector of trajectories.
pub open spec fn views<P>(trajectories: Seq<UserTrajectory<P>>) -> Seq<TrajectoryView<P>> {
    Seq::new(trajectories.len(), |i: int| trajectories[i]@)
}

/// An author is listed exactly when the stream holds a post of theirs, and
/// then has a point.
pub proof fn lemma_authors_have_points<P>(stream: Seq<Sighting<P>>, user_id: u64)
    ensures
        authors(stream).contains(user_id) <==> points_of(stream, user_id).len() > 0,
    decreases stream.len(),
{
    if stream.len() > 0 {
        let earlier = authors(stream.drop_last());
        lemma_authors_have_points(stream.drop_last(), user_id);
        let last = stream.last().user_id;
        if earlier.contains(user_id) {
            let w = choose|w: int| 0 <= w < earlier.len() && earlier[w] == user_id;
            assert(authors(stream)[w] == user_id);
        } else if last == user_id {
            assert(authors(stream)[earlier.len() as int] == user_id);
        } else {
            if authors(stream).contains(user_id) {
                let w = choose|w: int| 0 <= w < authors(stream).len() && authors(stream)[w] == user_id;
                assert(earlier[w] == user_id);
            }
        }
    }
}

/// No author is listed twice.
pub proof fn lemma_authors_are_distinct<P>(stream: Seq<Sighting<P>>)
    ensures
        authors(stream).no_duplicates(),
    decreases stream.len(),
{
    if stream.len() > 0 {
        lemma_authors_are_distinct(stream.drop_last());
    }
}

/// Only members of `ids` are selected, each in the order of `ids`, and a
/// member is selected exactly when it has two points.
pub proof fn lemma_with_two_points<P>(stream: Seq<Sighting<P>>, ids: Seq<u64>)
    ensures
        forall|u: u64| #[trigger]
            with_two_points(stream, ids).contains(u) <==> ids.contains(u) && points_of(
                stream,
                u,
            ).len() >= 2,
        ids.no_duplicates() ==> with_two_points(stream, ids).no_duplicates(),
    decreases ids.len(),
{
    if ids.len() > 0 {
        let front = ids.drop_last();
        lemma_with_two_points(stream, front);
        let earlier = with_two_points(stream, front);
        let now = with_two_points(stream, ids);
        assert forall|u: u64| #[trigger] now.contains(u) <==> ids.contains(u) && points_of(
            stream,
            u,
        ).len() >= 2 by {
            if now.contains(u) {
                let w = choose|w: int| 0 <= w < now.len() && now[w] == u;
                if w < earlier.len() {
                    assert(earlier[w] == u);
                    assert(earlier.contains(u));
                    let v = choose|v: int| 0 <= v < front.len() && front[v] == u;
                    assert(ids[v] == u);
                } else {
                    assert(ids[ids.len() - 1] == u);
                }
            }
            if ids.contains(u) && points_of(stream, u).len() >= 2 {
                let v = choose|v: int| 0 <= v < ids.len() && ids[v] == u;
                if v < front.len() {
                    assert(front[v] == u);
                    assert(earlier.contains(u));
                    let w = choose|w: int| 0 <= w < earlier.len() && earlier[w] == u;
                    assert(now[w] == u);
                } else {
                    assert(now[now.len() - 1] == u);
                }
            }
        }
        if ids.no_duplicates() {
            assert(front.no_duplicates());
            assert forall|i: int, j: int| 0 <= i < now.len() && 0 <= j < now.len() && i != j implies now[i]
                != now[j] by {
                if i < earlier.len() && j < earlier.len() {
                    assert(earlier[i] != earlier[j]);
                } else {
                    let k = if i < earlier.len() {
                        i
                    } else {
                        j
                    };
                    assert(earlier.contains(earlier[k]));
                    assert(front.contains(earlier[k]));
                    let v = choose|v: int| 0 <= v < front.len() && front[v] == earlier[k];
                    assert(ids[v] != ids[ids.len() - 1]);
                }
            }
        }
    }
}

/// A trajectory is emitted for exactly the authors with at least two points,
/// and for none of them twice.
pub proof fn lemma_emitted_authors<P>(stream: Seq<Sighting<P>>)
    ensures
        forall|u: u64| #[trigger]
            emitted_authors(stream).contains(u) <==> points_of(stream, u).len() >= 2,
        emitted_authors(stream).no_duplicates(),
{
    lemma_authors_are_distinct(stream);
    lemma_with_two_points(stream, authors(stream));
    assert forall|u: u64| #[trigger]
        emitted_authors(stream).contains(u) <==> points_of(stream, u).len() >= 2 by {
        lemma_authors_have_points(stream, u);
    }
}

/// Every assembled trajectory has at least two points, none of them later than
/// its successor, and no two trajectories belong to the same author.
pub proof fn lemma_assembly_is_well_formed<P: PointInTime>(
    stream: Seq<Sighting<P>>,
    out: Seq<TrajectoryView<P>>,
)
    requires
        assembles_to(stream, out),
    ensures
        forall|i: int| 0 <= i < out.len() ==> (#[trigger] out[i]).assembled(),
        forall|i: int, j: int|
            0 <= i < j < out.len() ==> (#[trigger] out[i]).user_id != (#[trigger] out[j]).user_id,
{
    lemma_emitted_authors(stream);
    let emitted = emitted_authors(stream);
    assert forall|i: int| 0 <= i < out.len() implies (#[trigger] out[i]).assembled() by {
        assert(is_trajectory_of(stream, emitted[i], out[i]));
        assert(emitted.contains(emitted[i]));
        lemma_keeps_every_point(points_of(stream, emitted[i]), out[i].points);
    }
    assert forall|i: int, j: int| 0 <= i < j < out.len() implies (#[trigger] out[i]).user_id != (
    #[trigger] out[j]).user_id by {
        assert(is_trajectory_of(stream, emitted[i], out[i]));
        assert(is_trajectory_of(stream, emitted[j], out[j]));
    }
}

/// A stream has one assembly: whichever way the points were gathered and
/// sorted, two results that both assemble the stream are equal.
pub proof fn lemma_assembly_is_unique<P: PointInTime>(
    stream: Seq<Sighting<P>>,
    a: Seq<TrajectoryView<P>>,
    b: Seq<TrajectoryView<P>>,
)
    requires
        assembles_to(stream, a),
        assembles_to(stream, b),
    ensures
        a == b,
{
    let emitted = emitted_authors(stream);
    assert forall|i: int| 0 <= i < a.len() implies a[i] == b[i] by {
        assert(is_trajectory_of(stream, emitted[i], a[i]));
        assert(is_trajectory_of(stream, emitted[i], b[i]));
        let all = points_of(stream, emitted[i]);
        assert forall|t: i64| #[trigger] at_instant(b[i].points, t) == at_instant(a[i].points, t) by {
            assert(at_instant(a[i].points, t) == at_instant(all, t));
            assert(at_instant(b[i].points, t) == at_instant(all, t));
        }
        lemma_chronological_order_is_unique(a[i].points, b[i].points);
    }
    assert(a =~= b);
}

/// Groups located posts by author.
///
/// Posts are handed over one at a time with [`Assembler::push`], in the
/// order of the stream; [`Assembler::finish`] ends the stream and hands out
/// the trajectories. The view of an assembler is the stream so far.
pub struct Assembler<P> {
    /// Where the accumulator of each author stands in `tracks`.
    index: HashMap<u64, usize>,
    /// One accumulator per author, in the order of their first post.
    tracks: Vec<UserTrajectory<P>>,
    stream: Ghost<Seq<Sighting<P>>>,
}

impl<P> View for Assembler<P> {
    type V = Seq<Sighting<P>>;

    closed spec fn view(&self) -> Seq<Sighting<P>> {
        self.stream@
    }
}

/// `track` has gathered what the stream says of `user_id` so far.
spec fn accumulates<P>(stream: Seq<Sighting<P>>, user_id: u64, track: TrajectoryView<P>) -> bool {
    &&& track.user_id == user_id
    &&& track.user_name == introduction(stream, user_id).user_name
    &&& track.user_screen_name == introduction(stream, user_id).user_screen_name
    &&& track.points == points_of(stream, user_id)
}

impl<P> Assembler<P> {
    /// The accumulators hold what the stream so far says of each author.
    /// Every assembler that [`Assembler::new`] made and that was only
    /// handed to the methods below is well formed.
    pub closed spec fn well_formed(&self) -> bool {
        let ids = authors(self.stream@);
        &&& self.tracks@.len() == ids.len()
        &&& forall|i: int|
            0 <= i < ids.len() ==> accumulates(self.stream@, ids[i], #[trigger] self.tracks@[i]@)
        &&& forall|u: u64| #[trigger] self.index@.contains_key(u) <==> ids.contains(u)
        &&& forall|u: u64| #[trigger]
            self.index@.contains_key(u) ==> 0 <= self.index@[u] < ids.len() && ids[self.index@[u] as int]
                == u
    }

    /// An assembler that has seen nothing.
    pub fn new() -> (assembler: Assembler<P>)
        ensures
            assembler.well_formed(),
            assembler@ == Seq::<Sighting<P>>::empty(),
    {
        Assembler { index: HashMap::new(), tracks: Vec::new(), stream: Ghost(Seq::empty()) }
    }

    /// The number of authors seen so far.
    pub fn author_count(&self) -> (n: usize)
        requires
            self.well_formed(),
        ensures
            n == authors(self@).len(),
    {
        self.tracks.len()
    }

    /// Takes the next post of the stream: the point goes to its author's
    /// accumulator, which is created on the author's first post.
    pub fn push(&mut self, user: User, point: P)
        requires
            old(self).well_formed(),
        ensures
            final(self).well_formed(),
            final(self)@ == old(self)@.push(sighting(user, point)),
    {
        broadcast use vstd::std_specs::hash::group_hash_axioms;

        let ghost before = self.stream@;
        let ghost seen = sighting(user, point);
        let ghost after = before.push(seen);
        let ghost ids = authors(before);
        assert(after.drop_last() =~= before);
        let known = self.index.get(&user.id);
        match known {
            Some(slot) => {
                let i: usize = *slot;
                assert(ids[i as int] == user.id);
                self.tracks[i].points.push(point);
                self.stream = Ghost(after);
                proof {
                    lemma_authors_are_distinct(before);
                    assert forall|k: int| 0 <= k < ids.len() implies accumulates(
                        after,
                        ids[k],
                        #[trigger] self.tracks@[k]@,
                    ) by {
                        assert(ids.contains(ids[k]));
                        assert(accumulates(before, ids[k], old(self).tracks@[k]@));
                    }
                }
            },
            None => {
                let id: u64 = user.id;
                let n: usize = self.tracks.len();
                let mut points: Vec<P> = Vec::new();
                points.push(point);
                self.tracks.push(
                    UserTrajectory {
                        user_id: id,
                        user_name: user.name,
                        user_screen_name: user.screen_name,
                        points,
                    },
                );
                self.index.insert(id, n);
                self.stream = Ghost(after);
                proof {
                    assert(!ids.contains(id));
                    lemma_authors_have_points(before, id);
                    assert(points_of(before, id) =~= Seq::<P>::empty());
                    assert(authors(after) == ids.push(id));
                    assert(points@ =~= points_of(after, id));
                    assert forall|k: int| 0 <= k < authors(after).len() implies accumulates(
                        after,
                        authors(after)[k],
                        #[trigger] self.tracks@[k]@,
                    ) by {
                        if k < ids.len() {
                            assert(ids.contains(ids[k]));
                        }
                    }
                    assert forall|u: u64| #[trigger]
                        self.index@.contains_key(u) <==> authors(after).contains(u) by {
                        if u == id {
                            assert(authors(after)[n as int] == id);
                        } else {
                            if ids.contains(u) {
                                let w = choose|w: int| 0 <= w < ids.len() && ids[w] == u;
                                assert(authors(after)[w] == u);
                            }
                            if authors(after).contains(u) {
                                let w = choose|w: int|
                                    0 <= w < authors(after).len() && authors(after)[w] == u;
                                assert(ids[w] == u);
                            }
                        }
                    }
                }
            },
        }
    }

    /// Ends the stream. Authors with fewer than two points are dropped; the
    /// points of every other author are sorted by time.
    pub fn finish(self) -> (out: Vec<UserTrajectory<P>>) where P: PointInTime
        requires
            self.well_formed(),
        ensures
            assembles_to(self@, views(out@)),
            forall|i: int| 0 <= i < out@.len() ==> (#[trigger] out@[i])@.assembled(),
            forall|i: int, j: int|
                0 <= i < j < out@.len() ==> (#[trigger] out@[i]).user_id != (
                #[trigger] out@[j]).user_id,
    {
        let ghost stream = self.stream@;
        let ghost ids = authors(stream);
        let tracks = self.tracks;
        let ghost all = tracks@;
        let mut out: Vec<UserTrajectory<P>> = Vec::new();
        assert(ids.take(0) =~= Seq::<u64>::empty());
        for track in it: tracks.into_iter()
            invariant
                it.seq() == all,
                all.len() == ids.len(),
                ids == authors(stream),
                forall|i: int|
                    0 <= i < ids.len() ==> accumulates(stream, ids[i], #[trigger] all[i]@),
                out@.len() == with_two_points(stream, ids.take(it.index() as int)).len(),
                forall|k: int|
                    0 <= k < out@.len() ==> is_trajectory_of(
                        stream,
                        with_two_points(stream, ids.take(it.index() as int))[k],
                        #[trigger] out@[k]@,
                    ),
        {
            let ghost i = it.index() as int;
            let ghost chosen = with_two_points(stream, ids.take(i));
            let mut track = track;
            proof {
                assert(track == all[i]);
                assert(accumulates(stream, ids[i], all[i]@));
                assert(ids.take(i + 1).drop_last() =~= ids.take(i));
                assert(ids.take(i + 1).last() == ids[i]);
            }
            if track.points.len() >= 2 {
                let ghost done = out@;
                track.points.sort_chronologically();
                out.push(track);
                proof {
                    assert(with_two_points(stream, ids.take(i + 1)) == chosen.push(ids[i]));
                    assert forall|k: int| 0 <= k < out@.len() implies is_trajectory_of(
                        stream,
                        with_two_points(stream, ids.take(i + 1))[k],
                        #[trigger] out@[k]@,
                    ) by {
                        if k < done.len() {
                            assert(out@[k] == done[k]);
                        }
                    }
                }
            } else {
                assert(with_two_points(stream, ids.take(i + 1)) == chosen);
            }
        }
        proof {
            assert(ids.take(ids.len() as int) =~= ids);
            let emitted = emitted_authors(stream);
            assert forall|i: int| 0 <= i < out@.len() implies is_trajectory_of(
                stream,
                emitted[i],
                #[trigger] views(out@)[i],
            ) by {
                assert(views(out@)[i] == out@[i]@);
            }
            lemma_assembly_is_well_formed(stream, views(out@));
            assert forall|i: int| 0 <= i < out@.len() implies (#[trigger] out@[i])@.assembled() by {
                assert(views(out@)[i] == out@[i]@);
            }
            assert forall|i: int, j: int| 0 <= i < j < out@.len() implies (#[trigger] out@[i]).user_id
                != (#[trigger] out@[j]).user_id by {
                assert(views(out@)[i] == out@[i]@);
                assert(views(out@)[j] == out@[j]@);
            }
        }
        out
    }
}

/// The stream that a vector of posts stands for.
pub open spec fn stream_of<P>(posts: Seq<(User, P)>) -> Seq<Sighting<P>> {
    Seq::new(posts.len(), |i: int| sighting(posts[i].0, posts[i].1))
}

/// Assembles a whole stream at once: one trajectory for each author with at
/// least two points, authors in the order of their first post, points in
/// chronological order.
pub fn assemble<P: PointInTime>(posts: Vec<(User, P)>) -> (out: Vec<UserTrajectory<P>>)
    ensures
        assembles_to(stream_of(posts@), views(out@)),
        forall|i: int| 0 <= i < out@.len() ==> (#[trigger] out@[i])@.assembled(),
        forall|i: int, j: int|
            0 <= i < j < out@.len() ==> (#[trigger] out@[i]).user_id != (
            #[trigger] out@[j]).user_id,
{
    let ghost all = posts@;
    let mut assembler: Assembler<P> = Assembler::new();
    assert(stream_of(all).take(0) =~= Seq::<Sighting<P>>::empty());
    for post in it: posts.into_iter()
        invariant
            it.seq() == all,
            assembler.well_formed(),
            assembler@ == stream_of(all).take(it.index() as int),
    {
        let ghost i = it.index() as int;
        let (user, point) = post;
        assembler.push(user, point);
        assert(stream_of(all).take(i + 1) =~= stream_of(all).take(i).push(sighting(user, point)));
    }
    assert(stream_of(all).take(all.len() as int) =~= stream_of(all));
    assembler.finish()
}

} // verus!
