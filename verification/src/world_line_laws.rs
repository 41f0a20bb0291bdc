//! What holds of the world lines of every history.

use vstd::prelude::*;

use crate::instant::spec_instant_lt;
use crate::world_line::{
    clamped_position, first_with_id, is_leap, segments_for, strokes_of, world_lines,
};

verus! {

/// The number of leaps in a history: the strokes created at an earlier virtual
/// time than the stroke before them.
pub open spec fn leap_count(times: Seq<u32>) -> nat
    decreases times.len(),
{
    if times.len() == 0 {
        0
    } else {
        leap_count(times.drop_last()) + if is_leap(times, times.len() - 1) {
            1nat
        } else {
            0nat
        }
    }
}

/// The stroke indices `0 .. n`, in order.
pub open spec fn all_strokes(n: nat) -> Seq<usize> {
    Seq::new(n, |i: int| i as usize)
}

proof fn lemma_world_lines_shape(times: Seq<u32>)
    requires
        times.len() <= usize::MAX,
    ensures
        times.len() == 0 ==> world_lines(times).len() == 0,
        times.len() > 0 ==> world_lines(times).len() == leap_count(times) + 1,
        forall|k: int|
            0 <= k < world_lines(times).len() ==> (#[trigger] world_lines(times)[k]).len() > 0,
        forall|k: int, j: int|
            0 <= k < world_lines(times).len() && 0 <= j < world_lines(times)[k].len() ==> (
            #[trigger] world_lines(times)[k][j]) < times.len(),
        world_lines(times).flatten() == all_strokes(times.len()),
        forall|k: int|
            0 < k < world_lines(times).len() ==> is_leap(
                times,
                (#[trigger] world_lines(times)[k])[0] as int,
            ),
        forall|k: int, j: int|
            0 <= k < world_lines(times).len() && 0 < j < world_lines(times)[k].len() ==> !is_leap(
                times,
                (#[trigger] world_lines(times)[k][j]) as int,
            ),
        forall|k: int, j: int|
            0 <= k < world_lines(times).len() && 0 <= j < world_lines(times)[k].len() ==> leap_count(
                times.take((#[trigger] world_lines(times)[k][j]) as int + 1),
            ) == k,
    decreases times.len(),
{
    let n: nat = times.len();
    if n == 0 {
        assert(world_lines(times).flatten() =~= all_strokes(0));
        return;
    }
    let earlier_times = times.drop_last();
    lemma_world_lines_shape(earlier_times);
    let p = world_lines(earlier_times);
    let w = world_lines(times);
    let i: int = n - 1;
    assert forall|x: int| 0 <= x < n - 1 implies #[trigger] is_leap(times, x) == is_leap(
        earlier_times,
        x,
    ) by {
        if x > 0 {
            assert(times[x] == earlier_times[x]);
            assert(times[x - 1] == earlier_times[x - 1]);
        }
    }
    assert(leap_count(times) == leap_count(earlier_times) + if is_leap(times, i) {
        1nat
    } else {
        0nat
    });
    if earlier_times.len() == 0 {
        assert(leap_count(earlier_times) == 0);
    }
    assert(times.take(n as int) =~= times);
    assert forall|x: int| 0 <= x < n - 1 implies #[trigger] times.take(x + 1) =~= earlier_times.take(
        x + 1,
    ) by {}
    if i == 0 || is_leap(times, i) {
        assert(w == p.push(seq![i as usize]));
        p.lemma_flatten_push(seq![i as usize]);
        assert(w.flatten() =~= all_strokes(n));
        if i == 0 {
            assert(earlier_times.len() == 0);
            assert(!is_leap(times, i));
        }
        assert forall|k: int, j: int| 0 <= k < w.len() && 0 <= j < w[k].len() implies (
        #[trigger] w[k][j]) < n by {
            if k < p.len() {
                assert(w[k] == p[k]);
            }
        }
        assert forall|k: int, j: int| 0 <= k < w.len() && 0 <= j < w[k].len() implies leap_count(
            times.take((#[trigger] w[k][j]) as int + 1),
        ) == k by {
            if k < p.len() {
                assert(w[k] == p[k]);
                assert(p[k][j] < n - 1);
                assert(times.take(p[k][j] as int + 1) == earlier_times.take(p[k][j] as int + 1));
            } else {
                assert(w[k][j] == i);
            }
        }
        assert forall|k: int| 0 < k < w.len() implies is_leap(times, (#[trigger] w[k])[0] as int) by {
            if k < p.len() {
                assert(w[k] == p[k]);
                assert(p[k][0] < n - 1);
            }
        }
        assert forall|k: int, j: int| 0 <= k < w.len() && 0 < j < w[k].len() implies !is_leap(
            times,
            (#[trigger] w[k][j]) as int,
        ) by {
            assert(k < p.len());
            assert(w[k] == p[k]);
            assert(p[k][j] < n - 1);
        }
    } else {
        assert(p.len() > 0) by {
            assert(p.flatten().len() == n - 1);
            if p.len() == 0 {
                assert(p.flatten() =~= Seq::<usize>::empty());
            }
        }
        let last: int = p.len() - 1;
        let q = p.drop_last();
        let grown = p.last().push(i as usize);
        assert(w == p.update(last, grown));
        assert(w =~= q.push(grown));
        assert(p =~= q.push(p.last()));
        q.lemma_flatten_push(grown);
        q.lemma_flatten_push(p.last());
        assert(p.flatten() == q.flatten() + p.last());
        assert(q.flatten() + grown =~= (q.flatten() + p.last()).push(i as usize));
        assert(w.flatten() =~= all_strokes(n));
        assert forall|k: int, j: int| 0 <= k < w.len() && 0 <= j < w[k].len() implies (
        #[trigger] w[k][j]) < n by {
            if k < last {
                assert(w[k] == p[k]);
            } else if j < p[last].len() {
                assert(w[k][j] == p[last][j]);
            }
        }
        assert forall|k: int, j: int| 0 <= k < w.len() && 0 <= j < w[k].len() implies leap_count(
            times.take((#[trigger] w[k][j]) as int + 1),
        ) == k by {
            if k < last {
                assert(w[k] == p[k]);
                assert(p[k][j] < n - 1);
                assert(times.take(p[k][j] as int + 1) == earlier_times.take(p[k][j] as int + 1));
            } else if j < p[last].len() {
                assert(w[k][j] == p[last][j]);
                assert(p[last][j] < n - 1);
                assert(times.take(p[last][j] as int + 1) == earlier_times.take(p[last][j] as int + 1));
            } else {
                assert(w[k][j] == i);
            }
        }
        assert forall|k: int| 0 < k < w.len() implies is_leap(times, (#[trigger] w[k])[0] as int) by {
            assert(w[k][0] == p[k][0]);
            assert(p[k][0] < n - 1);
        }
        assert forall|k: int, j: int| 0 <= k < w.len() && 0 < j < w[k].len() implies !is_leap(
            times,
            (#[trigger] w[k][j]) as int,
        ) by {
            if k < last {
                assert(w[k] == p[k]);
                assert(p[k][j] < n - 1);
            } else if j < p[last].len() {
                assert(w[k][j] == p[last][j]);
                assert(p[last][j] < n - 1);
            } else {
                assert(w[k][j] == i);
            }
        }
    }
}

/// Every history splits into world lines exactly at its leaps: read one after
/// the other, the world lines list every stroke once and in order; none of them
/// is empty; each world line but the first starts at a leap, and no stroke
/// inside a world line is a leap. So the world line of a stroke is numbered by
/// the count of leaps up to and including that stroke.
pub proof fn lemma_world_lines_split_at_leaps(times: Seq<u32>)
    requires
        times.len() <= usize::MAX,
    ensures
        world_lines(times).flatten() == all_strokes(times.len()),
        forall|k: int|
            0 <= k < world_lines(times).len() ==> (#[trigger] world_lines(times)[k]).len() > 0,
        forall|k: int|
            0 < k < world_lines(times).len() ==> is_leap(
                times,
                (#[trigger] world_lines(times)[k])[0] as int,
            ),
        forall|k: int, j: int|
            0 <= k < world_lines(times).len() && 0 < j < world_lines(times)[k].len() ==> !is_leap(
                times,
                (#[trigger] world_lines(times)[k][j]) as int,
            ),
        forall|k: int, j: int|
            0 <= k < world_lines(times).len() && 0 <= j < world_lines(times)[k].len() ==> leap_count(
                times.take((#[trigger] world_lines(times)[k][j]) as int + 1),
            ) == k,
        forall|k: int|
            0 < k < world_lines(times).len() ==> {
                let x = (#[trigger] world_lines(times)[k])[0] as int;
                0 < x && spec_instant_lt(times[x], times[x - 1])
            },
        forall|k: int, j: int|
            0 <= k < world_lines(times).len() && 0 < j < world_lines(times)[k].len() ==> {
                let x = (#[trigger] world_lines(times)[k][j]) as int;
                x == 0 || !spec_instant_lt(times[x], times[x - 1])
            },
{
    lemma_world_lines_shape(times);
}

/// A leap is exactly a stroke created at an earlier virtual time than the
/// stroke before it.
pub proof fn lemma_leap_is_backward_step(times: Seq<u32>, i: int)
    requires
        0 < i < times.len(),
    ensures
        is_leap(times, i) <==> spec_instant_lt(times[i], times[i - 1]),
{
}

/// The lookup by identifier gives the strokes of the first segment that carries
/// the identifier, and nothing when no segment carries it.
pub proof fn lemma_strokes_of_first_match(segments: Seq<(usize, Seq<usize>)>, id: usize, i: int)
    ensures
        0 <= i < segments.len() && segments[i].0 == id && (forall|j: int|
            0 <= j < i ==> segments[j].0 != id) ==> strokes_of(segments, id) == segments[i].1,
        (forall|j: int| 0 <= j < segments.len() ==> segments[j].0 != id) ==> strokes_of(
            segments,
            id,
        ) == Seq::<usize>::empty(),
{
    if 0 <= i < segments.len() && segments[i].0 == id && (forall|j: int|
        0 <= j < i ==> segments[j].0 != id) {
        assert(first_with_id(segments, id, i));
        let c: int = choose|c: int| first_with_id(segments, id, c);
        if c < i {
            assert(segments[c].0 != id);
        } else if c > i {
            assert(segments[i].0 != id);
        }
    }
    if forall|j: int| 0 <= j < segments.len() ==> segments[j].0 != id {
        assert forall|c: int| !first_with_id(segments, id, c) by {
            if 0 <= c < segments.len() {
                assert(segments[c].0 != id);
            }
        }
    }
}

/// A position within range is kept as it is; a position beyond the end goes to
/// the last position.
pub proof fn lemma_clamped_position_keeps_positions_in_range(len: nat, index: usize)
    ensures
        index < len ==> clamped_position(len, index) == index as int,
        index >= len && len > 0 ==> clamped_position(len, index) == len - 1,
{
}

/// A manager holds one world line more than its history has leaps, and a
/// single one for an empty history; the world lines are numbered by position,
/// and each holds the strokes of the corresponding world line of the history.
pub proof fn lemma_segments_for_shape(times: Seq<u32>)
    requires
        times.len() <= usize::MAX,
    ensures
        times.len() == 0 ==> segments_for(times).len() == 1,
        times.len() > 0 ==> segments_for(times).len() == leap_count(times) + 1,
        forall|k: int|
            0 <= k < segments_for(times).len() ==> (#[trigger] segments_for(times)[k]).0 == k,
        times.len() > 0 ==> forall|k: int|
            0 <= k < segments_for(times).len() ==> (#[trigger] segments_for(times)[k]).1
                == world_lines(times)[k],
{
    lemma_world_lines_shape(times);
    if times.len() > 0 {
        assert(leap_count(times) + 1 <= times.len()) by {
            lemma_leap_count_bound(times);
        }
    }
}

proof fn lemma_leap_count_bound(times: Seq<u32>)
    ensures
        times.len() > 0 ==> leap_count(times) < times.len(),
    decreases times.len(),
{
    if times.len() > 1 {
        lemma_leap_count_bound(times.drop_last());
    } else if times.len() == 1 {
        assert(!is_leap(times, 0));
        assert(times.drop_last().len() == 0);
        assert(leap_count(times.drop_last()) == 0);
    }
}

/// Looking a world line up by its number, once the segments of a history are
/// computed, gives the world line at that position, and nothing for a number
/// past the last one.
pub proof fn lemma_lookup_by_number(times: Seq<u32>, id: usize)
    requires
        times.len() <= usize::MAX,
    ensures
        id < segments_for(times).len() ==> strokes_of(segments_for(times), id)
            == segments_for(times)[id as int].1,
        id >= segments_for(times).len() ==> strokes_of(segments_for(times), id) == Seq::<
            usize,
        >::empty(),
{
    lemma_segments_for_shape(times);
    let segs = segments_for(times);
    if id < segs.len() {
        assert(segs[id as int].0 == id);
        assert(first_with_id(segs, id, id as int));
        let c: int = choose|c: int| first_with_id(segs, id, c);
        assert(segs[c].0 == c);
        assert(c == id);
    } else {
        assert forall|c: int| !first_with_id(segs, id, c) by {
            if 0 <= c < segs.len() {
                assert(segs[c].0 == c);
            }
        }
    }
}

/// Drawing one more stroke and computing the segments again keeps every
/// earlier world line as it was: the new stroke either opens a new world line
/// of its own, when it leaps back in time, or joins the last one.
pub proof fn lemma_new_stroke_extends_world_lines(times: Seq<u32>, t: u32)
    requires
        times.len() < usize::MAX,
    ensures
        times.len() == 0 ==> segments_for(times.push(t)) == seq![(0usize, seq![0usize])],
        times.len() > 0 && is_leap(times.push(t), times.len() as int) ==> segments_for(times.push(t))
            == segments_for(times).push(
            (segments_for(times).len() as usize, seq![times.len() as usize]),
        ),
        times.len() > 0 && !is_leap(times.push(t), times.len() as int) ==> segments_for(
            times.push(t),
        ) == segments_for(times).update(
            segments_for(times).len() - 1,
            (
                (segments_for(times).len() - 1) as usize,
                segments_for(times).last().1.push(times.len() as usize),
            ),
        ),
{
    let longer = times.push(t);
    assert(longer.drop_last() =~= times);
    lemma_world_lines_shape(times);
    lemma_world_lines_shape(longer);
    let old_segs = segments_for(times);
    let new_segs = segments_for(longer);
    if times.len() == 0 {
        assert(world_lines(longer) =~~= seq![seq![0usize]]);
        assert(new_segs =~~= seq![(0usize, seq![0usize])]);
    } else if is_leap(longer, times.len() as int) {
        assert(new_segs =~= old_segs.push((old_segs.len() as usize, seq![times.len() as usize])));
    } else {
        assert(new_segs =~= old_segs.update(
            old_segs.len() - 1,
            ((old_segs.len() - 1) as usize, old_segs.last().1.push(times.len() as usize)),
        ));
    }
}

/// A fresh manager is in the state that computing the segments of an empty
/// history leads to.
pub proof fn lemma_fresh_is_empty_history()
    ensures
        segments_for(Seq::<u32>::empty()) == seq![(0usize, Seq::<usize>::empty())],
{
}

} // verus!
