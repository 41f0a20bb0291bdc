//! World lines: the history of strokes, cut into segments wherever the
//! virtual time leaps backwards.

use vstd::prelude::*;

use crate::instant::{instant_lt, spec_instant_lt};

verus! {

/// One world line: an identifier and the indices of the strokes drawn on it.
#[derive(Debug, Clone)]
pub struct Segment {
    pub id: usize,
    pub stroke_indices: Vec<usize>,
}

impl View for Segment {
    type V = (usize, Seq<usize>);

    open spec fn view(&self) -> (usize, Seq<usize>) {
        (self.id, self.stroke_indices@)
    }
}

/// The world lines of a memo, in the order in which they branched off.
#[derive(Debug)]
pub struct WorldLineManager {
    pub segments: Vec<Segment>,
    next_segment_id: usize,
}

impl View for WorldLineManager {
    type V = Seq<(usize, Seq<usize>)>;

    closed spec fn view(&self) -> Seq<(usize, Seq<usize>)> {
        self.segments@.map_values(|s: Segment| s@)
    }
}

/// A timeline marker for one world line: its identifier and whether it is the
/// world line that is currently active.
#[derive(Debug, Clone, Copy)]
pub struct SegmentMarker {
    pub id: usize,
    pub highlighted: bool,
}

/// Stroke `i` was created at an earlier virtual time than stroke `i - 1`:
/// the history leaps back in time there.
pub open spec fn is_leap(times: Seq<u32>, i: int) -> bool {
    &&& 0 < i < times.len()
    &&& spec_instant_lt(times[i], times[i - 1])
}

/// The world lines of a history whose `i`-th stroke was created at virtual
/// time `times[i]`: the stroke indices `0 .. times.len()` in order, with a new
/// world line started at every leap.
pub open spec fn world_lines(times: Seq<u32>) -> Seq<Seq<usize>>
    decreases times.len(),
{
    if times.len() == 0 {
        Seq::empty()
    } else {
        let i: int = times.len() - 1;
        let earlier = world_lines(times.drop_last());
        if i == 0 || is_leap(times, i) {
            earlier.push(seq![i as usize])
        } else {
            earlier.update(earlier.len() - 1, earlier.last().push(i as usize))
        }
    }
}

/// What a manager holds after it has computed the segments of `times`: the
/// world lines numbered from 0, or one empty segment 0 when there are no
/// strokes at all.
pub open spec fn segments_for(times: Seq<u32>) -> Seq<(usize, Seq<usize>)> {
    if times.len() == 0 {
        seq![(0usize, Seq::<usize>::empty())]
    } else {
        let lines = world_lines(times);
        Seq::new(lines.len(), |k: int| (k as usize, lines[k]))
    }
}

/// `i` is the position of the first segment that carries the identifier `id`.
pub open spec fn first_with_id(segments: Seq<(usize, Seq<usize>)>, id: usize, i: int) -> bool {
    &&& 0 <= i < segments.len()
    &&& segments[i].0 == id
    &&& forall|j: int| 0 <= j < i ==> segments[j].0 != id
}

/// The stroke indices of the first segment with identifier `id`, or none when
/// no segment carries it.
pub open spec fn strokes_of(segments: Seq<(usize, Seq<usize>)>, id: usize) -> Seq<usize> {
    if exists|i: int| first_with_id(segments, id, i) {
        segments[choose|i: int| first_with_id(segments, id, i)].1
    } else {
        Seq::empty()
    }
}

/// The position that a requested position is clamped to: the last one when it
/// lies beyond the end.
pub open spec fn clamped_position(len: nat, index: usize) -> int {
    if index < len {
        index as int
    } else {
        len - 1
    }
}

impl WorldLineManager {
    /// A manager with one empty world line, numbered 0.
    pub fn new() -> (r: Self)
        ensures
            r@ == seq![(0usize, Seq::<usize>::empty())],
    {
        let mut segments: Vec<Segment> = Vec::new();
        segments.push(Segment { id: 0, stroke_indices: Vec::new() });
        let r = WorldLineManager { segments, next_segment_id: 1 };
        assert(r@ =~= seq![(0usize, Seq::<usize>::empty())]);
        r
    }

    /// Recomputes the world lines from the virtual creation times of the
    /// strokes (`times[i]` is the binary32 bit pattern of the time of stroke
    /// `i`). A stroke created earlier than the stroke before it starts a new
    /// world line; every other stroke continues the current one.
    pub fn calculate_segments(&mut self, times: &[u32])
        ensures
            final(self)@ == segments_for(times@),
    {
        self.segments.clear();
        self.next_segment_id = 0;

        if times.len() == 0 {
            self.segments.push(Segment { id: 0, stroke_indices: Vec::new() });
            assert(self@ =~= segments_for(times@));
            return;
        }
        let mut current_segment = Segment { id: 0, stroke_indices: Vec::new() };
        let mut prev_time: u32 = times[0];
        let mut idx: usize = 0;
        while idx < times.len()
            invariant
                0 < times.len(),
                idx <= times.len(),
                self.segments.len() <= idx,
                current_segment.id == self.segments.len(),
                self.next_segment_id == current_segment.id,
                forall|k: int| 0 <= k < self.segments.len() ==> #[trigger] self.segments@[k].id == k,
                idx == 0 ==> self.segments.len() == 0 && current_segment.stroke_indices@.len() == 0,
                idx > 0 ==> {
                    &&& prev_time == times@[idx - 1]
                    &&& current_segment.stroke_indices@.len() > 0
                    &&& self.segments@.map_values(|s: Segment| s.stroke_indices@).push(
                        current_segment.stroke_indices@,
                    ) == world_lines(times@.take(idx as int))
                },
            decreases times.len() - idx,
        {
            let ghost before = times@.take(idx as int);
            let ghost after = times@.take(idx + 1);
            let ghost old_lines = self.segments@.map_values(|s: Segment| s.stroke_indices@);
            let ghost old_current = current_segment.stroke_indices@;
            assert(after.drop_last() =~= before);
            let current_time: u32 = times[idx];
            if instant_lt(current_time, prev_time) && current_segment.stroke_indices.len() > 0 {
                assert(is_leap(after, idx as int));
                self.segments.push(current_segment);
                self.next_segment_id = self.next_segment_id + 1;
                current_segment = Segment { id: self.next_segment_id, stroke_indices: vec![idx] };
                proof {
                    assert(world_lines(after) == world_lines(before).push(seq![idx]));
                    assert(self.segments@.map_values(|s: Segment| s.stroke_indices@)
                        =~= old_lines.push(old_current));
                    assert(current_segment.stroke_indices@ =~= seq![idx]);
                }
            } else {
                current_segment.stroke_indices.push(idx);
                proof {
                    assert(self.segments@.map_values(|s: Segment| s.stroke_indices@) =~= old_lines);
                    if idx == 0 {
                        assert(before =~= Seq::<u32>::empty());
                        assert(world_lines(after) == world_lines(before).push(seq![idx]));
                        assert(current_segment.stroke_indices@ =~= seq![0usize]);
                        assert(old_lines =~= Seq::<Seq<usize>>::empty());
                        assert(old_lines.push(current_segment.stroke_indices@) =~= world_lines(after));
                    } else {
                        assert(!is_leap(after, idx as int));
                        let p = world_lines(before);
                        assert(p == old_lines.push(old_current));
                        assert(world_lines(after) == p.update(p.len() - 1, p.last().push(idx)));
                        assert(current_segment.stroke_indices@ =~= old_current.push(idx));
                        assert(old_lines.push(current_segment.stroke_indices@) =~= p.update(
                            p.len() - 1,
                            p.last().push(idx),
                        ));
                    }
                }
            }
            prev_time = current_time;
            idx = idx + 1;
        }
        let ghost lines = self.segments@.map_values(|s: Segment| s.stroke_indices@).push(
            current_segment.stroke_indices@,
        );
        self.segments.push(current_segment);
        proof {
            assert(times@.take(times@.len() as int) =~= times@);
            let w = world_lines(times@);
            assert(lines == w);
            assert forall|k: int| 0 <= k < self@.len() implies #[trigger] self@[k] == (
            k as usize,
            w[k],
            ) by {
                if k < self.segments@.len() - 1 {
                    assert(self.segments@[k].id == k);
                }
            }
            assert(self@ =~= segments_for(times@));
        }
    }

    /// The stroke indices of the first segment with identifier `segment_id`,
    /// or an empty list when there is none.
    pub fn get_segment_strokes(&self, segment_id: usize) -> (r: Vec<usize>)
        ensures
            r@ == strokes_of(self@, segment_id),
    {
        let mut i: usize = 0;
        while i < self.segments.len()
            invariant
                i <= self.segments.len(),
                forall|j: int| 0 <= j < i ==> (#[trigger] self@[j]).0 != segment_id,
            decreases self.segments.len() - i,
        {
            if self.segments[i].id == segment_id {
                let r = self.segments[i].stroke_indices.clone();
                proof {
                    assert(first_with_id(self@, segment_id, i as int));
                    let c: int = choose|c: int| first_with_id(self@, segment_id, c);
                    if c < i {
                        assert(self@[c].0 != segment_id);
                    } else if c > i {
                        assert(self@[i as int].0 != segment_id);
                    }
                    assert(r@ =~= self.segments@[i as int].stroke_indices@);
                }
                return r;
            }
            i = i + 1;
        }
        Vec::new()
    }

    /// The number of world lines.
    pub fn segment_count(&self) -> (r: usize)
        ensures
            r == self@.len(),
    {
        self.segments.len()
    }

    /// The world line at position `index`, or the last one when `index` lies
    /// beyond the end; none when there are no world lines.
    pub fn segment_at_clamped(&self, index: usize) -> (r: Option<&Segment>)
        ensures
            self@.len() == 0 ==> r is None,
            self@.len() > 0 ==> (r matches Some(s) && s@ == self@[clamped_position(self@.len(), index)]),
            index < self@.len() ==> (r matches Some(s) && s@ == self@[index as int]),
            index >= self@.len() && self@.len() > 0 ==> (r matches Some(s) && s@ == self@[self@.len()
                - 1]),
    {
        let total: usize = self.segments.len();
        if total == 0 {
            return None;
        }
        let last: usize = total - 1;
        let target: usize = if index > last {
            last
        } else {
            index
        };
        Some(&self.segments[target])
    }

    /// One timeline marker per world line, in order, the markers of the world
    /// lines numbered `active_id` highlighted.
    pub fn timeline_markers(&self, active_id: usize) -> (r: Vec<SegmentMarker>)
        ensures
            r@.len() == self@.len(),
            forall|k: int|
                0 <= k < r@.len() ==> (#[trigger] r@[k]).id == self@[k].0 && r@[k].highlighted == (
                self@[k].0 == active_id),
    {
        let mut markers: Vec<SegmentMarker> = Vec::new();
        let mut i: usize = 0;
        while i < self.segments.len()
            invariant
                i <= self.segments.len(),
                markers@.len() == i,
                forall|k: int|
                    0 <= k < i ==> (#[trigger] markers@[k]).id == self@[k].0
                        && markers@[k].highlighted == (self@[k].0 == active_id),
            decreases self.segments.len() - i,
        {
            let id: usize = self.segments[i].id;
            markers.push(SegmentMarker { id, highlighted: id == active_id });
            i = i + 1;
        }
        markers
    }
}

impl Default for WorldLineManager {
    fn default() -> (r: Self)
        ensures
            r@ == seq![(0usize, Seq::<usize>::empty())],
    {
        Self::new()
    }
}

} // verus!
