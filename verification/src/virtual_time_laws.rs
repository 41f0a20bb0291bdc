//! What holds of every virtual clock.

use vstd::prelude::*;

use crate::instant::spec_instant_lt;
use crate::virtual_time::{advance_spec, toggle_spec, update_max_spec, ClockState};

verus! {

/// A paused clock does not move when it is advanced.
pub proof fn lemma_paused_clock_stands_still(s: ClockState, stepped: u32, is_recording: bool)
    requires
        !s.playing,
    ensures
        advance_spec(s, stepped, is_recording) == s,
{
}

/// After a playback step the current time never lies past the latest time.
pub proof fn lemma_advance_keeps_current_within_max(
    s: ClockState,
    stepped: u32,
    is_recording: bool,
)
    requires
        s.playing,
    ensures
        !spec_instant_lt(
            advance_spec(s, stepped, is_recording).max,
            advance_spec(s, stepped, is_recording).current,
        ),
{
}

/// A playback step never lowers the latest time, and while recording it never
/// stops playback; playback stops only when a step without recording runs past
/// the latest time, and then the clock rests at the latest time.
pub proof fn lemma_advance_stops_only_at_the_end(s: ClockState, stepped: u32, is_recording: bool)
    ensures
        !spec_instant_lt(advance_spec(s, stepped, is_recording).max, s.max),
        is_recording && s.playing ==> advance_spec(s, stepped, is_recording).playing,
        s.playing && !advance_spec(s, stepped, is_recording).playing ==> {
            &&& !is_recording
            &&& spec_instant_lt(s.max, stepped)
            &&& advance_spec(s, stepped, is_recording).current == s.max
        },
{
}

/// Offering a latest time leaves it not earlier than before and not earlier
/// than the offered time, touches nothing else, and offering the same time
/// again changes nothing.
pub proof fn lemma_update_max_raises(s: ClockState, time: u32)
    ensures
        !spec_instant_lt(update_max_spec(s, time).max, s.max),
        !spec_instant_lt(update_max_spec(s, time).max, time),
        update_max_spec(s, time).current == s.current,
        update_max_spec(s, time).playing == s.playing,
        update_max_spec(update_max_spec(s, time), time) == update_max_spec(s, time),
{
}

/// What one playback step does. A running clock whose step does not pass the
/// latest time moves to the stepped instant, recording or not, and the latest
/// time stays. A step past the latest time makes it the new latest time and the
/// current one while recording; without recording the clock stops at the old
/// latest time.
pub proof fn lemma_advance_moves_to_the_step(s: ClockState, stepped: u32, is_recording: bool)
    ensures
        s.playing && !spec_instant_lt(s.max, stepped) ==> advance_spec(s, stepped, is_recording)
            == (ClockState { current: stepped, max: s.max, playing: true }),
        s.playing && spec_instant_lt(s.max, stepped) && is_recording ==> advance_spec(
            s,
            stepped,
            is_recording,
        ) == (ClockState { current: stepped, max: stepped, playing: true }),
        s.playing && spec_instant_lt(s.max, stepped) && !is_recording ==> advance_spec(
            s,
            stepped,
            is_recording,
        ) == (ClockState { current: s.max, max: s.max, playing: false }),
{
}

/// Offering a time that lies past the latest time makes it the latest time;
/// offering any other time changes nothing.
pub proof fn lemma_update_max_takes_later_times(s: ClockState, time: u32)
    ensures
        spec_instant_lt(s.max, time) ==> update_max_spec(s, time) == (ClockState {
            current: s.current,
            max: time,
            playing: s.playing,
        }),
        !spec_instant_lt(s.max, time) ==> update_max_spec(s, time) == s,
{
}

/// Toggling flips playback and leaves the times alone.
pub proof fn lemma_toggle_flips_playback(s: ClockState)
    ensures
        toggle_spec(s).playing == !s.playing,
        toggle_spec(s).current == s.current,
        toggle_spec(s).max == s.max,
{
}

/// Toggling playback twice leaves the clock as it was.
pub proof fn lemma_toggle_twice_is_identity(s: ClockState)
    ensures
        toggle_spec(toggle_spec(s)) == s,
{
}

} // verus!
