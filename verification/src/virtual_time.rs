//! The virtual clock of a memo: a current virtual time, the latest virtual time
//! reached so far, and whether playback is running.
//!
//! Times are virtual instants, binary32 bit patterns ordered by
//! `crate::instant`. The clock does no float arithmetic: where it advances,
//! the caller hands it the instant that the step reaches.

use vstd::prelude::*;

use crate::instant::{instant_lt, spec_instant_lt};

verus! {

/// The abstract state of a virtual clock.
pub struct ClockState {
    pub current: u32,
    pub max: u32,
    pub playing: bool,
}

/// The virtual clock.
pub struct VirtualTime {
    current: u32,
    max: u32,
    is_playing: bool,
}

impl View for VirtualTime {
    type V = ClockState;

    closed spec fn view(&self) -> ClockState {
        ClockState { current: self.current, max: self.max, playing: self.is_playing }
    }
}

/// The state after one playback step that reaches the instant `stepped`: a
/// paused clock stays as it is; a running clock moves to `stepped`, and if that
/// lies past the latest time, the latest time follows it while recording, or
/// else the clock stops at the latest time.
pub open spec fn advance_spec(s: ClockState, stepped: u32, is_recording: bool) -> ClockState {
    if !s.playing {
        s
    } else if spec_instant_lt(s.max, stepped) {
        if is_recording {
            ClockState { current: stepped, max: stepped, playing: true }
        } else {
            ClockState { current: s.max, max: s.max, playing: false }
        }
    } else {
        ClockState { current: stepped, max: s.max, playing: true }
    }
}

/// The state after `time` has been offered as a new latest time: it replaces
/// the latest time if it lies past it.
pub open spec fn update_max_spec(s: ClockState, time: u32) -> ClockState {
    if spec_instant_lt(s.max, time) {
        ClockState { current: s.current, max: time, playing: s.playing }
    } else {
        s
    }
}

/// The state with playback started if it was paused, paused if it was running.
pub open spec fn toggle_spec(s: ClockState) -> ClockState {
    ClockState { current: s.current, max: s.max, playing: !s.playing }
}

impl VirtualTime {
    /// A paused clock at virtual time zero, with latest time zero.
    pub fn new() -> (r: Self)
        ensures
            r@ == (ClockState { current: 0, max: 0, playing: false }),
    {
        VirtualTime { current: 0, max: 0, is_playing: false }
    }

    /// One playback step. `stepped` is the instant that the step reaches: the
    /// current time plus the step's length, computed by the caller.
    pub fn advance(&mut self, stepped: u32, is_recording: bool)
        ensures
            final(self)@ == advance_spec(old(self)@, stepped, is_recording),
    {
        if self.is_playing {
            self.current = stepped;
            if instant_lt(self.max, self.current) {
                if is_recording {
                    self.max = self.current;
                } else {
                    self.current = self.max;
                    self.is_playing = false;
                }
            }
        }
    }

    /// The current virtual time.
    pub fn get_current(&self) -> (r: u32)
        ensures
            r == self@.current,
    {
        self.current
    }

    /// Moves the current virtual time to `time`.
    pub fn set_current(&mut self, time: u32)
        ensures
            final(self)@ == (ClockState { current: time, max: old(self)@.max, playing: old(self)@.playing }),
    {
        self.current = time;
    }

    /// Raises the latest virtual time to `time` if `time` lies past it.
    pub fn update_max(&mut self, time: u32)
        ensures
            final(self)@ == update_max_spec(old(self)@, time),
    {
        if instant_lt(self.max, time) {
            self.max = time;
        }
    }

    /// The latest virtual time reached so far.
    pub fn get_max(&self) -> (r: u32)
        ensures
            r == self@.max,
    {
        self.max
    }

    /// Starts a paused clock, or pauses a running one.
    pub fn toggle_play(&mut self)
        ensures
            final(self)@ == toggle_spec(old(self)@),
    {
        self.is_playing = !self.is_playing;
    }

    /// Whether playback is running.
    pub fn is_playing(&self) -> (r: bool)
        ensures
            r == self@.playing,
    {
        self.is_playing
    }

    /// Starts or pauses playback.
    pub fn set_playing(&mut self, playing: bool)
        ensures
            final(self)@ == (ClockState { current: old(self)@.current, max: old(self)@.max, playing }),
    {
        self.is_playing = playing;
    }
}

} // verus!
