//! The verified core of a time-leap memo: strokes are drawn along a virtual
//! time line, and whenever a stroke is created at an earlier virtual time
//! than the one before it, a new world line (segment) branches off.

mod instant;
mod virtual_time;
mod virtual_time_laws;
mod world_line;
mod world_line_laws;

pub use instant::{
    instant_lt, is_nan_bits, lemma_instant_order_is_strict, lemma_instant_order_is_total, lemma_instant_order_on_bits, lemma_nan_is_unordered,
    lemma_zeros_are_equal, magnitude, ordinal, spec_instant_lt,
};
pub use virtual_time::{advance_spec, toggle_spec, update_max_spec, ClockState, VirtualTime};
pub use virtual_time_laws::{
    lemma_advance_keeps_current_within_max, lemma_advance_moves_to_the_step, lemma_advance_stops_only_at_the_end,
    lemma_paused_clock_stands_still, lemma_toggle_twice_is_identity, lemma_update_max_raises, lemma_update_max_takes_later_times, lemma_toggle_flips_playback,
};
pub use world_line::{
    clamped_position, first_with_id, is_leap, segments_for, strokes_of, world_lines, Segment,
    SegmentMarker, WorldLineManager,
};
pub use world_line_laws::{
    all_strokes, leap_count, lemma_fresh_is_empty_history, lemma_leap_is_backward_step, lemma_strokes_of_first_match,
    lemma_clamped_position_keeps_positions_in_range, lemma_lookup_by_number, lemma_new_stroke_extends_world_lines,
    lemma_segments_for_shape, lemma_world_lines_split_at_leaps,
};
