use timeleap_memo::{Segment, WorldLineManager};

fn bits(times: &[f32]) -> Vec<u32> {
    times.iter().map(|t| t.to_bits()).collect()
}

fn lines(m: &WorldLineManager) -> Vec<(usize, Vec<usize>)> {
    m.segments.iter().map(|s| (s.id, s.stroke_indices.clone())).collect()
}

#[test]
fn new_manager_has_one_empty_world_line() {
    let m = WorldLineManager::new();
    assert_eq!(lines(&m), vec![(0, vec![])]);
    assert_eq!(m.segment_count(), 1);
    assert_eq!(m.get_segment_strokes(0), Vec::<usize>::new());
}

#[test]
fn default_is_new() {
    let m = WorldLineManager::default();
    assert_eq!(lines(&m), vec![(0, vec![])]);
}

#[test]
fn empty_history_gives_one_empty_world_line() {
    let mut m = WorldLineManager::new();
    m.calculate_segments(&bits(&[1.0, 0.5]));
    m.calculate_segments(&[]);
    assert_eq!(lines(&m), vec![(0, vec![])]);
    assert_eq!(m.segment_count(), 1);
}

#[test]
fn backward_leap_starts_a_new_world_line() {
    let mut m = WorldLineManager::new();
    m.calculate_segments(&bits(&[1.0, 2.0, 0.5, 3.0]));
    assert_eq!(lines(&m), vec![(0, vec![0, 1]), (1, vec![2, 3])]);
    assert_eq!(m.segment_count(), 2);
}

#[test]
fn equal_times_stay_on_one_world_line() {
    let mut m = WorldLineManager::new();
    m.calculate_segments(&bits(&[1.0, 1.0, 1.0]));
    assert_eq!(lines(&m), vec![(0, vec![0, 1, 2])]);
}

#[test]
fn every_decrease_is_a_leap() {
    let mut m = WorldLineManager::new();
    m.calculate_segments(&bits(&[3.0, 2.0, 1.0, 0.0, -1.0]));
    assert_eq!(
        lines(&m),
        vec![(0, vec![0]), (1, vec![1]), (2, vec![2]), (3, vec![3]), (4, vec![4])]
    );
}

#[test]
fn single_stroke_history() {
    let mut m = WorldLineManager::new();
    m.calculate_segments(&bits(&[7.5]));
    assert_eq!(lines(&m), vec![(0, vec![0])]);
}

#[test]
fn negative_zero_after_zero_is_no_leap() {
    let mut m = WorldLineManager::new();
    m.calculate_segments(&bits(&[0.0, -0.0, 0.0]));
    assert_eq!(lines(&m), vec![(0, vec![0, 1, 2])]);
}

#[test]
fn nan_is_never_a_leap() {
    let mut m = WorldLineManager::new();
    m.calculate_segments(&bits(&[2.0, f32::NAN, 1.0, 3.0]));
    assert_eq!(lines(&m), vec![(0, vec![0, 1, 2, 3])]);
}

#[test]
fn count_is_one_more_than_the_leaps() {
    let times = [5.0f32, 6.0, 1.0, 2.0, 2.0, 0.5, 9.0, 8.0];
    let leaps = times.windows(2).filter(|w| w[1] < w[0]).count();
    let mut m = WorldLineManager::new();
    m.calculate_segments(&bits(&times));
    assert_eq!(m.segment_count(), leaps + 1);
    let flat: Vec<usize> = m.segments.iter().flat_map(|s| s.stroke_indices.clone()).collect();
    assert_eq!(flat, (0..times.len()).collect::<Vec<usize>>());
    for (k, s) in m.segments.iter().enumerate() {
        assert_eq!(s.id, k);
        let first = s.stroke_indices[0];
        assert_eq!(k > 0, first > 0 && times[first] < times[first - 1]);
        for &j in &s.stroke_indices[1..] {
            assert!(!(times[j] < times[j - 1]));
        }
    }
}

#[test]
fn recalculation_forgets_the_previous_history() {
    let mut m = WorldLineManager::new();
    m.calculate_segments(&bits(&[3.0, 2.0, 1.0]));
    m.calculate_segments(&bits(&[1.0, 2.0]));
    assert_eq!(lines(&m), vec![(0, vec![0, 1])]);
}

#[test]
fn strokes_of_a_world_line_by_number() {
    let mut m = WorldLineManager::new();
    m.calculate_segments(&bits(&[1.0, 2.0, 0.5, 3.0, 0.25]));
    assert_eq!(m.get_segment_strokes(0), vec![0, 1]);
    assert_eq!(m.get_segment_strokes(1), vec![2, 3]);
    assert_eq!(m.get_segment_strokes(2), vec![4]);
    assert_eq!(m.get_segment_strokes(3), Vec::<usize>::new());
}

#[test]
fn lookup_takes_the_first_segment_with_the_id() {
    let mut m = WorldLineManager::new();
    m.segments = vec![
        Segment { id: 4, stroke_indices: vec![1] },
        Segment { id: 7, stroke_indices: vec![2, 3] },
        Segment { id: 7, stroke_indices: vec![9] },
    ];
    assert_eq!(m.get_segment_strokes(7), vec![2, 3]);
    assert_eq!(m.get_segment_strokes(0), Vec::<usize>::new());
}

#[test]
fn clamped_lookup_by_position() {
    let mut m = WorldLineManager::new();
    m.calculate_segments(&bits(&[1.0, 0.5, 0.25]));
    assert_eq!(m.segment_at_clamped(1).map(|s| s.id), Some(1));
    assert_eq!(m.segment_at_clamped(0).map(|s| s.stroke_indices.clone()), Some(vec![0]));
    assert_eq!(m.segment_at_clamped(99).map(|s| s.id), Some(2));
    m.segments.clear();
    assert!(m.segment_at_clamped(0).is_none());
}

#[test]
fn timeline_markers_highlight_the_active_world_line() {
    let mut m = WorldLineManager::new();
    m.calculate_segments(&bits(&[1.0, 0.5, 0.25]));
    let markers: Vec<(usize, bool)> =
        m.timeline_markers(1).iter().map(|mk| (mk.id, mk.highlighted)).collect();
    assert_eq!(markers, vec![(0, false), (1, true), (2, false)]);
    assert!(m.timeline_markers(5).iter().all(|mk| !mk.highlighted));
}

#[test]
fn adding_a_stroke_keeps_earlier_world_lines() {
    let mut times = vec![1.0f32, 2.0, 0.5];
    let mut m = WorldLineManager::new();
    m.calculate_segments(&bits(&times));
    let before = lines(&m);
    assert_eq!(before, vec![(0, vec![0, 1]), (1, vec![2])]);

    times.push(3.0);
    m.calculate_segments(&bits(&times));
    assert_eq!(lines(&m), vec![(0, vec![0, 1]), (1, vec![2, 3])]);

    times.push(0.1);
    m.calculate_segments(&bits(&times));
    assert_eq!(lines(&m), vec![(0, vec![0, 1]), (1, vec![2, 3]), (2, vec![4])]);
}
