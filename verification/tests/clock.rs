use timeleap_memo::VirtualTime;

fn b(t: f32) -> u32 {
    t.to_bits()
}

#[test]
fn new_clock_is_paused_at_zero() {
    let c = VirtualTime::new();
    assert_eq!(c.get_current(), b(0.0));
    assert_eq!(c.get_max(), b(0.0));
    assert!(!c.is_playing());
}

#[test]
fn paused_clock_does_not_advance() {
    let mut c = VirtualTime::new();
    c.advance(b(5.0), true);
    assert_eq!(c.get_current(), b(0.0));
    assert_eq!(c.get_max(), b(0.0));
    assert!(!c.is_playing());
}

#[test]
fn playback_stops_at_the_latest_time() {
    let mut c = VirtualTime::new();
    c.update_max(b(1.0));
    c.set_playing(true);
    c.advance(b(0.5), false);
    assert_eq!(c.get_current(), b(0.5));
    assert!(c.is_playing());
    c.advance(b(1.5), false);
    assert_eq!(c.get_current(), b(1.0));
    assert_eq!(c.get_max(), b(1.0));
    assert!(!c.is_playing());
}

#[test]
fn recording_pushes_the_latest_time() {
    let mut c = VirtualTime::new();
    c.set_playing(true);
    c.advance(b(0.016), true);
    assert_eq!(c.get_current(), b(0.016));
    assert_eq!(c.get_max(), b(0.016));
    assert!(c.is_playing());
}

#[test]
fn update_max_only_raises() {
    let mut c = VirtualTime::new();
    c.update_max(b(3.0));
    assert_eq!(c.get_max(), b(3.0));
    c.update_max(b(2.0));
    assert_eq!(c.get_max(), b(3.0));
    c.update_max(f32::NAN.to_bits());
    assert_eq!(c.get_max(), b(3.0));
    c.update_max(b(3.0));
    assert_eq!(c.get_max(), b(3.0));
    assert_eq!(c.get_current(), b(0.0));
}

#[test]
fn set_current_moves_only_the_current_time() {
    let mut c = VirtualTime::new();
    c.update_max(b(4.0));
    c.set_current(b(2.5));
    assert_eq!(c.get_current(), b(2.5));
    assert_eq!(c.get_max(), b(4.0));
    assert!(!c.is_playing());
}

#[test]
fn toggling_twice_restores_playback_state() {
    let mut c = VirtualTime::new();
    c.toggle_play();
    assert!(c.is_playing());
    c.toggle_play();
    assert!(!c.is_playing());
    c.set_playing(true);
    assert!(c.is_playing());
    c.set_playing(false);
    assert!(!c.is_playing());
}

#[test]
fn after_a_step_current_is_not_past_max() {
    for (max, stepped, rec) in [(1.0f32, 2.0f32, false), (1.0, 2.0, true), (1.0, 0.5, false), (1.0, f32::NAN, false)] {
        let mut c = VirtualTime::new();
        c.update_max(b(max));
        c.set_playing(true);
        c.advance(b(stepped), rec);
        let cur = f32::from_bits(c.get_current());
        let m = f32::from_bits(c.get_max());
        assert!(!(m < cur));
    }
}
