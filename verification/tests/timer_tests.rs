use mobinogi_timer::emblem::{compute_cooldown, find_emblem_by_buff_key};
use mobinogi_timer::timer::{TimerPhase, TimerState};
use mobinogi_timer::DetectedBuff;

const SEC: u64 = 1_000_000_000;

#[test]
fn cooldown_per_blind_seer_setting() {
    assert_eq!(compute_cooldown("base"), 52);
    assert_eq!(compute_cooldown("plus"), 51);
    assert_eq!(compute_cooldown("plusplus"), 50);
    assert_eq!(compute_cooldown("none"), 90);
    assert_eq!(compute_cooldown(""), 90);
    assert_eq!(compute_cooldown("Base"), 90);
}

#[test]
fn emblem_table() {
    let e = find_emblem_by_buff_key(122806656).unwrap();
    assert_eq!((e.buff_key, e.duration_secs, e.name), (122806656, 20, "대마법사"));
    let e = find_emblem_by_buff_key(355098955).unwrap();
    assert_eq!((e.duration_secs, e.name), (35, "흩날리는 검"));
    let e = find_emblem_by_buff_key(1184371696).unwrap();
    assert_eq!((e.duration_secs, e.name), (35, "갈라진 땅"));
    let e = find_emblem_by_buff_key(2024838942).unwrap();
    assert_eq!((e.duration_secs, e.name), (20, "산맥 군주"));
    assert!(find_emblem_by_buff_key(0).is_none());
    assert!(find_emblem_by_buff_key(122806659).is_none());
}

#[test]
fn idle_tick_reports_nothing_and_changes_nothing() {
    let mut t = TimerState::new("none".to_string(), 5);
    t.active_emblem = "x".to_string();
    let r = t.tick(100 * SEC);
    assert_eq!(r.phase, TimerPhase::Idle);
    assert_eq!((r.remaining, r.total), (0, 0));
    assert_eq!(r.emblem, "");
    assert_eq!(t.last_tick, 5);
    assert_eq!(t.phase, TimerPhase::Idle);
}

#[test]
fn start_timer_sets_duration_and_cooldown() {
    let mut t = TimerState::new("base".to_string(), 0);
    t.start_with_emblem(18 * SEC, 20 * SEC, 2 * SEC, "대마법사", 7);
    assert_eq!(t.phase, TimerPhase::Duration);
    assert_eq!(t.duration_remaining, (18 * SEC) as i128);
    assert_eq!(t.duration_total, 20 * SEC);
    assert_eq!(t.cooldown_total, 52 * SEC);
    assert_eq!(t.cooldown_remaining, (50 * SEC) as i128);
    assert_eq!(t.last_tick, 7);
    assert_eq!(t.active_emblem, "대마법사");
    // An elapsed time beyond the cooldown leaves no cooldown.
    t.start_timer(SEC, 20 * SEC, 60 * SEC, 9);
    assert_eq!(t.cooldown_remaining, 0);
}

#[test]
fn timer_runs_through_its_phases() {
    let mut t = TimerState::new("plus".to_string(), 0);
    t.start_with_emblem(20 * SEC, 20 * SEC, 0, "e", 0);
    let r = t.tick(5 * SEC);
    assert_eq!(r.phase, TimerPhase::Duration);
    assert_eq!(r.remaining, (15 * SEC) as i128);
    assert_eq!(r.total, 20 * SEC);
    assert_eq!(r.emblem, "e");
    assert_eq!(t.cooldown_remaining, (46 * SEC) as i128);
    // The effect ends 2 s late: that overshoot is taken off the cooldown once more.
    let r = t.tick(22 * SEC);
    assert_eq!(r.phase, TimerPhase::Cooldown);
    assert_eq!(t.duration_remaining, 0);
    assert_eq!(r.remaining, (27 * SEC) as i128);
    assert_eq!(r.total, 51 * SEC);
    let r = t.tick(30 * SEC);
    assert_eq!(r.phase, TimerPhase::Cooldown);
    assert_eq!(r.remaining, (19 * SEC) as i128);
    let r = t.tick(49 * SEC);
    assert_eq!(r.phase, TimerPhase::Idle);
    assert_eq!((r.remaining, r.total), (0, 0));
    assert_eq!(r.emblem, "e");
    assert_eq!(t.phase, TimerPhase::Idle);
}

#[test]
fn cooldown_can_report_negative_remaining_on_transition() {
    let mut t = TimerState::new("none".to_string(), 0);
    t.start_timer(SEC, SEC, 0, 0);
    t.cooldown_remaining = (2 * SEC) as i128;
    let r = t.tick(3 * SEC);
    assert_eq!(r.phase, TimerPhase::Cooldown);
    assert_eq!(r.remaining, -((3 * SEC) as i128));
    let r = t.tick(3 * SEC);
    assert_eq!(r.phase, TimerPhase::Idle);
}

#[test]
fn clock_reading_earlier_counts_as_no_time() {
    let mut t = TimerState::new("none".to_string(), 0);
    t.start_timer(10 * SEC, 10 * SEC, 0, 100 * SEC);
    let r = t.tick(50 * SEC);
    assert_eq!(r.remaining, (10 * SEC) as i128);
    assert_eq!(t.last_tick, 50 * SEC);
}

#[test]
fn ticking_in_steps_matches_one_tick() {
    let mut a = TimerState::new("none".to_string(), 0);
    a.start_timer(20 * SEC, 20 * SEC, 0, 0);
    let mut b = TimerState::new("none".to_string(), 0);
    b.start_timer(20 * SEC, 20 * SEC, 0, 0);
    a.tick(3 * SEC);
    a.tick(7 * SEC);
    b.tick(7 * SEC);
    assert_eq!(a.duration_remaining, b.duration_remaining);
    assert_eq!(a.cooldown_remaining, b.cooldown_remaining);
    // The gap between cooldown and duration stays the same while the effect runs.
    assert_eq!(a.cooldown_remaining - a.duration_remaining, (70 * SEC) as i128);
}

#[test]
fn detected_buff_starts_the_timer() {
    let mut t = TimerState::new("plusplus".to_string(), 0);
    t.apply_detected_buff(
        DetectedBuff { buff_key: 355098955, duration_bits: 35.0f32.to_bits(), detected_at: 10 * SEC },
        13 * SEC,
    );
    assert_eq!(t.phase, TimerPhase::Duration);
    assert_eq!(t.duration_remaining, (32 * SEC) as i128);
    assert_eq!(t.duration_total, 35 * SEC);
    assert_eq!(t.cooldown_remaining, (47 * SEC) as i128);
    assert_eq!(t.cooldown_total, 50 * SEC);
    assert_eq!(t.active_emblem, "흩날리는 검");
    assert_eq!(t.last_tick, 13 * SEC);
}

#[test]
fn stale_or_unknown_detection_changes_nothing() {
    let mut t = TimerState::new("none".to_string(), 1);
    t.apply_detected_buff(DetectedBuff { buff_key: 122806656, duration_bits: 20.0f32.to_bits(), detected_at: 0 }, 20 * SEC);
    assert_eq!(t.phase, TimerPhase::Idle);
    assert_eq!(t.last_tick, 1);
    t.apply_detected_buff(DetectedBuff { buff_key: 12345, duration_bits: 20.0f32.to_bits(), detected_at: 0 }, 0);
    t.apply_detected_buff(DetectedBuff { buff_key: 122806656, duration_bits: f32::NAN.to_bits(), detected_at: 0 }, 0);
    t.apply_detected_buff(DetectedBuff { buff_key: 122806656, duration_bits: (-5.0f32).to_bits(), detected_at: 0 }, 0);
    assert_eq!(t.phase, TimerPhase::Idle);
    assert_eq!(t.phase, TimerPhase::Idle);
    assert_eq!(t.active_emblem, "");
}

#[test]
fn effect_duration_comes_from_the_packet() {
    // The archmage emblem lasts 20 s by the table; the packet says 12.5 s.
    let mut t = TimerState::new("none".to_string(), 0);
    t.apply_detected_buff(
        DetectedBuff { buff_key: 122806656, duration_bits: 12.5f32.to_bits(), detected_at: SEC },
        3 * SEC,
    );
    assert_eq!(t.phase, TimerPhase::Duration);
    assert_eq!(t.duration_total, 12_500_000_000);
    assert_eq!(t.duration_remaining, 10_500_000_000);
    assert_eq!(t.cooldown_remaining, (88 * SEC) as i128);
    assert_eq!(t.active_emblem, "대마법사");
}
