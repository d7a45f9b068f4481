use mobinogi_timer::settings::needs_capture_restart;
use mobinogi_timer::{
    default_blind_seer, default_cooldown_warning_threshold, default_duration_warning_threshold,
    default_overlay_width,
};

#[test]
fn setting_defaults() {
    assert_eq!(default_blind_seer(), "none");
    assert_eq!(default_overlay_width(), 100);
    assert_eq!(default_duration_warning_threshold(), 10);
    assert_eq!(default_cooldown_warning_threshold(), 10);
}

#[test]
fn capture_restarts_only_on_interface_change_with_npcap() {
    assert!(needs_capture_restart("eth0", "eth1", true));
    assert!(!needs_capture_restart("eth0", "eth1", false));
    assert!(!needs_capture_restart("eth0", "eth0", true));
    assert!(needs_capture_restart("", "eth0", true));
}
