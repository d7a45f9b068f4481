use vstd::prelude::*;
use crate::text::str_equals;

verus! {

/// Blind Seer rune setting when none is saved: no rune.
pub fn default_blind_seer() -> (s: String)
    ensures
        s@ == "none"@,
{
    "none".to_owned()
}

/// Overlay bar width when none is saved.
pub fn default_overlay_width() -> (w: u32)
    ensures
        w == 100,
{
    100
}

/// Warning threshold of the effect timer when none is saved.
pub fn default_duration_warning_threshold() -> (t: u32)
    ensures
        t == 10,
{
    10
}

/// Warning threshold of the cooldown timer when none is saved.
pub fn default_cooldown_warning_threshold() -> (t: u32)
    ensures
        t == 10,
{
    10
}

/// Whether saving new settings restarts the packet capture: the network interface changed
/// and Npcap is installed.
pub fn needs_capture_restart(current_interface: &str, new_interface: &str, npcap_installed: bool) -> (restart: bool)
    ensures
        restart == (current_interface@ != new_interface@ && npcap_installed),
{
    !str_equals(current_interface, new_interface) && npcap_installed
}

} // verus!
