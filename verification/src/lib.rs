//! Awakening timer for Mabinogi Mobile: finds the player's emblem awakenings in the game's
//! TCP stream and runs the effect and cooldown timer.

pub mod capture;
pub mod device;
pub mod duration;
pub mod emblem;
pub mod first;
pub mod frame;
pub mod settings;
pub mod text;
pub mod timer;
pub mod update;

pub use capture::DetectedBuff;
pub use settings::{
    default_blind_seer, default_cooldown_warning_threshold, default_duration_warning_threshold,
    default_overlay_width,
};
pub use text::{hex_str, scan_ascii};
pub use frame::{extract_tcp_payload, find_marker, iter_data_entries};
