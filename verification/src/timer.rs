use vstd::prelude::*;
use crate::capture::DetectedBuff;
use crate::duration::{duration_nanos_from_bits, seconds_bits_to_nanos};
use crate::emblem::{compute_cooldown, cooldown_secs, emblem_info, find_emblem_by_buff_key};

verus! {

/// Nanoseconds per second.
pub const NANOS_PER_SEC: u64 = 1_000_000_000;

/// Where the awakening timer stands.
#[derive(Clone, Copy, Debug, PartialEq, Eq, Structural)]
pub enum TimerPhase {
    /// Awakening ready.
    Idle,
    /// Awakening effect running.
    Duration,
    /// Awakening on cooldown.
    Cooldown,
}

/// Bound on the timer's counters that keeps their arithmetic exact in `i128`.
pub open spec fn counter_bound() -> int {
    0x1_0000_0000_0000_0000_0000
}

/// The awakening timer. Times are nanoseconds; `last_tick` and the `now` arguments read the
/// caller's monotonic clock. The cooldown runs from the awakening on, alongside the
/// duration.
pub struct TimerState {
    pub phase: TimerPhase,
    pub duration_remaining: i128,
    pub cooldown_remaining: i128,
    pub duration_total: u64,
    pub cooldown_total: u64,
    pub last_tick: u64,
    pub active_emblem: String,
    /// The Blind Seer rune setting, which decides the cooldown.
    pub blind_seer: String,
}

/// What a tick reports: the phase, the remaining time in nanoseconds that the phase's
/// percentage is computed from (shown clamped at zero), the phase's total, and the emblem.
/// The percentage is `remaining / total * 100` while the effect runs and
/// `(1 - remaining / total) * 100` on cooldown.
pub struct TickReport {
    pub phase: TimerPhase,
    pub remaining: i128,
    pub total: u64,
    pub emblem: String,
}

impl TimerState {
    /// The counters stay within bounds for the phase the timer is in.
    pub open spec fn wf(&self) -> bool {
        match self.phase {
            TimerPhase::Idle => true,
            TimerPhase::Duration => {
                &&& -counter_bound() <= self.duration_remaining <= counter_bound()
                &&& -counter_bound() <= self.cooldown_remaining - self.duration_remaining <= counter_bound()
            },
            TimerPhase::Cooldown => -4 * counter_bound() <= self.cooldown_remaining <= counter_bound(),
        }
    }

    /// Time since the last tick, at `now` (zero if the clock reads earlier).
    pub open spec fn elapsed_since_tick(&self, now: u64) -> int {
        if now >= self.last_tick { now - self.last_tick } else { 0 }
    }

    /// The state after a tick at `now`.
    pub open spec fn after_tick(self, now: u64) -> TimerState {
        let dt = self.elapsed_since_tick(now);
        match self.phase {
            TimerPhase::Idle => self,
            TimerPhase::Duration => {
                let d = self.duration_remaining - dt;
                let c = self.cooldown_remaining - dt;
                if d <= 0 {
                    TimerState {
                        phase: TimerPhase::Cooldown,
                        duration_remaining: 0,
                        cooldown_remaining: (c + d) as i128,
                        last_tick: now,
                        ..self
                    }
                } else {
                    TimerState {
                        duration_remaining: d as i128,
                        cooldown_remaining: c as i128,
                        last_tick: now,
                        ..self
                    }
                }
            },
            TimerPhase::Cooldown => {
                let c = self.cooldown_remaining - dt;
                if c <= 0 {
                    TimerState { phase: TimerPhase::Idle, cooldown_remaining: c as i128, last_tick: now, ..self }
                } else {
                    TimerState { cooldown_remaining: c as i128, last_tick: now, ..self }
                }
            },
        }
    }

    /// The report of a tick at `now`: phase, remaining and total.
    pub open spec fn tick_report(self, now: u64) -> (TimerPhase, int, int) {
        let next = self.after_tick(now);
        match next.phase {
            TimerPhase::Idle => (TimerPhase::Idle, 0, 0),
            TimerPhase::Duration => (TimerPhase::Duration, next.duration_remaining as int, self.duration_total as int),
            TimerPhase::Cooldown => (TimerPhase::Cooldown, next.cooldown_remaining as int, self.cooldown_total as int),
        }
    }

    /// The emblem a tick reports: none while idle, else the active one.
    pub open spec fn reported_emblem(self) -> Seq<char> {
        if self.phase == TimerPhase::Idle { Seq::empty() } else { self.active_emblem@ }
    }

    /// A timer that is ready (idle), for the given Blind Seer setting.
    pub fn new(blind_seer: String, now: u64) -> (s: TimerState)
        ensures
            s.wf(),
            s.phase == TimerPhase::Idle,
            s.duration_remaining == 0,
            s.cooldown_remaining == 0,
            s.duration_total == 0,
            s.cooldown_total == 0,
            s.last_tick == now,
            s.active_emblem@ == Seq::<char>::empty(),
            s.blind_seer == blind_seer,
    {
        TimerState {
            phase: TimerPhase::Idle,
            duration_remaining: 0,
            cooldown_remaining: 0,
            duration_total: 0,
            cooldown_total: 0,
            last_tick: now,
            active_emblem: String::new(),
            blind_seer,
        }
    }

    /// Starts the effect with `remaining` of `total` left, `elapsed` after the awakening;
    /// the cooldown is the Blind Seer cooldown less `elapsed`, at least zero.
    pub fn start_timer(&mut self, remaining: u64, total: u64, elapsed: u64, now: u64)
        ensures
            final(self).wf(),
            final(self).phase == TimerPhase::Duration,
            final(self).duration_remaining == remaining,
            final(self).cooldown_remaining == if cooldown_secs(old(self).blind_seer@) * NANOS_PER_SEC > elapsed {
                cooldown_secs(old(self).blind_seer@) * NANOS_PER_SEC - elapsed
            } else {
                0
            },
            final(self).duration_total == total,
            final(self).cooldown_total == cooldown_secs(old(self).blind_seer@) * NANOS_PER_SEC,
            final(self).last_tick == now,
            final(self).active_emblem == old(self).active_emblem,
            final(self).blind_seer == old(self).blind_seer,
    {
        let total_cd = compute_cooldown(self.blind_seer.as_str()) * NANOS_PER_SEC;
        self.duration_remaining = remaining as i128;
        self.cooldown_remaining = if total_cd > elapsed { (total_cd - elapsed) as i128 } else { 0 };
        self.duration_total = total;
        self.cooldown_total = total_cd;
        self.phase = TimerPhase::Duration;
        self.last_tick = now;
    }

    /// Starts the effect for the named emblem (see `start_timer`).
    pub fn start_with_emblem(&mut self, remaining: u64, total: u64, elapsed: u64, name: &str, now: u64)
        ensures
            final(self).wf(),
            final(self).phase == TimerPhase::Duration,
            final(self).duration_remaining == remaining,
            final(self).cooldown_remaining == if cooldown_secs(old(self).blind_seer@) * NANOS_PER_SEC > elapsed {
                cooldown_secs(old(self).blind_seer@) * NANOS_PER_SEC - elapsed
            } else {
                0
            },
            final(self).duration_total == total,
            final(self).cooldown_total == cooldown_secs(old(self).blind_seer@) * NANOS_PER_SEC,
            final(self).last_tick == now,
            final(self).active_emblem@ == name@,
            final(self).blind_seer == old(self).blind_seer,
    {
        self.active_emblem = name.to_owned();
        self.start_timer(remaining, total, elapsed, now);
    }

    /// Advances the timer to `now` and reports where it stands (see `after_tick` and
    /// `tick_report`). An idle timer is left as it is.
    pub fn tick(&mut self, now: u64) -> (report: TickReport)
        requires
            old(self).wf(),
        ensures
            final(self).wf(),
            *final(self) == old(self).after_tick(now),
            (report.phase, report.remaining as int, report.total as int) == old(self).tick_report(now),
            report.emblem@ == old(self).reported_emblem(),
    {
        if self.phase == TimerPhase::Idle {
            return TickReport { phase: TimerPhase::Idle, remaining: 0, total: 0, emblem: String::new() };
        }
        let dt: u64 = if now >= self.last_tick { now - self.last_tick } else { 0 };
        self.last_tick = now;
        let emblem = self.active_emblem.clone();
        if self.phase == TimerPhase::Duration {
            self.duration_remaining = self.duration_remaining - dt as i128;
            self.cooldown_remaining = self.cooldown_remaining - dt as i128;
            if self.duration_remaining <= 0 {
                self.cooldown_remaining = self.cooldown_remaining + self.duration_remaining;
                self.duration_remaining = 0;
                self.phase = TimerPhase::Cooldown;
                TickReport {
                    phase: TimerPhase::Cooldown,
                    remaining: self.cooldown_remaining,
                    total: self.cooldown_total,
                    emblem,
                }
            } else {
                TickReport {
                    phase: TimerPhase::Duration,
                    remaining: self.duration_remaining,
                    total: self.duration_total,
                    emblem,
                }
            }
        } else {
            self.cooldown_remaining = self.cooldown_remaining - dt as i128;
            if self.cooldown_remaining <= 0 {
                self.phase = TimerPhase::Idle;
                TickReport { phase: TimerPhase::Idle, remaining: 0, total: 0, emblem }
            } else {
                TickReport {
                    phase: TimerPhase::Cooldown,
                    remaining: self.cooldown_remaining,
                    total: self.cooldown_total,
                    emblem,
                }
            }
        }
    }
}

impl TimerState {
    /// Starts the timer for a detected awakening: when the buff's emblem is known, the
    /// duration its packet carries is a number (see `seconds_bits_to_nanos`), and the
    /// awakening (seen `now - detected_at` ago) is still running, the effect starts with
    /// what is left of that duration, under the emblem's name. Otherwise nothing changes.
    pub fn apply_detected_buff(&mut self, det: DetectedBuff, now: u64)
        ensures
            old(self).wf() ==> final(self).wf(),
            ({
                let elapsed: int = if now >= det.detected_at { now - det.detected_at } else { 0 };
                match (emblem_info(det.buff_key), seconds_bits_to_nanos(det.duration_bits)) {
                    (Some((_, name)), Some(total)) => if total > elapsed {
                        &&& final(self).phase == TimerPhase::Duration
                        &&& final(self).duration_remaining == total - elapsed
                        &&& final(self).duration_total == total
                        &&& final(self).cooldown_remaining == if cooldown_secs(old(self).blind_seer@) * NANOS_PER_SEC > elapsed {
                            cooldown_secs(old(self).blind_seer@) * NANOS_PER_SEC - elapsed
                        } else {
                            0
                        }
                        &&& final(self).cooldown_total == cooldown_secs(old(self).blind_seer@) * NANOS_PER_SEC
                        &&& final(self).last_tick == now
                        &&& final(self).active_emblem@ == name
                        &&& final(self).blind_seer == old(self).blind_seer
                    } else {
                        *final(self) == *old(self)
                    },
                    _ => *final(self) == *old(self),
                }
            }),
    {
        let elapsed: u64 = if now >= det.detected_at { now - det.detected_at } else { 0 };
        match find_emblem_by_buff_key(det.buff_key) {
            Some(info) => match duration_nanos_from_bits(det.duration_bits) {
                Some(total) => {
                    if total > elapsed {
                        self.start_with_emblem(total - elapsed, total, elapsed, info.name, now);
                    }
                },
                None => {},
            },
            None => {},
        }
    }
}

/// A tick never wakes an idle timer, never goes back from cooldown to the effect, and an
/// idle timer is left exactly as it is.
pub proof fn lemma_tick_phase_order(s: TimerState, now: u64)
    ensures
        s.phase == TimerPhase::Idle ==> s.after_tick(now) == s,
        s.phase == TimerPhase::Duration ==> s.after_tick(now).phase != TimerPhase::Idle,
        s.phase == TimerPhase::Cooldown ==> s.after_tick(now).phase != TimerPhase::Duration,
{
}

/// How a tick counts down, in terms of the time since the last tick: the effect goes on
/// exactly while that time is less than what remains of it, and then both counters have
/// lost that time; once it ends, the cooldown loses the time once more by what the tick
/// overshot the effect's end. On cooldown the timer turns idle exactly when the time is at
/// least what remains of the cooldown.
pub proof fn lemma_tick_counts_down(s: TimerState, now: u64)
    requires
        s.wf(),
    ensures
        s.phase == TimerPhase::Duration ==> {
            let dt = s.elapsed_since_tick(now);
            let next = s.after_tick(now);
            &&& (next.phase == TimerPhase::Duration) == (dt < s.duration_remaining)
            &&& dt < s.duration_remaining ==> {
                &&& next.duration_remaining == s.duration_remaining - dt
                &&& next.cooldown_remaining == s.cooldown_remaining - dt
            }
            &&& dt >= s.duration_remaining ==> {
                &&& next.phase == TimerPhase::Cooldown
                &&& next.duration_remaining == 0
                &&& next.cooldown_remaining == s.cooldown_remaining - dt - (dt - s.duration_remaining)
            }
        },
        s.phase == TimerPhase::Cooldown ==> {
            let dt = s.elapsed_since_tick(now);
            let next = s.after_tick(now);
            &&& (next.phase == TimerPhase::Idle) == (dt >= s.cooldown_remaining)
            &&& next.cooldown_remaining == s.cooldown_remaining - dt
        },
        s.phase != TimerPhase::Idle ==> s.after_tick(now).last_tick == now,
        s.after_tick(now).active_emblem == s.active_emblem,
        s.after_tick(now).duration_total == s.duration_total,
        s.after_tick(now).cooldown_total == s.cooldown_total,
{
}

/// While the effect runs, duration and cooldown count down together: a tick that stays in
/// the effect keeps the gap between the two.
pub proof fn lemma_tick_keeps_gap(s: TimerState, now: u64)
    requires
        s.wf(),
        s.phase == TimerPhase::Duration,
        s.after_tick(now).phase == TimerPhase::Duration,
    ensures
        s.after_tick(now).cooldown_remaining - s.after_tick(now).duration_remaining
            == s.cooldown_remaining - s.duration_remaining,
        s.after_tick(now).duration_remaining <= s.duration_remaining,
{
}

/// Ticking at `t1` and then at `t2` gives the same timer as ticking once at `t2`, as long as
/// the clock does not run backwards and the phase does not end at `t1`.
pub proof fn lemma_tick_in_steps(s: TimerState, t1: u64, t2: u64)
    requires
        s.wf(),
        s.last_tick <= t1 <= t2,
        s.after_tick(t1).phase == s.phase,
    ensures
        s.after_tick(t1).after_tick(t2) == s.after_tick(t2),
{
}

} // verus!
