//! The watchdog, which starts sing-box again when it dies. It gives up for a while
//! after too many attempts.
use vstd::prelude::*;

use crate::singbox::{AppState, AppView};
use crate::text::{decimal, joined, number_text};

verus! {

/// The counters of the watchdog.
#[derive(Debug, Clone, Copy, PartialEq, Eq)]
pub struct Watchdog {
    /// Heartbeats that failed in a row.
    pub failures: u32,
    /// Heartbeats that succeeded in a row, since the count was last full.
    pub stable_count: u32,
    /// Restarts since the last manual start or stable minute.
    pub retries: u32,
    /// Until when no restart is tried, in milliseconds since 1970; 0 for no pause.
    pub suspended_until: u64,
    /// Whether a restart is under way.
    pub restarting: bool,
}

/// How many heartbeats in a row, one each second, make sing-box stable.
pub const STABLE_HEARTBEATS: u32 = 60;

/// How many restarts are tried before the long pause.
pub const MAX_RETRIES: u32 = 5;

/// The pause after too many restarts, in milliseconds.
pub const LONG_PAUSE_MS: u64 = 300_000;

/// The pause after a restart that failed, in milliseconds.
pub const SHORT_PAUSE_MS: u64 = 30_000;

/// What the watchdog decided.
#[derive(Debug, PartialEq, Eq)]
pub enum Decision {
    /// Leave sing-box alone, for a reason.
    Skip(String),
    /// Start sing-box again, as the restart with this number.
    Restart(u32),
}

impl Watchdog {
    /// The counters stay within their limits.
    pub open spec fn valid(self) -> bool {
        self.stable_count < STABLE_HEARTBEATS && self.retries <= MAX_RETRIES
    }

    /// The counters of a new start.
    pub open spec fn fresh() -> Watchdog {
        Watchdog {
            failures: 0,
            stable_count: 0,
            retries: 0,
            suspended_until: 0,
            restarting: false,
        }
    }

    /// After a heartbeat that succeeded: once sing-box was stable for long enough,
    /// earlier restarts no longer count.
    pub open spec fn beaten(self) -> Watchdog {
        if self.stable_count + 1 >= STABLE_HEARTBEATS {
            Watchdog { failures: 0, stable_count: 0, retries: 0, ..self }
        } else {
            Watchdog { failures: 0, stable_count: (self.stable_count + 1) as u32, ..self }
        }
    }

    /// After a heartbeat that failed.
    pub open spec fn missed(self) -> Watchdog {
        Watchdog { failures: (self.failures + 1) as u32, stable_count: 0, ..self }
    }

    /// No restart is tried at a time.
    pub open spec fn suspended(self, now_ms: u64) -> bool {
        self.suspended_until > 0 && now_ms < self.suspended_until
    }

    /// A restart is due: nothing speaks against it and there were not too many.
    pub open spec fn restarts(self, now_ms: u64, running: bool) -> bool {
        !self.suspended(now_ms) && !self.restarting && !running && self.retries < MAX_RETRIES
    }

    /// A restart would be due, but there were too many.
    pub open spec fn gives_up(self, now_ms: u64, running: bool) -> bool {
        !self.suspended(now_ms) && !self.restarting && !running && self.retries >= MAX_RETRIES
    }

    /// After the decision whether to restart.
    pub open spec fn decided(self, now_ms: u64, running: bool) -> Watchdog {
        if self.restarts(now_ms, running) {
            Watchdog { restarting: true, retries: (self.retries + 1) as u32, ..self }
        } else if self.gives_up(now_ms, running) {
            Watchdog { suspended_until: (now_ms + LONG_PAUSE_MS) as u64, ..self }
        } else {
            self
        }
    }

    /// After a restart that succeeded: it counts, though a start clears the
    /// counters.
    pub open spec fn restarted(self, number: u32) -> Watchdog {
        Watchdog { failures: 0, restarting: false, retries: number, ..self }
    }

    /// After a restart that failed.
    pub open spec fn restart_failed(self, now_ms: u64) -> Watchdog {
        Watchdog {
            restarting: false,
            suspended_until: (now_ms + SHORT_PAUSE_MS) as u64,
            ..self
        }
    }
}

/// The decision of the watchdog, in words where it skips.
pub open spec fn decision_view(w: Watchdog, now_ms: u64, running: bool) -> Result<u32, Seq<char>> {
    if w.suspended(now_ms) {
        Err("watchdog 处于冷却期，跳过自动重启"@)
    } else if w.restarting || running {
        Err("watchdog 检测到 sing-box 仍在运行，不自动重启"@)
    } else if w.retries >= MAX_RETRIES {
        Err("watchdog 连续自动重启 5 次失败，进入 5 分钟冷却"@)
    } else {
        Ok((w.retries + 1) as u32)
    }
}

impl AppState {
    /// Notes a heartbeat of sing-box's control interface.
    pub fn wd_heartbeat_ok(&mut self)
        requires
            old(self).watchdog.stable_count < u32::MAX,
        ensures
            final(self)@ == (AppView { watchdog: old(self).watchdog.beaten(), ..old(self)@ }),
    {
        self.watchdog.failures = 0;
        let stable: u32 = self.watchdog.stable_count + 1;
        if stable >= STABLE_HEARTBEATS {
            self.watchdog.stable_count = 0;
            self.watchdog.retries = 0;
        } else {
            self.watchdog.stable_count = stable;
        }
    }

    /// Notes that a heartbeat failed, and tells how many did in a row.
    pub fn wd_heartbeat_fail(&mut self) -> (r: u32)
        requires
            old(self).watchdog.failures < u32::MAX,
        ensures
            final(self)@ == (AppView { watchdog: old(self).watchdog.missed(), ..old(self)@ }),
            r == old(self).watchdog.failures + 1,
    {
        self.watchdog.stable_count = 0;
        self.watchdog.failures = self.watchdog.failures + 1;
        self.watchdog.failures
    }

    /// Whether the watchdog pauses.
    pub fn wd_is_suspended(&self, now_ms: u64) -> (r: bool)
        ensures
            r == self.watchdog.suspended(now_ms),
    {
        self.watchdog.suspended_until > 0 && now_ms < self.watchdog.suspended_until
    }

    /// Clears the counters, after a start.
    pub fn wd_reset(&mut self)
        ensures
            final(self)@ == (AppView { watchdog: Watchdog::fresh(), ..old(self)@ }),
    {
        self.watchdog = Watchdog {
            failures: 0,
            stable_count: 0,
            retries: 0,
            suspended_until: 0,
            restarting: false,
        };
    }

    /// Decides whether sing-box is to be started again. `running` tells whether its
    /// process is alive.
    pub fn wd_try_restart(&mut self, now_ms: u64, running: bool) -> (r: Decision)
        requires
            now_ms <= u64::MAX - LONG_PAUSE_MS,
        ensures
            final(self)@ == (AppView {
                watchdog: old(self).watchdog.decided(now_ms, running),
                ..old(self)@
            }),
            match r {
                Decision::Skip(reason) => decision_view(old(self).watchdog, now_ms, running)
                    == Err::<u32, Seq<char>>(reason@),
                Decision::Restart(n) => decision_view(old(self).watchdog, now_ms, running)
                    == Ok::<u32, Seq<char>>(n),
            },
    {
        if self.wd_is_suspended(now_ms) {
            return Decision::Skip("watchdog 处于冷却期，跳过自动重启".to_owned());
        }
        if self.watchdog.restarting || running {
            return Decision::Skip("watchdog 检测到 sing-box 仍在运行，不自动重启".to_owned());
        }
        if self.watchdog.retries >= MAX_RETRIES {
            self.watchdog.suspended_until = now_ms + LONG_PAUSE_MS;
            return Decision::Skip("watchdog 连续自动重启 5 次失败，进入 5 分钟冷却".to_owned());
        }
        self.watchdog.restarting = true;
        let number: u32 = self.watchdog.retries + 1;
        self.watchdog.retries = number;
        Decision::Restart(number)
    }

    /// Notes how the restart with a number went, and tells what to log of it.
    pub fn wd_restarted(
        &mut self,
        number: u32,
        now_ms: u64,
        outcome: Result<(), String>,
    ) -> (r: String)
        requires
            now_ms <= u64::MAX - SHORT_PAUSE_MS,
        ensures
            final(self)@ == (AppView {
                watchdog: match outcome {
                    Ok(_) => old(self).watchdog.restarted(number),
                    Err(_) => old(self).watchdog.restart_failed(now_ms),
                },
                ..old(self)@
            }),
            r@ == (match outcome {
                Ok(_) => "watchdog 已自动重启 sing-box（第 "@ + decimal(number as nat) + " 次）"@,
                Err(e) => "watchdog 自动重启失败："@ + e@ + "，30 秒后重试"@,
            }),
    {
        self.watchdog.restarting = false;
        match outcome {
            Ok(_) => {
                self.watchdog.failures = 0;
                self.watchdog.retries = number;
                let text = joined(
                    "watchdog 已自动重启 sing-box（第 ",
                    number_text(number as u64).as_str(),
                );
                joined(text.as_str(), " 次）")
            },
            Err(e) => {
                self.watchdog.suspended_until = now_ms + SHORT_PAUSE_MS;
                let text = joined("watchdog 自动重启失败：", e.as_str());
                joined(text.as_str(), "，30 秒后重试")
            },
        }
    }
}

// ---- Laws ----

/// Something that happens to the watchdog while sing-box neither answers nor is
/// started by hand.
pub enum Trouble {
    /// A heartbeat failed.
    Missed,
    /// The watchdog looked at sing-box; `succeeds` tells how a restart goes.
    Looked { now_ms: u64, running: bool, succeeds: bool },
}

impl Watchdog {
    /// After some trouble. A start clears the counters before the watchdog notes
    /// how the restart went.
    pub open spec fn troubled(self, e: Trouble) -> Watchdog {
        match e {
            Trouble::Missed => self.missed(),
            Trouble::Looked { now_ms, running, succeeds } => if self.restarts(now_ms, running) {
                let number = (self.retries + 1) as u32;
                if succeeds {
                    Watchdog::fresh().restarted(number)
                } else {
                    self.decided(now_ms, running).restart_failed(now_ms)
                }
            } else {
                self.decided(now_ms, running)
            },
        }
    }

    /// Trouble in which sing-box is started again.
    pub open spec fn restarts_on(self, e: Trouble) -> bool {
        match e {
            Trouble::Missed => false,
            Trouble::Looked { now_ms, running, .. } => self.restarts(now_ms, running),
        }
    }

    /// How often sing-box is started again in a series of troubles.
    pub open spec fn restarts_in(self, troubles: Seq<Trouble>) -> nat
        decreases troubles.len(),
    {
        if troubles.len() == 0 {
            0
        } else {
            (if self.restarts_on(troubles[0]) {
                1nat
            } else {
                0nat
            }) + self.troubled(troubles[0]).restarts_in(troubles.skip(1))
        }
    }

    /// After a number of heartbeats in a row.
    pub open spec fn beaten_times(self, n: nat) -> Watchdog
        decreases n,
    {
        if n == 0 {
            self
        } else {
            self.beaten_times((n - 1) as nat).beaten()
        }
    }
}

/// Whatever happens, the counters stay within their limits.
pub proof fn law_limits_kept(w: Watchdog, now_ms: u64, running: bool, e: Trouble)
    requires
        w.valid(),
    ensures
        Watchdog::fresh().valid(),
        w.beaten().valid(),
        w.missed().valid(),
        w.decided(now_ms, running).valid(),
        w.restart_failed(now_ms).valid(),
        w.restarts(now_ms, running) ==> w.restarted((w.retries + 1) as u32).valid(),
        w.troubled(e).valid(),
{
}

/// However long trouble lasts, sing-box is started again at most five times.
pub proof fn law_restarts_bounded(w: Watchdog, troubles: Seq<Trouble>)
    requires
        w.retries <= MAX_RETRIES,
    ensures
        w.restarts_in(troubles) <= MAX_RETRIES - w.retries,
    decreases troubles.len(),
{
    if troubles.len() > 0 {
        law_restarts_bounded(w.troubled(troubles[0]), troubles.skip(1));
    }
}

proof fn lemma_beaten_times(w: Watchdog, n: nat)
    requires
        w.valid(),
    ensures
        w.beaten_times(n).valid(),
        n > 0 ==> w.beaten_times(n).failures == 0,
        n < STABLE_HEARTBEATS - w.stable_count ==> w.beaten_times(n).stable_count
            == w.stable_count + n,
        n >= STABLE_HEARTBEATS - w.stable_count ==> w.beaten_times(n).retries == 0,
    decreases n,
{
    if n > 0 {
        lemma_beaten_times(w, (n - 1) as nat);
    }
}

/// A minute of heartbeats makes earlier restarts count no more.
pub proof fn law_stable_minute_forgives(w: Watchdog)
    requires
        w.valid(),
    ensures
        w.beaten_times(STABLE_HEARTBEATS as nat).retries == 0,
        w.beaten_times(STABLE_HEARTBEATS as nat).failures == 0,
{
    lemma_beaten_times(w, STABLE_HEARTBEATS as nat);
}

/// A manual start makes restarts possible again at once.
pub proof fn law_manual_start_forgives(now_ms: u64)
    ensures
        Watchdog::fresh().restarts(now_ms, false),
{
}

/// Giving up, and a restart that failed, each bring a pause of its length and no
/// longer.
pub proof fn law_pauses(w: Watchdog, now_ms: u64, running: bool, later_ms: u64)
    requires
        now_ms <= u64::MAX - LONG_PAUSE_MS,
        now_ms <= later_ms,
    ensures
        w.gives_up(now_ms, running) ==> w.decided(now_ms, running).suspended(later_ms) == (later_ms
            - now_ms < LONG_PAUSE_MS),
        w.restart_failed(now_ms).suspended(later_ms) == (later_ms - now_ms < SHORT_PAUSE_MS),
{
}

/// While the watchdog pauses, nothing is decided.
pub proof fn law_pause_decides_nothing(w: Watchdog, now_ms: u64, running: bool)
    requires
        w.suspended(now_ms),
    ensures
        w.decided(now_ms, running) == w,
        decision_view(w, now_ms, running) is Err,
{
}

/// A heartbeat that succeeds ends the failures in a row. The sixtieth of such
/// heartbeats in a row makes earlier restarts count no more; before it they count on. A
/// heartbeat that fails counts, and ends those that succeeded in a row.
pub proof fn law_heartbeats(w: Watchdog)
    requires
        w.valid(),
        w.failures < u32::MAX,
    ensures
        w.beaten().failures == 0,
        w.beaten().suspended_until == w.suspended_until,
        w.beaten().restarting == w.restarting,
        w.stable_count < 59 ==> w.beaten().stable_count == w.stable_count + 1 && w.beaten().retries
            == w.retries,
        w.stable_count == 59 ==> w.beaten().stable_count == 0 && w.beaten().retries == 0,
        w.missed().failures == w.failures + 1,
        w.missed().stable_count == 0,
        w.missed().retries == w.retries,
        w.missed().suspended_until == w.suspended_until,
        w.missed().restarting == w.restarting,
{
}

/// sing-box is started again exactly if the watchdog does not pause, no restart is
/// under way, its process is not alive, and there were fewer than five restarts; this
/// one counts then. At five the watchdog pauses for five minutes. In every other case
/// nothing changes.
pub proof fn law_decisions(w: Watchdog, now_ms: u64, running: bool)
    requires
        now_ms <= u64::MAX - 300_000,
    ensures
        ({
            let paused = w.suspended_until > 0 && now_ms < w.suspended_until;
            let due = !paused && !w.restarting && !running;
            let d = w.decided(now_ms, running);
            &&& w.suspended(now_ms) == paused
            &&& decision_view(w, now_ms, running) is Ok <==> due && w.retries < 5
            &&& due && w.retries < 5 ==> {
                &&& decision_view(w, now_ms, running) == Ok::<u32, Seq<char>>((w.retries + 1) as u32)
                &&& d.restarting
                &&& d.retries == w.retries + 1
                &&& d.failures == w.failures
                &&& d.stable_count == w.stable_count
                &&& d.suspended_until == w.suspended_until
            }
            &&& due && w.retries >= 5 ==> {
                &&& d.suspended_until == now_ms + 300_000
                &&& d.retries == w.retries
                &&& d.failures == w.failures
                &&& d.stable_count == w.stable_count
                &&& d.restarting == w.restarting
            }
            &&& !due ==> d == w
        }),
{
}

/// After a restart none is under way any more. One that succeeded counts and ends the
/// failures in a row, and brings no pause; one that failed brings a pause of thirty
/// seconds and leaves the counters.
pub proof fn law_restart_outcomes(w: Watchdog, number: u32, now_ms: u64)
    requires
        now_ms <= u64::MAX - 30_000,
    ensures
        !w.restarted(number).restarting,
        w.restarted(number).retries == number,
        w.restarted(number).failures == 0,
        w.restarted(number).stable_count == w.stable_count,
        w.restarted(number).suspended_until == w.suspended_until,
        !w.restart_failed(now_ms).restarting,
        w.restart_failed(now_ms).suspended_until == now_ms + 30_000,
        w.restart_failed(now_ms).retries == w.retries,
        w.restart_failed(now_ms).failures == w.failures,
        w.restart_failed(now_ms).stable_count == w.stable_count,
{
}

} // verus!
