//! Frame timing over a microsecond clock the caller reads for us: global
//! elapsed time, a pausable local time that freezes while paused and
//! excludes the paused interval on resume, per-tick deltas, and a
//! frames-per-second gauge refreshed once per second.

use vstd::prelude::*;

verus! {

/// The timer's state; all times are microseconds from the caller's clock,
/// and the rate is in thousandths of a frame per second. A pause request
/// takes effect at the next tick: while paused the local time freezes and
/// the local delta is zero; on resume the paused interval is excluded, so
/// the local time continues without a jump.
#[derive(Clone, Copy, Debug, PartialEq, Eq, Structural)]
pub struct Timer {
    pub start_us: u64,
    pub prev_us: u64,
    pub window_start_us: u64,
    pub global_time_us: u64,
    pub global_delta_us: u64,
    pub time_us: u64,
    pub delta_time_us: u64,
    pub paused: bool,
    pub new_paused: bool,
    pub pause_shift_us: u64,
    pub fps_milli: u64,
    pub frame_count: u32,
    pub window_us: u64,
}

/// What one tick does: take a pending pause request, advance the global
/// time and delta, advance the local ones only when unpaused (excluding
/// everything spent paused), count the frame, and once the gauge window
/// has passed, recompute the rate and restart the window.
pub open spec fn spec_timer_tick(t: Timer, now_us: u64) -> Timer {
    let paused = t.new_paused;
    let shift = if t.paused == t.new_paused || t.new_paused {
        t.pause_shift_us as int
    } else {
        t.global_time_us - t.time_us
    };
    let gt = now_us - t.start_us;
    let gd = now_us - t.prev_us;
    let time = if paused {
        t.time_us as int
    } else {
        gt - shift
    };
    let delta = if paused {
        0int
    } else {
        gd
    };
    let elapsed = now_us - t.window_start_us;
    let counted = if t.frame_count < 0xffff_fffe {
        t.frame_count + 1
    } else {
        t.frame_count as int
    };
    if elapsed >= t.window_us {
        Timer {
            start_us: t.start_us,
            prev_us: now_us,
            window_start_us: now_us,
            global_time_us: gt as u64,
            global_delta_us: gd as u64,
            time_us: time as u64,
            delta_time_us: delta as u64,
            paused,
            new_paused: paused,
            pause_shift_us: shift as u64,
            fps_milli: (counted * 1_000_000_000 / (if elapsed > 0 {
                elapsed
            } else {
                1
            })) as u64,
            frame_count: 0,
            window_us: t.window_us,
        }
    } else {
        Timer {
            start_us: t.start_us,
            prev_us: now_us,
            window_start_us: t.window_start_us,
            global_time_us: gt as u64,
            global_delta_us: gd as u64,
            time_us: time as u64,
            delta_time_us: delta as u64,
            paused,
            new_paused: paused,
            pause_shift_us: shift as u64,
            fps_milli: t.fps_milli,
            frame_count: counted as u32,
            window_us: t.window_us,
        }
    }
}

impl Timer {
    /// The clock never runs backwards past what the timer has seen, the
    /// books balance (local time plus the excluded pause time is the
    /// global time), and the counts stay within their types.
    pub open spec fn wf(self) -> bool {
        &&& self.start_us <= self.prev_us
        &&& self.window_start_us <= self.prev_us
        &&& self.global_time_us == self.prev_us - self.start_us
        &&& self.pause_shift_us <= self.global_time_us
        &&& self.time_us + self.pause_shift_us <= self.global_time_us
        &&& (!self.paused ==> self.time_us + self.pause_shift_us == self.global_time_us)
        &&& self.frame_count < 0xffff_ffff
        &&& 1 <= self.window_us <= 10_000_000
    }

    /// A timer counting from `now_us`, unpaused, with a nominal delta and
    /// rate until the first real measurements come in.
    pub fn new(now_us: u64) -> (t: Timer)
        ensures
            t.wf(),
            t == (Timer {
                start_us: now_us,
                prev_us: now_us,
                window_start_us: now_us,
                global_time_us: 0u64,
                global_delta_us: 10_000u64,
                time_us: 0u64,
                delta_time_us: 10_000u64,
                paused: false,
                new_paused: false,
                pause_shift_us: 0u64,
                fps_milli: 30_000u64,
                frame_count: 0u32,
                window_us: 1_000_000u64,
            }),
    {
        Timer {
            start_us: now_us,
            prev_us: now_us,
            window_start_us: now_us,
            global_time_us: 0,
            global_delta_us: 10_000,
            time_us: 0,
            delta_time_us: 10_000,
            paused: false,
            new_paused: false,
            pause_shift_us: 0,
            fps_milli: 30_000,
            frame_count: 0,
            window_us: 1_000_000,
        }
    }

    /// Restart both time origins and the gauge window at `now_us`.
    pub fn reset_time(&mut self, now_us: u64)
        requires
            old(self).wf(),
        ensures
            final(self).wf(),
            final(self).start_us == now_us && final(self).prev_us == now_us,
            final(self).window_start_us == now_us,
            final(self).global_time_us == 0 && final(self).time_us == 0,
            final(self).pause_shift_us == 0 && final(self).frame_count == 0,
            final(self).paused == old(self).paused && final(self).new_paused == old(
                self,
            ).new_paused,
            final(self).delta_time_us == old(self).delta_time_us,
            final(self).global_delta_us == old(self).global_delta_us,
            final(self).fps_milli == old(self).fps_milli,
            final(self).window_us == old(self).window_us,
    {
        self.start_us = now_us;
        self.prev_us = now_us;
        self.window_start_us = now_us;
        self.global_time_us = 0;
        self.time_us = 0;
        self.pause_shift_us = 0;
        self.frame_count = 0;
    }

    /// Request a pause or a resume; it takes effect at the next tick.
    pub fn set_is_paused(&mut self, new_paused: bool)
        requires
            old(self).wf(),
        ensures
            final(self).wf(),
            final(self).new_paused == new_paused,
            final(self).paused == old(self).paused,
            final(self).start_us == old(self).start_us && final(self).prev_us == old(self).prev_us,
            final(self).window_start_us == old(self).window_start_us,
            final(self).global_time_us == old(self).global_time_us,
            final(self).global_delta_us == old(self).global_delta_us,
            final(self).time_us == old(self).time_us,
            final(self).delta_time_us == old(self).delta_time_us,
            final(self).pause_shift_us == old(self).pause_shift_us,
            final(self).fps_milli == old(self).fps_milli,
            final(self).frame_count == old(self).frame_count,
            final(self).window_us == old(self).window_us,
    {
        self.new_paused = new_paused;
    }

    /// Whether the timer is paused, as of the last tick.
    pub fn get_is_paused(&self) -> (r: bool)
        ensures
            r == self.paused,
    {
        self.paused
    }

    /// One tick of the frame loop, exactly as `spec_timer_tick` says.
    pub fn response(&mut self, now_us: u64)
        requires
            old(self).wf(),
            old(self).prev_us <= now_us,
        ensures
            final(self).wf(),
            *final(self) == spec_timer_tick(*old(self), now_us),
    {
        let paused = self.new_paused;
        let shift = if self.paused == self.new_paused || self.new_paused {
            self.pause_shift_us
        } else {
            self.global_time_us - self.time_us
        };
        let gt = now_us - self.start_us;
        let gd = now_us - self.prev_us;
        let time = if paused {
            self.time_us
        } else {
            gt - shift
        };
        let delta = if paused {
            0
        } else {
            gd
        };
        let elapsed = now_us - self.window_start_us;
        let counted = (if self.frame_count < 0xffff_fffe {
            self.frame_count + 1
        } else {
            self.frame_count
        }) as u64;
        self.prev_us = now_us;
        self.global_time_us = gt;
        self.global_delta_us = gd;
        self.time_us = time;
        self.delta_time_us = delta;
        self.paused = paused;
        self.new_paused = paused;
        self.pause_shift_us = shift;
        if elapsed >= self.window_us {
            let denom = if elapsed > 0 {
                elapsed
            } else {
                1
            };
            self.fps_milli = counted * 1_000_000_000 / denom;
            self.frame_count = 0;
            self.window_start_us = now_us;
        } else {
            self.frame_count = counted as u32;
        }
    }

    /// Local microseconds since the origin, pauses excluded, frozen while
    /// paused; as of the last tick.
    pub fn get_time(&self) -> (r: u64)
        ensures
            r == self.time_us,
    {
        self.time_us
    }

    /// Local microseconds between the last two ticks; zero while paused.
    pub fn get_delta_time(&self) -> (r: u64)
        ensures
            r == self.delta_time_us,
    {
        self.delta_time_us
    }

    /// Global microseconds since the origin, as of the last tick.
    pub fn get_global_time(&self) -> (r: u64)
        ensures
            r == self.global_time_us,
    {
        self.global_time_us
    }

    /// Global microseconds between the last two ticks.
    pub fn get_global_delta_time(&self) -> (r: u64)
        ensures
            r == self.global_delta_us,
    {
        self.global_delta_us
    }

    /// Thousandths of frames per second over the last gauge window.
    pub fn get_fps(&self) -> (r: u64)
        ensures
            r == self.fps_milli,
    {
        self.fps_milli
    }
}

} // verus!
