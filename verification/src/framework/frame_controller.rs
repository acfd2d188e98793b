//! Frame pacing: decides, at each update of the host application, how many
//! frames of a fixed duration have elapsed and whether to render.
//!
//! Times are nanoseconds on a monotonic clock, and durations are
//! nanoseconds.
use vstd::prelude::*;

verus! {

/// The longest duration the clock can measure, in nanoseconds: `u64::MAX`
/// seconds and 999,999,999 nanoseconds.
pub const DURATION_MAX_NANOS: u128 = 18_446_744_073_709_551_615_999_999_999;

/// How many render intervals are kept for averaging.
pub const MAX_INTERVALS: usize = 90;

/// A left-over accumulation shorter than this (1 ms) is dropped.
pub const DRIFT_NANOS: u128 = 1_000_000;

/// The state of a frame controller.
pub ghost struct FrameState {
    pub frame_duration: u128,
    pub last_frame_time: u128,
    pub last_render_time: u128,
    pub accumulator: u128,
    pub frame_count: u32,
    pub render_flag: bool,
    pub force_render: bool,
    pub paused: bool,
    pub frame_intervals: Seq<u128>,
}

/// The time from `earlier` to `now`, or zero when `now` is not later.
pub open spec fn since(earlier: u128, now: u128) -> u128 {
    if now >= earlier {
        (now - earlier) as u128
    } else {
        0
    }
}

/// `count + k`, wrapping around at 2^32.
pub open spec fn wrapping_count(count: u32, k: int) -> u32 {
    ((count + k) % 0x1_0000_0000) as u32
}

/// The intervals after recording `interval`: the newest 90 are kept.
pub open spec fn record_interval(intervals: Seq<u128>, interval: u128) -> Seq<u128> {
    let pushed = intervals.push(interval);
    if pushed.len() > MAX_INTERVALS {
        pushed.drop_first()
    } else {
        pushed
    }
}

/// An update at time `now`: the time since the last update accumulates.
/// A forced frame counts one frame and renders nothing by itself. Unless
/// paused, every whole frame duration in the accumulator counts a frame;
/// a remainder under 1 ms is dropped; when a frame was counted, the time
/// since the last render is recorded and a render is due.
pub open spec fn update_spec(s: FrameState, now: u128) -> FrameState {
    let acc = (s.accumulator + since(s.last_frame_time, now)) as u128;
    let base = FrameState { accumulator: acc, last_frame_time: now, render_flag: false, ..s };
    if s.force_render {
        FrameState { frame_count: wrapping_count(s.frame_count, 1), ..base }
    } else if s.paused {
        base
    } else {
        let k = acc / s.frame_duration;
        let rem = acc % s.frame_duration;
        let counted = FrameState {
            accumulator: if rem < DRIFT_NANOS {
                0
            } else {
                rem
            },
            frame_count: wrapping_count(s.frame_count, k as int),
            render_flag: k > 0,
            ..base
        };
        if k > 0 {
            FrameState {
                frame_intervals: record_interval(s.frame_intervals, since(s.last_render_time, now)),
                last_render_time: now,
                ..counted
            }
        } else {
            counted
        }
    }
}

/// Counts frames of a fixed duration against a clock.
pub struct FrameController {
    frame_duration: u128,
    last_frame_time: u128,
    last_render_time: u128,
    accumulator: u128,
    frame_count: u32,
    render_flag: bool,
    force_render: bool,
    paused: bool,
    frame_intervals: Vec<u128>,
}

impl FrameController {
    pub closed spec fn state(self) -> FrameState {
        FrameState {
            frame_duration: self.frame_duration,
            last_frame_time: self.last_frame_time,
            last_render_time: self.last_render_time,
            accumulator: self.accumulator,
            frame_count: self.frame_count,
            render_flag: self.render_flag,
            force_render: self.force_render,
            paused: self.paused,
            frame_intervals: self.frame_intervals@,
        }
    }

    /// Frames have a duration, and at most 90 intervals are kept.
    pub open spec fn wf(self) -> bool {
        self.state().frame_duration > 0 && self.state().frame_intervals.len() <= MAX_INTERVALS
    }

    /// A controller for frames of `frame_duration` nanoseconds, started at
    /// time `now`, with no frame counted.
    pub fn new(frame_duration: u128, now: u128) -> (r: Self)
        requires
            frame_duration > 0,
        ensures
            r.wf(),
            r.state() == (FrameState {
                frame_duration,
                last_frame_time: now,
                last_render_time: now,
                accumulator: 0,
                frame_count: 0,
                render_flag: false,
                force_render: false,
                paused: false,
                frame_intervals: Seq::empty(),
            }),
    {
        FrameController {
            frame_duration,
            last_frame_time: now,
            last_render_time: now,
            accumulator: 0,
            frame_count: 0,
            render_flag: false,
            force_render: false,
            paused: false,
            frame_intervals: Vec::new(),
        }
    }

    /// Whether an update at time `now` keeps the accumulator measurable.
    pub open spec fn can_update_at(self, now: u128) -> bool {
        self.state().accumulator + since(self.state().last_frame_time, now) <= DURATION_MAX_NANOS
    }

    /// Whether an update at time `now` keeps the accumulator measurable.
    pub fn can_update(&self, now: u128) -> (r: bool)
        ensures
            r == self.can_update_at(now),
    {
        let elapsed = if now >= self.last_frame_time {
            now - self.last_frame_time
        } else {
            0
        };
        elapsed <= DURATION_MAX_NANOS && self.accumulator <= DURATION_MAX_NANOS - elapsed
    }

    /// Updates the controller at time `now` (see [`update_spec`]).
    pub fn update_with_time(&mut self, now: u128)
        requires
            old(self).wf(),
            old(self).can_update_at(now),
        ensures
            final(self).wf(),
            final(self).state() == update_spec(old(self).state(), now),
    {
        let elapsed = if now >= self.last_frame_time {
            now - self.last_frame_time
        } else {
            0
        };
        self.accumulator = self.accumulator + elapsed;
        self.last_frame_time = now;
        self.render_flag = false;
        if self.force_render {
            self.frame_count = self.frame_count.wrapping_add(1);
            proof {
                assert(self.frame_count == wrapping_count(old(self).frame_count, 1));
            }
            return;
        }
        if !self.paused {
            let c0 = self.frame_count;
            let k = self.accumulator / self.frame_duration;
            self.accumulator = self.accumulator % self.frame_duration;
            let added = (k % 0x1_0000_0000) as u32;
            self.frame_count = self.frame_count.wrapping_add(added);
            proof {
                let c1 = self.frame_count;
                assert(c1 == wrapping_count(c0, k as int)) by (nonlinear_arith)
                    requires
                        added == k % 0x1_0000_0000,
                        c1 == (c0 + added) % 0x1_0000_0000,
                ;
            }
            self.render_flag = k > 0;
            if self.accumulator < DRIFT_NANOS {
                self.accumulator = 0;
            }
        }
        if self.render_flag {
            let interval = if now >= self.last_render_time {
                now - self.last_render_time
            } else {
                0
            };
            self.frame_intervals.push(interval);
            if self.frame_intervals.len() > MAX_INTERVALS {
                self.frame_intervals.remove(0);
            }
            self.last_render_time = now;
        }
    }

    /// Whether the application should update and draw this frame.
    pub fn should_render(&self) -> (r: bool)
        ensures
            r == (self.state().force_render || (!self.state().paused && self.state().render_flag)),
    {
        self.force_render || (!self.paused && self.render_flag)
    }

    /// The number of frames counted, wrapping around at 2^32.
    pub fn frame_count(&self) -> (r: u32)
        ensures
            r == self.state().frame_count,
    {
        self.frame_count
    }

    /// Starts counting frames from zero.
    pub fn reset_frame_count(&mut self)
        ensures
            final(self).state() == (FrameState { frame_count: 0, ..old(self).state() }),
    {
        self.frame_count = 0;
    }

    /// Sets the number of frames counted.
    pub fn set_frame_count(&mut self, count: u32)
        ensures
            final(self).state() == (FrameState { frame_count: count, ..old(self).state() }),
    {
        self.frame_count = count;
    }

    /// The duration of a frame, in nanoseconds.
    pub fn frame_duration(&self) -> (r: u128)
        ensures
            r == self.state().frame_duration,
    {
        self.frame_duration
    }

    /// Sets the duration of a frame, in nanoseconds.
    pub fn set_frame_duration(&mut self, frame_duration: u128)
        requires
            frame_duration > 0,
            old(self).wf(),
        ensures
            final(self).wf(),
            final(self).state() == (FrameState { frame_duration, ..old(self).state() }),
    {
        self.frame_duration = frame_duration;
    }

    /// Whether frame counting is paused.
    pub fn is_paused(&self) -> (r: bool)
        ensures
            r == self.state().paused,
    {
        self.paused
    }

    /// Pauses or resumes frame counting.
    pub fn set_paused(&mut self, paused: bool)
        ensures
            final(self).state() == (FrameState { paused, ..old(self).state() }),
    {
        self.paused = paused;
    }

    /// While paused, forces frames until [`Self::clear_force_render`].
    pub fn advance_single_frame(&mut self)
        ensures
            final(self).state() == (FrameState {
                force_render: old(self).state().force_render || old(self).state().paused,
                ..old(self).state()
            }),
    {
        if self.paused {
            self.force_render = true;
        }
    }

    /// Stops forcing frames.
    pub fn clear_force_render(&mut self)
        ensures
            final(self).state() == (FrameState { force_render: false, ..old(self).state() }),
    {
        self.force_render = false;
    }

    /// The most recent intervals between renders, oldest first, in
    /// nanoseconds.
    pub fn frame_intervals(&self) -> (r: &Vec<u128>)
        ensures
            r@ == self.state().frame_intervals,
    {
        &self.frame_intervals
    }
}

/// Frame pacing keeps time: an unpaused, unforced update counts exactly as
/// many frames as whole frame durations have accumulated, and keeps the
/// remainder unless it is under 1 ms.
pub proof fn law_frame_pacing(s: FrameState, now: u128)
    requires
        s.frame_duration > 0,
        !s.force_render,
        !s.paused,
        s.accumulator + since(s.last_frame_time, now) <= DURATION_MAX_NANOS,
    ensures
        ({
            let total = s.accumulator + since(s.last_frame_time, now);
            let s2 = update_spec(s, now);
            let k = total as u128 / s.frame_duration;
            &&& s2.frame_count == wrapping_count(s.frame_count, k as int)
            &&& k * s.frame_duration <= total < (k + 1) * s.frame_duration
            &&& (s2.accumulator == total - k * s.frame_duration || (s2.accumulator == 0 && total - k
                * s.frame_duration < DRIFT_NANOS))
            &&& s2.render_flag == (total >= s.frame_duration)
        }),
{
    let total: int = s.accumulator + since(s.last_frame_time, now);
    let fd: int = s.frame_duration as int;
    let k: int = (total as u128 / s.frame_duration) as int;
    assert(k * fd <= total < (k + 1) * fd && (total as u128) % s.frame_duration == total - k * fd && (k > 0
        <==> total >= fd)) by (nonlinear_arith)
        requires
            fd > 0,
            0 <= total <= DURATION_MAX_NANOS,
            k == total / fd,
            fd == s.frame_duration,
    ;
}


/// An update that renders records the time since the previous render (not
/// since the previous update) as the newest frame interval, and makes now
/// the time of the last render; an update that does not render records no
/// interval.
pub proof fn law_render_interval(s: FrameState, now: u128)
    ensures
        update_spec(s, now).render_flag ==> update_spec(s, now).frame_intervals.len() > 0
            && update_spec(s, now).frame_intervals.last() == (if now >= s.last_render_time {
            now - s.last_render_time
        } else {
            0
        }) && update_spec(s, now).last_render_time == now,
        !update_spec(s, now).render_flag ==> update_spec(s, now).frame_intervals == s.frame_intervals
            && update_spec(s, now).last_render_time == s.last_render_time,
{
    let t = update_spec(s, now);
    if t.render_flag {
        let iv = since(s.last_render_time, now);
        let pushed = s.frame_intervals.push(iv);
        assert(pushed.last() == iv);
        if pushed.len() > MAX_INTERVALS {
            assert(pushed.drop_first().last() == pushed.last());
        }
    }
}
} // verus!
