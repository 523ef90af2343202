//! Frame pacing: whether a canvas is due for its next frame.
//!
//! Times are microseconds on a monotonic clock, read by the caller.

use vstd::prelude::*;

verus! {

/// The frame interval, in microseconds, for a rate of `fps` frames per second;
/// a rate of zero never renders.
pub open spec fn interval_for(fps: u8) -> u64 {
    if fps == 0 {
        u64::MAX
    } else {
        (1_000_000u64 / (fps as u64)) as u64
    }
}

/// The time since `last`, or zero if `now` is earlier.
pub open spec fn elapsed_since(last: u64, now: u64) -> u64 {
    if now >= last {
        (now - last) as u64
    } else {
        0
    }
}

/// The rate in force: the override if one is set, else the configured rate.
pub open spec fn effective_fps(configured: u8, over: Option<u8>) -> u8 {
    match over {
        Some(f) => f,
        None => configured,
    }
}

/// The frame interval of a rate of `fps` frames per second, in microseconds.
pub fn frame_interval(fps: u8) -> (r: u64)
    ensures
        r == interval_for(fps),
{
    if fps == 0 {
        u64::MAX
    } else {
        1_000_000u64 / (fps as u64)
    }
}

/// The frame-pacing state of one canvas.
#[derive(Clone, Copy, Debug)]
pub struct FramePacer {
    /// The configured rate, in frames per second.
    pub configured_fps: u8,
    /// A rate set by power policy, which replaces the configured one.
    pub override_fps: Option<u8>,
    /// When the last frame was presented.
    pub last_frame: u64,
}

impl FramePacer {
    /// The interval in force.
    pub open spec fn interval(&self) -> u64 {
        interval_for(effective_fps(self.configured_fps, self.override_fps))
    }

    /// Whether a frame is due at `now`.
    pub open spec fn due(&self, now: u64) -> bool {
        elapsed_since(self.last_frame, now) >= self.interval()
    }

    /// A pacer for `configured_fps` whose last frame is taken to be at `now`.
    pub fn new(configured_fps: u8, now: u64) -> (r: Self)
        ensures
            r.configured_fps == configured_fps,
            r.override_fps is None,
            r.last_frame == now,
    {
        FramePacer { configured_fps, override_fps: None, last_frame: now }
    }

    /// The configured rate.
    pub fn configured_frame_rate(&self) -> (r: u8)
        ensures
            r == self.configured_fps,
    {
        self.configured_fps
    }

    /// Sets or clears the override rate.
    pub fn set_frame_rate_override(&mut self, fps: Option<u8>)
        ensures
            *final(self) == (FramePacer { override_fps: fps, ..*old(self) }),
    {
        self.override_fps = fps;
    }

    /// The interval in force, in microseconds.
    pub fn effective_interval(&self) -> (r: u64)
        ensures
            r == self.interval(),
    {
        let fps = match self.override_fps {
            Some(f) => f,
            None => self.configured_fps,
        };
        frame_interval(fps)
    }

    /// The time since the last frame.
    pub fn elapsed(&self, now: u64) -> (r: u64)
        ensures
            r == elapsed_since(self.last_frame, now),
    {
        if now >= self.last_frame {
            now - self.last_frame
        } else {
            0
        }
    }

    /// Whether the time since the last frame has reached the interval in force.
    pub fn should_render(&self, now: u64) -> (r: bool)
        ensures
            r == self.due(now),
    {
        self.elapsed(now) >= self.effective_interval()
    }

    /// Records that a frame was presented at `now`.
    pub fn mark_frame_rendered(&mut self, now: u64)
        ensures
            *final(self) == (FramePacer { last_frame: now, ..*old(self) }),
    {
        self.last_frame = now;
    }
}

/// Right after a frame is marked at `now`, the elapsed time is zero, and a
/// frame is due at a later time `t` exactly when `t - now` reaches the interval.
pub proof fn lemma_mark_resets(p: FramePacer, now: u64, t: u64)
    requires
        t >= now,
    ensures
        elapsed_since((FramePacer { last_frame: now, ..p }).last_frame, now) == 0,
        (FramePacer { last_frame: now, ..p }).due(t) == (t - now >= p.interval()),
{
}

/// Gate law: with configured rate `c` and override `o`, a frame is due exactly
/// when the elapsed time reaches the override's interval if one is set, else
/// the configured one.
pub proof fn lemma_gate(c: u8, o: Option<u8>, last: u64, now: u64)
    ensures
        (FramePacer { configured_fps: c, override_fps: o, last_frame: last }).due(now) == (elapsed_since(last, now) >= match o {
            Some(f) => interval_for(f),
            None => interval_for(c),
        }),
{
}

} // verus!
