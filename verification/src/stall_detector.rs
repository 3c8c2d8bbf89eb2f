//! Stops a recording whose physics solver has stalled: too many wall-clock-slow frames
//! in a row.
use vstd::prelude::*;

verus! {

/// How many slow frames in a row mean the solver is stuck.
pub const MAX_CONSECUTIVE_SLOW_FRAMES: u32 = 5;

/// Counts the slow frames in a row.
pub struct StallDetector {
    consecutive_slow_frames: u32,
}

impl StallDetector {
    /// No slow frame seen yet.
    pub fn new() -> (d: StallDetector)
        ensures
            d.slow_frames() == 0,
    {
        StallDetector { consecutive_slow_frames: 0 }
    }

    /// The slow frames seen in a row.
    pub closed spec fn slow_frames(&self) -> u32 {
        self.consecutive_slow_frames
    }

    /// The slow frames seen in a row.
    pub fn consecutive_slow_frames(&self) -> (n: u32)
        ensures
            n == self.slow_frames(),
    {
        self.consecutive_slow_frames
    }
}

/// Registers a frame: `None` for the first frame (there is no earlier one to time it
/// against), otherwise whether it took too long. A fast frame resets the count, a slow one
/// adds to it. Returns whether the recording must stop.
pub fn detect_stall(detector: &mut StallDetector, frame_is_slow: Option<bool>) -> (stop: bool)
    requires
        frame_is_slow == Some(true) ==> old(detector).slow_frames() < u32::MAX,
    ensures
        match frame_is_slow {
            None => final(detector).slow_frames() == old(detector).slow_frames() && !stop,
            Some(false) => final(detector).slow_frames() == 0 && !stop,
            Some(true) => {
                &&& final(detector).slow_frames() == old(detector).slow_frames() + 1
                &&& stop == (final(detector).slow_frames() >= MAX_CONSECUTIVE_SLOW_FRAMES)
            },
        },
{
    match frame_is_slow {
        None => false,
        Some(false) => {
            detector.consecutive_slow_frames = 0;
            false
        },
        Some(true) => {
            detector.consecutive_slow_frames = detector.consecutive_slow_frames + 1;
            detector.consecutive_slow_frames >= MAX_CONSECUTIVE_SLOW_FRAMES
        },
    }
}

} // verus!
