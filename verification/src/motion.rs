//! Motion detection from the variance of one access point's signal-strength
//! stream: a fixed-capacity FIFO window of samples is watched, and once the
//! window is full, a population variance above the threshold fires a motion
//! event and clears the window (a cooldown against repeated triggers from one
//! disturbance).

use vstd::prelude::*;
use std::collections::VecDeque;

verus! {

/// Sum of the samples.
pub open spec fn spec_sum(s: Seq<i8>) -> int
    decreases s.len(),
{
    if s.len() == 0 {
        0
    } else {
        (s[0] as int) + spec_sum(s.drop_first())
    }
}

/// Sum of the squared samples.
pub open spec fn spec_sum_sq(s: Seq<i8>) -> int
    decreases s.len(),
{
    if s.len() == 0 {
        0
    } else {
        (s[0] as int) * (s[0] as int) + spec_sum_sq(s.drop_first())
    }
}

/// The population variance of the samples exceeds `num / den`. The variance
/// (mean of squared deviations from the window mean, divisor `n`, not `n-1`)
/// equals `(n * sum_sq - sum * sum) / n^2`, so for positive `n` and `den` the
/// comparison is exactly this integer inequality.
pub open spec fn variance_exceeds(s: Seq<i8>, num: int, den: int) -> bool {
    den * (s.len() * spec_sum_sq(s) - spec_sum(s) * spec_sum(s)) > num * s.len() * s.len()
}

/// The window after one sample arrives: pushed at the back, and the oldest
/// sample dropped if the capacity is now exceeded.
pub open spec fn spec_slide(w: Seq<i8>, x: i8, cap: int) -> Seq<i8> {
    if w.push(x).len() > cap {
        w.push(x).drop_first()
    } else {
        w.push(x)
    }
}

/// Configuration of a motion detector: the window capacity and the variance
/// threshold as the fraction `threshold_num / threshold_den`, in squared dBm.
#[derive(Clone, Copy, Debug, PartialEq, Eq, Structural)]
pub struct MotionConfig {
    pub window: usize,
    pub threshold_num: u64,
    pub threshold_den: u64,
}

impl MotionConfig {
    /// The bounds under which the variance comparison cannot overflow.
    pub open spec fn wf(self) -> bool {
        &&& 1 <= self.window <= 4096
        &&& 1 <= self.threshold_den <= 0x10_0000
        &&& self.threshold_num <= 0x10_0000
    }

    /// The standard tuning: a 25-sample window and a 3.5 dBm^2 threshold.
    pub fn standard() -> (r: MotionConfig)
        ensures
            r.window == 25,
            r.threshold_num == 7,
            r.threshold_den == 2,
            r.wf(),
    {
        MotionConfig { window: 25, threshold_num: 7, threshold_den: 2 }
    }
}

/// The sliding-window variance monitor over one identifier's strength stream.
pub struct MotionDetector {
    pub config: MotionConfig,
    pub window: VecDeque<i8>,
}

impl MotionDetector {
    /// The configuration is in bounds and the window never exceeds capacity.
    pub open spec fn wf(self) -> bool {
        &&& self.config.wf()
        &&& self.window@.len() <= self.config.window
    }

    /// A detector with an empty window.
    pub fn new(config: MotionConfig) -> (r: MotionDetector)
        requires
            config.wf(),
        ensures
            r.wf(),
            r.config == config,
            r.window@.len() == 0,
    {
        MotionDetector { config, window: VecDeque::new() }
    }

    /// Accept one sample. The sample slides into the FIFO window; once the
    /// window is exactly full, a population variance above the threshold
    /// fires a motion event and empties the window; otherwise no event fires
    /// and the slid window stands.
    pub fn feed(&mut self, rssi: i8) -> (triggered: bool)
        requires
            old(self).wf(),
        ensures
            final(self).wf(),
            final(self).config == old(self).config,
            ({
                let w = spec_slide(old(self).window@, rssi, old(self).config.window as int);
                if w.len() == old(self).config.window && variance_exceeds(
                    w,
                    old(self).config.threshold_num as int,
                    old(self).config.threshold_den as int,
                ) {
                    triggered && final(self).window@.len() == 0
                } else {
                    !triggered && final(self).window@ == w
                }
            }),
    {
        self.window.push_back(rssi);
        if self.window.len() > self.config.window {
            self.window.pop_front();
            proof {
                assert(self.window@ =~= spec_slide(
                    old(self).window@,
                    rssi,
                    old(self).config.window as int,
                ));
            }
        }
        let n = self.window.len();
        if n == self.config.window {
            let w = &self.window;
            let ghost ws = self.window@;
            let mut sum: i64 = 0;
            let mut sumsq: i64 = 0;
            let mut i: usize = 0;
            proof {
                assert(ws.skip(0) =~= ws);
            }
            while i < n
                invariant
                    i <= n,
                    n == ws.len(),
                    n <= 4096,
                    ws == w@,
                    -128 * (i as int) <= sum <= 128 * (i as int),
                    0 <= sumsq <= 16384 * (i as int),
                    sum + spec_sum(ws.skip(i as int)) == spec_sum(ws),
                    sumsq + spec_sum_sq(ws.skip(i as int)) == spec_sum_sq(ws),
                decreases n - i,
            {
                let x = w[i];
                proof {
                    assert(ws.skip(i as int).drop_first() =~= ws.skip(i as int + 1));
                    assert(-128 <= x as int <= 127);
                    assert(0 <= (x as int) * (x as int) <= 16384) by (nonlinear_arith)
                        requires
                            -128 <= x as int <= 127,
                    ;
                }
                sum = sum + (x as i64);
                sumsq = sumsq + (x as i64) * (x as i64);
                i = i + 1;
            }
            proof {
                assert(spec_sum(ws.skip(n as int)) == 0);
                assert(spec_sum_sq(ws.skip(n as int)) == 0);
            }
            let nn: i64 = n as i64;
            let den: i64 = self.config.threshold_den as i64;
            let num: i64 = self.config.threshold_num as i64;
            proof {
                assert(0 <= nn * sumsq <= 0x40_0000_0000) by (nonlinear_arith)
                    requires
                        0 <= nn <= 4096,
                        0 <= sumsq <= 16384 * 4096,
                ;
                assert(0 <= sum * sum <= 0x40_0000_0000) by (nonlinear_arith)
                    requires
                        -128 * 4096 <= sum <= 128 * 4096,
                ;
                assert(-0x400_0000_0000_0000 <= den * (nn * sumsq - sum * sum) && den * (nn * sumsq
                    - sum * sum) <= 0x400_0000_0000_0000) by (nonlinear_arith)
                    requires
                        1 <= den <= 0x10_0000,
                        -0x40_0000_0000 <= nn * sumsq - sum * sum <= 0x40_0000_0000,
                ;
                assert(0 <= num * nn <= 0x4_0000_0000) by (nonlinear_arith)
                    requires
                        0 <= num <= 0x10_0000,
                        0 <= nn <= 4096,
                ;
                assert(0 <= num * nn * nn <= 0x4_0000_0000_0000) by (nonlinear_arith)
                    requires
                        0 <= num * nn <= 0x4_0000_0000,
                        0 <= nn <= 4096,
                ;
            }
            let lhs: i64 = den * (nn * sumsq - sum * sum);
            let rhs: i64 = num * nn * nn;
            if lhs > rhs {
                self.window.clear();
                return true;
            }
        }
        false
    }
}

} // verus!
