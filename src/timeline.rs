//! Gridline positions for a timeline header.
//!
//! The header is `pixel_width` pixels wide and shows the times `t0 ..= t1`
//! (in milliseconds). Pixel `k` (for `k` in `0 ..= pixel_width`) stands for
//! the time `t0 + k * (t1 - t0) / pixel_width`. A pixel gets a tick when its
//! time lies less than one pixel's worth of time past a multiple of the
//! calibration interval, so each gridline is marked once, at the first pixel
//! that reaches it. All of this is computed exactly, scaled by
//! `pixel_width`.
use vstd::prelude::*;

use crate::RangeError;

verus! {

/// Every how many ticks a tick is a major one, drawn long and labelled.
pub const LABEL_EVERY: usize = 5;

/// The header of the timeline widget.
pub struct Timeline {
    label_every: usize,
}

impl Timeline {
    pub fn new() -> (r: Timeline)
        ensures
            r.label_every() == LABEL_EVERY,
    {
        Timeline { label_every: LABEL_EVERY }
    }

    pub closed spec fn label_every(&self) -> nat {
        self.label_every as nat
    }

    /// Whether the tick with index `n` (counting from 0) is a major one.
    pub fn is_major(&self, n: usize) -> (r: bool)
        requires
            self.label_every() > 0,
        ensures
            r == (n as nat % self.label_every() == 0),
    {
        n % self.label_every == 0
    }
}

/// A tick: the pixel it stands at, and its time rounded down.
#[derive(Clone, Copy, Debug, PartialEq, Eq, Structural)]
pub struct Tick {
    pub pixel: u32,
    pub time: u64,
}

/// The input of the tick stepper: a header width in pixels, a calibration
/// interval, and the time range shown.
#[derive(Clone, Copy, Debug)]
pub struct Step {
    pub pixel_width: u32,
    pub calibration: u64,
    pub time_range: (u64, u64),
}

impl Step {
    /// The time range is not empty.
    pub open spec fn wf(&self) -> bool {
        self.time_range.0 < self.time_range.1
    }

    pub open spec fn span(&self) -> int {
        self.time_range.1 - self.time_range.0
    }

    /// The time of pixel `k`, times `pixel_width`.
    pub open spec fn scaled_time(&self, k: int) -> int {
        self.time_range.0 * self.pixel_width + k * self.span()
    }

    /// Whether pixel `k` gets a tick.
    pub open spec fn is_tick(&self, k: int) -> bool {
        &&& self.pixel_width > 0
        &&& self.calibration > 0
        &&& 0 <= k <= self.pixel_width
        &&& self.scaled_time(k) % (self.calibration * self.pixel_width) < self.span()
    }

    /// The tick at pixel `k`.
    pub open spec fn tick_at(&self, k: int) -> Tick {
        Tick { pixel: k as u32, time: (self.scaled_time(k) / self.pixel_width as int) as u64 }
    }

    /// The ticks at the pixels before `n`, in order.
    pub open spec fn ticks_before(&self, n: int) -> Seq<Tick>
        decreases n,
    {
        if n <= 0 {
            Seq::empty()
        } else if self.is_tick(n - 1) {
            self.ticks_before(n - 1).push(self.tick_at(n - 1))
        } else {
            self.ticks_before(n - 1)
        }
    }

    /// All the ticks, in order.
    pub open spec fn ticks(&self) -> Seq<Tick> {
        self.ticks_before(self.pixel_width + 1)
    }

    /// A stepper over the ticks, from the first pixel on.
    pub fn iter(&self) -> (r: StepIter)
        ensures
            r.step == *self,
            r.cur == 0,
    {
        StepIter { step: *self, cur: 0 }
    }
}

/// No pixel in `a .. b` gets a tick: the ticks before `b` are those before `a`.
proof fn lemma_no_ticks_between(step: Step, a: int, b: int)
    requires
        0 <= a <= b,
        forall|k: int| a <= k < b ==> !step.is_tick(k),
    ensures
        step.ticks_before(b) == step.ticks_before(a),
    decreases b - a,
{
    if a < b {
        lemma_no_ticks_between(step, a, b - 1);
    }
}

/// Walks the pixels of a `Step` and yields its ticks one at a time.
pub struct StepIter {
    pub step: Step,
    /// The next pixel to look at.
    pub cur: u64,
}

impl StepIter {
    pub open spec fn wf(&self) -> bool {
        &&& self.step.wf()
        &&& self.cur <= self.step.pixel_width + 1
    }

    /// Whether pixel `k` gets a tick.
    fn is_tick(&self, k: u64) -> (r: bool)
        requires
            self.wf(),
            k <= self.step.pixel_width,
        ensures
            r == self.step.is_tick(k as int),
    {
        let step = self.step;
        if step.pixel_width == 0 || step.calibration == 0 {
            return false;
        }
        let pw = step.pixel_width as u128;
        let t0 = step.time_range.0 as u128;
        let span = (step.time_range.1 - step.time_range.0) as u128;
        let k = k as u128;
        proof {
            assert(t0 * pw <= 0xffff_ffff_ffff_ffffu128 * 0xffff_ffffu128) by (nonlinear_arith)
                requires
                    t0 <= 0xffff_ffff_ffff_ffffu128,
                    pw <= 0xffff_ffffu128,
            ;
            assert(k * span <= 0xffff_ffffu128 * 0xffff_ffff_ffff_ffffu128) by (nonlinear_arith)
                requires
                    k <= 0xffff_ffffu128,
                    span <= 0xffff_ffff_ffff_ffffu128,
            ;
            assert(step.calibration as u128 * pw <= 0xffff_ffff_ffff_ffffu128 * 0xffff_ffffu128) by (nonlinear_arith)
                requires
                    step.calibration as u128 <= 0xffff_ffff_ffff_ffffu128,
                    pw <= 0xffff_ffffu128,
            ;
        }
        let scaled = t0 * pw + k * span;
        let period = step.calibration as u128 * pw;
        proof {
            assert(period > 0) by (nonlinear_arith)
                requires
                    period == step.calibration as u128 * pw,
                    step.calibration > 0,
                    pw > 0,
            ;
        }
        scaled % period < span
    }

    /// The time of pixel `k`, rounded down.
    fn time_at(&self, k: u64) -> (r: u64)
        requires
            self.wf(),
            self.step.pixel_width > 0,
            k <= self.step.pixel_width,
        ensures
            r == self.step.tick_at(k as int).time,
    {
        let step = self.step;
        let pw = step.pixel_width as u128;
        let t0 = step.time_range.0 as u128;
        let span = (step.time_range.1 - step.time_range.0) as u128;
        let k = k as u128;
        proof {
            assert(t0 * pw <= 0xffff_ffff_ffff_ffffu128 * 0xffff_ffffu128) by (nonlinear_arith)
                requires
                    t0 <= 0xffff_ffff_ffff_ffffu128,
                    pw <= 0xffff_ffffu128,
            ;
            assert(k * span <= pw * span) by (nonlinear_arith)
                requires
                    k <= pw,
            ;
            assert(pw * span <= 0xffff_ffffu128 * 0xffff_ffff_ffff_ffffu128) by (nonlinear_arith)
                requires
                    pw <= 0xffff_ffffu128,
                    span <= 0xffff_ffff_ffff_ffffu128,
            ;
            // The time lies in the range shown, so it fits in a u64.
            let (ti, pi, si, ki) = (t0 as int, pw as int, span as int, k as int);
            assert((ti * pi + ki * si) / pi <= ti + si) by (nonlinear_arith)
                requires
                    ki <= pi,
                    pi > 0,
                    ti >= 0,
                    si >= 0,
            ;
        }
        ((t0 * pw + k * span) / pw) as u64
    }

    /// The next tick at or after the current pixel, moving past it; `None`
    /// once no pixel is left that gets one.
    pub fn next(&mut self) -> (r: Option<Tick>)
        requires
            old(self).wf(),
        ensures
            final(self).wf(),
            final(self).step == old(self).step,
            match r {
                Some(t) => {
                    &&& old(self).cur <= t.pixel <= old(self).step.pixel_width
                    &&& old(self).step.is_tick(t.pixel as int)
                    &&& t == old(self).step.tick_at(t.pixel as int)
                    &&& forall|k: int| old(self).cur <= k < t.pixel ==> !old(self).step.is_tick(k)
                    &&& final(self).cur == t.pixel + 1
                },
                None => {
                    &&& forall|k: int| old(self).cur <= k <= old(self).step.pixel_width ==> !old(self).step.is_tick(k)
                    &&& final(self).cur == old(self).step.pixel_width + 1
                },
            },
    {
        let ghost start = self.cur;
        while self.cur <= self.step.pixel_width as u64
            invariant
                self.wf(),
                self.step == old(self).step,
                start == old(self).cur,
                start <= self.cur,
                forall|k: int| start <= k < self.cur ==> !self.step.is_tick(k),
            decreases self.step.pixel_width + 1 - self.cur,
        {
            let k = self.cur;
            self.cur = self.cur + 1;
            if self.is_tick(k) {
                let time = self.time_at(k);
                return Some(Tick { pixel: k as u32, time });
            }
        }
        None
    }
}

/// The ticks for a header `pixel_width` pixels wide that shows
/// `time_range`, with gridlines every `calibration` milliseconds: none when
/// the width or the interval is 0. A time range that does not end after it
/// starts is refused.
pub fn tick_sequence(pixel_width: u32, calibration: u64, time_range: (u64, u64)) -> (r: Result<
    Vec<Tick>,
    RangeError,
>)
    ensures
        match r {
            Ok(ticks) => {
                &&& time_range.0 < time_range.1
                &&& ticks@ == (Step { pixel_width, calibration, time_range }).ticks()
            },
            Err(e) => time_range.1 <= time_range.0 && e == RangeError::InvalidRange,
        },
{
    if time_range.1 <= time_range.0 {
        return Err(RangeError::InvalidRange);
    }
    let step = Step { pixel_width, calibration, time_range };
    let mut it = step.iter();
    let mut out: Vec<Tick> = Vec::new();
    loop
        invariant
            it.wf(),
            it.step == step,
            out@ == step.ticks_before(it.cur as int),
        ensures
            out@ == step.ticks(),
        decreases step.pixel_width + 1 - it.cur,
    {
        let ghost before = it.cur as int;
        match it.next() {
            Some(t) => {
                proof {
                    lemma_no_ticks_between(step, before, t.pixel as int);
                }
                out.push(t);
            },
            None => {
                proof {
                    lemma_no_ticks_between(step, before, step.pixel_width + 1);
                }
                break;
            },
        }
    }
    Ok(out)
}

} // verus!
