//! The per-tick animation state machine. It owns the hue of every LED, the
//! gamma tables and the configuration fixed at start, advances the hues by
//! a fixed step each tick, and decides what one tick transmits. The caller
//! runs the clock, the pacing sleep and the bus write, and reports the
//! shutdown flag; the decisions all live here.

use vstd::prelude::*;
use crate::dimming::clamp_dimming;
use crate::dimming::compute_dimming;
use crate::dimming::spec_clamp_dimming;
use crate::dimming::spec_dimming;
use crate::frame::assemble;
use crate::frame::spec_frame_bytes;
use crate::frame::spec_pixels;
use crate::gamma::GammaTable;
use vstd::arithmetic::div_mod::lemma_mod_division_less_than_divisor;
use vstd::arithmetic::div_mod::lemma_multiply_divide_lt;

verus! {

/// One hue step: add the increment and wrap around the circle.
pub open spec fn spec_advance(h: int, step: int) -> int {
    (h + step) % 36000
}

/// The hue after `n` ticks of the same step.
pub open spec fn spec_advance_iter(h: int, step: int, n: nat) -> int
    decreases n,
{
    if n == 0 {
        h
    } else {
        spec_advance(spec_advance_iter(h, step, (n - 1) as nat), step)
    }
}

/// Law: starting inside the circle, any number of fixed-step advances
/// leaves a hue inside `[0, 36000)`.
pub proof fn lemma_hue_advance_in_range(h: int, step: int, n: nat)
    requires
        0 <= h < 36000,
        0 <= step,
    ensures
        0 <= spec_advance_iter(h, step, n) < 36000,
    decreases n,
{
    if n > 0 {
        lemma_hue_advance_in_range(h, step, (n - 1) as nat);
        lemma_mod_division_less_than_divisor(
            spec_advance_iter(h, step, (n - 1) as nat) + step,
            36000,
        );
    }
}

/// Evenly spread starting hues: LED `i` of `n` starts at `i/n` of the
/// circle.
pub fn init_hues(n: usize) -> (hues: Vec<u32>)
    requires
        n <= 0x1000_0000,
    ensures
        hues@.len() == n,
        forall|i: int| 0 <= i < n ==> hues@[i] == (i * 36000) / (n as int),
        forall|i: int| 0 <= i < n ==> hues@[i] < 36000,
{
    let mut hues: Vec<u32> = Vec::new();
    let mut i: usize = 0;
    while i < n
        invariant
            i <= n <= 0x1000_0000,
            hues@.len() == i,
            forall|j: int| 0 <= j < i ==> hues@[j] == (j * 36000) / (n as int),
            forall|j: int| 0 <= j < i ==> hues@[j] < 36000,
        decreases n - i,
    {
        proof {
            lemma_multiply_divide_lt(i as int * 36000, n as int, 36000);
        }
        let h: u32 = (((i as u64) * 36000) / (n as u64)) as u32;
        hues.push(h);
        i += 1;
    }
    hues
}

/// Advance every hue by the fixed per-tick step, wrapping at the circle.
pub fn advance_hues(hues: &mut Vec<u32>, step: u32)
    ensures
        final(hues)@.len() == old(hues)@.len(),
        forall|i: int|
            0 <= i < old(hues)@.len() ==> final(hues)@[i] == spec_advance(
                old(hues)@[i] as int,
                step as int,
            ),
        forall|i: int| 0 <= i < final(hues)@.len() ==> final(hues)@[i] < 36000,
{
    let ghost orig = hues@;
    let n = hues.len();
    let mut i: usize = 0;
    while i < n
        invariant
            hues@.len() == n == orig.len(),
            i <= n,
            forall|j: int|
                0 <= j < i ==> hues@[j] == spec_advance(orig[j] as int, step as int) && hues@[j]
                    < 36000,
            forall|j: int| i <= j < n ==> hues@[j] == orig[j],
        decreases n - i,
    {
        let h = hues[i];
        proof {
            lemma_mod_division_less_than_divisor(h as int + step as int, 36000);
        }
        let v: u32 = (((h as u64) + (step as u64)) % 36000) as u32;
        hues[i] = v;
        i += 1;
    }
}

/// The dimming factor one running tick applies: the clamped schedule when
/// scheduling is on, full brightness otherwise.
pub open spec fn spec_tick_dimming(schedule: bool, now: int, sunrise: int, sunset: int) -> int {
    if schedule {
        spec_clamp_dimming(spec_dimming(now, sunrise, sunset))
    } else {
        255
    }
}

/// The animation state: per-LED hues, the gamma tables, the per-tick hue
/// step in centidegrees, whether the solar schedule applies, and whether
/// the loop is still running.
pub struct Animation {
    pub hues: Vec<u32>,
    pub table: GammaTable,
    pub hue_step: u32,
    pub schedule: bool,
    pub running: bool,
}

impl Animation {
    pub open spec fn wf(&self) -> bool {
        &&& self.table.wf()
        &&& self.hues@.len() <= 0x1000_0000
        &&& forall|i: int| 0 <= i < self.hues@.len() ==> self.hues@[i] < 36000
    }

    pub fn new(hues: Vec<u32>, table: GammaTable, hue_step: u32, schedule: bool) -> (a: Animation)
        requires
            table.wf(),
            hues@.len() <= 0x1000_0000,
            forall|i: int| 0 <= i < hues@.len() ==> hues@[i] < 36000,
        ensures
            a.wf(),
            a.hues == hues,
            a.table == table,
            a.hue_step == hue_step,
            a.schedule == schedule,
            a.running,
    {
        Animation { hues, table, hue_step, schedule, running: true }
    }

    /// One tick of the loop. A stopped animation transmits nothing. When
    /// the shutdown flag is up, the tick transmits one last frame with the
    /// dimming forced to zero and stops. Otherwise it advances every hue by
    /// the step and transmits the frame for the new hues under the tick's
    /// dimming factor.
    pub fn tick(&mut self, shutdown: bool, now: i64, sunrise: i64, sunset: i64) -> (frame: Option<
        Vec<u8>,
    >)
        requires
            old(self).wf(),
            -0x2000_0000_0000_0000 <= now <= 0x2000_0000_0000_0000,
            -0x2000_0000_0000_0000 <= sunrise <= 0x2000_0000_0000_0000,
            -0x2000_0000_0000_0000 <= sunset <= 0x2000_0000_0000_0000,
        ensures
            final(self).wf(),
            final(self).table == old(self).table,
            final(self).hue_step == old(self).hue_step,
            final(self).schedule == old(self).schedule,
            !old(self).running ==> *final(self) == *old(self) && frame is None,
            old(self).running && shutdown ==> {
                &&& !final(self).running
                &&& final(self).hues == old(self).hues
                &&& frame matches Some(f) && f@ == spec_frame_bytes(
                    spec_pixels(old(self).hues@, old(self).table, 0),
                )
            },
            old(self).running && !shutdown ==> {
                &&& final(self).running
                &&& final(self).hues@.len() == old(self).hues@.len()
                &&& forall|i: int|
                    0 <= i < old(self).hues@.len() ==> final(self).hues@[i] == spec_advance(
                        old(self).hues@[i] as int,
                        old(self).hue_step as int,
                    )
                &&& frame matches Some(f) && f@ == spec_frame_bytes(
                    spec_pixels(
                        final(self).hues@,
                        old(self).table,
                        spec_tick_dimming(old(self).schedule, now as int, sunrise as int, sunset as int),
                    ),
                )
            },
    {
        if !self.running {
            return None;
        }
        if shutdown {
            self.running = false;
            let frame = assemble(&self.hues, &self.table, 0);
            return Some(frame);
        }
        let d: u8 = if self.schedule {
            clamp_dimming(compute_dimming(now, sunrise, sunset))
        } else {
            255
        };
        advance_hues(&mut self.hues, self.hue_step);
        let frame = assemble(&self.hues, &self.table, d);
        Some(frame)
    }
}

} // verus!
