//! The sound unit: the four PSG channels of the DMG (two squares, one of
//! them with a frequency sweep, a wave channel and a noise channel) plus the
//! two 8-bit Direct Sound FIFO channels.
//!
//! Output is interleaved stereo `i16` at 32768 Hz: the 16777216 Hz system
//! clock gives exactly one stereo frame per 512 cycles. Each frame is the
//! average of four sub-samples, passed through a DC blocker and a two-tap
//! moving average. Each FIFO is popped once per overflow of its selected
//! timer, the pop times scheduled from the timer period the bus passes in.

use vstd::prelude::*;
use crate::state::{Reader, Writer, le16, le32, le64, block, block_need, from_le32, from_le64};

verus! {

pub const CYCLES_PER_SAMPLE: u64 = 512;

pub const OVERSAMPLE: u64 = 4;

pub const SUB_CYCLES: u64 = 128;

/// System cycles per 512 Hz frame-sequencer tick.
pub const FS_PERIOD: u32 = 32768;

/// The square-wave duty patterns (one bit per eighth of the period).
pub open spec fn duty_pattern(duty: u8) -> u8 {
    if duty == 0 {
        0x01
    } else if duty == 1 {
        0x81
    } else if duty == 2 {
        0x87
    } else {
        0x7E
    }
}

fn duty_bits(duty: u8) -> (r: u8)
    ensures
        r == duty_pattern(duty),
{
    if duty == 0 {
        0x01
    } else if duty == 1 {
        0x81
    } else if duty == 2 {
        0x87
    } else {
        0x7E
    }
}

/// A volume envelope.
#[derive(Clone, Copy)]
pub struct Env {
    pub initial: u8,
    pub up: bool,
    pub period: u8,
    pub vol: u8,
    pub timer: u8,
}

impl Env {
    pub open spec fn zero() -> Env {
        Env { initial: 0, up: false, period: 0, vol: 0, timer: 0 }
    }

    fn trigger(&mut self)
        ensures
            *final(self) == (Env { vol: old(self).initial, timer: old(self).period, ..*old(self) }),
    {
        self.vol = self.initial;
        self.timer = self.period;
    }

    /// The envelope after one tick: a zero period holds it; otherwise the
    /// timer counts down, and when it reaches zero it reloads with the period
    /// and the volume steps toward 15 (up) or 0 (down).
    #[verifier::opaque]
    pub open spec fn clocked(self) -> Env {
        if self.period == 0 {
            self
        } else {
            let t = if self.timer > 0 { (self.timer - 1) as u8 } else { self.timer };
            if t != 0 {
                Env { timer: t, ..self }
            } else {
                let vol = if self.up && self.vol < 15 {
                    (self.vol + 1) as u8
                } else if !self.up && self.vol > 0 {
                    (self.vol - 1) as u8
                } else {
                    self.vol
                };
                Env { timer: self.period, vol, ..self }
            }
        }
    }

    /// One envelope tick: every `period` ticks the volume steps toward 15
    /// (up) or 0 (down); a zero period holds it.
    fn clock(&mut self)
        ensures
            *final(self) == old(self).clocked(),
            old(self).vol <= 15 ==> final(self).vol <= 15,
    {
        reveal(Env::clocked);
        if self.period == 0 {
            return;
        }
        if self.timer > 0 {
            self.timer = self.timer - 1;
        }
        if self.timer == 0 {
            self.timer = self.period;
            if self.up && self.vol < 15 {
                self.vol = self.vol + 1;
            } else if !self.up && self.vol > 0 {
                self.vol = self.vol - 1;
            }
        }
    }
}

/// A timer at `t` that reloads with `period` while it is zero or below:
/// where it settles and how many reloads that takes.
pub open spec fn reloads(t: int, period: int) -> (int, int)
    decreases (if t > 0 { 0 } else { 1 - t }),
    when period >= 1
{
    if t > 0 {
        (t, 0)
    } else {
        let (u, k) = reloads(t + period, period);
        (u, k + 1)
    }
}

/// Count `timer` down by `n` cycles (wrapping at 32 bits), adding `period`
/// (and a step of the position) each time it reaches zero or below: the new
/// timer and the number of steps taken.
fn run_timer(timer: i32, n: i32, period: i32) -> (r: (i32, u32))
    requires
        1 <= period <= 0x10_0000,
        0 <= n <= 0x10_0000,
    ensures
        r.0 > 0,
        (r.0 as int, r.1 as int) == reloads(timer.wrapping_sub(n) as int, period as int),
{
    let mut t = timer.wrapping_sub(n);
    let ghost t0 = t as int;
    let mut steps: u32 = 0;
    while t <= 0
        invariant
            1 <= period <= 0x10_0000,
            t as int >= t0 + steps as int,
            t0 >= i32::MIN,
            reloads(t0, period as int) == (reloads(t as int, period as int).0, reloads(t as int, period as int).1
                + steps as int),
        decreases (if t <= 0 { 1 - t as int } else { 0 }),
    {
        t = t + period;
        steps = steps + 1;
    }
    (t, steps)
}

#[derive(Clone, Copy)]
pub struct Square {
    pub freq: u16,
    pub duty: u8,
    pub timer: i32,
    pub phase: u8,
    pub length: u16,
    pub length_enable: bool,
    pub env: Env,
    pub sweep_period: u8,
    pub sweep_down: bool,
    pub sweep_shift: u8,
    pub sweep_timer: u8,
    pub sweep_enable: bool,
    pub sweep_shadow: u16,
    pub enabled: bool,
    pub dac_on: bool,
}

impl Square {
    pub open spec fn zero() -> Square {
        Square {
            freq: 0,
            duty: 0,
            timer: 0,
            phase: 0,
            length: 0,
            length_enable: false,
            env: Env::zero(),
            sweep_period: 0,
            sweep_down: false,
            sweep_shift: 0,
            sweep_timer: 0,
            sweep_enable: false,
            sweep_shadow: 0,
            enabled: false,
            dac_on: false,
        }
    }

    fn new() -> (s: Square)
        ensures
            s == Square::zero(),
    {
        Square {
            freq: 0,
            duty: 0,
            timer: 0,
            phase: 0,
            length: 0,
            length_enable: false,
            env: Env { initial: 0, up: false, period: 0, vol: 0, timer: 0 },
            sweep_period: 0,
            sweep_down: false,
            sweep_shift: 0,
            sweep_timer: 0,
            sweep_enable: false,
            sweep_shadow: 0,
            enabled: false,
            dac_on: false,
        }
    }

    /// The period in cycles of one duty step: `(2048 - freq) * 16`, kept
    /// between 1 and 2048 * 16.
    pub open spec fn period_spec(self) -> i32 {
        let raw = (2048 - self.freq as int) * 16;
        if raw < 1 {
            1
        } else if raw > 2048 * 16 {
            32768
        } else {
            raw as i32
        }
    }

    /// The channel after `n` cycles: while it plays, its timer counts them
    /// off and each reload steps the duty position (eight steps per cycle).
    #[verifier::opaque]
    pub open spec fn advanced(self, n: u64) -> Square {
        if !self.enabled {
            self
        } else {
            let (t, k) = reloads(self.timer.wrapping_sub(n as i32) as int, self.period_spec() as int);
            Square { timer: t as i32, phase: ((self.phase + k) % 8) as u8, ..self }
        }
    }

    /// The channel's DAC input: the envelope volume during the high part of
    /// the duty pattern, 0 during the low part or while silent, less 8.
    #[verifier::opaque]
    pub open spec fn dac_spec(self) -> i32 {
        if !self.enabled || !self.dac_on {
            0
        } else if duty_pattern(self.duty) & (1u8 << (self.phase & 7)) != 0 {
            (self.env.vol - 8) as i32
        } else {
            -8i32
        }
    }

    /// The channel after a length tick: with the length counter on and not
    /// yet zero it counts down, and reaching zero silences the channel.
    #[verifier::opaque]
    pub open spec fn length_clocked(self) -> Square {
        if self.length_enable && self.length > 0 {
            Square { length: (self.length - 1) as u16, enabled: self.enabled && self.length != 1, ..self }
        } else {
            self
        }
    }

    /// The next sweep frequency: the shadow frequency plus (or, sweeping
    /// down, minus) itself shifted right by the sweep shift, wrapping at 16
    /// bits.
    pub open spec fn sweep_next(self) -> u16 {
        let delta: u16 = if self.sweep_shift < 16 { self.sweep_shadow >> (self.sweep_shift as u16) } else { 0 };
        if self.sweep_down {
            self.sweep_shadow.wrapping_sub(delta)
        } else {
            self.sweep_shadow.wrapping_add(delta)
        }
    }

    /// The channel after a sweep tick: while the sweep runs its timer counts
    /// down; on reaching zero it reloads (a zero period counts as 8) and, with
    /// a non-zero period, a next frequency above 2047 silences the channel,
    /// while with a non-zero shift it becomes the frequency and the one after
    /// it is checked the same way.
    #[verifier::opaque]
    pub open spec fn sweep_clocked(self) -> Square {
        if !self.sweep_enable {
            self
        } else {
            let t = if self.sweep_timer > 0 { (self.sweep_timer - 1) as u8 } else { self.sweep_timer };
            if t != 0 {
                Square { sweep_timer: t, ..self }
            } else {
                let c = Square { sweep_timer: if self.sweep_period == 0 { 8 } else { self.sweep_period }, ..self };
                if self.sweep_period == 0 {
                    c
                } else if c.sweep_next() > 2047 {
                    Square { enabled: false, ..c }
                } else if self.sweep_shift > 0 {
                    let d = Square { sweep_shadow: c.sweep_next(), freq: c.sweep_next(), ..c };
                    if d.sweep_next() > 2047 {
                        Square { enabled: false, ..d }
                    } else {
                        d
                    }
                } else {
                    c
                }
            }
        }
    }

    /// The channel after a trigger: it plays if its DAC is on, an expired
    /// length restarts at 64, the timer reloads, the envelope restarts, and
    /// the sweep restarts from the current frequency (running if it has a
    /// period or a shift); with a shift, a first sweep step above 2047
    /// silences it at once.
    #[verifier::opaque]
    pub open spec fn triggered(self) -> Square {
        let c = Square {
            enabled: self.dac_on,
            length: if self.length == 0 { 64 } else { self.length },
            timer: self.period_spec(),
            env: Env { vol: self.env.initial, timer: self.env.period, ..self.env },
            sweep_shadow: self.freq,
            sweep_timer: if self.sweep_period == 0 { 8 } else { self.sweep_period },
            sweep_enable: self.sweep_period > 0 || self.sweep_shift > 0,
            ..self
        };
        if self.sweep_shift > 0 && c.sweep_next() > 2047 {
            Square { enabled: false, ..c }
        } else {
            c
        }
    }

    /// The period in cycles of one duty step, `(2048 - freq) * 16`, at least 1.
    fn period(&self) -> (p: i32)
        ensures
            p == self.period_spec(),
            1 <= p <= 2048 * 16,
    {
        let raw = (2048 - self.freq as i32) * 16;
        if raw < 1 {
            1
        } else if raw > 2048 * 16 {
            2048 * 16
        } else {
            raw
        }
    }

    fn advance(&mut self, n: u64)
        requires
            n <= 0x10_0000,
        ensures
            *final(self) == old(self).advanced(n),
    {
        reveal(Square::advanced);
        if !self.enabled {
            return;
        }
        let period = self.period();
        let (t, steps) = run_timer(self.timer, n as i32, period);
        self.timer = t;
        self.phase = ((self.phase as u32 + steps % 8) % 8) as u8;
    }

    /// The channel's signed DAC level, -8..7.
    fn dac(&self) -> (v: i32)
        ensures
            v == self.dac_spec(),
            -8 <= v <= 247,
    {
        reveal(Square::dac_spec);
        if !self.enabled || !self.dac_on {
            return 0;
        }
        let phase = self.phase;
        let ph = phase & 7;
        proof {
            crate::bits::lemma_u8_bits(phase, 7);
        }
        let high = duty_bits(self.duty) & (1u8 << ph) != 0;
        (if high { self.env.vol } else { 0 }) as i32 - 8
    }

    fn clock_length(&mut self)
        ensures
            *final(self) == old(self).length_clocked(),
    {
        reveal(Square::length_clocked);
        if self.length_enable && self.length > 0 {
            self.length = self.length - 1;
            if self.length == 0 {
                self.enabled = false;
            }
        }
    }

    fn sweep_calc(&self) -> (f: u16)
        ensures
            f == self.sweep_next(),
    {
        let delta = if self.sweep_shift < 16 { self.sweep_shadow >> self.sweep_shift } else { 0 };
        if self.sweep_down {
            self.sweep_shadow.wrapping_sub(delta)
        } else {
            self.sweep_shadow.wrapping_add(delta)
        }
    }

    fn clock_sweep(&mut self)
        ensures
            *final(self) == old(self).sweep_clocked(),
    {
        reveal(Square::sweep_clocked);
        if !self.sweep_enable {
            return;
        }
        if self.sweep_timer > 0 {
            self.sweep_timer = self.sweep_timer - 1;
        }
        if self.sweep_timer == 0 {
            self.sweep_timer = if self.sweep_period == 0 { 8 } else { self.sweep_period };
            if self.sweep_period > 0 {
                let new = self.sweep_calc();
                if new > 2047 {
                    self.enabled = false;
                } else if self.sweep_shift > 0 {
                    self.sweep_shadow = new;
                    self.freq = new;
                    if self.sweep_calc() > 2047 {
                        self.enabled = false;
                    }
                }
            }
        }
    }

    fn trigger(&mut self)
        ensures
            *final(self) == old(self).triggered(),
    {
        reveal(Square::triggered);
        self.enabled = self.dac_on;
        if self.length == 0 {
            self.length = 64;
        }
        self.timer = self.period();
        self.env.trigger();
        self.sweep_shadow = self.freq;
        self.sweep_timer = if self.sweep_period == 0 { 8 } else { self.sweep_period };
        self.sweep_enable = self.sweep_period > 0 || self.sweep_shift > 0;
        if self.sweep_shift > 0 && self.sweep_calc() > 2047 {
            self.enabled = false;
        }
    }
}

#[derive(Clone, Copy)]
pub struct Wave {
    pub dac_on: bool,
    pub length: u16,
    pub length_enable: bool,
    pub freq: u16,
    /// 0 = mute, 1 = 100%, 2 = 50%, 3 = 25%.
    pub volume: u8,
    pub force75: bool,
    pub mode64: bool,
    pub bank: u8,
    pub timer: i32,
    /// The playback position, 0..63.
    pub pos: u8,
    pub enabled: bool,
}

impl Wave {
    pub open spec fn zero() -> Wave {
        Wave {
            dac_on: false,
            length: 0,
            length_enable: false,
            freq: 0,
            volume: 0,
            force75: false,
            mode64: false,
            bank: 0,
            timer: 0,
            pos: 0,
            enabled: false,
        }
    }

    fn new() -> (w: Wave)
        ensures
            w == Wave::zero(),
    {
        Wave {
            dac_on: false,
            length: 0,
            length_enable: false,
            freq: 0,
            volume: 0,
            force75: false,
            mode64: false,
            bank: 0,
            timer: 0,
            pos: 0,
            enabled: false,
        }
    }

    /// The period in cycles of one sample step: `(2048 - freq) * 8`, at
    /// least 1.
    pub open spec fn period_spec(self) -> i32 {
        let raw = (2048 - self.freq as int) * 8;
        if raw < 1 {
            1
        } else {
            raw as i32
        }
    }

    /// The number of samples played in turn: 64 across both banks, or the
    /// 32 of one bank.
    pub open spec fn ring_len(self) -> int {
        if self.mode64 {
            64
        } else {
            32
        }
    }

    /// The channel after `n` cycles: while it plays, its timer counts them
    /// off and each reload steps the sample position round its ring.
    #[verifier::opaque]
    pub open spec fn advanced(self, n: u64) -> Wave {
        if !self.enabled {
            self
        } else {
            let (t, k) = reloads(self.timer.wrapping_sub(n as i32) as int, self.period_spec() as int);
            let len = self.ring_len();
            Wave { timer: t as i32, pos: ((self.pos as int % len + k % len) % len) as u8, ..self }
        }
    }

    /// The channel's DAC input: the 4-bit sample at the position (high
    /// nibble first; the bank selects the half of wave RAM unless both play),
    /// scaled by the volume (75% forced, or shifted right by volume - 1),
    /// less 8; 0 while it is silent or at zero volume.
    #[verifier::opaque]
    pub open spec fn dac_spec(self, ram: [u8; 32]) -> i32 {
        if !self.enabled || !self.dac_on || self.volume == 0 {
            0
        } else {
            let idx: int = if self.mode64 { self.pos as int } else { self.bank as int * 32 + self.pos as int };
            let byte = ram[(idx / 2) % 32];
            let nib: u8 = if idx % 2 == 0 { byte >> 4u8 } else { byte & 0xF };
            let vs = (self.volume - 1) as u8;
            let level: int = if self.force75 {
                nib as int * 3 / 4
            } else if vs < 8 {
                (nib >> vs) as int
            } else {
                0
            };
            (level - 8) as i32
        }
    }

    /// The channel after a length tick (a length of 256 steps).
    #[verifier::opaque]
    pub open spec fn length_clocked(self) -> Wave {
        if self.length_enable && self.length > 0 {
            Wave { length: (self.length - 1) as u16, enabled: self.enabled && self.length != 1, ..self }
        } else {
            self
        }
    }

    /// The channel after a trigger: it plays if its DAC is on, an expired
    /// length restarts at 256, the timer reloads and playback restarts at the
    /// first sample.
    #[verifier::opaque]
    pub open spec fn triggered(self) -> Wave {
        Wave {
            enabled: self.dac_on,
            length: if self.length == 0 { 256 } else { self.length },
            timer: self.period_spec(),
            pos: 0,
            ..self
        }
    }

    fn period(&self) -> (p: i32)
        ensures
            p == self.period_spec(),
            1 <= p <= 2048 * 8,
    {
        let raw = (2048 - self.freq as i32) * 8;
        if raw < 1 {
            1
        } else {
            raw
        }
    }

    fn advance(&mut self, n: u64)
        requires
            n <= 0x10_0000,
        ensures
            *final(self) == old(self).advanced(n),
    {
        reveal(Wave::advanced);
        if !self.enabled {
            return;
        }
        let period = self.period();
        let (t, steps) = run_timer(self.timer, n as i32, period);
        self.timer = t;
        let len: u32 = if self.mode64 { 64 } else { 32 };
        self.pos = ((self.pos as u32 % len + steps % len) % len) as u8;
    }

    fn dac(&self, ram: &[u8; 32]) -> (v: i32)
        ensures
            v == self.dac_spec(*ram),
            -8 <= v <= 7,
    {
        reveal(Wave::dac_spec);
        if !self.enabled || !self.dac_on || self.volume == 0 {
            return 0;
        }
        let idx: usize = if self.mode64 { self.pos as usize } else { (self.bank as usize) * 32 + self.pos as usize };
        let byte = ram[(idx / 2) % 32];
        let nib: u8 = if idx % 2 == 0 { byte >> 4 } else { byte & 0xF };
        proof {
            crate::bits::lemma_u8_bits(byte, 0xF);
        }
        let vs = self.volume - 1;
        let level: u8 = if self.force75 {
            (nib as u32 * 3 / 4) as u8
        } else if vs < 8 {
            nib >> vs
        } else {
            0
        };
        proof {
            crate::bits::lemma_u8_bits(nib, vs);
        }
        level as i32 - 8
    }

    fn clock_length(&mut self)
        ensures
            *final(self) == old(self).length_clocked(),
    {
        reveal(Wave::length_clocked);
        if self.length_enable && self.length > 0 {
            self.length = self.length - 1;
            if self.length == 0 {
                self.enabled = false;
            }
        }
    }

    fn trigger(&mut self)
        ensures
            *final(self) == old(self).triggered(),
    {
        reveal(Wave::triggered);
        self.enabled = self.dac_on;
        if self.length == 0 {
            self.length = 256;
        }
        self.timer = self.period();
        self.pos = 0;
    }
}

/// The noise divisor in system cycles for divisor code `d` (0-7).
pub open spec fn noise_divisor(d: u8) -> i32 {
    if d == 0 {
        8
    } else if d == 1 {
        16
    } else if d == 2 {
        32
    } else if d == 3 {
        48
    } else if d == 4 {
        64
    } else if d == 5 {
        80
    } else if d == 6 {
        96
    } else {
        112
    }
}

/// The noise divisors in system cycles.
fn noise_div(d: u8) -> (r: i32)
    ensures
        r == noise_divisor(d),
        8 <= r <= 112,
{
    if d == 0 {
        8
    } else if d == 1 {
        16
    } else if d == 2 {
        32
    } else if d == 3 {
        48
    } else if d == 4 {
        64
    } else if d == 5 {
        80
    } else if d == 6 {
        96
    } else {
        112
    }
}

/// One step of the noise LFSR: the XOR of the two low bits is shifted in at
/// bit 14 (and, in 7-bit mode, also at bit 6).
pub open spec fn lfsr_step(lfsr: u16, width7: bool) -> u16 {
    let bit = (lfsr ^ (lfsr >> 1)) & 1;
    let l = (lfsr >> 1) | (bit << 14);
    if width7 {
        (l & 0xFFBF) | (bit << 6)
    } else {
        l
    }
}

/// The LFSR after `k` steps.
pub open spec fn lfsr_steps(lfsr: u16, width7: bool, k: nat) -> u16
    decreases k,
{
    if k == 0 {
        lfsr
    } else {
        lfsr_step(lfsr_steps(lfsr, width7, (k - 1) as nat), width7)
    }
}

#[derive(Clone, Copy)]
pub struct Noise {
    pub length: u16,
    pub length_enable: bool,
    pub env: Env,
    pub div: u8,
    pub width7: bool,
    pub shift: u8,
    pub timer: i32,
    pub lfsr: u16,
    pub enabled: bool,
    pub dac_on: bool,
}

impl Noise {
    pub open spec fn zero() -> Noise {
        Noise {
            length: 0,
            length_enable: false,
            env: Env::zero(),
            div: 0,
            width7: false,
            shift: 0,
            timer: 0,
            lfsr: 0x7FFF,
            enabled: false,
            dac_on: false,
        }
    }

    fn new() -> (n: Noise)
        ensures
            n == Noise::zero(),
    {
        Noise {
            length: 0,
            length_enable: false,
            env: Env { initial: 0, up: false, period: 0, vol: 0, timer: 0 },
            div: 0,
            width7: false,
            shift: 0,
            timer: 0,
            lfsr: 0x7FFF,
            enabled: false,
            dac_on: false,
        }
    }

    /// The cycles per LFSR step: the divisor shifted left by the shift
    /// (at most 14), times 4.
    pub open spec fn period_spec(self) -> i32 {
        let sh: u32 = if self.shift < 14 { self.shift as u32 } else { 14 };
        (((noise_divisor(self.div & 7) as u32) << sh) * 4) as i32
    }

    /// The channel after `n` cycles: while it plays, its timer counts them
    /// off and each reload steps the LFSR.
    #[verifier::opaque]
    pub open spec fn advanced(self, n: u64) -> Noise {
        if !self.enabled {
            self
        } else {
            let (t, k) = reloads(self.timer.wrapping_sub(n as i32) as int, self.period_spec() as int);
            Noise { timer: t as i32, lfsr: lfsr_steps(self.lfsr, self.width7, k as nat), ..self }
        }
    }

    /// The channel's DAC input: the envelope volume while the LFSR's low
    /// bit is clear, 0 while it is set, less 8; 0 while it is silent.
    #[verifier::opaque]
    pub open spec fn dac_spec(self) -> i32 {
        if !self.enabled || !self.dac_on {
            0
        } else if self.lfsr & 1 == 0 {
            (self.env.vol - 8) as i32
        } else {
            -8i32
        }
    }

    /// The channel after a length tick.
    #[verifier::opaque]
    pub open spec fn length_clocked(self) -> Noise {
        if self.length_enable && self.length > 0 {
            Noise { length: (self.length - 1) as u16, enabled: self.enabled && self.length != 1, ..self }
        } else {
            self
        }
    }

    /// The channel after a trigger: it plays if its DAC is on, an expired
    /// length restarts at 64, the timer reloads, the LFSR resets to all ones
    /// and the envelope restarts.
    #[verifier::opaque]
    pub open spec fn triggered(self) -> Noise {
        Noise {
            enabled: self.dac_on,
            length: if self.length == 0 { 64 } else { self.length },
            timer: self.period_spec(),
            lfsr: 0x7FFF,
            env: Env { vol: self.env.initial, timer: self.env.period, ..self.env },
            ..self
        }
    }

    /// `(divisor << min(shift, 14)) * 4` cycles per LFSR step.
    fn period(&self) -> (p: i32)
        ensures
            p == self.period_spec(),
            1 <= p <= 112 * 0x4000 * 4,
    {
        let sh: u32 = if self.shift < 14 { self.shift as u32 } else { 14 };
        let d = noise_div(self.div & 7) as u32;
        assert(8 <= d <= 112 && sh <= 14 ==> 8 <= (d << sh) <= 112 * 0x4000) by (bit_vector);
        ((d << sh) * 4) as i32
    }

    fn advance(&mut self, n: u64)
        requires
            n <= 0x10_0000,
        ensures
            *final(self) == old(self).advanced(n),
    {
        reveal(Noise::advanced);
        if !self.enabled {
            return;
        }
        let period = self.period();
        let mut t = self.timer.wrapping_sub(n as i32);
        let ghost t0 = t as int;
        let ghost mut k: int = 0;
        while t <= 0
            invariant
                1 <= period <= 112 * 0x4000 * 4,
                period == old(self).period_spec(),
                k >= 0,
                reloads(t0, period as int) == (reloads(t as int, period as int).0, reloads(t as int, period as int).1
                    + k),
                self.lfsr == lfsr_steps(old(self).lfsr, old(self).width7, k as nat),
                *self == (Noise { lfsr: self.lfsr, ..*old(self) }),
            decreases (if t <= 0 { 1 - t as int } else { 0 }),
        {
            proof {
                k = k + 1;
            }
            t = t + period;
            let bit = (self.lfsr ^ (self.lfsr >> 1)) & 1;
            let mut l = (self.lfsr >> 1) | (bit << 14);
            if self.width7 {
                l = (l & 0xFFBF) | (bit << 6);
            }
            self.lfsr = l;
        }
        self.timer = t;
    }

    fn dac(&self) -> (v: i32)
        ensures
            v == self.dac_spec(),
            -8 <= v <= 247,
    {
        reveal(Noise::dac_spec);
        if !self.enabled || !self.dac_on {
            return 0;
        }
        (if self.lfsr & 1 == 0 { self.env.vol } else { 0 }) as i32 - 8
    }

    fn clock_length(&mut self)
        ensures
            *final(self) == old(self).length_clocked(),
    {
        reveal(Noise::length_clocked);
        if self.length_enable && self.length > 0 {
            self.length = self.length - 1;
            if self.length == 0 {
                self.enabled = false;
            }
        }
    }

    fn trigger(&mut self)
        ensures
            *final(self) == old(self).triggered(),
    {
        reveal(Noise::triggered);
        self.enabled = self.dac_on;
        if self.length == 0 {
            self.length = 64;
        }
        self.timer = self.period();
        self.lfsr = 0x7FFF;
        self.env.trigger();
    }
}

/// A Direct Sound FIFO: a ring of 32 signed samples.
#[derive(Clone, Copy)]
pub struct Fifo {
    pub buf: [i8; 32],
    pub head: usize,
    pub len: usize,
}

impl Fifo {
    /// The ring is consistent: the head inside it, at most 32 samples.
    pub open spec fn wf(&self) -> bool {
        self.head < 32 && self.len <= 32
    }

    /// The queued samples, oldest first.
    pub open spec fn view(&self) -> Seq<i8> {
        Seq::new(self.len as nat, |i: int| self.buf[(self.head + i) % 32])
    }

    fn new() -> (f: Fifo)
        ensures
            f.wf(),
            f.view() == Seq::<i8>::empty(),
            f.head == 0,
            forall|i: int| 0 <= i < 32 ==> f.buf[i] == 0,
    {
        let f = Fifo { buf: [0; 32], head: 0, len: 0 };
        assert(f.view() =~= Seq::<i8>::empty());
        f
    }

    /// The ring after `v` is queued: it goes into the slot after the newest
    /// sample; a full FIFO drops it.
    pub open spec fn pushed(self, v: i8) -> Fifo {
        if self.len < 32 {
            Fifo {
                buf: vstd::array::spec_array_update(self.buf, ((self.head + self.len) % 32) as int, v),
                len: (self.len + 1) as usize,
                ..self
            }
        } else {
            self
        }
    }

    /// Queue a sample; a full FIFO drops it.
    fn push(&mut self, v: i8)
        requires
            old(self).wf(),
        ensures
            final(self).wf(),
            *final(self) == old(self).pushed(v),
            final(self).head == old(self).head,
            final(self).view() == if old(self).len < 32 { old(self).view().push(v) } else { old(self).view() },
    {
        if self.len < 32 {
            self.buf[(self.head + self.len) % 32] = v;
            self.len = self.len + 1;
            assert(self.view() =~= old(self).view().push(v));
            assert(self.buf =~= old(self).pushed(v).buf);
        }
    }

    /// The ring after its oldest sample is taken (unchanged when empty).
    pub open spec fn popped(self) -> Fifo {
        if self.len == 0 {
            self
        } else {
            Fifo { head: ((self.head + 1) % 32) as usize, len: (self.len - 1) as usize, ..self }
        }
    }

    /// Take the oldest sample.
    fn pop(&mut self) -> (r: Option<i8>)
        requires
            old(self).wf(),
        ensures
            final(self).wf(),
            old(self).len == 0 ==> r is None && *final(self) == *old(self),
            old(self).len > 0 ==> r == Some(old(self).view()[0]) && final(self).view() == old(self).view().drop_first(),
            old(self).len > 0 ==> r == Some(old(self).buf[old(self).head as int]),
            *final(self) == old(self).popped(),
    {
        if self.len == 0 {
            return None;
        }
        let v = self.buf[self.head];
        self.head = (self.head + 1) % 32;
        self.len = self.len - 1;
        assert(self.view() =~= old(self).view().drop_first());
        Some(v)
    }

    fn clear(&mut self)
        ensures
            final(self).wf(),
            final(self).view() == Seq::<i8>::empty(),
            *final(self) == (Fifo { head: 0, len: 0, ..*old(self) }),
    {
        self.head = 0;
        self.len = 0;
        assert(self.view() =~= Seq::<i8>::empty());
    }
}

/// Samples come out of a FIFO in the order they went in.
pub proof fn lemma_fifo_order(q: Seq<i8>, v: i8)
    requires
        q.len() < 32,
    ensures
        q.push(v).drop_first() == if q.len() == 0 { Seq::<i8>::empty() } else { q.drop_first().push(v) },
        q.len() > 0 ==> q.push(v)[0] == q[0],
        q.len() == 0 ==> q.push(v)[0] == v,
{
    if q.len() == 0 {
        assert(q.push(v).drop_first() =~= Seq::<i8>::empty());
    } else {
        assert(q.push(v).drop_first() =~= q.drop_first().push(v));
    }
}

pub struct Apu {
    /// Raw register bytes for I/O offsets 0x60..=0xA7, indexed by `off - 0x60`.
    pub reg: [u8; 72],
    pub wave_ram: [u8; 32],
    pub master_enable: bool,
    pub fs_cycle: u32,
    pub fs_step: u8,
    pub ch1: Square,
    pub ch2: Square,
    pub ch3: Wave,
    pub ch4: Noise,
    pub fifo_a: Fifo,
    pub fifo_b: Fifo,
    /// The Direct Sound samples currently playing.
    pub ds_a: i8,
    pub ds_b: i8,
    /// The next FIFO pop times.
    pub a_next: u64,
    pub b_next: u64,
    /// DC blocker state per side (`y` in Q12).
    pub hp_xl: i32,
    pub hp_yl: i64,
    pub hp_xr: i32,
    pub hp_yr: i64,
    /// The previous filtered sample per side (for the two-tap average).
    pub ma_l: i32,
    pub ma_r: i32,
    pub cycle: u64,
    pub out: Vec<i16>,
}

/// What a read of sound register byte `off` returns: SOUNDCNT_X reports the
/// master enable and the channels' status, the FIFO ports read zero.
pub open spec fn read8_spec(a: &Apu, off: u32) -> u8 {
    if off == 0x84 {
        (if a.master_enable { 0x80u8 } else { 0u8 }) | (if a.ch1.enabled { 1u8 } else { 0u8 }) | (if a.ch2.enabled {
            2u8
        } else {
            0u8
        }) | (if a.ch3.enabled { 4u8 } else { 0u8 }) | (if a.ch4.enabled { 8u8 } else { 0u8 })
    } else if 0x90 <= off <= 0x9F {
        a.wave_ram[off - 0x90]
    } else if 0xA0 <= off <= 0xA7 {
        0
    } else if 0x60 <= off <= 0xA7 {
        a.reg[off - 0x60]
    } else {
        0
    }
}

impl Apu {
    pub open spec fn wf(&self) -> bool {
        self.fifo_a.wf() && self.fifo_b.wf()
    }

    /// The output filters are at rest.
    pub open spec fn filters_quiet(&self) -> bool {
        &&& self.hp_xl == 0 && self.hp_yl == 0 && self.hp_xr == 0 && self.hp_yr == 0
        &&& self.ma_l == 0 && self.ma_r == 0
    }

    /// A powered-off sound unit: all registers, channels and filters zero,
    /// the FIFOs empty.
    pub fn new() -> (a: Apu)
        ensures
            a.wf(),
            forall|i: int| 0 <= i < 72 ==> a.reg[i] == 0,
            forall|i: int| 0 <= i < 32 ==> a.wave_ram[i] == 0,
            !a.master_enable,
            a.ch1 == Square::zero() && a.ch2 == Square::zero() && a.ch3 == Wave::zero() && a.ch4 == Noise::zero(),
            a.fifo_a.view() == Seq::<i8>::empty() && a.fifo_b.view() == Seq::<i8>::empty(),
            a.filters_quiet(),
            a.cycle == 0 && a.a_next == 0 && a.b_next == 0 && a.fs_cycle == 0 && a.fs_step == 0,
            a.ds_a == 0 && a.ds_b == 0,
            a.out@ == Seq::<i16>::empty(),
    {
        Apu {
            reg: [0; 72],
            wave_ram: [0; 32],
            master_enable: false,
            fs_cycle: 0,
            fs_step: 0,
            ch1: Square::new(),
            ch2: Square::new(),
            ch3: Wave::new(),
            ch4: Noise::new(),
            fifo_a: Fifo::new(),
            fifo_b: Fifo::new(),
            ds_a: 0,
            ds_b: 0,
            a_next: 0,
            b_next: 0,
            hp_xl: 0,
            hp_yl: 0,
            hp_xr: 0,
            hp_yr: 0,
            ma_l: 0,
            ma_r: 0,
            cycle: 0,
            out: Vec::new(),
        }
    }

    /// Hand over the samples produced so far.
    pub fn take_output(&mut self) -> (v: Vec<i16>)
        ensures
            v@ == old(self).out@,
            final(self).out@ == Seq::<i16>::empty(),
            final(self).cycle == old(self).cycle,
            final(self).wf() == old(self).wf(),
            final(self).fifo_a == old(self).fifo_a && final(self).fifo_b == old(self).fifo_b,
            *final(self) == (Apu { out: final(self).out, ..*old(self) }),
    {
        let mut v: Vec<i16> = Vec::new();
        std::mem::swap(&mut v, &mut self.out);
        v
    }

    /// Align the sound clock and both FIFO schedules to `cycle`.
    pub fn resync(&mut self, cycle: u64)
        ensures
            *final(self) == (Apu { cycle: cycle, a_next: cycle, b_next: cycle, ..*old(self) }),
    {
        self.cycle = cycle;
        self.a_next = cycle;
        self.b_next = cycle;
    }

    /// The sound clock.
    pub fn cycle(&self) -> (c: u64)
        ensures
            c == self.cycle,
    {
        self.cycle
    }

    pub fn fifo_a_len(&self) -> (n: usize)
        ensures
            n == self.fifo_a.len,
    {
        self.fifo_a.len
    }

    pub fn fifo_b_len(&self) -> (n: usize)
        ensures
            n == self.fifo_b.len,
    {
        self.fifo_b.len
    }

    /// The little-endian register halfword at `off`.
    fn r16(&self, off: usize) -> (v: u16)
        requires
            0x60 <= off <= 0xA6,
        ensures
            v == (self.reg[off - 0x60] as u16) | ((self.reg[off - 0x60 + 1] as u16) << 8),
    {
        (self.reg[off - 0x60] as u16) | ((self.reg[off - 0x60 + 1] as u16) << 8)
    }

    /// Read a sound register byte.
    pub fn read8(&self, off: u32) -> (v: u8)
        ensures
            v == read8_spec(self, off),
    {
        if off == 0x84 {
            let m: u8 = if self.master_enable { 0x80 } else { 0 };
            let c1: u8 = if self.ch1.enabled { 1 } else { 0 };
            let c2: u8 = if self.ch2.enabled { 2 } else { 0 };
            let c3: u8 = if self.ch3.enabled { 4 } else { 0 };
            let c4: u8 = if self.ch4.enabled { 8 } else { 0 };
            m | c1 | c2 | c3 | c4
        } else if 0x90 <= off && off <= 0x9F {
            self.wave_ram[(off - 0x90) as usize]
        } else if 0xA0 <= off && off <= 0xA7 {
            0
        } else if 0x60 <= off && off <= 0xA7 {
            self.reg[(off - 0x60) as usize]
        } else {
            0
        }
    }
}

impl Apu {
    /// Write a sound register byte. The FIFO ports queue a sample, the wave
    /// RAM stores the byte; SOUNDCNT_X bit 7 switches the unit on, or off
    /// (clearing the channel registers 0x60..0x83 and resetting every
    /// channel); while the unit is off the channel registers below 0x82 ignore
    /// writes. Any other write stores the byte and re-derives the owning
    /// channel (triggering it when bit 7 of its high control byte is set);
    /// bits 3 and 7 of 0x83 reset FIFO A and B and read back clear.
    /// `after` is this sound unit after `val` is written to register byte
    /// `off`: the FIFO ports queue a sample (a full FIFO drops it), wave RAM
    /// stores the byte, SOUNDCNT_X switches the unit (switching it off clears
    /// the PSG registers and channels), other writes are ignored while the
    /// unit is off, and the rest store the byte and let the channels re-read
    /// their registers.
    pub open spec fn written8(&self, after: &Apu, off: u32, val: u8) -> bool {
        &&& after.wf()
        &&& after.out@ == self.out@
        &&& after.cycle == self.cycle
        &&& if 0xA0 <= off <= 0xA3 {
            &&& after.fifo_a == self.fifo_a.pushed(val as i8)
            &&& after.fifo_a.view() == if self.fifo_a.len < 32 {
                self.fifo_a.view().push(val as i8)
            } else {
                self.fifo_a.view()
            }
            &&& after.fifo_b == self.fifo_b
            &&& after.reg == self.reg && after.wave_ram == self.wave_ram
        } else if 0xA4 <= off <= 0xA7 {
            &&& after.fifo_b == self.fifo_b.pushed(val as i8)
            &&& after.fifo_b.view() == if self.fifo_b.len < 32 {
                self.fifo_b.view().push(val as i8)
            } else {
                self.fifo_b.view()
            }
            &&& after.fifo_a == self.fifo_a
            &&& after.reg == self.reg && after.wave_ram == self.wave_ram
        } else if 0x90 <= off <= 0x9F {
            &&& after.wave_ram@ == self.wave_ram@.update(off - 0x90, val)
            &&& after.reg@ == self.reg@.update(off - 0x60, val)
            &&& after.fifo_a == self.fifo_a && after.fifo_b == self.fifo_b
        } else if !(0x60 <= off <= 0xA7) {
            *after == *self
        } else if off == 0x84 {
            &&& after.master_enable == (val & 0x80 != 0)
            &&& after.fifo_a == self.fifo_a && after.fifo_b == self.fifo_b
            &&& if val & 0x80 == 0 {
                &&& forall|i: int| 0 <= i < 72 ==> #[trigger] after.reg[i] == if i < 0x24 {
                    0u8
                } else {
                    self.reg[i]
                }
                &&& *after == (Apu {
                    reg: after.reg,
                    ch1: Square::zero(),
                    ch2: Square::zero(),
                    ch3: Wave::zero(),
                    ch4: Noise::zero(),
                    master_enable: false,
                    ..*self
                })
            } else {
                *after == (Apu { master_enable: true, ..*self })
            }
        } else if !self.master_enable && off < 0x82 {
            *after == *self
        } else {
            &&& *after == decoded(
                Apu { reg: vstd::array::spec_array_update(self.reg, off - 0x60, val), ..*self },
                off as int,
            )
            &&& after.master_enable == self.master_enable
            &&& after.wave_ram == self.wave_ram
            &&& after.reg@ == self.reg@.update(off - 0x60, if off == 0x83 { val & 0x77 } else { val })
            &&& if off == 0x83 {
                &&& (val & 0x08 != 0 ==> after.fifo_a.view() == Seq::<i8>::empty())
                &&& (val & 0x08 == 0 ==> after.fifo_a == self.fifo_a)
                &&& (val & 0x80 != 0 ==> after.fifo_b.view() == Seq::<i8>::empty())
                &&& (val & 0x80 == 0 ==> after.fifo_b == self.fifo_b)
            } else {
                after.fifo_a == self.fifo_a && after.fifo_b == self.fifo_b
            }
        }
    }

    pub fn write8(&mut self, off: u32, val: u8)
        requires
            old(self).wf(),
        ensures
            old(self).written8(&*final(self), off, val),
    {
        if 0xA0 <= off && off <= 0xA3 {
            self.fifo_a.push(val as i8);
            return;
        }
        if 0xA4 <= off && off <= 0xA7 {
            self.fifo_b.push(val as i8);
            return;
        }
        if 0x90 <= off && off <= 0x9F {
            self.wave_ram[(off - 0x90) as usize] = val;
            self.reg[(off - 0x60) as usize] = val;
            return;
        }
        if !(0x60 <= off && off <= 0xA7) {
            return;
        }
        if off == 0x84 {
            let on = val & 0x80 != 0;
            if !on {
                let mut i: usize = 0;
                while i < 0x24
                    invariant
                        i <= 0x24,
                        self.wf(),
                        self.out@ == old(self).out@,
                        self.cycle == old(self).cycle,
                        self.fifo_a == old(self).fifo_a && self.fifo_b == old(self).fifo_b,
                        *self == (Apu { reg: self.reg, ..*old(self) }),
                        forall|k: int| 0 <= k < 72 ==> #[trigger] self.reg[k] == if k < i { 0u8 } else { old(self).reg[k] },
                    decreases 0x24 - i,
                {
                    self.reg[i] = 0;
                    i = i + 1;
                }
                self.ch1 = Square::new();
                self.ch2 = Square::new();
                self.ch3 = Wave::new();
                self.ch4 = Noise::new();
            }
            self.master_enable = on;
            return;
        }
        if !self.master_enable && off < 0x82 {
            return;
        }
        let o = off as usize;
        self.reg[o - 0x60] = val;
        let ghost mid = self.reg;
        proof {
            broadcast use vstd::array::group_array_axioms;
            assert(mid =~= vstd::array::spec_array_update(old(self).reg, off - 0x60, val));
        }
        self.decode(o);
        proof {
            if off == 0x83 {
                assert((val & 0x08 != 0 ==> (val & 0xF7) & 0x80 == (val & 0x80)) && ((val & 0x77) == ((val & 0xF7) & 0x7F))
                    && (val & 0x08 == 0 ==> val & 0xF7 == val) && (val & 0x80 == 0 ==> val & 0x7F == val) && (val
                    & 0x77 == (val & 0x7F) & 0xF7)) by (bit_vector);
                assert(val & 0x08 != 0 ==> self.fifo_a.view() =~= Seq::<i8>::empty());
                assert(val & 0x80 != 0 ==> self.fifo_b.view() =~= Seq::<i8>::empty());
            }
            broadcast use vstd::array::group_array_axioms;
            assert(self.reg@ =~= old(self).reg@.update(off - 0x60, if off == 0x83 { val & 0x77 } else { val }));
        }
    }

    /// Re-derive channel state after a write to register byte `off`.
    fn decode(&mut self, off: usize)
        requires
            old(self).wf(),
            0x60 <= off <= 0xA7,
        ensures
            final(self).wf(),
            *final(self) == decoded(*old(self), off as int),
    {
        if 0x60 <= off && off <= 0x65 {
            let sw = self.r16(0x60);
            let s = self.r16(0x62);
            let x = self.r16(0x64);
            self.ch1.sweep_shift = (sw & 7) as u8;
            self.ch1.sweep_down = sw & 8 != 0;
            self.ch1.sweep_period = ((sw >> 4) & 7) as u8;
            write_square(&mut self.ch1, s, x, off == 0x62, off == 0x65);
        } else if 0x68 <= off && off <= 0x6D {
            let s = self.r16(0x68);
            let x = self.r16(0x6C);
            write_square(&mut self.ch2, s, x, off == 0x68, off == 0x6D);
        } else if 0x70 <= off && off <= 0x75 {
            let n30 = self.reg[0x10];
            let h = self.r16(0x72);
            let x = self.r16(0x74);
            write_wave(&mut self.ch3, n30, h, x, off == 0x72 || off == 0x73, off == 0x75);
        } else if 0x78 <= off && off <= 0x7D {
            let s = self.r16(0x78);
            let x = self.r16(0x7C);
            write_noise(&mut self.ch4, s, x, off == 0x7D);
        } else if off == 0x83 {
            if self.reg[0x23] & 0x08 != 0 {
                self.fifo_a.clear();
                self.reg[0x23] = self.reg[0x23] & 0xF7;
            }
            if self.reg[0x23] & 0x80 != 0 {
                self.fifo_b.clear();
                self.reg[0x23] = self.reg[0x23] & 0x7F;
            }
            assert(self.reg@ =~= old(self).reg@.update(0x23, self.reg[0x23]));
            proof {
                broadcast use vstd::array::group_array_axioms;
                assert(self.reg =~= vstd::array::spec_array_update(old(self).reg, 0x23, self.reg[0x23]));
            }
        }
    }
}

/// The sound register halfword at I/O offset `off` (0x60..0xA6).
pub open spec fn reg16(a: Apu, off: int) -> u16 {
    (a.reg[off - 0x60] as u16) | ((a.reg[off - 0x5F] as u16) << 8)
}

/// A square channel with its sweep register halfword `sw` applied: shift
/// (bits 0-2), direction (bit 3, down when set) and period (bits 4-6).
pub open spec fn sweep_written(c: Square, sw: u16) -> Square {
    Square { sweep_shift: (sw & 7) as u8, sweep_down: sw & 8 != 0, sweep_period: ((sw >> 4) & 7) as u8, ..c }
}

/// A square channel with its registers applied: the duty / length /
/// envelope halfword `s` (length bits 0-5, counted down from 64 and reloaded
/// only when `length_write`; duty bits 6-7; envelope period bits 8-10,
/// direction bit 11, initial volume bits 12-15; the DAC is on unless bits
/// 11-15 are all clear) and the frequency / control halfword `x` (frequency
/// bits 0-10, length enable bit 14; with `trigger`, bit 15 triggers). A
/// channel whose DAC is off stops.
pub open spec fn square_written(c: Square, s: u16, x: u16, length_write: bool, trigger: bool) -> Square {
    let c1 = Square {
        env: Env { period: ((s >> 8) & 7) as u8, up: s & 0x0800 != 0, initial: ((s >> 12) & 0xF) as u8, ..c.env },
        dac_on: s & 0xF800 != 0,
        duty: ((s >> 6) & 3) as u8,
        length: if length_write { (64 - (s & 0x3F)) as u16 } else { c.length },
        freq: x & 0x7FF,
        length_enable: x & 0x4000 != 0,
        ..c
    };
    let c2 = if trigger && x & 0x8000 != 0 { c1.triggered() } else { c1 };
    if c2.dac_on { c2 } else { Square { enabled: false, ..c2 } }
}

/// The wave channel with its registers applied: the control byte `n30`
/// (both banks bit 5, bank bit 6, DAC on bit 7), the length / volume
/// halfword `h` (length bits 0-7, counted down from 256 and reloaded only
/// when `length_write`; volume bits 13-14; forced 75% bit 15) and the
/// frequency / control halfword `x` (as for a square channel). A channel
/// whose DAC is off stops.
pub open spec fn wave_written(c: Wave, n30: u8, h: u16, x: u16, length_write: bool, trigger: bool) -> Wave {
    let c1 = Wave {
        mode64: n30 & 0x20 != 0,
        bank: ((n30 >> 6u8) & 1) as u8,
        dac_on: n30 & 0x80 != 0,
        length: if length_write { (256 - (h & 0xFF)) as u16 } else { c.length },
        volume: ((h >> 13) & 3) as u8,
        force75: h & 0x8000 != 0,
        freq: x & 0x7FF,
        length_enable: x & 0x4000 != 0,
        ..c
    };
    let c2 = if trigger && x & 0x8000 != 0 { c1.triggered() } else { c1 };
    if c2.dac_on { c2 } else { Wave { enabled: false, ..c2 } }
}

/// The noise channel with its registers applied: the length / envelope
/// halfword `s` (length bits 0-5, counted down from 64 and reloaded on every
/// write; envelope as for a square channel) and the control halfword `x`
/// (divisor bits 0-2, 7-bit LFSR bit 3, shift bits 4-7, length enable bit
/// 14; with `trigger`, bit 15 triggers). A channel whose DAC is off stops.
pub open spec fn noise_written(c: Noise, s: u16, x: u16, trigger: bool) -> Noise {
    let c1 = Noise {
        length: (64 - (s & 0x3F)) as u16,
        env: Env { period: ((s >> 8) & 7) as u8, up: s & 0x0800 != 0, initial: ((s >> 12) & 0xF) as u8, ..c.env },
        dac_on: s & 0xF800 != 0,
        div: (x & 7) as u8,
        width7: x & 8 != 0,
        shift: ((x >> 4) & 0xF) as u8,
        length_enable: x & 0x4000 != 0,
        ..c
    };
    let c2 = if trigger && x & 0x8000 != 0 { c1.triggered() } else { c1 };
    if c2.dac_on { c2 } else { Noise { enabled: false, ..c2 } }
}

/// The sound unit after its channels re-read their registers following a
/// write to register byte `off`: channel 1 on 0x60-0x65 (sweep at 0x60,
/// duty / envelope at 0x62, frequency at 0x64; the high byte at 0x65
/// triggers), channel 2 on 0x68-0x6D, channel 3 on 0x70-0x75 and channel 4
/// on 0x78-0x7D; a write to 0x83 resets FIFO A when bit 3 is set and FIFO B
/// when bit 7 is, and those bits read back clear.
pub open spec fn decoded(a: Apu, off: int) -> Apu {
    if 0x60 <= off <= 0x65 {
        Apu {
            ch1: square_written(sweep_written(a.ch1, reg16(a, 0x60)), reg16(a, 0x62), reg16(a, 0x64), off == 0x62, off
                == 0x65),
            ..a
        }
    } else if 0x68 <= off <= 0x6D {
        Apu { ch2: square_written(a.ch2, reg16(a, 0x68), reg16(a, 0x6C), off == 0x68, off == 0x6D), ..a }
    } else if 0x70 <= off <= 0x75 {
        Apu {
            ch3: wave_written(a.ch3, a.reg[0x10], reg16(a, 0x72), reg16(a, 0x74), off == 0x72 || off == 0x73, off
                == 0x75),
            ..a
        }
    } else if 0x78 <= off <= 0x7D {
        Apu { ch4: noise_written(a.ch4, reg16(a, 0x78), reg16(a, 0x7C), off == 0x7D), ..a }
    } else if off == 0x83 {
        let b = a.reg[0x23];
        let b1 = if b & 0x08 != 0 { b & 0xF7 } else { b };
        let b2 = if b1 & 0x80 != 0 { b1 & 0x7F } else { b1 };
        Apu {
            reg: vstd::array::spec_array_update(a.reg, 0x23, b2),
            fifo_a: if b & 0x08 != 0 { Fifo { head: 0, len: 0, ..a.fifo_a } } else { a.fifo_a },
            fifo_b: if b1 & 0x80 != 0 { Fifo { head: 0, len: 0, ..a.fifo_b } } else { a.fifo_b },
            ..a
        }
    } else {
        a
    }
}

fn write_square(c: &mut Square, s: u16, x: u16, length_write: bool, trigger: bool)
    ensures
        *final(c) == square_written(*old(c), s, x, length_write, trigger),
{
    c.env.period = ((s >> 8) & 7) as u8;
    c.env.up = s & 0x0800 != 0;
    c.env.initial = ((s >> 12) & 0xF) as u8;
    c.dac_on = s & 0xF800 != 0;
    c.duty = ((s >> 6) & 3) as u8;
    if length_write {
        assert((s & 0x3F) <= 64) by {
            crate::bits::lemma_u16_bits(s, 0x3F);
        }
        c.length = 64 - (s & 0x3F);
    }
    c.freq = x & 0x7FF;
    c.length_enable = x & 0x4000 != 0;
    if trigger && x & 0x8000 != 0 {
        c.trigger();
    }
    if !c.dac_on {
        c.enabled = false;
    }
}

fn write_wave(c: &mut Wave, n30: u8, h: u16, x: u16, length_write: bool, trigger: bool)
    ensures
        *final(c) == wave_written(*old(c), n30, h, x, length_write, trigger),
{
    c.mode64 = n30 & 0x20 != 0;
    c.bank = ((n30 >> 6) & 1) as u8;
    c.dac_on = n30 & 0x80 != 0;
    if length_write {
        assert((h & 0xFF) <= 256) by {
            crate::bits::lemma_u16_bits(h, 0xFF);
        }
        c.length = 256 - (h & 0xFF);
    }
    c.volume = ((h >> 13) & 3) as u8;
    c.force75 = h & 0x8000 != 0;
    c.freq = x & 0x7FF;
    c.length_enable = x & 0x4000 != 0;
    if trigger && x & 0x8000 != 0 {
        c.trigger();
    }
    if !c.dac_on {
        c.enabled = false;
    }
}

fn write_noise(c: &mut Noise, s: u16, x: u16, trigger: bool)
    ensures
        *final(c) == noise_written(*old(c), s, x, trigger),
{
    assert((s & 0x3F) <= 64) by {
        crate::bits::lemma_u16_bits(s, 0x3F);
    }
    c.length = 64 - (s & 0x3F);
    c.env.period = ((s >> 8) & 7) as u8;
    c.env.up = s & 0x0800 != 0;
    c.env.initial = ((s >> 12) & 0xF) as u8;
    c.dac_on = s & 0xF800 != 0;
    c.div = (x & 7) as u8;
    c.width7 = x & 8 != 0;
    c.shift = ((x >> 4) & 0xF) as u8;
    c.length_enable = x & 0x4000 != 0;
    if trigger && x & 0x8000 != 0 {
        c.trigger();
    }
    if !c.dac_on {
        c.enabled = false;
    }
}

impl Apu {
    /// The sound unit after one frame-sequencer tick (512 Hz): even steps
    /// clock the length counters, steps 2 and 6 channel 1's sweep, step 7 the
    /// envelopes; the step counter runs round 0..7.
    pub open spec fn frame_seq_ticked(self) -> Apu {
        let step = self.fs_step;
        Apu {
            fs_step: ((step as int + 1) % 8) as u8,
            ch1: square_ticked(self.ch1, step, true),
            ch2: square_ticked(self.ch2, step, false),
            ch3: if step % 2 == 0 { self.ch3.length_clocked() } else { self.ch3 },
            ch4: noise_ticked(self.ch4, step),
            ..self
        }
    }

    /// The sound unit after its frame-sequencer clock is brought below one
    /// tick period, ticking once per period taken off.
    pub open spec fn fs_caught_up(self) -> Apu
        decreases self.fs_cycle,
    {
        if self.fs_cycle >= FS_PERIOD {
            Apu { fs_cycle: (self.fs_cycle - FS_PERIOD) as u32, ..self }.frame_seq_ticked().fs_caught_up()
        } else {
            self
        }
    }

    /// Direct Sound channel B (`is_b`) or A after its FIFO pops once per `p`
    /// cycles (a zero period never pops) from its next pop time, moved up to
    /// `start` when behind, until `end`: each pop of a non-empty FIFO plays
    /// the sample it takes.
    pub open spec fn ds_popped(self, is_b: bool, p: u64, start: u64, end: u64) -> Apu {
        if p == 0 {
            self
        } else {
            let n0 = if is_b { self.b_next } else { self.a_next };
            let next = if n0 < start { start } else { n0 };
            if is_b {
                let (f, cur, n) = pops(self.fifo_b, self.ds_b, next, end, p);
                Apu { fifo_b: f, ds_b: cur, b_next: n, ..self }
            } else {
                let (f, cur, n) = pops(self.fifo_a, self.ds_a, next, end, p);
                Apu { fifo_a: f, ds_a: cur, a_next: n, ..self }
            }
        }
    }

    /// The sound unit after a 128-cycle chunk: the channels advance, the
    /// frame sequencer catches up, then FIFO A and FIFO B pop on the timers
    /// SOUNDCNT_H selects (bit 10 for A, bit 14 for B).
    pub open spec fn chunk_advanced(self, timer_period: [Option<u32>; 2]) -> Apu {
        let a1 = Apu {
            ch1: self.ch1.advanced(128),
            ch2: self.ch2.advanced(128),
            ch3: self.ch3.advanced(128),
            ch4: self.ch4.advanced(128),
            fs_cycle: self.fs_cycle.wrapping_add(128),
            ..self
        }.fs_caught_up();
        let cnt_h = reg16(a1, 0x82);
        let pa = period_of(timer_period[((cnt_h >> 10) & 1) as int]);
        let pb = period_of(timer_period[((cnt_h >> 14) & 1) as int]);
        a1.ds_popped(false, pa, self.cycle, (self.cycle + 128) as u64).ds_popped(
            true,
            pb,
            self.cycle,
            (self.cycle + 128) as u64,
        )
    }
}

/// A square channel after frame-sequencer step `step`: its length on even
/// steps, its sweep (when it has one) on steps 2 and 6, its envelope on
/// step 7.
pub open spec fn square_ticked(c: Square, step: u8, sweep: bool) -> Square {
    let c1 = if step % 2 == 0 { c.length_clocked() } else { c };
    let c2 = if sweep && (step == 2 || step == 6) { c1.sweep_clocked() } else { c1 };
    if step == 7 { Square { env: c2.env.clocked(), ..c2 } } else { c2 }
}

/// The noise channel after frame-sequencer step `step`: its length on even
/// steps, its envelope on step 7.
pub open spec fn noise_ticked(c: Noise, step: u8) -> Noise {
    let c1 = if step % 2 == 0 { c.length_clocked() } else { c };
    if step == 7 { Noise { env: c1.env.clocked(), ..c1 } } else { c1 }
}

fn tick_square(c: &mut Square, step: u8, sweep: bool)
    ensures
        *final(c) == square_ticked(*old(c), step, sweep),
{
    if step % 2 == 0 {
        c.clock_length();
    }
    if sweep && (step == 2 || step == 6) {
        c.clock_sweep();
    }
    if step == 7 {
        c.env.clock();
    }
}

fn tick_noise(c: &mut Noise, step: u8)
    ensures
        *final(c) == noise_ticked(*old(c), step),
{
    if step % 2 == 0 {
        c.clock_length();
    }
    if step == 7 {
        c.env.clock();
    }
}

/// Rust's integer division: rounding toward zero.
pub open spec fn div_toward_zero(x: int, d: int) -> int {
    if x >= 0 {
        x / d
    } else {
        -((-x) / d)
    }
}

/// `v` saturated to the `i16` range.
pub open spec fn clamp16_spec(v: int) -> i16 {
    if v < -32768 {
        -32768i16
    } else if v > 32767 {
        32767i16
    } else {
        v as i16
    }
}

/// The raw stereo mix of a sound unit (zero while it is switched off):
/// SOUNDCNT_L routes each PSG channel to the right (bits 8-11) and left
/// (12-15) and sets the right (bits 0-2) and left (4-6) volume as a factor
/// of 1-8; SOUNDCNT_H scales the PSG sum to 25%, 50% or 100% (bits 0-1),
/// doubles Direct Sound A / B (bits 2, 3) and routes A right / left (8, 9)
/// and B right / left (12, 13); the sum is scaled by 24.
pub open spec fn mix_of(a: Apu) -> (i32, i32) {
    if !a.master_enable {
        (0, 0)
    } else {
        let cnt_l = reg16(a, 0x80);
        let cnt_h = reg16(a, 0x82);
        let d1 = a.ch1.dac_spec() as int;
        let d2 = a.ch2.dac_spec() as int;
        let d3 = a.ch3.dac_spec(a.wave_ram) as int;
        let d4 = a.ch4.dac_spec() as int;
        let pl = (if cnt_l & 0x1000 != 0 { d1 } else { 0 }) + (if cnt_l & 0x2000 != 0 { d2 } else { 0 }) + (if cnt_l
            & 0x4000 != 0 { d3 } else { 0 }) + (if cnt_l & 0x8000 != 0 { d4 } else { 0 });
        let pr = (if cnt_l & 0x0100 != 0 { d1 } else { 0 }) + (if cnt_l & 0x0200 != 0 { d2 } else { 0 }) + (if cnt_l
            & 0x0400 != 0 { d3 } else { 0 }) + (if cnt_l & 0x0800 != 0 { d4 } else { 0 });
        let shift: u32 = if cnt_h & 3 == 0 { 2 } else if cnt_h & 3 == 1 { 1 } else { 0 };
        let sl = ((pl * (((cnt_l >> 4) & 7) as int + 1)) as i32) >> shift;
        let sr = ((pr * ((cnt_l & 7) as int + 1)) as i32) >> shift;
        let da = a.ds_a as int * if cnt_h & 0x04 != 0 { 4int } else { 2int };
        let db = a.ds_b as int * if cnt_h & 0x08 != 0 { 4int } else { 2int };
        let l = sl + (if cnt_h & 0x0200 != 0 { da } else { 0 }) + (if cnt_h & 0x2000 != 0 { db } else { 0 });
        let r = sr + (if cnt_h & 0x0100 != 0 { da } else { 0 }) + (if cnt_h & 0x1000 != 0 { db } else { 0 });
        ((l * 24) as i32, (r * 24) as i32)
    }
}

/// One step of the DC blocker on one side, with previous input `x`,
/// state `y` (Q12) and input `v`: y becomes y + 4096 (v - x) less y / 4096
/// (wrapping at 64 bits); the new input, the new state and the output y /
/// 4096 (rounded down, truncated to 32 bits).
pub open spec fn dc_step(x: i32, y: i64, v: i32) -> (i32, i64, i32) {
    let y1 = y.wrapping_add(((v - x) * 4096) as i64);
    let y2 = y1.wrapping_sub(y1 >> 12u32);
    (v, y2, (y2 >> 12u32) as i32)
}

impl Apu {
    /// Catching up the frame sequencer touches only the channels and the
    /// sequencer's own clock and step.
    pub proof fn lemma_caught_up_keeps(self)
        ensures
            ({
                let b = self.fs_caught_up();
                b == (Apu {
                    ch1: b.ch1,
                    ch2: b.ch2,
                    ch3: b.ch3,
                    ch4: b.ch4,
                    fs_cycle: b.fs_cycle,
                    fs_step: b.fs_step,
                    ..self
                })
            }),
        decreases self.fs_cycle,
    {
        if self.fs_cycle >= FS_PERIOD {
            Apu { fs_cycle: (self.fs_cycle - FS_PERIOD) as u32, ..self }.frame_seq_ticked().lemma_caught_up_keeps();
        }
    }

    /// A chunk keeps the clock, the output, the master enable and the
    /// output filters.
    pub proof fn lemma_chunk_keeps(self, timer_period: [Option<u32>; 2])
        ensures
            ({
                let c = self.chunk_advanced(timer_period);
                &&& c.cycle == self.cycle && c.out == self.out && c.master_enable == self.master_enable
                &&& c.hp_xl == self.hp_xl && c.hp_yl == self.hp_yl && c.hp_xr == self.hp_xr && c.hp_yr == self.hp_yr
                &&& c.ma_l == self.ma_l && c.ma_r == self.ma_r
            }),
    {
        Apu {
            ch1: self.ch1.advanced(128),
            ch2: self.ch2.advanced(128),
            ch3: self.ch3.advanced(128),
            ch4: self.ch4.advanced(128),
            fs_cycle: self.fs_cycle.wrapping_add(128),
            ..self
        }.lemma_caught_up_keeps();
    }

    /// Catching up the frame sequencer does not look at the output.
    pub proof fn lemma_caught_up_out(self, o: Vec<i16>)
        ensures
            (Apu { out: o, ..self }).fs_caught_up() == (Apu { out: o, ..self.fs_caught_up() }),
        decreases self.fs_cycle,
    {
        if self.fs_cycle >= FS_PERIOD {
            let t = Apu { fs_cycle: (self.fs_cycle - FS_PERIOD) as u32, ..self }.frame_seq_ticked();
            t.lemma_caught_up_out(o);
            assert(Apu { fs_cycle: (self.fs_cycle - FS_PERIOD) as u32, ..Apu { out: o, ..self } }.frame_seq_ticked()
                == Apu { out: o, ..t });
        }
    }

    /// Chunks do not look at the output.
    pub proof fn lemma_chunks_out(self, o: Vec<i16>, timer_period: [Option<u32>; 2], k: nat)
        ensures
            ({
                let (b, l, r) = self.chunks(timer_period, k);
                (Apu { out: o, ..self }).chunks(timer_period, k) == (Apu { out: o, ..b }, l, r)
            }),
        decreases k,
    {
        if k > 0 {
            self.lemma_chunks_out(o, timer_period, (k - 1) as nat);
            let (b, l, r) = self.chunks(timer_period, (k - 1) as nat);
            let a1 = Apu {
                ch1: b.ch1.advanced(128),
                ch2: b.ch2.advanced(128),
                ch3: b.ch3.advanced(128),
                ch4: b.ch4.advanced(128),
                fs_cycle: b.fs_cycle.wrapping_add(128),
                ..b
            };
            a1.lemma_caught_up_out(o);
            assert(Apu { out: o, ..b }.chunk_advanced(timer_period) == Apu { out: o, ..b.chunk_advanced(timer_period) });
        }
    }

    /// A frame does not look at the output.
    pub proof fn lemma_frame_out(self, o: Vec<i16>, timer_period: [Option<u32>; 2])
        ensures
            (Apu { out: o, ..self }).frame_of(timer_period) == (Apu { out: o, ..self.frame_of(timer_period).0 }, self.frame_of(
                timer_period,
            ).1),
    {
        self.lemma_chunks_out(o, timer_period, 4);
    }

    /// The sound unit after `k` chunks of 128 cycles, with the sums of the
    /// mixes taken after each.
    pub open spec fn chunks(self, timer_period: [Option<u32>; 2], k: nat) -> (Apu, int, int)
        decreases k,
    {
        if k == 0 {
            (self, 0, 0)
        } else {
            let (b, l, r) = self.chunks(timer_period, (k - 1) as nat);
            let c = Apu { cycle: (b.cycle + 128) as u64, ..b.chunk_advanced(timer_period) };
            let (ml, mr) = mix_of(c);
            (c, l + ml, r + mr)
        }
    }

    /// The sound unit after one stereo frame of 512 cycles, and the frame:
    /// the average of four chunk mixes through the DC blocker, then each
    /// side averaged with its previous filtered value and saturated.
    pub open spec fn frame_of(self, timer_period: [Option<u32>; 2]) -> (Apu, (i16, i16)) {
        let (b, l, r) = self.chunks(timer_period, 4);
        let (xl, yl, ol) = dc_step(b.hp_xl, b.hp_yl, div_toward_zero(l, 4) as i32);
        let (xr, yr, or) = dc_step(b.hp_xr, b.hp_yr, div_toward_zero(r, 4) as i32);
        (
            Apu { hp_xl: xl, hp_yl: yl, hp_xr: xr, hp_yr: yr, ma_l: ol, ma_r: or, ..b },
            (
                clamp16_spec(div_toward_zero(ol + b.ma_l, 2)),
                clamp16_spec(div_toward_zero(or + b.ma_r, 2)),
            ),
        )
    }

    /// The sound unit after `n` frames, and the samples they emit (left,
    /// right, left, ...).
    pub open spec fn run_frames(self, timer_period: [Option<u32>; 2], n: nat) -> (Apu, Seq<i16>)
        decreases n,
    {
        if n == 0 {
            (self, Seq::empty())
        } else {
            let (b, s) = self.run_frames(timer_period, (n - 1) as nat);
            let (c, o) = b.frame_of(timer_period);
            (c, s + seq![o.0, o.1])
        }
    }

    /// The sound unit a `generate` call to `target` starts from: a clock
    /// more than 300000 cycles behind is snapped forward, with both FIFO
    /// schedules.
    pub open spec fn resynced(self, target: u64) -> Apu {
        if target > self.cycle + 300_000 {
            Apu { cycle: target, a_next: target, b_next: target, ..self }
        } else {
            self
        }
    }
}

/// A timer's overflow period in cycles, 0 when it is stopped.
pub open spec fn period_of(p: Option<u32>) -> u64 {
    match p {
        Some(v) => v as u64,
        None => 0,
    }
}

/// A FIFO, the sample playing, and the next pop time after popping once per
/// `p` cycles from `next` until `end` (the time saturating at the top of the
/// clock).
pub open spec fn pops(f: Fifo, cur: i8, next: u64, end: u64, p: u64) -> (Fifo, i8, u64)
    decreases (if next < end { end - next } else { 0 }),
    when p >= 1
{
    if next >= end {
        (f, cur, next)
    } else {
        let c = if f.len == 0 { cur } else { f.buf[f.head as int] };
        pops(f.popped(), c, if next <= u64::MAX - p { (next + p) as u64 } else { u64::MAX }, end, p)
    }
}

/// The sound clock a `generate` call starts from: a clock more than 300000
/// cycles behind `target` is snapped forward to it.
pub open spec fn start_cycle(cycle: u64, target: u64) -> int {
    if target > cycle as int + 300_000 {
        target as int
    } else {
        cycle as int
    }
}

/// How many stereo frames a `generate` call emits.
pub open spec fn frames_due(cycle: u64, target: u64) -> int {
    let c = start_cycle(cycle, target);
    if target >= c { (target - c) / 512 } else { 0 }
}

impl Apu {
    /// `after` is this sound unit after `generate(timer_period, target)`:
    /// the output frames due by `target` are run and their samples appended.
    pub open spec fn generated(self, after: Apu, timer_period: [Option<u32>; 2], target: u64) -> bool {
        let (b, samples) = self.resynced(target).run_frames(timer_period, frames_due(self.cycle, target) as nat);
        &&& after == (Apu { out: after.out, ..b })
        &&& after.out@ == self.out@ + samples
    }

    /// Advance the sound unit to `target` system cycles, one stereo frame per
    /// 512 cycles. `timer_period[i]` is the overflow period of timer `i` (or
    /// `None` when it is stopped); each FIFO pops on its selected timer. With
    /// the unit switched off and the output filters at rest, every frame is
    /// silent.
    #[verifier::rlimit(40)]
    pub fn generate(&mut self, timer_period: [Option<u32>; 2], target: u64)
        requires
            old(self).wf(),
        ensures
            old(self).generated(*final(self), timer_period, target),
            final(self).wf(),
            final(self).cycle == start_cycle(old(self).cycle, target) + 512 * frames_due(old(self).cycle, target),
            final(self).out@.len() == old(self).out@.len() + 2 * frames_due(old(self).cycle, target),
            final(self).out@.subrange(0, old(self).out@.len() as int) == old(self).out@,
            final(self).master_enable == old(self).master_enable,
            ({
                let (b, samples) = old(self).resynced(target).run_frames(
                    timer_period,
                    frames_due(old(self).cycle, target) as nat,
                );
                &&& *final(self) == (Apu { out: final(self).out, ..b })
                &&& final(self).out@ == old(self).out@ + samples
            }),
            !old(self).master_enable && old(self).filters_quiet() ==> {
                &&& final(self).filters_quiet()
                &&& forall|i: int| old(self).out@.len() <= i < final(self).out@.len() ==> #[trigger] final(self).out@[i] == 0
            },
    {
        if target > self.cycle && target - self.cycle > 300_000 {
            self.resync(target);
        }
        let ghost c0 = self.cycle;
        let ghost n0 = old(self).out@.len();
        let ghost a0 = *self;
        assert(a0 == old(self).resynced(target));
        let quiet = !self.master_enable && self.hp_xl == 0 && self.hp_yl == 0 && self.hp_xr == 0 && self.hp_yr == 0
            && self.ma_l == 0 && self.ma_r == 0;
        let ghost quiet0 = quiet;
        while target >= 512 && self.cycle <= target - 512
            invariant
                self.wf(),
                c0 <= self.cycle,
                (self.cycle - c0) % 512 == 0,
                target >= c0 ==> self.cycle <= c0 + 512 * ((target - c0) / 512),
                target < c0 ==> self.cycle == c0,
                self.out@.len() == n0 + 2 * ((self.cycle - c0) / 512),
                self.out@.subrange(0, n0 as int) == old(self).out@,
                self.master_enable == old(self).master_enable,
                quiet0 ==> self.filters_quiet() && !self.master_enable,
                quiet0 ==> forall|i: int| n0 <= i < self.out@.len() ==> #[trigger] self.out@[i] == 0,
                ({
                    let (b, samples) = a0.run_frames(timer_period, ((self.cycle - c0) / 512) as nat);
                    &&& *self == (Apu { out: self.out, ..b })
                    &&& self.out@ == old(self).out@ + samples
                }),
            decreases target - self.cycle,
        {
            let ghost before = self.out@;
            let ghost pre = *self;
            let ghost m = ((self.cycle - c0) / 512) as nat;
            let (l, r) = self.next_frame(timer_period);
            let ghost post = *self;
            self.out.push(l);
            self.out.push(r);
            proof {
                assert(self.out@.subrange(0, n0 as int) =~= before.subrange(0, n0 as int));
                assert(((self.cycle - c0) / 512) as nat == m + 1);
                let (b, samples) = a0.run_frames(timer_period, m);
                b.lemma_frame_out(pre.out, timer_period);
                assert(post == Apu { out: pre.out, ..b.frame_of(timer_period).0 });
                assert(self.out@ =~= old(self).out@ + samples + seq![l, r]);
                assert(*self == Apu { out: self.out, ..post });
            }
        }
        proof {
            if target >= c0 {
                assert(self.cycle == c0 + 512 * ((target - c0) / 512)) by (nonlinear_arith)
                    requires
                        c0 <= self.cycle,
                        (self.cycle - c0) % 512 == 0,
                        self.cycle <= c0 + 512 * ((target - c0) / 512),
                        !(target >= 512 && self.cycle <= target - 512),
                        target >= c0,
                ;
            }
            let oc = old(self).cycle;
            assert(c0 == start_cycle(oc, target));
            assert((self.cycle - c0) / 512 == frames_due(oc, target)) by (nonlinear_arith)
                requires
                    c0 == start_cycle(oc, target),
                    target >= c0 ==> self.cycle == c0 + 512 * ((target - c0) / 512),
                    target < c0 ==> self.cycle == c0,
                    c0 <= self.cycle,
            ;
        }
    }

    /// Produce one stereo frame: four sub-samples of 128 cycles averaged,
    /// then the DC blocker and the two-tap average.
    fn next_frame(&mut self, timer_period: [Option<u32>; 2]) -> (r: (i16, i16))
        requires
            old(self).wf(),
            old(self).cycle <= u64::MAX - 512,
        ensures
            final(self).wf(),
            (*final(self), r) == old(self).frame_of(timer_period),
            final(self).cycle == old(self).cycle + 512,
            final(self).out@ == old(self).out@,
            final(self).master_enable == old(self).master_enable,
            !old(self).master_enable && old(self).filters_quiet() ==> final(self).filters_quiet() && r == (0i16, 0i16),
    {
        let mut acc_l: i32 = 0;
        let mut acc_r: i32 = 0;
        let mut k: u64 = 0;
        while k < 4
            invariant
                k <= 4,
                self.wf(),
                old(self).cycle <= u64::MAX - 512,
                self.cycle == old(self).cycle + 128 * k,
                (*self, acc_l as int, acc_r as int) == old(self).chunks(timer_period, k as nat),
                self.out@ == old(self).out@,
                self.master_enable == old(self).master_enable,
                self.hp_xl == old(self).hp_xl && self.hp_yl == old(self).hp_yl && self.hp_xr == old(self).hp_xr
                    && self.hp_yr == old(self).hp_yr && self.ma_l == old(self).ma_l && self.ma_r == old(self).ma_r,
                -0x0400_0000 * k <= acc_l <= 0x0400_0000 * k,
                -0x0400_0000 * k <= acc_r <= 0x0400_0000 * k,
                !self.master_enable ==> acc_l == 0 && acc_r == 0,
            decreases 4 - k,
        {
            let ghost pre = *self;
            self.advance_chunk(128, timer_period);
            proof {
                pre.lemma_chunk_keeps(timer_period);
            }
            self.cycle = self.cycle + 128;
            let (l, r) = self.mix_raw();
            acc_l = acc_l + l;
            acc_r = acc_r + r;
            k = k + 1;
        }
        let ghost b = *self;
        let (l, r) = self.dc_block(acc_l / 4, acc_r / 4);
        let out_l = (l as i64 + self.ma_l as i64) / 2;
        let out_r = (r as i64 + self.ma_r as i64) / 2;
        self.ma_l = l;
        self.ma_r = r;
        (clamp16(out_l), clamp16(out_r))
    }

    /// One-pole DC blocker per side: y = x - x_prev + (1 - 2^-12) y_prev, with
    /// `y` kept in Q12.
    fn dc_block(&mut self, l: i32, r: i32) -> (o: (i32, i32))
        ensures
            ({
                let (xl, yl, ol) = dc_step(old(self).hp_xl, old(self).hp_yl, l);
                let (xr, yr, or) = dc_step(old(self).hp_xr, old(self).hp_yr, r);
                &&& *final(self) == (Apu { hp_xl: xl, hp_yl: yl, hp_xr: xr, hp_yr: yr, ..*old(self) })
                &&& o == (ol, or)
            }),
            final(self).wf() == old(self).wf(),
            final(self).cycle == old(self).cycle && final(self).out@ == old(self).out@,
            final(self).master_enable == old(self).master_enable,
            final(self).ma_l == old(self).ma_l && final(self).ma_r == old(self).ma_r,
            final(self).fifo_a == old(self).fifo_a && final(self).fifo_b == old(self).fifo_b,
            l == 0 && r == 0 && old(self).filters_quiet() ==> final(self).filters_quiet() && o == (0i32, 0i32),
    {
        let dl = (l as i64 - self.hp_xl as i64) * 4096;
        let yl = self.hp_yl.wrapping_add(dl);
        self.hp_yl = yl.wrapping_sub(yl >> 12u32);
        self.hp_xl = l;
        let dr = (r as i64 - self.hp_xr as i64) * 4096;
        let yr = self.hp_yr.wrapping_add(dr);
        self.hp_yr = yr.wrapping_sub(yr >> 12u32);
        self.hp_xr = r;
        proof {
            assert((0i64 >> 12u32) == 0i64) by (bit_vector);
        }
        ((self.hp_yl >> 12u32) as i32, (self.hp_yr >> 12u32) as i32)
    }

    fn advance_chunk(&mut self, n: u64, timer_period: [Option<u32>; 2])
        requires
            old(self).wf(),
            n == 128,
            old(self).cycle <= u64::MAX - 128,
        ensures
            final(self).wf(),
            *final(self) == old(self).chunk_advanced(timer_period),
    {
        self.ch1.advance(n);
        self.ch2.advance(n);
        self.ch3.advance(n);
        self.ch4.advance(n);
        self.fs_cycle = self.fs_cycle.wrapping_add(n as u32);
        let ghost a1 = *self;
        while self.fs_cycle >= FS_PERIOD
            invariant
                self.wf(),
                self.fs_caught_up() == a1.fs_caught_up(),
                self.cycle == old(self).cycle,
                self.cycle <= u64::MAX - 128,
            decreases self.fs_cycle,
        {
            self.fs_cycle = self.fs_cycle - FS_PERIOD;
            self.tick_frame_seq();
        }
        let cnt_h = self.r16(0x82);
        let a_timer = ((cnt_h >> 10) & 1) as usize;
        let b_timer = ((cnt_h >> 14) & 1) as usize;
        proof {
            crate::bits::lemma_u16_bits(cnt_h >> 10, 1);
            crate::bits::lemma_u16_bits(cnt_h >> 14, 1);
        }
        let start = self.cycle;
        let end = self.cycle + n;
        self.pop_ds(false, timer_period[a_timer], start, end);
        self.pop_ds(true, timer_period[b_timer], start, end);
    }

    /// Pop a FIFO once per timer period from its schedule up to `end`; a
    /// schedule behind `start` restarts at `start`.
    fn pop_ds(&mut self, is_b: bool, period: Option<u32>, start: u64, end: u64)
        requires
            old(self).wf(),
        ensures
            final(self).wf(),
            *final(self) == old(self).ds_popped(is_b, period_of(period), start, end),
    {
        let p: u64 = match period {
            Some(p) => p as u64,
            None => 0,
        };
        if p == 0 {
            return;
        }
        let mut next = if is_b { self.b_next } else { self.a_next };
        if next < start {
            next = start;
        }
        let ghost n0 = next;
        while next < end
            invariant
                self.wf(),
                p >= 1,
                p == period_of(period),
                old(self).ds_popped(is_b, p, start, end) == if is_b {
                    let (f, cur, n) = pops(self.fifo_b, self.ds_b, next, end, p);
                    Apu { fifo_b: f, ds_b: cur, b_next: n, ..*self }
                } else {
                    let (f, cur, n) = pops(self.fifo_a, self.ds_a, next, end, p);
                    Apu { fifo_a: f, ds_a: cur, a_next: n, ..*self }
                },
            decreases (if next < end { end - next } else { 0 }),
        {
            let sample = if is_b { self.fifo_b.pop() } else { self.fifo_a.pop() };
            match sample {
                Some(v) => if is_b {
                    self.ds_b = v;
                } else {
                    self.ds_a = v;
                },
                None => {},
            }
            next = if next <= u64::MAX - p { next + p } else { u64::MAX };
        }
        if is_b {
            self.b_next = next;
        } else {
            self.a_next = next;
        }
    }

    fn tick_frame_seq(&mut self)
        ensures
            *final(self) == old(self).frame_seq_ticked(),
    {
        let step = self.fs_step;
        self.fs_step = (self.fs_step.wrapping_add(1)) & 7;
        proof {
            crate::bits::lemma_u8_bits(step, 7);
        }
        tick_square(&mut self.ch1, step, true);
        tick_square(&mut self.ch2, step, false);
        if step % 2 == 0 {
            self.ch3.clock_length();
        }
        tick_noise(&mut self.ch4, step);
    }

    /// The raw stereo mix of the channels (silent while the unit is off).
    #[verifier::spinoff_prover]
    #[verifier::rlimit(80)]
    fn mix_raw(&self) -> (o: (i32, i32))
        ensures
            o == mix_of(*self),
            -0x0100_0000 <= o.0 <= 0x0100_0000,
            -0x0100_0000 <= o.1 <= 0x0100_0000,
            !self.master_enable ==> o == (0i32, 0i32),
    {
        if !self.master_enable {
            return (0, 0);
        }
        let cnt_l = self.r16(0x80);
        let cnt_h = self.r16(0x82);
        let right_vol = (cnt_l & 7) as i32;
        let left_vol = ((cnt_l >> 4) & 7) as i32;
        proof {
            crate::bits::lemma_u16_bits(cnt_l, 7);
            crate::bits::lemma_u16_bits(cnt_l >> 4, 7);
        }
        let d1 = self.ch1.dac();
        let d2 = self.ch2.dac();
        let d3 = self.ch3.dac(&self.wave_ram);
        let d4 = self.ch4.dac();
        let mut psg_l: i32 = 0;
        let mut psg_r: i32 = 0;
        if cnt_l & 0x1000 != 0 {
            psg_l = psg_l + d1;
        }
        if cnt_l & 0x2000 != 0 {
            psg_l = psg_l + d2;
        }
        if cnt_l & 0x4000 != 0 {
            psg_l = psg_l + d3;
        }
        if cnt_l & 0x8000 != 0 {
            psg_l = psg_l + d4;
        }
        if cnt_l & 0x0100 != 0 {
            psg_r = psg_r + d1;
        }
        if cnt_l & 0x0200 != 0 {
            psg_r = psg_r + d2;
        }
        if cnt_l & 0x0400 != 0 {
            psg_r = psg_r + d3;
        }
        if cnt_l & 0x0800 != 0 {
            psg_r = psg_r + d4;
        }
        assert(psg_l * (left_vol + 1) <= 0x8000 && psg_l * (left_vol + 1) >= -0x8000) by (nonlinear_arith)
            requires
                -32 <= psg_l <= 988,
                0 <= left_vol <= 7,
        ;
        assert(psg_r * (right_vol + 1) <= 0x8000 && psg_r * (right_vol + 1) >= -0x8000) by (nonlinear_arith)
            requires
                -32 <= psg_r <= 988,
                0 <= right_vol <= 7,
        ;
        psg_l = psg_l * (left_vol + 1);
        psg_r = psg_r * (right_vol + 1);
        let shift: u32 = if cnt_h & 3 == 0 { 2 } else if cnt_h & 3 == 1 { 1 } else { 0 };
        let sl = psg_l >> shift;
        let sr = psg_r >> shift;
        assert(-0x8000 <= sl <= 0x8000 && -0x8000 <= sr <= 0x8000) by (bit_vector)
            requires
                shift <= 2,
                -0x8000 <= psg_l <= 0x8000,
                -0x8000 <= psg_r <= 0x8000,
                sl == psg_l >> shift,
                sr == psg_r >> shift,
        ;
        psg_l = sl;
        psg_r = sr;
        let a = self.ds_a as i32 * if cnt_h & 0x04 != 0 { 4 } else { 2 };
        let b = self.ds_b as i32 * if cnt_h & 0x08 != 0 { 4 } else { 2 };
        let mut l = psg_l;
        let mut r = psg_r;
        if cnt_h & 0x0200 != 0 {
            l = l + a;
        }
        if cnt_h & 0x0100 != 0 {
            r = r + a;
        }
        if cnt_h & 0x2000 != 0 {
            l = l + b;
        }
        if cnt_h & 0x1000 != 0 {
            r = r + b;
        }
        (l * 24, r * 24)
    }
}

/// Saturate to the `i16` range.
fn clamp16(v: i64) -> (r: i16)
    ensures
        r as int == if v < -32768 { -32768 } else if v > 32767 { 32767 } else { v as int },
{
    if v < -32768 {
        -32768
    } else if v > 32767 {
        32767
    } else {
        v as i16
    }
}

/// The length of the sound unit's save-state image.
pub const APU_STATE_LEN: usize = 329;

/// The save-state bytes of a FIFO: its length, its head, its 32 slots.
pub open spec fn fifo_bytes(f: Fifo) -> Seq<u8> {
    seq![f.len as u8, f.head as u8] + Seq::new(32, |i: int| f.buf[i] as u8)
}

impl Apu {
    /// The save-state image of the sound unit: the register bytes and the wave
    /// RAM as blocks, the sequencer, clocks and schedules, the Direct Sound
    /// latches, the filter state, both FIFOs, and the whole state of the four
    /// channels (timers, positions, envelopes, length counters, sweep).
    #[verifier::opaque]
    pub open spec fn state_bytes(&self) -> Seq<u8> {
        self.memory_bytes() + self.clock_bytes() + self.filter_bytes() + fifo_bytes(self.fifo_a) + fifo_bytes(
            self.fifo_b,
        ) + self.channel_bytes()
    }

    pub open spec fn memory_bytes(&self) -> Seq<u8> {
        block(self.reg@) + block(self.wave_ram@)
    }

    pub open spec fn clock_bytes(&self) -> Seq<u8> {
        seq![if self.master_enable { 1u8 } else { 0u8 }] + le32(self.fs_cycle) + seq![self.fs_step] + le64(self.cycle)
            + le64(self.a_next) + le64(self.b_next) + seq![self.ds_a as u8, self.ds_b as u8]
    }

    pub open spec fn filter_bytes(&self) -> Seq<u8> {
        le32(self.hp_xl as u32) + le64(self.hp_yl as u64) + le32(self.hp_xr as u32) + le64(self.hp_yr as u64) + le32(
            self.ma_l as u32,
        ) + le32(self.ma_r as u32)
    }

    pub open spec fn channel_bytes(&self) -> Seq<u8> {
        square_bytes(self.ch1) + square_bytes(self.ch2) + wave_bytes(self.ch3) + noise_bytes(self.ch4)
    }

    /// What loading the image of `q` makes of this sound unit: all of `q`'s
    /// state, this unit's pending output kept.
    pub open spec fn loaded(self, q: Apu) -> Apu {
        Apu { out: self.out, ..q }
    }

    /// `self` holds everything the image of `q` carries: all of the sound
    /// unit's state but its pending output.
    pub open spec fn restored_from(&self, q: &Apu) -> bool {
        &&& self.wave_ram == q.wave_ram
        &&& self.master_enable == q.master_enable
        &&& self.fs_cycle == q.fs_cycle && self.fs_step == q.fs_step
        &&& self.cycle == q.cycle && self.a_next == q.a_next && self.b_next == q.b_next
        &&& self.ds_a == q.ds_a && self.ds_b == q.ds_b
        &&& self.hp_xl == q.hp_xl && self.hp_yl == q.hp_yl && self.hp_xr == q.hp_xr && self.hp_yr == q.hp_yr
        &&& self.ma_l == q.ma_l && self.ma_r == q.ma_r
        &&& self.ch1 == q.ch1 && self.ch2 == q.ch2 && self.ch3 == q.ch3 && self.ch4 == q.ch4
        &&& self.reg == q.reg
        &&& self.fifo_a == q.fifo_a && self.fifo_b == q.fifo_b
    }

    #[verifier::rlimit(30)]
    pub fn serialize(&self, w: &mut Writer)
        ensures
            final(w).buf@ == old(w).buf@ + self.state_bytes(),
    {
        w.bytes(&self.reg);
        w.bytes(&self.wave_ram);
        assert(w.buf@ =~= old(w).buf@ + self.memory_bytes());
        let ghost w1 = w.buf@;
        w.bool(self.master_enable);
        w.u32(self.fs_cycle);
        w.u8(self.fs_step);
        w.u64(self.cycle);
        w.u64(self.a_next);
        w.u64(self.b_next);
        w.u8(self.ds_a as u8);
        w.u8(self.ds_b as u8);
        assert(w.buf@ =~= w1 + self.clock_bytes());
        let ghost w2 = w.buf@;
        w.i32(self.hp_xl);
        w.u64(self.hp_yl as u64);
        w.i32(self.hp_xr);
        w.u64(self.hp_yr as u64);
        w.i32(self.ma_l);
        w.i32(self.ma_r);
        assert(w.buf@ =~= w2 + self.filter_bytes());
        let ghost w3 = w.buf@;
        put_fifo(w, &self.fifo_a);
        put_fifo(w, &self.fifo_b);
        let ghost w4 = w.buf@;
        put_square(w, &self.ch1);
        put_square(w, &self.ch2);
        put_wave(w, &self.ch3);
        put_noise(w, &self.ch4);
        assert(w.buf@ =~= w4 + self.channel_bytes());
        reveal(Apu::state_bytes);
        assert(w.buf@ =~= old(w).buf@ + self.state_bytes());
    }

}

/// The save-state bytes of a square channel (25 bytes).
pub open spec fn square_bytes(c: Square) -> Seq<u8> {
    let f = le16(c.freq);
    let t = le32(c.timer as u32);
    let l = le16(c.length);
    let w = le16(c.sweep_shadow);
    seq![
        f[0], f[1], c.duty, t[0], t[1], t[2], t[3], c.phase, l[0], l[1], crate::save::flag(c.length_enable),
        c.env.initial, crate::save::flag(c.env.up), c.env.period, c.env.vol, c.env.timer,
        c.sweep_period, crate::save::flag(c.sweep_down), c.sweep_shift, c.sweep_timer,
        crate::save::flag(c.sweep_enable), w[0], w[1], crate::save::flag(c.enabled), crate::save::flag(c.dac_on),
    ]
}

/// The save-state bytes of the wave channel (16 bytes).
pub open spec fn wave_bytes(c: Wave) -> Seq<u8> {
    let l = le16(c.length);
    let f = le16(c.freq);
    let t = le32(c.timer as u32);
    seq![
        crate::save::flag(c.dac_on), l[0], l[1], crate::save::flag(c.length_enable), f[0], f[1], c.volume,
        crate::save::flag(c.force75), crate::save::flag(c.mode64), c.bank, t[0], t[1], t[2], t[3], c.pos,
        crate::save::flag(c.enabled),
    ]
}

/// The save-state bytes of the noise channel (19 bytes).
pub open spec fn noise_bytes(c: Noise) -> Seq<u8> {
    let l = le16(c.length);
    let t = le32(c.timer as u32);
    let x = le16(c.lfsr);
    seq![
        l[0], l[1], crate::save::flag(c.length_enable), c.env.initial, crate::save::flag(c.env.up), c.env.period,
        c.env.vol, c.env.timer, c.div, crate::save::flag(c.width7), c.shift, t[0], t[1], t[2], t[3], x[0], x[1],
        crate::save::flag(c.enabled), crate::save::flag(c.dac_on),
    ]
}

/// The halfword whose little-endian bytes sit at `o` in `s`.
pub open spec fn u16_at(s: Seq<u8>, o: int) -> u16 {
    (s[o] as u16) | ((s[o + 1] as u16) << 8)
}

/// The word whose little-endian bytes sit at `o` in `s`.
pub open spec fn u32_at(s: Seq<u8>, o: int) -> u32 {
    (s[o] as u32) | ((s[o + 1] as u32) << 8) | ((s[o + 2] as u32) << 16) | ((s[o + 3] as u32) << 24)
}

/// The envelope read from the five bytes at `o` in `s`.
pub open spec fn env_of(s: Seq<u8>, o: int) -> Env {
    Env { initial: s[o], up: s[o + 1] != 0, period: s[o + 2], vol: s[o + 3], timer: s[o + 4] }
}

/// The square channel read from the 25 bytes at `o` in `s`.
pub open spec fn square_of(s: Seq<u8>, o: int) -> Square {
    Square {
        freq: u16_at(s, o),
        duty: s[o + 2],
        timer: u32_at(s, o + 3) as i32,
        phase: s[o + 7],
        length: u16_at(s, o + 8),
        length_enable: s[o + 10] != 0,
        env: env_of(s, o + 11),
        sweep_period: s[o + 16],
        sweep_down: s[o + 17] != 0,
        sweep_shift: s[o + 18],
        sweep_timer: s[o + 19],
        sweep_enable: s[o + 20] != 0,
        sweep_shadow: u16_at(s, o + 21),
        enabled: s[o + 23] != 0,
        dac_on: s[o + 24] != 0,
    }
}

/// The wave channel read from the 16 bytes at `o` in `s`.
pub open spec fn wave_of(s: Seq<u8>, o: int) -> Wave {
    Wave {
        dac_on: s[o] != 0,
        length: u16_at(s, o + 1),
        length_enable: s[o + 3] != 0,
        freq: u16_at(s, o + 4),
        volume: s[o + 6],
        force75: s[o + 7] != 0,
        mode64: s[o + 8] != 0,
        bank: s[o + 9],
        timer: u32_at(s, o + 10) as i32,
        pos: s[o + 14],
        enabled: s[o + 15] != 0,
    }
}

/// The noise channel read from the 19 bytes at `o` in `s`.
pub open spec fn noise_of(s: Seq<u8>, o: int) -> Noise {
    Noise {
        length: u16_at(s, o),
        length_enable: s[o + 2] != 0,
        env: env_of(s, o + 3),
        div: s[o + 8],
        width7: s[o + 9] != 0,
        shift: s[o + 10],
        timer: u32_at(s, o + 11) as i32,
        lfsr: u16_at(s, o + 15),
        enabled: s[o + 17] != 0,
        dac_on: s[o + 18] != 0,
    }
}

proof fn lemma_flag_back(b: bool)
    ensures
        (crate::save::flag(b) != 0) == b,
{
}

proof fn lemma_u16_back(s: Seq<u8>, o: int, v: u16)
    requires
        0 <= o,
        o + 2 <= s.len(),
        s[o] == le16(v)[0],
        s[o + 1] == le16(v)[1],
    ensures
        u16_at(s, o) == v,
{
    crate::state::lemma_le16_roundtrip(v);
}

proof fn lemma_i32_back(s: Seq<u8>, o: int, v: i32)
    requires
        0 <= o,
        o + 4 <= s.len(),
        s[o] == le32(v as u32)[0],
        s[o + 1] == le32(v as u32)[1],
        s[o + 2] == le32(v as u32)[2],
        s[o + 3] == le32(v as u32)[3],
    ensures
        u32_at(s, o) as i32 == v,
{
    crate::state::lemma_le32_roundtrip(v as u32);
    assert(u32_at(s, o) == crate::state::from_le32(le32(v as u32)));
    crate::bits::lemma_i32_reinterpret(v);
}

/// A square channel read back from its own bytes is the same channel.
proof fn lemma_square_back(s: Seq<u8>, o: int, c: Square)
    requires
        0 <= o,
        o + 25 <= s.len(),
        s.subrange(o, o + 25) == square_bytes(c),
    ensures
        square_of(s, o) == c,
{
    let b = square_bytes(c);
    assert forall|k: int| 0 <= k < 25 implies s[o + k] == #[trigger] b[k] by {
        assert(s.subrange(o, o + 25)[k] == s[o + k]);
    }
    assert(s[o] == b[0] && s[o + 1] == b[1] && s[o + 2] == b[2]);
    assert(s[o + 3] == b[3] && s[o + 4] == b[4] && s[o + 5] == b[5] && s[o + 6] == b[6]);
    assert(s[o + 8] == b[8] && s[o + 9] == b[9] && s[o + 21] == b[21] && s[o + 22] == b[22]);
    lemma_u16_back(s, o, c.freq);
    lemma_i32_back(s, o + 3, c.timer);
    lemma_u16_back(s, o + 8, c.length);
    lemma_u16_back(s, o + 21, c.sweep_shadow);
    lemma_flag_back(c.length_enable);
    lemma_flag_back(c.env.up);
    lemma_flag_back(c.sweep_down);
    lemma_flag_back(c.sweep_enable);
    lemma_flag_back(c.enabled);
    lemma_flag_back(c.dac_on);
    assert(s[o + 7] == b[7] && s[o + 10] == b[10] && s[o + 11] == b[11] && s[o + 12] == b[12]);
    assert(s[o + 13] == b[13] && s[o + 14] == b[14] && s[o + 15] == b[15] && s[o + 16] == b[16]);
    assert(s[o + 17] == b[17] && s[o + 18] == b[18] && s[o + 19] == b[19] && s[o + 20] == b[20]);
    assert(s[o + 23] == b[23] && s[o + 24] == b[24]);
    assert(env_of(s, o + 11) == c.env);
}

/// The wave channel read back from its own bytes is the same channel.
proof fn lemma_wave_back(s: Seq<u8>, o: int, c: Wave)
    requires
        0 <= o,
        o + 16 <= s.len(),
        s.subrange(o, o + 16) == wave_bytes(c),
    ensures
        wave_of(s, o) == c,
{
    let b = wave_bytes(c);
    assert forall|k: int| 0 <= k < 16 implies s[o + k] == #[trigger] b[k] by {
        assert(s.subrange(o, o + 16)[k] == s[o + k]);
    }
    assert(s[o] == b[0] && s[o + 1] == b[1] && s[o + 2] == b[2] && s[o + 3] == b[3]);
    assert(s[o + 4] == b[4] && s[o + 5] == b[5] && s[o + 6] == b[6] && s[o + 7] == b[7]);
    assert(s[o + 8] == b[8] && s[o + 9] == b[9] && s[o + 10] == b[10] && s[o + 11] == b[11]);
    assert(s[o + 12] == b[12] && s[o + 13] == b[13] && s[o + 14] == b[14] && s[o + 15] == b[15]);
    lemma_u16_back(s, o + 1, c.length);
    lemma_u16_back(s, o + 4, c.freq);
    lemma_i32_back(s, o + 10, c.timer);
    lemma_flag_back(c.dac_on);
    lemma_flag_back(c.length_enable);
    lemma_flag_back(c.force75);
    lemma_flag_back(c.mode64);
    lemma_flag_back(c.enabled);
}

/// The noise channel read back from its own bytes is the same channel.
proof fn lemma_noise_back(s: Seq<u8>, o: int, c: Noise)
    requires
        0 <= o,
        o + 19 <= s.len(),
        s.subrange(o, o + 19) == noise_bytes(c),
    ensures
        noise_of(s, o) == c,
{
    let b = noise_bytes(c);
    assert forall|k: int| 0 <= k < 19 implies s[o + k] == #[trigger] b[k] by {
        assert(s.subrange(o, o + 19)[k] == s[o + k]);
    }
    assert(s[o] == b[0] && s[o + 1] == b[1] && s[o + 2] == b[2] && s[o + 3] == b[3]);
    assert(s[o + 4] == b[4] && s[o + 5] == b[5] && s[o + 6] == b[6] && s[o + 7] == b[7]);
    assert(s[o + 8] == b[8] && s[o + 9] == b[9] && s[o + 10] == b[10] && s[o + 11] == b[11]);
    assert(s[o + 12] == b[12] && s[o + 13] == b[13] && s[o + 14] == b[14] && s[o + 15] == b[15]);
    assert(s[o + 16] == b[16] && s[o + 17] == b[17] && s[o + 18] == b[18]);
    lemma_u16_back(s, o, c.length);
    lemma_i32_back(s, o + 11, c.timer);
    lemma_u16_back(s, o + 15, c.lfsr);
    lemma_flag_back(c.length_enable);
    lemma_flag_back(c.env.up);
    lemma_flag_back(c.width7);
    lemma_flag_back(c.enabled);
    lemma_flag_back(c.dac_on);
    assert(env_of(s, o + 3) == c.env);
}

#[verifier::spinoff_prover]
#[verifier::rlimit(40)]
fn put_square(w: &mut Writer, c: &Square)
    ensures
        final(w).buf@ == old(w).buf@ + square_bytes(*c),
{
    w.u16(c.freq);
    w.u8(c.duty);
    w.i32(c.timer);
    w.u8(c.phase);
    w.u16(c.length);
    w.bool(c.length_enable);
    w.u8(c.env.initial);
    w.bool(c.env.up);
    w.u8(c.env.period);
    w.u8(c.env.vol);
    w.u8(c.env.timer);
    w.u8(c.sweep_period);
    w.bool(c.sweep_down);
    w.u8(c.sweep_shift);
    w.u8(c.sweep_timer);
    w.bool(c.sweep_enable);
    w.u16(c.sweep_shadow);
    w.bool(c.enabled);
    w.bool(c.dac_on);
    assert(w.buf@ =~= old(w).buf@ + square_bytes(*c));
}

#[verifier::spinoff_prover]
#[verifier::rlimit(40)]
fn put_wave(w: &mut Writer, c: &Wave)
    ensures
        final(w).buf@ == old(w).buf@ + wave_bytes(*c),
{
    w.bool(c.dac_on);
    w.u16(c.length);
    w.bool(c.length_enable);
    w.u16(c.freq);
    w.u8(c.volume);
    w.bool(c.force75);
    w.bool(c.mode64);
    w.u8(c.bank);
    w.i32(c.timer);
    w.u8(c.pos);
    w.bool(c.enabled);
    assert(w.buf@ =~= old(w).buf@ + wave_bytes(*c));
}

#[verifier::spinoff_prover]
#[verifier::rlimit(40)]
fn put_noise(w: &mut Writer, c: &Noise)
    ensures
        final(w).buf@ == old(w).buf@ + noise_bytes(*c),
{
    w.u16(c.length);
    w.bool(c.length_enable);
    w.u8(c.env.initial);
    w.bool(c.env.up);
    w.u8(c.env.period);
    w.u8(c.env.vol);
    w.u8(c.env.timer);
    w.u8(c.div);
    w.bool(c.width7);
    w.u8(c.shift);
    w.i32(c.timer);
    w.u16(c.lfsr);
    w.bool(c.enabled);
    w.bool(c.dac_on);
    assert(w.buf@ =~= old(w).buf@ + noise_bytes(*c));
}

fn u16_from(b: &Vec<u8>, o: usize) -> (v: u16)
    requires
        o + 2 <= b@.len(),
        b@.len() <= 85,
    ensures
        v == u16_at(b@, o as int),
{
    (b[o] as u16) | ((b[o + 1] as u16) << 8)
}

fn u32_from(b: &Vec<u8>, o: usize) -> (v: u32)
    requires
        o + 4 <= b@.len(),
        b@.len() <= 85,
    ensures
        v == u32_at(b@, o as int),
{
    (b[o] as u32) | ((b[o + 1] as u32) << 8) | ((b[o + 2] as u32) << 16) | ((b[o + 3] as u32) << 24)
}

fn env_from(b: &Vec<u8>, o: usize) -> (e: Env)
    requires
        o + 5 <= b@.len(),
        b@.len() <= 85,
    ensures
        e == env_of(b@, o as int),
{
    Env { initial: b[o], up: b[o + 1] != 0, period: b[o + 2], vol: b[o + 3], timer: b[o + 4] }
}

fn square_from(b: &Vec<u8>, o: usize) -> (c: Square)
    requires
        o + 25 <= b@.len(),
        b@.len() <= 85,
    ensures
        c == square_of(b@, o as int),
{
    Square {
        freq: u16_from(b, o),
        duty: b[o + 2],
        timer: u32_from(b, o + 3) as i32,
        phase: b[o + 7],
        length: u16_from(b, o + 8),
        length_enable: b[o + 10] != 0,
        env: env_from(b, o + 11),
        sweep_period: b[o + 16],
        sweep_down: b[o + 17] != 0,
        sweep_shift: b[o + 18],
        sweep_timer: b[o + 19],
        sweep_enable: b[o + 20] != 0,
        sweep_shadow: u16_from(b, o + 21),
        enabled: b[o + 23] != 0,
        dac_on: b[o + 24] != 0,
    }
}

fn wave_from(b: &Vec<u8>, o: usize) -> (c: Wave)
    requires
        o + 16 <= b@.len(),
        b@.len() <= 85,
    ensures
        c == wave_of(b@, o as int),
{
    Wave {
        dac_on: b[o] != 0,
        length: u16_from(b, o + 1),
        length_enable: b[o + 3] != 0,
        freq: u16_from(b, o + 4),
        volume: b[o + 6],
        force75: b[o + 7] != 0,
        mode64: b[o + 8] != 0,
        bank: b[o + 9],
        timer: u32_from(b, o + 10) as i32,
        pos: b[o + 14],
        enabled: b[o + 15] != 0,
    }
}

fn noise_from(b: &Vec<u8>, o: usize) -> (c: Noise)
    requires
        o + 19 <= b@.len(),
        b@.len() <= 85,
    ensures
        c == noise_of(b@, o as int),
{
    Noise {
        length: u16_from(b, o),
        length_enable: b[o + 2] != 0,
        env: env_from(b, o + 3),
        div: b[o + 8],
        width7: b[o + 9] != 0,
        shift: b[o + 10],
        timer: u32_from(b, o + 11) as i32,
        lfsr: u16_from(b, o + 15),
        enabled: b[o + 17] != 0,
        dac_on: b[o + 18] != 0,
    }
}

/// Read the next `n` bytes (zeros past a short buffer, which fails the
/// reader).
fn read_raw(r: &mut Reader, n: usize) -> (v: Vec<u8>)
    ensures
        v@.len() == n,
        final(r).buf@ == old(r).buf@,
        old(r).failed ==> final(r).failed,
        n > 0 ==> old(r).ran(*final(r), n as int),
        old(r).has(n as int) ==> {
            &&& v@ == old(r).next_bytes(n as int)
            &&& final(r).pos == old(r).pos + n
            &&& final(r).failed == old(r).failed
        },
{
    let mut v: Vec<u8> = Vec::new();
    let mut i: usize = 0;
    while i < n
        invariant
            i <= n,
            v@.len() == i,
            r.buf@ == old(r).buf@,
            old(r).failed ==> r.failed,
            i > 0 ==> old(r).ran(*r, i as int),
            i == 0 ==> *r == *old(r),
            old(r).has(n as int) ==> {
                &&& r.pos == old(r).pos + i
                &&& r.failed == old(r).failed
                &&& v@ == old(r).buf@.subrange(old(r).pos as int, old(r).pos + i)
            },
        decreases n - i,
    {
        let ghost before = *r;
        let b = r.u8();
        proof {
            crate::state::lemma_ran_intro(before, *r, 1);
            if i > 0 {
                crate::state::lemma_ran_seq(*old(r), before, *r, i as int, 1);
            }
        }
        v.push(b);
        i = i + 1;
        proof {
            if old(r).has(n as int) {
                assert(v@ =~= old(r).buf@.subrange(old(r).pos as int, old(r).pos + i));
            }
        }
    }
    v
}

fn put_fifo(w: &mut Writer, f: &Fifo)
    ensures
        final(w).buf@ == old(w).buf@ + fifo_bytes(*f),
{
    w.u8(f.len as u8);
    w.u8(f.head as u8);
    let ghost mid = w.buf@;
    let mut i: usize = 0;
    while i < 32
        invariant
            i <= 32,
            w.buf@ == mid + Seq::new(i as nat, |k: int| f.buf[k] as u8),
        decreases 32 - i,
    {
        w.u8(f.buf[i] as u8);
        i = i + 1;
        assert(w.buf@ =~= mid + Seq::new(i as nat, |k: int| f.buf[k] as u8));
    }
    assert(w.buf@ =~= old(w).buf@ + fifo_bytes(*f));
}

/// Read a FIFO back; a head or length out of range is folded into it.
fn get_fifo(r: &mut Reader) -> (f: Fifo)
    ensures
        f.wf(),
        final(r).buf@ == old(r).buf@,
        old(r).failed ==> final(r).failed,
        old(r).has(34) ==> {
            let s = old(r).next_bytes(34);
            &&& final(r).pos == old(r).pos + 34
            &&& final(r).failed == old(r).failed
            &&& f.len == if s[0] <= 32 { s[0] as usize } else { 32 }
            &&& f.head == (s[1] as usize) % 32
            &&& forall|i: int| 0 <= i < 32 ==> #[trigger] f.buf[i] == s[2 + i] as i8
        },
        !old(r).has(34) ==> final(r).failed,
        old(r).ran(*final(r), 34),
{
    let l = r.u8() as usize;
    let h = r.u8() as usize;
    let mut buf: [i8; 32] = [0; 32];
    let mut i: usize = 0;
    while i < 32
        invariant
            i <= 32,
            r.buf@ == old(r).buf@,
            old(r).failed ==> r.failed,
            r.failed || (r.pos == old(r).pos + 2 + i && r.pos <= r.buf@.len()),
            old(r).has(34) ==> {
                &&& r.pos == old(r).pos + 2 + i
                &&& r.failed == old(r).failed
                &&& forall|k: int| 0 <= k < i ==> #[trigger] buf[k] == old(r).buf@[old(r).pos + 2 + k] as i8
            },
        decreases 32 - i,
    {
        let b = r.u8();
        buf[i] = b as i8;
        i = i + 1;
    }
    proof {
        crate::state::lemma_ran_intro(*old(r), *r, 34);
    }
    Fifo { buf, head: h % 32, len: if l <= 32 { l } else { 32 } }
}

/// The bytes a sound unit's image at `p` of `buf` takes: its register and
/// wave blocks as long as their length fields say, then the fixed rest.
pub open spec fn apu_need(buf: Seq<u8>, p: int) -> int {
    let a1 = block_need(buf, p);
    let a2 = block_need(buf, p + a1);
    a1 + a2 + 217
}

/// The image of a sound unit is always the same length.
#[verifier::spinoff_prover]
pub proof fn lemma_apu_image_len(a: Apu)
    ensures
        a.state_bytes().len() == APU_STATE_LEN,
{
    reveal(Apu::state_bytes);
    assert(square_bytes(a.ch1).len() == 25);
    assert(square_bytes(a.ch2).len() == 25);
    assert(wave_bytes(a.ch3).len() == 16);
    assert(noise_bytes(a.ch4).len() == 19);
    assert(a.channel_bytes().len() == 85);
    assert(a.memory_bytes().len() == 112);
    assert(a.clock_bytes().len() == 32);
    assert(a.filter_bytes().len() == 32);
    assert(fifo_bytes(a.fifo_a).len() == 34);
    assert(fifo_bytes(a.fifo_b).len() == 34);
}

/// A FIFO read back from its own image is the same FIFO.
proof fn lemma_fifo_roundtrip(f: Fifo, g: Fifo)
    requires
        f.wf(),
        g.len == if fifo_bytes(f)[0] <= 32 { fifo_bytes(f)[0] as usize } else { 32 },
        g.head == (fifo_bytes(f)[1] as usize) % 32,
        forall|i: int| 0 <= i < 32 ==> #[trigger] g.buf[i] == fifo_bytes(f)[2 + i] as i8,
    ensures
        g == f,
{
    assert forall|i: int| 0 <= i < 32 implies #[trigger] g.buf[i] == f.buf[i] by {
        let x = f.buf[i];
        assert(fifo_bytes(f)[2 + i] == x as u8);
        crate::bits::lemma_i8_reinterpret(x);
    }
    assert(g.buf =~= f.buf);
}

impl Apu {
    /// Read back the sequencer, clocks, schedules and Direct Sound latches.
    fn read_clocks(&mut self, r: &mut Reader)
        ensures
            final(r).buf@ == old(r).buf@,
            old(r).failed ==> final(r).failed,
            *final(self) == (Apu {
                master_enable: final(self).master_enable,
                fs_cycle: final(self).fs_cycle,
                fs_step: final(self).fs_step,
                cycle: final(self).cycle,
                a_next: final(self).a_next,
                b_next: final(self).b_next,
                ds_a: final(self).ds_a,
                ds_b: final(self).ds_b,
                ..*old(self)
            }),
            old(r).ran(*final(r), 32),
            old(r).has(32) ==> final(r).pos == old(r).pos + 32 && final(r).failed == old(r).failed,
            forall|q: Apu|
                old(r).has(32) && old(r).next_bytes(32) == #[trigger] q.clock_bytes() ==> {
                    &&& final(self).master_enable == q.master_enable
                    &&& final(self).fs_cycle == q.fs_cycle && final(self).fs_step == q.fs_step
                    &&& final(self).cycle == q.cycle && final(self).a_next == q.a_next && final(self).b_next
                        == q.b_next
                    &&& final(self).ds_a == q.ds_a && final(self).ds_b == q.ds_b
                },
    {
        let ghost r0 = *r;
        self.master_enable = r.bool();
        let ghost r1 = *r;
        self.fs_cycle = r.u32();
        let ghost r2 = *r;
        self.fs_step = r.u8();
        let ghost r3 = *r;
        self.cycle = r.u64();
        let ghost r4 = *r;
        self.a_next = r.u64();
        let ghost r5 = *r;
        self.b_next = r.u64();
        let ghost r6 = *r;
        self.ds_a = r.u8() as i8;
        let ghost r7 = *r;
        self.ds_b = r.u8() as i8;
        proof {
            crate::state::lemma_ran_intro(*old(r), *r, 32);
            assert forall|q: Apu|
                old(r).has(32) && old(r).next_bytes(32) == #[trigger] q.clock_bytes() implies {
                &&& self.master_enable == q.master_enable
                &&& self.fs_cycle == q.fs_cycle && self.fs_step == q.fs_step
                &&& self.cycle == q.cycle && self.a_next == q.a_next && self.b_next == q.b_next
                &&& self.ds_a == q.ds_a && self.ds_b == q.ds_b
            } by {
                let c = q.clock_bytes();
                let p = r0.pos as int;
                assert(r0.buf@.subrange(p, p + 32) == c);
                crate::state::lemma_le32_roundtrip(q.fs_cycle);
                crate::state::lemma_le64_roundtrip(q.cycle);
                crate::state::lemma_le64_roundtrip(q.a_next);
                crate::state::lemma_le64_roundtrip(q.b_next);
                assert(r0.buf@[p] == c[0]);
                assert(r1.next_bytes(4) =~= c.subrange(1, 5));
                assert(c.subrange(1, 5) =~= le32(q.fs_cycle));
                assert(r2.buf@[p + 5] == c[5]);
                assert(r3.next_bytes(8) =~= c.subrange(6, 14));
                assert(c.subrange(6, 14) =~= le64(q.cycle));
                assert(r4.next_bytes(8) =~= c.subrange(14, 22));
                assert(c.subrange(14, 22) =~= le64(q.a_next));
                assert(r5.next_bytes(8) =~= c.subrange(22, 30));
                assert(c.subrange(22, 30) =~= le64(q.b_next));
                assert(r6.buf@[p + 30] == c[30]);
                assert(r7.buf@[p + 31] == c[31]);
                let x = q.ds_a;
                let y = q.ds_b;
                crate::bits::lemma_i8_reinterpret(x);
                crate::bits::lemma_i8_reinterpret(y);
            }
        }
    }

    /// Read back the output filter state.
    fn read_filters(&mut self, r: &mut Reader)
        ensures
            final(r).buf@ == old(r).buf@,
            old(r).failed ==> final(r).failed,
            *final(self) == (Apu {
                hp_xl: final(self).hp_xl,
                hp_yl: final(self).hp_yl,
                hp_xr: final(self).hp_xr,
                hp_yr: final(self).hp_yr,
                ma_l: final(self).ma_l,
                ma_r: final(self).ma_r,
                ..*old(self)
            }),
            old(r).ran(*final(r), 32),
            old(r).has(32) ==> final(r).pos == old(r).pos + 32 && final(r).failed == old(r).failed,
            forall|q: Apu|
                old(r).has(32) && old(r).next_bytes(32) == #[trigger] q.filter_bytes() ==> {
                    &&& final(self).hp_xl == q.hp_xl && final(self).hp_yl == q.hp_yl
                    &&& final(self).hp_xr == q.hp_xr && final(self).hp_yr == q.hp_yr
                    &&& final(self).ma_l == q.ma_l && final(self).ma_r == q.ma_r
                },
    {
        let ghost r0 = *r;
        self.hp_xl = r.i32();
        let ghost r1 = *r;
        self.hp_yl = r.u64() as i64;
        let ghost r2 = *r;
        self.hp_xr = r.i32();
        let ghost r3 = *r;
        self.hp_yr = r.u64() as i64;
        let ghost r4 = *r;
        self.ma_l = r.i32();
        let ghost r5 = *r;
        self.ma_r = r.i32();
        proof {
            crate::state::lemma_ran_intro(*old(r), *r, 32);
            assert forall|q: Apu|
                old(r).has(32) && old(r).next_bytes(32) == #[trigger] q.filter_bytes() implies {
                &&& self.hp_xl == q.hp_xl && self.hp_yl == q.hp_yl
                &&& self.hp_xr == q.hp_xr && self.hp_yr == q.hp_yr
                &&& self.ma_l == q.ma_l && self.ma_r == q.ma_r
            } by {
                let c = q.filter_bytes();
                let p = r0.pos as int;
                assert(r0.buf@.subrange(p, p + 32) == c);
                crate::state::lemma_le32_roundtrip(q.hp_xl as u32);
                crate::state::lemma_le64_roundtrip(q.hp_yl as u64);
                crate::state::lemma_le32_roundtrip(q.hp_xr as u32);
                crate::state::lemma_le64_roundtrip(q.hp_yr as u64);
                crate::state::lemma_le32_roundtrip(q.ma_l as u32);
                crate::state::lemma_le32_roundtrip(q.ma_r as u32);
                assert(r0.next_bytes(4) =~= c.subrange(0, 4));
                assert(c.subrange(0, 4) =~= le32(q.hp_xl as u32));
                assert(r1.next_bytes(8) =~= c.subrange(4, 12));
                assert(c.subrange(4, 12) =~= le64(q.hp_yl as u64));
                assert(r2.next_bytes(4) =~= c.subrange(12, 16));
                assert(c.subrange(12, 16) =~= le32(q.hp_xr as u32));
                assert(r3.next_bytes(8) =~= c.subrange(16, 24));
                assert(c.subrange(16, 24) =~= le64(q.hp_yr as u64));
                assert(r4.next_bytes(4) =~= c.subrange(24, 28));
                assert(c.subrange(24, 28) =~= le32(q.ma_l as u32));
                assert(r5.next_bytes(4) =~= c.subrange(28, 32));
                assert(c.subrange(28, 32) =~= le32(q.ma_r as u32));
                let a0 = q.hp_xl;
                let a1 = q.hp_yl;
                let a2 = q.hp_xr;
                let a3 = q.hp_yr;
                let a4 = q.ma_l;
                let a5 = q.ma_r;
                crate::bits::lemma_i32_reinterpret(a0);
                crate::bits::lemma_i64_reinterpret(a1);
                crate::bits::lemma_i32_reinterpret(a2);
                crate::bits::lemma_i64_reinterpret(a3);
                crate::bits::lemma_i32_reinterpret(a4);
                crate::bits::lemma_i32_reinterpret(a5);
            }
        }
    }

    /// Read the sound unit back from a save-state image. When the reader
    /// holds the image of a sound unit, all of that unit's state comes back
    /// (this unit's pending output stays).
    #[verifier::spinoff_prover]
    #[verifier::rlimit(80)]
    pub fn deserialize(&mut self, r: &mut Reader)
        requires
            old(self).wf(),
        ensures
            final(self).wf(),
            final(r).buf@ == old(r).buf@,
            final(self).out@ == old(self).out@,
            old(r).ran(*final(r), apu_need(old(r).buf@, old(r).pos as int)),
            forall|q: Apu|
                q.wf() && old(r).pos + APU_STATE_LEN <= old(r).buf@.len() && old(r).buf@.subrange(
                    old(r).pos as int,
                    old(r).pos + APU_STATE_LEN,
                ) == #[trigger] q.state_bytes() ==> {
                    &&& final(self).restored_from(&q)
                    &&& *final(self) == old(self).loaded(q)
                    &&& final(r).pos == old(r).pos + APU_STATE_LEN
                    &&& final(r).failed == old(r).failed
                },
    {
        let ghost p = old(r).pos as int;
        let mut reg = [0u8; 72];
        r.bytes_into(&mut reg);
        let ghost r1 = *r;
        let mut wr = [0u8; 32];
        r.bytes_into(&mut wr);
        let ghost r2 = *r;
        self.read_clocks(r);
        let ghost r3 = *r;
        self.read_filters(r);
        let ghost r4 = *r;
        self.fifo_a = get_fifo(r);
        let ghost r5 = *r;
        self.fifo_b = get_fifo(r);
        let ghost r6 = *r;
        self.reg = reg;
        self.wave_ram = wr;
        let cb = read_raw(r, 85);
        self.ch1 = square_from(&cb, 0);
        self.ch2 = square_from(&cb, 25);
        self.ch3 = wave_from(&cb, 50);
        self.ch4 = noise_from(&cb, 66);
        proof {
            assert(old(r).ran(*r, apu_need(old(r).buf@, p))) by {
                let a1 = block_need(old(r).buf@, p);
                let a2 = block_need(old(r).buf@, p + a1);
                crate::state::lemma_ran_seq(*old(r), r1, r2, a1, a2);
                crate::state::lemma_ran_seq(*old(r), r2, r3, a1 + a2, 32);
                crate::state::lemma_ran_seq(*old(r), r3, r4, a1 + a2 + 32, 32);
                crate::state::lemma_ran_seq(*old(r), r4, r5, a1 + a2 + 64, 34);
                crate::state::lemma_ran_seq(*old(r), r5, r6, a1 + a2 + 98, 34);
                crate::state::lemma_ran_seq(*old(r), r6, *r, a1 + a2 + 132, 85);
            }
            assert forall|q: Apu|
                q.wf() && p + APU_STATE_LEN <= old(r).buf@.len() && old(r).buf@.subrange(p, p + APU_STATE_LEN)
                    == #[trigger] q.state_bytes() implies {
                &&& self.restored_from(&q)
                &&& r.pos == p + APU_STATE_LEN
                &&& r.failed == old(r).failed
                &&& *self == old(self).loaded(q)
            } by {
                reveal(Apu::state_bytes);
                let img = q.state_bytes();
                let buf = old(r).buf@;
                assert(img.subrange(0, 112) =~= q.memory_bytes());
                assert(img.subrange(112, 144) =~= q.clock_bytes());
                assert(img.subrange(144, 176) =~= q.filter_bytes());
                assert(img.subrange(176, 210) =~= fifo_bytes(q.fifo_a));
                assert(img.subrange(210, 244) =~= fifo_bytes(q.fifo_b));
                assert(img.subrange(244, 329) =~= q.channel_bytes());
                let m = q.memory_bytes();
                crate::state::lemma_le32_roundtrip(72);
                crate::state::lemma_le32_roundtrip(32);
                assert(old(r).next_bytes(4) =~= m.subrange(0, 4));
                assert(m.subrange(0, 4) =~= le32(72u32));
                assert(buf.subrange(p, p + 329) == img);
                assert(buf.subrange(p + 4, p + 76) =~= img.subrange(4, 76));
                assert(img.subrange(4, 76) =~= m.subrange(4, 76));
                assert(m.subrange(4, 76) =~= q.reg@);
                assert(reg@ =~= q.reg@);
                assert(r1.next_bytes(4) =~= m.subrange(76, 80));
                assert(m.subrange(76, 80) =~= le32(32u32));
                assert(buf.subrange(p + 80, p + 112) =~= img.subrange(80, 112));
                assert(img.subrange(80, 112) =~= m.subrange(80, 112));
                assert(m.subrange(80, 112) =~= q.wave_ram@);
                assert(wr@ =~= q.wave_ram@);
                assert(r2.pos == p + 112);
                assert(r2.next_bytes(32) =~= q.clock_bytes());
                assert(r3.next_bytes(32) =~= q.filter_bytes());
                assert(r4.next_bytes(34) =~= fifo_bytes(q.fifo_a));
                lemma_fifo_roundtrip(q.fifo_a, self.fifo_a);
                assert(r5.next_bytes(34) =~= fifo_bytes(q.fifo_b));
                lemma_fifo_roundtrip(q.fifo_b, self.fifo_b);
                assert(r6.next_bytes(85) =~= q.channel_bytes());
                let c = q.channel_bytes();
                assert(cb@ == c);
                assert(c.subrange(0, 25) =~= square_bytes(q.ch1));
                assert(c.subrange(25, 50) =~= square_bytes(q.ch2));
                assert(c.subrange(50, 66) =~= wave_bytes(q.ch3));
                assert(c.subrange(66, 85) =~= noise_bytes(q.ch4));
                lemma_square_back(cb@, 0, q.ch1);
                lemma_square_back(cb@, 25, q.ch2);
                lemma_wave_back(cb@, 50, q.ch3);
                lemma_noise_back(cb@, 66, q.ch4);
                assert(reg =~= q.reg);
                assert(wr =~= q.wave_ram);
                assert(self.reg == q.reg);
                assert(self.wave_ram == q.wave_ram);
            }
        }
    }
}

} // verus!
