//! A Game Boy Advance emulator core: the ARM7TDMI CPU, the system bus with its
//! memory map, timers, DMA and interrupt controller, the LCD controller, the
//! sound unit, cartridge backup memory and machine save-states.
//!
//! The CPU ([`cpu::Arm7tdmi`]) only ever talks to a [`bus::Bus`]. [`GbaBus`]
//! is the real system bus; [`Gba`] wires the two together and runs frames.

pub mod apu;
pub mod bits;
pub mod bus;
pub mod cart;
pub mod cpu;
pub mod frontend;
pub mod harte;
pub mod memory;
pub mod output;
pub mod ppu;
pub mod save;
pub mod state;

pub use memory::GbaBus;
pub use ppu::{Ppu, SCREEN_H, SCREEN_W, TOTAL_LINES};

use vstd::prelude::*;
use crate::bus::{Bus, BusEvent, extends};
use crate::cpu::Arm7tdmi;
use crate::state::{Reader, Writer, le32, from_le32, MAGIC, VERSION};

verus! {

broadcast use crate::bus::group_extends;

/// The GBA buttons, in KEYINPUT bit order.
#[derive(Clone, Copy, Debug, PartialEq, Eq, Structural)]
pub enum Button {
    A,
    B,
    Select,
    Start,
    Right,
    Left,
    Up,
    Down,
    R,
    L,
}

impl Button {
    /// The button's KEYINPUT bit number.
    pub open spec fn index(self) -> u16 {
        match self {
            Button::A => 0,
            Button::B => 1,
            Button::Select => 2,
            Button::Start => 3,
            Button::Right => 4,
            Button::Left => 5,
            Button::Up => 6,
            Button::Down => 7,
            Button::R => 8,
            Button::L => 9,
        }
    }

    /// The button's KEYINPUT mask.
    pub fn bit(self) -> (b: u16)
        ensures
            b == 1u16 << self.index(),
    {
        let i: u16 = match self {
            Button::A => 0,
            Button::B => 1,
            Button::Select => 2,
            Button::Start => 3,
            Button::Right => 4,
            Button::Left => 5,
            Button::Up => 6,
            Button::Down => 7,
            Button::R => 8,
            Button::L => 9,
        };
        1u16 << i
    }
}

/// A whole console: the CPU and the system bus it drives.
pub struct Gba {
    pub cpu: Arm7tdmi,
    pub bus: GbaBus,
    /// How many interrupts the CPU has taken since boot.
    pub irqs_taken: u64,
    /// CPU instructions executed since boot.
    pub steps: u64,
    /// Cycles the CPU spent halted, waiting for an interrupt: the headroom
    /// the game left in its frames.
    pub halt_cycles: u64,
    /// When false, scanline rendering is skipped.
    pub render_enabled: bool,
    /// A fixed-rate audio clock: one scanline's worth of cycles per line,
    /// independent of the bus clock (which DMA inflates), so Direct Sound is
    /// paced evenly.
    pub audio_clock: u64,
}

/// The bus clock at which the phase of a line that starts at `start` ends:
/// the visible part (H-draw) first, then the whole line.
pub open spec fn phase_end(start: u64, phase: u32) -> u64 {
    start.saturating_add(if phase == 0 { crate::ppu::HDRAW_CYCLES as u64 } else { crate::ppu::CYCLES_PER_LINE as u64 })
}

impl Gba {
    /// The audio sample rate reported to the front-end.
    pub const SAMPLE_RATE: u32 = 32_768;

    pub open spec fn wf(&self) -> bool {
        self.bus.wf()
    }

    /// The CPU as a boot leaves it before its first fetch: with `full`, at
    /// the BIOS reset vector in Supervisor mode with IRQ and FIQ masked;
    /// otherwise in System mode at the cartridge entry with the standard
    /// stacks, and with SWIs answered by the core itself when `hle`.
    pub open spec fn booted(c: Arm7tdmi, full: bool, hle: bool) -> bool {
        if full {
            &&& c.loaded_full(0xD3, [0u32, 0, 0, 0, 0, 0, 0, 0, 0, 0, 0, 0, 0, 0, 0, 0], [0u32, 0, 0, 0, 0, 0, 0], [0u32, 0], [0u32, 0], [0u32, 0], [0u32, 0], [0u32, 0, 0, 0, 0])
            &&& !c.hle_bios
        } else {
            &&& c.loaded_full(
                0x1F,
                [0u32, 0, 0, 0, 0, 0, 0, 0, 0, 0, 0, 0, 0, 0x0300_7F00, 0, 0x0800_0000],
                [0u32, 0, 0, 0, 0, 0, 0],
                [0x0300_7FE0u32, 0],
                [0u32, 0],
                [0x0300_7FA0u32, 0],
                [0u32, 0],
                [0u32, 0, 0, 0, 0],
            )
            &&& c.hle_bios == hle
        }
    }

    /// A console at power-on with no BIOS boot animation; see [`Gba::boot`].
    pub fn new(rom: Vec<u8>, bios: Vec<u8>) -> (g: Gba)
        ensures
            g.wf(),
            exists|c: Arm7tdmi|
                Gba::booted(c, false, bios@.len() == 0) && #[trigger] c.refilled(
                    g.cpu,
                    Seq::<BusEvent>::empty(),
                    g.bus.log@,
                ),
            g.irqs_taken == 0 && g.steps == 0 && g.halt_cycles == 0 && g.audio_clock == 0,
            g.render_enabled,
            Gba::started(g, rom@, bios@),
    {
        Gba::boot(rom, bios, false)
    }

    /// A console as `new` starts it for `rom` and `bios`: the CPU booted and
    /// its pipeline filled, through the bus, from a bus as `GbaBus::new`
    /// makes it; nothing counted yet; rendering on.
    pub open spec fn started(g: Gba, rom: Seq<u8>, bios: Seq<u8>) -> bool {
        &&& g.wf()
        &&& exists|c: Arm7tdmi|
            Gba::booted(c, false, bios.len() == 0) && #[trigger] c.refilled(g.cpu, Seq::<BusEvent>::empty(), g.bus.log@)
        &&& exists|b0: GbaBus| #[trigger] b0.fresh(rom, bios) && crate::memory::served(b0, g.bus, g.bus.log@)
        &&& g.irqs_taken == 0 && g.steps == 0 && g.halt_cycles == 0 && g.audio_clock == 0
        &&& g.render_enabled
    }

    /// A console with a cartridge ROM and an optional BIOS image. With no
    /// BIOS the CPU starts directly in the cartridge and the core answers
    /// SWIs itself. With a BIOS it still starts in the cartridge (skipping
    /// the boot animation) and the BIOS answers SWIs, unless `full_boot`
    /// asks for the whole BIOS boot from the reset vector.
    pub fn boot(rom: Vec<u8>, bios: Vec<u8>, full_boot: bool) -> (g: Gba)
        ensures
            g.wf(),
            exists|c: Arm7tdmi|
                Gba::booted(c, full_boot && bios@.len() != 0, bios@.len() == 0) && #[trigger] c.refilled(
                    g.cpu,
                    Seq::<BusEvent>::empty(),
                    g.bus.log@,
                ),
            g.irqs_taken == 0 && g.steps == 0 && g.halt_cycles == 0 && g.audio_clock == 0,
            g.render_enabled,
            exists|b0: GbaBus| #[trigger] b0.fresh(rom@, bios@) && crate::memory::served(b0, g.bus, g.bus.log@),
    {
        let has_bios = bios.len() != 0;
        let ghost rom0 = rom@;
        let ghost bios0 = bios@;
        let mut bus = GbaBus::new(rom, bios);
        let ghost b0 = bus;
        let mut cpu = Arm7tdmi::new();
        let zero16: [u32; 16] = [0; 16];
        let zero7: [u32; 7] = [0; 7];
        let zero2: [u32; 2] = [0; 2];
        let zero5: [u32; 5] = [0; 5];
        proof {
            assert(zero16 =~= [0u32, 0, 0, 0, 0, 0, 0, 0, 0, 0, 0, 0, 0, 0, 0, 0]);
            assert(zero7 =~= [0u32, 0, 0, 0, 0, 0, 0]);
            assert(zero2 =~= [0u32, 0]);
            assert(zero5 =~= [0u32, 0, 0, 0, 0]);
        }
        if has_bios && full_boot {
            cpu.load_full(0xD3, zero16, zero7, zero2, zero2, zero2, zero2, zero5);
        } else {
            let mut r = zero16;
            r[13] = 0x0300_7F00;
            r[15] = 0x0800_0000;
            let svc = [0x0300_7FE0, 0];
            let irq = [0x0300_7FA0, 0];
            if !has_bios {
                cpu.hle_bios = true;
            }
            cpu.load_full(0x1F, r, zero7, svc, zero2, irq, zero2, zero5);
            proof {
                assert(r =~= [0u32, 0, 0, 0, 0, 0, 0, 0, 0, 0, 0, 0, 0, 0x0300_7F00u32, 0, 0x0800_0000]);
            }
        }
        let ghost loaded = cpu;
        assert(Gba::booted(loaded, full_boot && has_bios, !has_bios));
        let ghost log0 = bus.log@;
        cpu.reload_pipeline(&mut bus);
        assert(log0 =~= Seq::<BusEvent>::empty());
        assert(loaded.refilled(cpu, Seq::<BusEvent>::empty(), bus.log@));
        proof {
            assert(bus.marked() == b0.marked());
            assert(bus.log@.skip(0) =~= bus.log@);
            assert(b0.fresh(rom0, bios0) && crate::memory::served(b0, bus, bus.log@));
        }
        let g = Gba { cpu, bus, irqs_taken: 0, steps: 0, halt_cycles: 0, render_enabled: true, audio_clock: 0 };
        assert(Gba::booted(loaded, full_boot && has_bios, !has_bios) && loaded.refilled(
            g.cpu,
            Seq::<BusEvent>::empty(),
            g.bus.log@,
        ));
        g
    }

    /// Drain the interleaved-stereo samples produced since the last call.
    pub fn take_audio(&mut self) -> (v: Vec<i16>)
        ensures
            v@ == old(self).bus.apu.out@,
            final(self).bus.apu.out@ == Seq::<i16>::empty(),
            final(self).wf() == old(self).wf(),
            *final(self) == (Gba {
                bus: GbaBus { apu: crate::apu::Apu { out: final(self).bus.apu.out, ..old(self).bus.apu }, ..old(self).bus },
                ..*old(self)
            }),
    {
        self.bus.apu.take_output()
    }

    /// Press or release a button (KEYINPUT is active-low).
    pub fn set_button(&mut self, button: Button, pressed: bool)
        ensures
            final(self).bus.keyinput == if pressed {
                old(self).bus.keyinput & !(1u16 << button.index())
            } else {
                old(self).bus.keyinput | (1u16 << button.index())
            },
            *final(self) == (Gba { bus: GbaBus { keyinput: final(self).bus.keyinput, ..old(self).bus }, ..*old(self) }),
    {
        let bit = button.bit();
        if pressed {
            self.bus.keyinput = self.bus.keyinput & !bit;
        } else {
            self.bus.keyinput = self.bus.keyinput | bit;
        }
    }
}

/// `x` cut to the `u64` range.
pub open spec fn saturate(x: int) -> u64 {
    if x > u64::MAX { u64::MAX } else { x as u64 }
}

/// The CPU takes the IRQ exception at an instruction boundary: an enabled
/// interrupt is requested with IME on, and the CPU's I bit is clear.
pub open spec fn irq_due(g: Gba) -> bool {
    g.bus.ime & 1 != 0 && g.bus.ie & g.bus.if_ != 0 && g.cpu.cpsr & 0x80 == 0
}

/// `b` is `a` after the CPU takes the IRQ exception (refilling its pipeline
/// from the vector through the bus): a halted CPU wakes, and one more
/// interrupt is counted.
pub open spec fn irq_taken(a: Gba, b: Gba) -> bool {
    exists|m: GbaBus|
        #![trigger crate::memory::bus_served(a.bus, m)]
        {
            &&& a.cpu.took_irq(b.cpu, a.bus.log@, m.log@)
            &&& crate::memory::bus_served(a.bus, m)
            &&& b == (Gba {
                cpu: b.cpu,
                bus: GbaBus { halted: false, ..m },
                irqs_taken: a.irqs_taken.saturating_add(1),
                ..a
            })
        }
}

/// The start of a pass of the run loop: the IRQ taken when it is due.
pub open spec fn irq_phase(a: Gba, a1: Gba) -> bool {
    if irq_due(a) {
        irq_taken(a, a1)
    } else {
        a1 == a
    }
}

/// A halted CPU with an enabled interrupt requested wakes.
pub open spec fn woken(g: Gba) -> Gba {
    if g.bus.halted && g.bus.ie & g.bus.if_ != 0 {
        Gba { bus: GbaBus { halted: false, ..g.bus }, ..g }
    } else {
        g
    }
}

/// A halted CPU skips straight to `target`, the cycles counted as halted.
pub open spec fn halt_skipped(g: Gba, target: u64) -> Gba {
    Gba {
        halt_cycles: g.halt_cycles.saturating_add((target - g.bus.cycles) as u64),
        bus: GbaBus { cycles: target, ..g.bus },
        ..g
    }
}

/// `b` is `a` after the CPU runs one instruction, the bus serving its
/// requests.
pub open spec fn instruction_run(a: Gba, b: Gba) -> bool {
    &&& a.cpu.stepped(b.cpu, a.bus.log@, b.bus.log@)
    &&& crate::memory::bus_served(a.bus, b.bus)
    &&& b == (Gba { cpu: b.cpu, bus: b.bus, steps: a.steps.saturating_add(1), ..a })
}

/// One pass of the loop that runs the CPU toward `target`: a due IRQ is
/// taken, a halted CPU with an interrupt requested wakes, then a halted CPU
/// skips to `target` and a running one runs an instruction.
pub open spec fn run_pass(a: Gba, b: Gba, target: u64) -> bool {
    exists|a1: Gba|
        #![trigger irq_phase(a, a1)]
        {
            &&& irq_phase(a, a1)
            &&& if woken(a1).bus.halted {
                b == halt_skipped(woken(a1), target)
            } else {
                instruction_run(woken(a1), b)
            }
        }
}

/// Pass `i` of `s`, begun below `target`, leads to the next state.
pub open spec fn pass_at(s: Seq<Gba>, i: int, target: u64) -> bool {
    s[i].bus.cycles < target && run_pass(s[i], s[i + 1], target)
}

/// `s` runs the machine from `a` to `b` by passes toward `target`, each
/// begun below `target`, ending at or past it.
pub open spec fn run_trace(a: Gba, b: Gba, target: u64, s: Seq<Gba>) -> bool {
    &&& s.len() >= 1
    &&& s[0] == a
    &&& s[s.len() - 1] == b
    &&& b.bus.cycles >= target
    &&& forall|i: int| 0 <= i < s.len() - 1 ==> #[trigger] pass_at(s, i, target)
}

/// `b` is `a` after the CPU runs until the bus clock reaches `target`.
pub open spec fn ran_until(a: Gba, b: Gba, target: u64) -> bool {
    exists|s: Seq<Gba>| #[trigger] run_trace(a, b, target, s)
}

/// `s` takes the machine through scanline `line` from `a` to `b`: the PPU
/// enters the line, the LCD interrupts are raised, the timers advance,
/// V-blank (line 160) and H-blank (visible lines) DMA run; the CPU runs
/// through H-draw, H-blank is flagged and the CPU runs to the end of the
/// line; a visible line is rendered when rendering is on; the audio clock
/// moves one line on, the sound unit generates up to it, paced by the
/// timers, and the sound FIFOs are topped up.
pub open spec fn line_trace(a: Gba, b: Gba, line: int, s: Seq<Gba>) -> bool {
    &&& s.len() == 13
    &&& s[0] == a
    &&& s[12] == b
    &&& a.bus.ppu.line_begun(s[1].bus.ppu, line as u32)
    &&& s[1] == (Gba { bus: GbaBus { ppu: s[1].bus.ppu, ..a.bus }, ..a })
    &&& s[1].bus.lcd_irqs_raised(s[2].bus, line as u16)
    &&& s[2] == (Gba { bus: s[2].bus, ..s[1] })
    &&& s[2].bus.timers_advanced(s[3].bus)
    &&& s[3] == (Gba { bus: s[3].bus, ..s[2] })
    &&& if line == 160 {
        &&& s[3].bus.dma_timing_ran(&s[4].bus, 1)
        &&& s[4] == (Gba { bus: s[4].bus, ..s[3] })
    } else {
        s[4] == s[3]
    }
    &&& if line < 160 {
        &&& s[4].bus.dma_timing_ran(&s[5].bus, 2)
        &&& s[5] == (Gba { bus: s[5].bus, ..s[4] })
    } else {
        s[5] == s[4]
    }
    &&& ran_until(s[5], s[6], phase_end(s[5].bus.cycles, 0))
    &&& s[6].bus.ppu.hblank_entered(s[7].bus.ppu)
    &&& s[7] == (Gba { bus: GbaBus { ppu: s[7].bus.ppu, ..s[6].bus }, ..s[6] })
    &&& ran_until(s[7], s[8], phase_end(s[5].bus.cycles, 1))
    &&& if line < 160 && s[8].render_enabled {
        &&& s[8].bus.ppu.line_rendered(s[9].bus.ppu, line)
        &&& s[9] == (Gba { bus: GbaBus { ppu: s[9].bus.ppu, ..s[8].bus }, ..s[8] })
    } else {
        s[9] == s[8]
    }
    &&& s[10] == (Gba { audio_clock: s[9].audio_clock.saturating_add(crate::ppu::CYCLES_PER_LINE as u64), ..s[9] })
    &&& s[10].bus.apu.generated(s[11].bus.apu, s[10].bus.ds_periods(), s[10].audio_clock)
    &&& s[11] == (Gba { bus: GbaBus { apu: s[11].bus.apu, ..s[10].bus }, ..s[10] })
    &&& s[11].bus.fifos_refilled(&s[12].bus)
    &&& s[12] == (Gba { bus: s[12].bus, ..s[11] })
}

/// `b` is `a` after scanline `line`.
pub open spec fn line_ran(a: Gba, b: Gba, line: int) -> bool {
    exists|s: Seq<Gba>| #[trigger] line_trace(a, b, line, s)
}

/// `s` takes the machine from `a` to `b` through the 228 scanlines of a
/// frame, in order.
pub open spec fn frame_trace(a: Gba, b: Gba, s: Seq<Gba>) -> bool {
    &&& s.len() == TOTAL_LINES + 1
    &&& s[0] == a
    &&& s[TOTAL_LINES as int] == b
    &&& forall|l: int| 0 <= l < TOTAL_LINES ==> #[trigger] line_at(s, l)
}

/// Scanline `l` of `s` leads to the next state.
pub open spec fn line_at(s: Seq<Gba>, l: int) -> bool {
    line_ran(s[l], s[l + 1], l)
}

/// `b` is `a` after one frame.
pub open spec fn frame_ran(a: Gba, b: Gba) -> bool {
    exists|s: Seq<Gba>| #[trigger] frame_trace(a, b, s)
}

/// A run trace extended by one more pass is a run trace.
proof fn lemma_run_push(s: Seq<Gba>, next: Gba, target: u64)
    requires
        s.len() >= 1,
        s[s.len() - 1].bus.cycles < target,
        run_pass(s[s.len() - 1], next, target),
        forall|i: int| 0 <= i < s.len() - 1 ==> #[trigger] pass_at(s, i, target),
    ensures
        forall|i: int| 0 <= i < s.push(next).len() - 1 ==> #[trigger] pass_at(s.push(next), i, target),
{
    let t = s.push(next);
    assert forall|i: int| 0 <= i < t.len() - 1 implies #[trigger] pass_at(t, i, target) by {
        if i < s.len() - 1 {
            assert(pass_at(s, i, target));
            assert(t[i] == s[i] && t[i + 1] == s[i + 1]);
        } else {
            assert(t[i] == s[s.len() - 1] && t[i + 1] == next);
        }
    }
}

/// A bus marked and then run: `f` is `p` after serving the requests
/// logged since `p` was marked into `q`.
proof fn lemma_served_since_mark(p: GbaBus, q: GbaBus, f: GbaBus)
    requires
        q == (GbaBus { mark: Ghost(seq![p]), mark_at: Ghost(p.log@.len()), ..p }),
        f.inv(),
        f.setup() == q.setup(),
    ensures
        crate::memory::bus_served(p, f),
{
    assert(f.mark@ == seq![p]);
    assert(f.marked() == GbaBus { mark: f.mark, mark_at: f.mark_at, ..p });
}

impl Gba {
    /// Run the CPU until the bus clock reaches `target`: take a pending
    /// interrupt at each instruction boundary (which also wakes a halted
    /// CPU), wake on any enabled and requested interrupt, and let a halted
    /// CPU skip straight to `target`.
    #[verifier::spinoff_prover]
    #[verifier::rlimit(100)]
    fn run_until(&mut self, target: u64)
        requires
            old(self).wf(),
        ensures
            final(self).wf(),
            ran_until(*old(self), *final(self), target),
            extends(old(self).bus.log@, final(self).bus.log@),
            final(self).bus.cycles >= old(self).bus.cycles,
            final(self).bus.cycles >= target,
            final(self).audio_clock == old(self).audio_clock,
            final(self).render_enabled == old(self).render_enabled,
            final(self).steps >= old(self).steps,
            final(self).irqs_taken >= old(self).irqs_taken,
            final(self).halt_cycles >= old(self).halt_cycles,
    {
        let ghost mut trace: Seq<Gba> = seq![*self];
        while self.bus.cycles < target
            invariant
                self.wf(),
                extends(old(self).bus.log@, self.bus.log@),
                self.bus.cycles >= old(self).bus.cycles,
                self.audio_clock == old(self).audio_clock,
                self.render_enabled == old(self).render_enabled,
                self.steps >= old(self).steps,
                self.irqs_taken >= old(self).irqs_taken,
                self.halt_cycles >= old(self).halt_cycles,
                trace.len() >= 1,
                trace[0] == *old(self),
                trace[trace.len() - 1] == *self,
                forall|i: int| 0 <= i < trace.len() - 1 ==> #[trigger] pass_at(trace, i, target),
            ensures
                self.wf(),
                extends(old(self).bus.log@, self.bus.log@),
                self.bus.cycles >= old(self).bus.cycles,
                self.bus.cycles >= target,
                self.audio_clock == old(self).audio_clock,
                self.render_enabled == old(self).render_enabled,
                self.steps >= old(self).steps,
                self.irqs_taken >= old(self).irqs_taken,
                self.halt_cycles >= old(self).halt_cycles,
                trace.len() >= 1,
                trace[0] == *old(self),
                trace[trace.len() - 1] == *self,
                forall|i: int| 0 <= i < trace.len() - 1 ==> #[trigger] pass_at(trace, i, target),
            decreases (if self.bus.cycles < target { target - self.bus.cycles } else { 0 }),
        {
            let ghost g0 = *self;
            let ghost c0 = self.bus.cycles;
            let ghost l0 = self.bus.log@;
            if self.bus.irq_pending() && self.cpu.irq_ready() {
                self.bus.set_mark();
                let ghost q = self.bus;
                self.cpu.take_irq(&mut self.bus);
                let ghost m = self.bus;
                proof {
                    lemma_served_since_mark(g0.bus, q, m);
                }
                self.bus.halted = false;
                self.irqs_taken = self.irqs_taken.saturating_add(1);
                proof {
                    assert(self.bus.log@.subrange(0, l0.len() as int) =~= l0);
                    crate::bus::lemma_extends_trans(old(self).bus.log@, l0, self.bus.log@);
                    assert(irq_taken(g0, *self));
                }
            }
            let ghost a1 = *self;
            assert(irq_phase(g0, a1));
            if self.bus.halted && (self.bus.ie & self.bus.if_) != 0 {
                self.bus.halted = false;
            }
            assert(*self == woken(a1));
            if self.bus.halted {
                self.halt_cycles = self.halt_cycles.saturating_add(target - self.bus.cycles);
                self.bus.cycles = target;
                proof {
                    assert(*self == halt_skipped(woken(a1), target));
                    assert(run_pass(g0, *self, target));
                    lemma_run_push(trace, *self, target);
                    trace = trace.push(*self);
                }
                break;
            }
            let ghost a2 = *self;
            self.bus.set_mark();
            let ghost q2 = self.bus;
            let ghost l1 = self.bus.log@;
            let ghost cpu0 = self.cpu;
            let ghost c1 = self.bus.cycles;
            assert(c1 >= c0);
            self.cpu.step(&mut self.bus);
            assert(c1 < u64::MAX ==> self.bus.cycles > c1);
            assert(self.bus.cycles > c0);
            self.steps = self.steps.saturating_add(1);
            proof {
                let l2 = self.bus.log@;
                let n = l1.len() as int;
                assert(cpu0.stepped(self.cpu, l1, l2));
                assert(l2.subrange(0, n + 1).subrange(0, n) =~= l1);
                assert(l2.subrange(0, n) =~= l2.subrange(0, n + 1).subrange(0, n));
                assert(extends(l1, l2));
                crate::bus::lemma_extends_trans(old(self).bus.log@, l1, l2);
                lemma_served_since_mark(a2.bus, q2, self.bus);
                assert(instruction_run(a2, *self));
                assert(run_pass(g0, *self, target));
                lemma_run_push(trace, *self, target);
                trace = trace.push(*self);
            }
        }
        proof {
            assert(run_trace(*old(self), *self, target, trace));
        }
    }

    /// Run one scanline.
    #[verifier::spinoff_prover]
    #[verifier::rlimit(100)]
    fn run_line(&mut self, line: u32)
        requires
            old(self).wf(),
            line < TOTAL_LINES,
        ensures
            final(self).wf(),
            line_ran(*old(self), *final(self), line as int),
            extends(old(self).bus.log@, final(self).bus.log@),
            final(self).bus.cycles >= old(self).bus.cycles.saturating_add(crate::ppu::CYCLES_PER_LINE as u64),
            final(self).audio_clock == old(self).audio_clock.saturating_add(crate::ppu::CYCLES_PER_LINE as u64),
            final(self).render_enabled == old(self).render_enabled,
            final(self).steps >= old(self).steps,
            final(self).irqs_taken >= old(self).irqs_taken,
            final(self).halt_cycles >= old(self).halt_cycles,
    {
        let ghost s0 = *self;
        self.bus.ppu.begin_line(line);
        let ghost s1 = *self;
        self.bus.raise_ppu_irqs(line as u16);
        let ghost s2 = *self;
        self.bus.step_timers();
        let ghost s3 = *self;
        if line == 160 {
            self.bus.trigger_dma(1);
        }
        let ghost s4 = *self;
        if line < SCREEN_H as u32 {
            self.bus.trigger_dma(2);
        }
        let ghost s5 = *self;
        let line_start = self.bus.cycles;
        self.run_until(line_start.saturating_add(crate::ppu::HDRAW_CYCLES as u64));
        let ghost s6 = *self;
        self.bus.ppu.enter_hblank();
        let ghost s7 = *self;
        self.run_until(line_start.saturating_add(crate::ppu::CYCLES_PER_LINE as u64));
        let ghost s8 = *self;
        proof {
            crate::bus::lemma_extends_trans(s0.bus.log@, s7.bus.log@, s8.bus.log@);
        }
        if line < SCREEN_H as u32 && self.render_enabled {
            self.bus.ppu.render_line(line as usize);
        }
        let ghost s9 = *self;
        self.audio_clock = self.audio_clock.saturating_add(crate::ppu::CYCLES_PER_LINE as u64);
        let ghost s10 = *self;
        let periods = [self.bus.ds_timer_period(0), self.bus.ds_timer_period(1)];
        proof {
            broadcast use vstd::array::group_array_axioms;
            assert(periods =~= s10.bus.ds_periods());
        }
        self.bus.apu.generate(periods, self.audio_clock);
        let ghost s11 = *self;
        self.bus.refill_fifos();
        proof {
            let s = seq![s0, s1, s2, s3, s4, s5, s6, s7, s8, s9, s10, s11, *self];
            assert(line_trace(s0, *self, line as int, s));
        }
    }

    /// Run one frame (228 scanlines) and return the framebuffer. Each line
    /// starts by latching VCOUNT and DISPSTAT, raising the LCD interrupts,
    /// advancing the timers and starting V-blank (line 160) or H-blank
    /// (visible lines) DMA; the CPU then runs through H-draw, DISPSTAT's
    /// H-blank flag is set and the CPU runs to the end of the line; a visible
    /// line is rendered, the line's audio is generated off the fixed audio
    /// clock and the sound FIFOs are topped up.
    pub fn run_frame(&mut self) -> (fb: &[u16])
        requires
            old(self).wf(),
        ensures
            final(self).wf(),
            frame_ran(*old(self), *final(self)),
            fb@ == final(self).bus.ppu.framebuffer@,
            extends(old(self).bus.log@, final(self).bus.log@),
            final(self).bus.cycles >= old(self).bus.cycles,
            final(self).bus.cycles >= saturate(old(self).bus.cycles + TOTAL_LINES * crate::ppu::CYCLES_PER_LINE),
            final(self).audio_clock == saturate(
                old(self).audio_clock + TOTAL_LINES * crate::ppu::CYCLES_PER_LINE,
            ),
            final(self).steps >= old(self).steps,
            final(self).irqs_taken >= old(self).irqs_taken,
            final(self).halt_cycles >= old(self).halt_cycles,
    {
        let ghost mut trace: Seq<Gba> = seq![*self];
        let mut line: u32 = 0;
        while line < TOTAL_LINES
            invariant
                line <= TOTAL_LINES,
                self.wf(),
                extends(old(self).bus.log@, self.bus.log@),
                self.bus.cycles >= old(self).bus.cycles,
                self.bus.cycles >= saturate(old(self).bus.cycles + line * crate::ppu::CYCLES_PER_LINE),
                self.audio_clock == saturate(old(self).audio_clock + line * crate::ppu::CYCLES_PER_LINE),
                self.render_enabled == old(self).render_enabled,
                self.steps >= old(self).steps,
                self.irqs_taken >= old(self).irqs_taken,
                self.halt_cycles >= old(self).halt_cycles,
                trace.len() == line + 1,
                trace[0] == *old(self),
                trace[line as int] == *self,
                forall|l: int| 0 <= l < line ==> #[trigger] line_at(trace, l),
            decreases TOTAL_LINES - line,
        {
            let ghost before = *self;
            self.run_line(line);
            proof {
                crate::bus::lemma_extends_trans(old(self).bus.log@, before.bus.log@, self.bus.log@);
                let prev = trace;
                trace = trace.push(*self);
                assert forall|l: int| 0 <= l < line + 1 implies #[trigger] line_at(trace, l) by {
                    if l < line {
                        assert(line_at(prev, l));
                        assert(trace[l] == prev[l] && trace[l + 1] == prev[l + 1]);
                    } else {
                        assert(trace[l] == before && trace[l + 1] == *self);
                    }
                }
            }
            line = line + 1;
        }
        proof {
            assert(frame_trace(*old(self), *self, trace));
        }
        self.bus.ppu.framebuffer.as_slice()
    }
}

/// A blob that starts with the magic word and this build's version.
pub open spec fn has_state_header(data: Seq<u8>) -> bool {
    data.len() >= 5 && from_le32(data.subrange(0, 4)) == MAGIC && data[4] == VERSION
}

/// The bytes a save-state image in `data` takes as its length fields say:
/// the header and the CPU's part, then the bus's.
pub open spec fn state_need(data: Seq<u8>) -> int {
    190 + crate::memory::image_need(data, 190)
}

impl Gba {
    /// The save-state image of the machine: a magic word and a version byte,
    /// then the CPU and the bus. The ROM and BIOS are not part of it.
    pub open spec fn state_image(&self) -> Seq<u8> {
        le32(MAGIC) + seq![VERSION] + self.cpu.state_bytes() + self.bus.state_bytes()
    }

    /// An image of `self` can be read back whole into `target`.
    pub open spec fn restorable_into(&self, target: &Gba) -> bool {
        self.bus.restorable_into(&target.bus)
    }

    /// `self` holds everything the image of `q` carries, and the audio clock
    /// follows the restored sound unit.
    pub open spec fn restored_from(&self, q: &Gba) -> bool {
        &&& self.cpu == q.cpu
        &&& self.bus.restored_from(&q.bus)
        &&& self.audio_clock == q.bus.apu.cycle
    }

    /// Serialize the whole machine to a save-state image.
    pub fn save_state(&self) -> (v: Vec<u8>)
        ensures
            v@ == self.state_image(),
    {
        let mut w = Writer::default();
        w.u32(MAGIC);
        w.u8(VERSION);
        self.cpu.serialize(&mut w);
        self.bus.serialize(&mut w);
        assert(w.buf@ =~= self.state_image());
        w.buf
    }

    /// Restore a save-state produced by [`Gba::save_state`] on the same
    /// cartridge. A blob without the magic word and this build's version is
    /// refused and changes nothing. Otherwise the result says whether the
    /// blob held every byte that its parts' lengths call for: a blob cut
    /// short is refused. The image of a machine that can be read back into
    /// this one loads and restores that machine.
    #[verifier::spinoff_prover]
    #[verifier::rlimit(60)]
    pub fn load_state(&mut self, data: &[u8]) -> (ok: bool)
        requires
            old(self).wf(),
        ensures
            final(self).wf(),
            !has_state_header(data@) ==> {
                &&& !ok
                &&& *final(self) == *old(self)
            },
            has_state_header(data@) ==> (ok <==> state_need(data@) <= data@.len()),
            forall|q: Gba|
                q.restorable_into(old(self)) && data@ == #[trigger] q.state_image() ==> {
                    &&& ok
                    &&& final(self).restored_from(&q)
                },
    {
        let mut r = Reader::new(data);
        let magic = r.u32();
        if magic != MAGIC {
            proof {
                assert forall|q: Gba| data@ != #[trigger] q.state_image() by {
                    lemma_image_header(q);
                    if data@ == q.state_image() {
                        assert(r.next_bytes(4) =~= data@.subrange(0, 4));
                    }
                }
            }
            return false;
        }
        let ghost r1 = r;
        let version = r.u8();
        if version != VERSION {
            proof {
                assert forall|q: Gba| data@ != #[trigger] q.state_image() by {
                    lemma_image_header(q);
                }
            }
            return false;
        }
        let ghost r2 = r;
        self.cpu.deserialize(&mut r);
        let ghost r3 = r;
        self.bus.deserialize(&mut r);
        self.audio_clock = self.bus.apu.cycle();
        proof {
            assert forall|q: Gba|
                q.restorable_into(old(self)) && data@ == #[trigger] q.state_image() implies {
                &&& !r.failed
                &&& self.restored_from(&q)
            } by {
                let c = q.cpu.state_bytes();
                let b = q.bus.state_bytes();
                let img = q.state_image();
                assert(c.len() == 185) by {
                    crate::state::lemma_words_le_layout(q.cpu.r@);
                    crate::state::lemma_words_le_layout(q.cpu.r8_12@);
                    crate::state::lemma_words_le_layout(q.cpu.r13_14@);
                    crate::state::lemma_words_le_layout(q.cpu.spsr_bank@);
                }
                assert(data@.subrange(0, data@.len() as int) =~= data@);
                crate::state::lemma_split(data@, 0, le32(MAGIC) + seq![VERSION] + c, b);
                crate::state::lemma_split(data@, 0, le32(MAGIC) + seq![VERSION], c);
                assert(r2.pos == 5);
                assert(r2.next_bytes(185) =~= c);
                crate::cpu::lemma_state_roundtrip(q.cpu, self.cpu);
                assert(r3.pos == 190);
                assert(r3.buf@.subrange(190, 190 + b.len() as int) == b);
            }
            assert(!r.failed <==> state_need(data@) <= data@.len()) by {
                assert(data@.subrange(0, 4) =~= r1.buf@.subrange(0, 4));
                crate::state::lemma_ran_intro(r2, r3, 185);
                crate::state::lemma_ran_elim(r3, r, crate::memory::image_need(data@, r3.pos as int));
            }
        }
        !r.failed
    }
}

/// A cheap boot-health signal for one ROM.
pub struct Health {
    /// The most distinct colours any frame showed, and the first frame that
    /// showed them.
    pub peak: usize,
    pub peak_frame: u32,
    /// CPU instructions executed.
    pub steps: u64,
    /// The most distinct colours among the last 30 frames.
    pub late: usize,
}

/// The largest of the first `n` counts (0 when there are none) and the first
/// index where it occurs.
pub open spec fn peak_of(ds: Seq<nat>, n: int) -> (nat, int)
    decreases n,
{
    if n <= 0 {
        (0, 0)
    } else {
        let (b, f) = peak_of(ds, n - 1);
        if ds[n - 1] > b {
            (ds[n - 1], n - 1)
        } else {
            (b, f)
        }
    }
}

/// The largest of the counts at `from..n` (0 when there are none).
pub open spec fn late_peak(ds: Seq<nat>, from: int, n: int) -> nat
    decreases n,
{
    if n <= 0 {
        0
    } else {
        let l = late_peak(ds, from, n - 1);
        if n - 1 >= from && ds[n - 1] > l {
            ds[n - 1]
        } else {
            l
        }
    }
}

/// The console with the buttons of health-check frame `k` set: A and Start
/// held for 4 frames out of every 24, released otherwise.
pub open spec fn pulsed(g: Gba, k: int) -> Gba {
    let p = k % 24 < 4;
    let kb = g.bus.keyinput;
    let ka: u16 = if p { kb & !(1u16 << 0u16) } else { kb | (1u16 << 0u16) };
    let ks: u16 = if p { ka & !(1u16 << 3u16) } else { ka | (1u16 << 3u16) };
    Gba { bus: GbaBus { keyinput: ks, ..g.bus }, ..g }
}

/// Frame `k` of a health check takes the console from `a` to `b`: the
/// buttons are set, a frame runs (ending at `shown`, whose framebuffer is
/// the frame shown), and the audio it made is drained.
pub open spec fn check_frame(a: Gba, shown: Gba, b: Gba, k: int) -> bool {
    &&& frame_ran(pulsed(a, k), shown)
    &&& b == (Gba {
        bus: GbaBus { apu: crate::apu::Apu { out: b.bus.apu.out, ..shown.bus.apu }, ..shown.bus },
        ..shown
    })
    &&& b.bus.apu.out@ == Seq::<i16>::empty()
}

/// Frame `k` of the health check in `gs` (the consoles between frames) and
/// `ms` (the consoles as each frame is shown).
pub open spec fn check_at(gs: Seq<Gba>, ms: Seq<Gba>, k: int) -> bool {
    check_frame(gs[k], ms[k], gs[k + 1], k)
}

/// A health check of `frames` frames of the console started from `rom` and
/// `bios`: `gs` the consoles between frames, `ms` the consoles as each
/// frame is shown, `ds` the distinct colours of each frame shown.
pub open spec fn health_trace(
    rom: Seq<u8>,
    bios: Seq<u8>,
    frames: int,
    gs: Seq<Gba>,
    ms: Seq<Gba>,
    ds: Seq<nat>,
) -> bool {
    &&& gs.len() == frames + 1
    &&& ms.len() == frames
    &&& ds.len() == frames
    &&& Gba::started(gs[0], rom, bios)
    &&& forall|k: int| 0 <= k < frames ==> #[trigger] check_at(gs, ms, k)
    &&& forall|k: int| 0 <= k < frames ==> #[trigger] ds[k] == crate::output::distinct_count(ms[k].bus.ppu.framebuffer@)
}

/// Boot a ROM and run it for `frames` frames, pulsing A and Start for 4
/// frames out of every 24 to get past logos, titles and dialogue, and
/// report the peak distinct-colour count (the boot signal), the late peak,
/// and the CPU steps taken.
#[verifier::spinoff_prover]
#[verifier::rlimit(60)]
pub fn health_check(rom: Vec<u8>, bios: Vec<u8>, frames: u32) -> (h: Health)
    ensures
        exists|gs: Seq<Gba>, ms: Seq<Gba>, ds: Seq<nat>|
            #[trigger] health_trace(rom@, bios@, frames as int, gs, ms, ds) && {
                &&& (h.peak as nat, h.peak_frame as int) == peak_of(ds, frames as int)
                &&& h.late as nat == late_peak(ds, frames.saturating_sub(30) as int, frames as int)
                &&& h.steps == gs[frames as int].steps
            },
{
    let ghost rom0 = rom@;
    let ghost bios0 = bios@;
    let mut gba = Gba::new(rom, bios);
    let mut best: usize = 0;
    let mut best_frame: u32 = 0;
    let late_from = frames.saturating_sub(30);
    let mut late: usize = 0;
    let ghost mut ds: Seq<nat> = Seq::empty();
    let ghost mut gs: Seq<Gba> = seq![gba];
    let ghost mut ms: Seq<Gba> = Seq::empty();
    let mut f: u32 = 0;
    while f < frames
        invariant
            f <= frames,
            gba.wf(),
            late_from == frames.saturating_sub(30),
            ds.len() == f,
            ms.len() == f,
            gs.len() == f + 1,
            Gba::started(gs[0], rom0, bios0),
            gs[f as int] == gba,
            forall|k: int| 0 <= k < f ==> #[trigger] check_at(gs, ms, k),
            forall|k: int| 0 <= k < f ==> #[trigger] ds[k] == crate::output::distinct_count(ms[k].bus.ppu.framebuffer@),
            (best as nat, best_frame as int) == peak_of(ds, f as int),
            late as nat == late_peak(ds, late_from as int, f as int),
            forall|k: int| 0 <= k < f ==> ds[k] <= usize::MAX,
        decreases frames - f,
    {
        let ghost a = gba;
        let p = f % 24 < 4;
        gba.set_button(Button::A, p);
        gba.set_button(Button::Start, p);
        assert(gba == pulsed(a, f as int));
        let fb = gba.run_frame();
        let d = crate::output::distinct_colours(fb);
        let ghost shown = gba;
        let ghost prev = ds;
        proof {
            ds = ds.push(d as nat);
            assert(ds.drop_last() =~= prev);
            assert forall|n: int| 0 <= n <= f implies #[trigger] peak_of(ds, n) == peak_of(prev, n) by {
                lemma_peak_prefix(prev, ds, n);
            }
            assert forall|n: int| 0 <= n <= f implies #[trigger] late_peak(ds, late_from as int, n) == late_peak(
                prev,
                late_from as int,
                n,
            ) by {
                lemma_late_prefix(prev, ds, late_from as int, n);
            }
        }
        if d > best {
            best = d;
            best_frame = f;
        }
        if f >= late_from && d > late {
            late = d;
        }
        proof {
            assert(peak_of(ds, f as int) == peak_of(prev, f as int));
            assert(late_peak(ds, late_from as int, f as int) == late_peak(prev, late_from as int, f as int));
            assert(ds[f as int] == d as nat);
            assert(peak_of(ds, f as int + 1) == (best as nat, best_frame as int));
            assert(late_peak(ds, late_from as int, f as int + 1) == late as nat);
        }
        let _ = gba.take_audio();
        proof {
            let pgs = gs;
            let pms = ms;
            gs = gs.push(gba);
            ms = ms.push(shown);
            assert(check_frame(a, shown, gba, f as int));
            assert forall|k: int| 0 <= k < f + 1 implies #[trigger] check_at(gs, ms, k) by {
                if k < f {
                    assert(check_at(pgs, pms, k));
                    assert(gs[k] == pgs[k] && gs[k + 1] == pgs[k + 1] && ms[k] == pms[k]);
                } else {
                    assert(gs[k] == a && ms[k] == shown && gs[k + 1] == gba);
                }
            }
            assert forall|k: int| 0 <= k < f + 1 implies #[trigger] ds[k] == crate::output::distinct_count(
                ms[k].bus.ppu.framebuffer@,
            ) by {
                if k < f {
                    assert(ds[k] == prev[k] && ms[k] == pms[k]);
                } else {
                    assert(ms[k] == shown);
                }
            }
        }
        f = f + 1;
    }
    proof {
        assert(peak_of(ds, frames as int) == (best as nat, best_frame as int));
        assert(health_trace(rom0, bios0, frames as int, gs, ms, ds));
    }
    Health { peak: best, peak_frame: best_frame, steps: gba.steps, late }
}

proof fn lemma_peak_prefix(a: Seq<nat>, b: Seq<nat>, n: int)
    requires
        0 <= n <= a.len(),
        a.len() <= b.len(),
        forall|k: int| 0 <= k < a.len() ==> a[k] == b[k],
    ensures
        peak_of(a, n) == peak_of(b, n),
    decreases n,
{
    if n > 0 {
        lemma_peak_prefix(a, b, n - 1);
    }
}

proof fn lemma_late_prefix(a: Seq<nat>, b: Seq<nat>, from: int, n: int)
    requires
        0 <= n <= a.len(),
        a.len() <= b.len(),
        forall|k: int| 0 <= k < a.len() ==> a[k] == b[k],
    ensures
        late_peak(a, from, n) == late_peak(b, from, n),
    decreases n,
{
    if n > 0 {
        lemma_late_prefix(a, b, from, n - 1);
    }
}

/// A machine that holds everything the image of `q` carries has that same
/// image: saving right after a load gives the loaded image back.
pub proof fn lemma_restored_image(b: Gba, q: Gba)
    requires
        b.restored_from(&q),
    ensures
        b.state_image() == q.state_image(),
{
    reveal(crate::ppu::Ppu::state_bytes);
    reveal(crate::apu::Apu::state_bytes);
    assert(b.bus.dma_image(4) == q.bus.dma_image(4)) by {
        reveal_with_fuel(crate::memory::GbaBus::dma_image, 5);
    }
    assert(b.bus.timer_image(4) == q.bus.timer_image(4)) by {
        reveal_with_fuel(crate::memory::GbaBus::timer_image, 5);
    }
    assert(b.bus.header_bytes() == q.bus.header_bytes());
    assert(crate::save::save_bytes(b.bus.save@) == crate::save::save_bytes(q.bus.save@));
    assert(b.bus.ppu.state_bytes() == q.bus.ppu.state_bytes());
    assert(b.bus.apu.state_bytes() == q.bus.apu.state_bytes());
}

/// Every machine image starts with the magic word and the version byte.
proof fn lemma_image_header(q: Gba)
    ensures
        q.state_image().len() >= 5,
        q.state_image().subrange(0, 4) == le32(MAGIC),
        from_le32(q.state_image().subrange(0, 4)) == MAGIC,
        q.state_image()[4] == VERSION,
{
    crate::state::lemma_le32_roundtrip(MAGIC);
    assert(q.state_image().subrange(0, 4) =~= le32(MAGIC));
}

} // verus!
