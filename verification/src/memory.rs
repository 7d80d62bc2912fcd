//! The GBA system bus: the memory regions and their mirroring, access costs,
//! the I/O registers, the timers, DMA and the interrupt controller. It is a
//! [`Bus`], so the CPU drives it as it drives any other.

use vstd::prelude::*;
use crate::apu::Apu;
use crate::bus::{Access, Bus, BusEvent, Width, read_event, write_event, clock_advances};
use crate::ppu::{Ppu, vram_index_spec};
use crate::save::{Save, SaveModel, read_spec};
use crate::state::{Reader, Writer, block, block_need, le16, le32, le64, from_le16, from_le32, from_le64};

verus! {

pub const BIOS_LEN: usize = 0x4000;

pub const EWRAM_LEN: usize = 0x4_0000;

pub const IWRAM_LEN: usize = 0x8000;

pub const IO_LEN: usize = 0x400;

/// One hardware timer.
#[derive(Clone, Copy)]
pub struct Timer {
    pub reload: u16,
    pub counter: u16,
    pub control: u16,
    /// Cycles accumulated toward the next prescaled tick.
    pub subcycle: u32,
}

pub struct GbaBus {
    pub bios: Vec<u8>,
    pub ewram: Vec<u8>,
    pub iwram: Vec<u8>,
    pub rom: Vec<u8>,
    /// Cartridge backup: SRAM / Flash (regions 0xE-0xF) or EEPROM (0xD).
    pub save: Save,
    pub ppu: Ppu,
    pub apu: Apu,
    /// The I/O registers not modelled elsewhere.
    pub io: Vec<u8>,
    /// KEYINPUT: active-low, 1 = released.
    pub keyinput: u16,
    /// Interrupt controller: enable mask, request flags, master enable.
    pub ie: u16,
    pub if_: u16,
    pub ime: u16,
    pub timers: [Timer; 4],
    /// The cycle count the timers were last advanced to.
    pub timer_cycles: u64,
    /// The running (latched) DMA source, destination and count per channel.
    pub dma_src: [u32; 4],
    pub dma_dst: [u32; 4],
    pub dma_count: [u32; 4],
    /// Free-running cycle counter (saturating).
    pub cycles: u64,
    /// The CPU is halted until the next interrupt.
    pub halted: bool,
    /// Sound-FIFO DMA refills since boot.
    pub dbg_fifo_refills: u64,
    /// Everything the CPU has asked of this bus.
    pub log: Ghost<Seq<BusEvent>>,
    /// The bus as it stood (the first bus held) when the requests since log
    /// position `mark_at` began to be followed (see `inv`).
    pub mark: Ghost<Seq<GbaBus>>,
    pub mark_at: Ghost<nat>,
}

/// A timer after byte `k` (0-3) of its registers is written: the reload
/// value (bytes 0, 1) or the control word (bytes 2, 3); setting the enable
/// bit (control bit 7) reloads the counter and restarts the prescaler.
pub open spec fn timer_byte_written(t: Timer, k: u32, byte: u8) -> Timer {
    if k == 0 {
        Timer { reload: (t.reload & 0xFF00) | byte as u16, ..t }
    } else if k == 1 {
        Timer { reload: (t.reload & 0x00FF) | ((byte as u16) << 8), ..t }
    } else if k == 2 {
        let c = (t.control & 0xFF00) | byte as u16;
        if c & 0x80 != 0 && t.control & 0x80 == 0 {
            Timer { control: c, counter: t.reload, subcycle: 0, ..t }
        } else {
            Timer { control: c, ..t }
        }
    } else {
        Timer { control: (t.control & 0x00FF) | ((byte as u16) << 8), ..t }
    }
}

/// The timer whose save-state bytes start at `q` of `buf`.
pub open spec fn timer_at(buf: Seq<u8>, q: int) -> Timer {
    Timer {
        reload: from_le16(buf.subrange(q, q + 2)),
        counter: from_le16(buf.subrange(q + 2, q + 4)),
        control: from_le16(buf.subrange(q + 4, q + 6)),
        subcycle: from_le32(buf.subrange(q + 6, q + 10)),
    }
}

/// Read one timer's save-state bytes.
fn read_timer(r: &mut Reader) -> (t: Timer)
    ensures
        final(r).buf@ == old(r).buf@,
        old(r).failed ==> final(r).failed,
        old(r).ran(*final(r), 10),
        old(r).has(10) ==> {
            &&& final(r).pos == old(r).pos + 10 && final(r).failed == old(r).failed
            &&& t == timer_at(old(r).buf@, old(r).pos as int)
        },
{
    let reload = r.u16();
    let counter = r.u16();
    let control = r.u16();
    let subcycle = r.u32();
    proof {
        crate::state::lemma_ran_intro(*old(r), *r, 10);
    }
    Timer { reload, counter, control, subcycle }
}

/// The region nibble of an address.
pub open spec fn region(addr: u32) -> u32 {
    (addr >> 24) & 0xF
}

/// The byte at `i` of `mem`, or `d` past its end.
pub open spec fn byte_or(mem: Seq<u8>, i: int, d: u8) -> u8 {
    if 0 <= i < mem.len() {
        mem[i]
    } else {
        d
    }
}

/// Access cost in cycles by region and width.
pub open spec fn access_cycles_spec(addr: u32, word: bool) -> u64 {
    let r = region(addr);
    if r == 2 {
        if word { 6 } else { 3 }
    } else if r == 5 || r == 6 {
        if word { 2 } else { 1 }
    } else if 8 <= r <= 0xD {
        if word { 8 } else { 5 }
    } else if r == 0xE || r == 0xF {
        5
    } else {
        1
    }
}

impl GbaBus {
    /// The memories have their fixed sizes.
    pub open spec fn wf(&self) -> bool {
        &&& self.bios@.len() == BIOS_LEN
        &&& self.ewram@.len() == EWRAM_LEN
        &&& self.iwram@.len() == IWRAM_LEN
        &&& self.io@.len() == IO_LEN
        &&& self.ppu.wf()
        &&& self.apu.wf()
        &&& self.save@.wf()
    }

    /// The I/O register byte at `off` (0..0x3FF) as a read sees it.
    pub open spec fn io_read8_spec(&self, off: u32) -> u8 {
        if off <= 0x5F {
            (self.ppu.regs[((off >> 1) & 0x3F) as int] >> (((off & 1) * 8) as u16)) as u8
        } else if 0x60 <= off <= 0xA7 {
            crate::apu::read8_spec(&self.apu, off)
        } else if off == 0x130 {
            self.keyinput as u8
        } else if off == 0x131 {
            (self.keyinput >> 8) as u8
        } else if 0x100 <= off <= 0x10F {
            let t = self.timers[((off - 0x100) / 4) as int];
            let k = (off - 0x100) % 4;
            if k == 0 {
                t.counter as u8
            } else if k == 1 {
                (t.counter >> 8) as u8
            } else if k == 2 {
                t.control as u8
            } else {
                (t.control >> 8) as u8
            }
        } else if off == 0x200 {
            self.ie as u8
        } else if off == 0x201 {
            (self.ie >> 8) as u8
        } else if off == 0x202 {
            self.if_ as u8
        } else if off == 0x203 {
            (self.if_ >> 8) as u8
        } else if off == 0x208 {
            self.ime as u8
        } else if off == 0x209 {
            (self.ime >> 8) as u8
        } else {
            byte_or(self.io@, off as int, 0)
        }
    }

    /// What a read of the byte at `addr` returns (reads have no effect on
    /// memory).
    pub open spec fn read8_spec(&self, addr: u32) -> u8 {
        let r = region(addr);
        if r == 0 {
            byte_or(self.bios@, (addr & 0x3FFF) as int, 0)
        } else if r == 2 {
            byte_or(self.ewram@, (addr & 0x3_FFFF) as int, 0)
        } else if r == 3 {
            byte_or(self.iwram@, (addr & 0x7FFF) as int, 0)
        } else if r == 4 {
            self.io_read8_spec(addr & 0x3FF)
        } else if r == 5 {
            byte_or(self.ppu.palram@, (addr & 0x3FF) as int, 0)
        } else if r == 6 {
            byte_or(self.ppu.vram@, vram_index_spec(addr), 0)
        } else if r == 7 {
            byte_or(self.ppu.oam@, (addr & 0x3FF) as int, 0)
        } else if 8 <= r <= 0xD {
            byte_or(self.rom@, (addr & 0x01FF_FFFF) as int, 0)
        } else if r == 0xE || r == 0xF {
            read_spec(self.save@, addr)
        } else {
            0
        }
    }

    /// The halfword read at `addr`: the bytes at `addr` and the next address.
    pub open spec fn read16_spec(&self, addr: u32) -> u16 {
        (self.read8_spec(addr) as u16) | ((self.read8_spec(addr.wrapping_add(1)) as u16) << 8)
    }

    /// The word read at `addr`: the four bytes of the aligned word (the CPU
    /// rotates an unaligned load itself).
    pub open spec fn read32_spec(&self, addr: u32) -> u32 {
        let a = addr & 0xFFFF_FFFC;
        (self.read8_spec(a) as u32) | ((self.read8_spec((a + 1) as u32) as u32) << 8) | ((self.read8_spec(
            (a + 2) as u32,
        ) as u32) << 16) | ((self.read8_spec((a + 3) as u32) as u32) << 24)
    }
}

fn access_cycles(addr: u32, word: bool) -> (c: u64)
    ensures
        c == access_cycles_spec(addr, word),
        1 <= c <= 8,
{
    let r = (addr >> 24) & 0xF;
    if r == 2 {
        if word { 6 } else { 3 }
    } else if r == 5 || r == 6 {
        if word { 2 } else { 1 }
    } else if 8 <= r && r <= 0xD {
        if word { 8 } else { 5 }
    } else if r == 0xE || r == 0xF {
        5
    } else {
        1
    }
}

/// The byte at `i`, or `d` past the end.
fn byte_at(mem: &Vec<u8>, i: usize, d: u8) -> (b: u8)
    ensures
        b == byte_or(mem@, i as int, d),
{
    if i < mem.len() {
        mem[i]
    } else {
        d
    }
}

impl GbaBus {
    fn io_read8(&self, off: u32) -> (v: u8)
        requires
            off <= 0x3FF,
        ensures
            v == self.io_read8_spec(off),
    {
        if off <= 0x5F {
            let sh = off & 1;
            proof {
                crate::bits::lemma_u32_bits(off, 1);
            }
            (self.ppu.read_reg16(off) >> ((sh * 8) as u16)) as u8
        } else if 0x60 <= off && off <= 0xA7 {
            self.apu.read8(off)
        } else if off == 0x130 {
            self.keyinput as u8
        } else if off == 0x131 {
            (self.keyinput >> 8) as u8
        } else if 0x100 <= off && off <= 0x10F {
            let t = self.timers[((off - 0x100) / 4) as usize];
            let k = (off - 0x100) % 4;
            if k == 0 {
                t.counter as u8
            } else if k == 1 {
                (t.counter >> 8) as u8
            } else if k == 2 {
                t.control as u8
            } else {
                (t.control >> 8) as u8
            }
        } else if off == 0x200 {
            self.ie as u8
        } else if off == 0x201 {
            (self.ie >> 8) as u8
        } else if off == 0x202 {
            self.if_ as u8
        } else if off == 0x203 {
            (self.if_ >> 8) as u8
        } else if off == 0x208 {
            self.ime as u8
        } else if off == 0x209 {
            (self.ime >> 8) as u8
        } else {
            byte_at(&self.io, off as usize, 0)
        }
    }

    fn read8_raw(&self, addr: u32) -> (v: u8)
        ensures
            v == self.read8_spec(addr),
    {
        let r = (addr >> 24) & 0xF;
        if r == 0 {
            byte_at(&self.bios, (addr & 0x3FFF) as usize, 0)
        } else if r == 2 {
            byte_at(&self.ewram, (addr & 0x3_FFFF) as usize, 0)
        } else if r == 3 {
            byte_at(&self.iwram, (addr & 0x7FFF) as usize, 0)
        } else if r == 4 {
            proof {
                crate::bits::lemma_u32_bits(addr, 0x3FF);
            }
            self.io_read8(addr & 0x3FF)
        } else if r == 5 {
            byte_at(&self.ppu.palram, (addr & 0x3FF) as usize, 0)
        } else if r == 6 {
            byte_at(&self.ppu.vram, Ppu::vram_index(addr), 0)
        } else if r == 7 {
            byte_at(&self.ppu.oam, (addr & 0x3FF) as usize, 0)
        } else if 8 <= r && r <= 0xD {
            byte_at(&self.rom, (addr & 0x01FF_FFFF) as usize, 0)
        } else if r == 0xE || r == 0xF {
            self.save.read(addr)
        } else {
            0
        }
    }

    fn read16_raw(&self, addr: u32) -> (v: u16)
        ensures
            v == self.read16_spec(addr),
    {
        (self.read8_raw(addr) as u16) | ((self.read8_raw(addr.wrapping_add(1)) as u16) << 8)
    }

    fn read32_raw(&self, addr: u32) -> (v: u32)
        ensures
            v == self.read32_spec(addr),
    {
        let a = addr & 0xFFFF_FFFC;
        proof {
            crate::bits::lemma_u32_bits(addr, 0xFFFF_FFFC);
        }
        (self.read8_raw(a) as u32) | ((self.read8_raw(a + 1) as u32) << 8) | ((self.read8_raw(a + 2) as u32) << 16)
            | ((self.read8_raw(a + 3) as u32) << 24)
    }

    /// A word read with no cost and no effect (for debugging front-ends).
    pub fn read32_dbg(&self, addr: u32) -> (v: u32)
        ensures
            v == self.read32_spec(addr),
    {
        self.read32_raw(addr)
    }
}

/// How deep DMA transfers started by DMA writes may nest.
pub const DMA_DEPTH: u32 = 4;

/// Byte `i` (little-endian) of `val`.
pub open spec fn le_byte(val: u32, i: int) -> u8 {
    ((val >> ((8 * i) as u32)) & 0xFF) as u8
}

/// `mem` with the low `width` bytes of `val` stored little-endian from `off`,
/// wrapping around the end.
pub open spec fn write_le_spec(mem: Seq<u8>, off: int, val: u32, width: int) -> Seq<u8> {
    Seq::new(
        mem.len(),
        |k: int|
            if off <= k < off + width {
                le_byte(val, k - off)
            } else if k < off + width - mem.len() {
                le_byte(val, k + mem.len() - off)
            } else {
                mem[k]
            },
    )
}

/// The address a store of `width` bytes lands at: stores force-align.
pub open spec fn store_addr(addr: u32, width: u32) -> u32 {
    if width == 4 {
        addr & 0xFFFF_FFFC
    } else if width == 2 {
        addr & 0xFFFF_FFFE
    } else {
        addr
    }
}

/// Store the low `width` bytes of `val` little-endian into `mem` at `off`,
/// wrapping within it.
fn write_le(mem: &mut Vec<u8>, off: usize, val: u32, width: u32)
    requires
        old(mem)@.len() >= 4,
        off < old(mem)@.len(),
        1 <= width <= 4,
    ensures
        final(mem)@ == write_le_spec(old(mem)@, off as int, val, width as int),
{
    let len = mem.len();
    let mut i: u32 = 0;
    while i < width
        invariant
            i <= width <= 4,
            len == mem@.len(),
            len >= 4,
            off < len,
            forall|k: int|
                0 <= k < len ==> #[trigger] mem@[k] == if off <= k < off + i {
                    le_byte(val, k - off)
                } else if k < off + i - len {
                    le_byte(val, k + len - off)
                } else {
                    old(mem)@[k]
                },
        decreases width - i,
    {
        let iu = i as usize;
        let pos = if iu >= len - off { iu - (len - off) } else { off + iu };
        let b = ((val >> (8 * i)) & 0xFF) as u8;
        mem.set(pos, b);
        i = i + 1;
    }
    assert(mem@ =~= write_le_spec(old(mem)@, off as int, val, width as int));
}

impl GbaBus {
    /// What any write or DMA keeps: the sizes, the CPU-visible log, the
    /// read-only memories, the backup kind; the clock only moves forward.
    pub open spec fn kept(&self, other: &GbaBus) -> bool {
        &&& other.wf()
        &&& other.log == self.log
        &&& other.bios@ == self.bios@
        &&& other.rom@ == self.rom@
        &&& other.save.kind == self.save.kind
        &&& other.cycles >= self.cycles
        &&& other.mark == self.mark
        &&& other.mark_at == self.mark_at
    }

    /// The effect of a store of the low `width` bytes of `val` at `addr`:
    /// stores at 0x10000000 and above are dropped; the others force-align and
    /// land in their region (palette and VRAM byte stores fill the whole
    /// halfword, OAM ignores byte stores, the backup chip takes the low byte,
    /// BIOS and ROM are read-only). I/O stores act on the registers a byte
    /// at a time.
    pub open spec fn stored(&self, after: &GbaBus, addr: u32, val: u32, width: u32) -> bool {
        let a = store_addr(addr, width);
        let r = region(a);
        if addr >= 0x1000_0000 {
            *after == *self
        } else if r == 2 {
            &&& after.ewram@ == write_le_spec(self.ewram@, (a & 0x3_FFFF) as int, val, width as int)
            &&& *after == (GbaBus { ewram: after.ewram, ..*self })
        } else if r == 3 {
            &&& after.iwram@ == write_le_spec(self.iwram@, (a & 0x7FFF) as int, val, width as int)
            &&& *after == (GbaBus { iwram: after.iwram, ..*self })
        } else if r == 5 {
            &&& after.ppu.palram@ == if width == 1 {
                self.ppu.palram@.update((a & 0x3FE) as int, val as u8).update((a & 0x3FE) + 1, val as u8)
            } else {
                write_le_spec(self.ppu.palram@, (a & 0x3FF) as int, val, width as int)
            }
            &&& *after == (GbaBus { ppu: Ppu { palram: after.ppu.palram, ..self.ppu }, ..*self })
        } else if r == 6 {
            let i = vram_index_spec(a);
            &&& after.ppu.vram@ == if width == 1 {
                self.ppu.vram@.update(i - i % 2, val as u8).update(i - i % 2 + 1, val as u8)
            } else {
                write_le_spec(self.ppu.vram@, i, val, width as int)
            }
            &&& *after == (GbaBus { ppu: Ppu { vram: after.ppu.vram, ..self.ppu }, ..*self })
        } else if r == 7 {
            &&& after.ppu.oam@ == if width == 1 {
                self.ppu.oam@
            } else {
                write_le_spec(self.ppu.oam@, (a & 0x3FF) as int, val, width as int)
            }
            &&& *after == (GbaBus { ppu: Ppu { oam: after.ppu.oam, ..self.ppu }, ..*self })
        } else if r == 0xE || r == 0xF {
            &&& after.save@ == crate::save::write_spec(self.save@, a, val as u8)
            &&& *after == (GbaBus { save: after.save, ..*self })
        } else if r == 4 {
            &&& self.kept(after)
            &&& self.io_bytes_stored(after, a & 0x3FF, val, width)
        } else {
            *after == *self
        }
    }

    /// `after` is this bus after `byte` is stored at I/O offset `o`
    /// (0x000-0x3FF): LCD registers (0x00-0x5F) take the byte into their
    /// halfword; sound registers (0x60-0xA7) take it as a sound register
    /// write; KEYINPUT is read-only; IE and IME take the byte into their
    /// halfword; a byte written to IF clears the request bits it has set;
    /// timer bytes set the reload value or the control word, and setting a
    /// timer's enable bit reloads its counter; every other byte is stored.
    /// The high control byte of a DMA channel (0xBB, 0xC7, 0xD3, 0xDF) is
    /// stored and the channel started (`dma_enable_effect`).
    pub open spec fn io_byte_stored(&self, after: &GbaBus, o: u32, byte: u8) -> bool {
        if o <= 0x5F {
            let cur = self.ppu.regs[(((o & 0x3FE) >> 1) & 0x3F) as int];
            let merged: u16 = if o & 1 == 0 { (cur & 0xFF00) | byte as u16 } else { (cur & 0x00FF) | ((byte as u16) << 8) };
            &&& self.ppu.reg_written(&after.ppu, o & 0x3FE, merged)
            &&& *after == (GbaBus { ppu: after.ppu, ..*self })
        } else if 0x60 <= o <= 0xA7 {
            &&& self.apu.written8(&after.apu, o, byte)
            &&& *after == (GbaBus { apu: after.apu, ..*self })
        } else if o == 0x130 || o == 0x131 {
            *after == *self
        } else if o == 0x200 {
            *after == (GbaBus { ie: (self.ie & 0xFF00) | byte as u16, ..*self })
        } else if o == 0x201 {
            *after == (GbaBus { ie: (self.ie & 0x00FF) | ((byte as u16) << 8), ..*self })
        } else if o == 0x202 {
            *after == (GbaBus { if_: self.if_ & !(byte as u16), ..*self })
        } else if o == 0x203 {
            *after == (GbaBus { if_: self.if_ & !((byte as u16) << 8), ..*self })
        } else if o == 0x208 {
            *after == (GbaBus { ime: (self.ime & 0xFF00) | byte as u16, ..*self })
        } else if o == 0x209 {
            *after == (GbaBus { ime: (self.ime & 0x00FF) | ((byte as u16) << 8), ..*self })
        } else if 0x100 <= o <= 0x10F {
            let ch = ((o - 0x100) / 4) as int;
            &&& after.timers@ == self.timers@.update(ch, timer_byte_written(self.timers[ch], ((o - 0x100) % 4) as u32, byte))
            &&& *after == (GbaBus { timers: after.timers, ..*self })
        } else if o == 0xBB || o == 0xC7 || o == 0xD3 || o == 0xDF {
            exists|mid: GbaBus|
                #![trigger mid.dma_enable_effect(after, dma_channel_of(o))]
                {
                    &&& mid.io@ == self.io@.update(o as int, byte)
                    &&& mid == (GbaBus { io: mid.io, ..*self })
                    &&& mid.dma_enable_effect(after, dma_channel_of(o))
                }
        } else {
            &&& after.io@ == self.io@.update(o as int, byte)
            &&& *after == (GbaBus { io: after.io, ..*self })
        }
    }

    /// `after` is this bus after the low `width` bytes of `val` are stored
    /// one at a time, lowest first, from I/O offset `off`: there is a run of
    /// buses from this one to `after`, each step one byte store.
    pub open spec fn io_bytes_stored(&self, after: &GbaBus, off: u32, val: u32, width: u32) -> bool {
        exists|s: Seq<GbaBus>| #[trigger] self.io_store_run(after, off, val, width, s)
    }

    /// `s` runs from this bus to `after` by storing the low `width` bytes of
    /// `val` one at a time from I/O offset `off`.
    pub open spec fn io_store_run(&self, after: &GbaBus, off: u32, val: u32, width: u32, s: Seq<GbaBus>) -> bool {
        &&& s.len() == width + 1
        &&& s[0] == *self
        &&& s[width as int] == *after
        &&& forall|j: int| 0 <= j < width ==> #[trigger] s[j].io_byte_stored(&s[j + 1], (off + j) as u32, le_byte(val, j))
    }

    /// The whole effect of a store made with DMA nesting `depth` left: as
    /// `stored` says, except that storing the high control byte of a DMA
    /// channel starts the channel as `dma_started` says (an immediate
    /// transfer runs to completion).
    pub open spec fn store_effect(&self, after: &GbaBus, addr: u32, val: u32, width: u32, depth: u32) -> bool {
        let a = store_addr(addr, width);
        if addr < 0x1000_0000 && region(a) == 4 {
            &&& self.kept(after)
            &&& exists|s: Seq<GbaBus>| #[trigger] self.io_effect_run(after, a & 0x3FF, val, width, s, depth)
        } else {
            self.stored(after, addr, val, width)
        }
    }

    /// `s` runs from this bus to `after` by storing the low `width` bytes of
    /// `val` one at a time from I/O offset `off`, each as `io_byte_effect`.
    pub open spec fn io_effect_run(
        &self,
        after: &GbaBus,
        off: u32,
        val: u32,
        width: u32,
        s: Seq<GbaBus>,
        depth: u32,
    ) -> bool {
        &&& s.len() == width + 1
        &&& s[0] == *self
        &&& s[width as int] == *after
        &&& forall|j: int|
            0 <= j < width ==> #[trigger] s[j].io_byte_effect(&s[j + 1], (off + j) as u32, le_byte(val, j), depth)
    }

    /// The whole effect of storing `byte` at I/O offset `o` with DMA nesting
    /// `depth` left: a DMA channel's high control byte is stored and the
    /// channel started (`dma_started`); any other byte as `io_byte_stored`.
    pub open spec fn io_byte_effect(&self, after: &GbaBus, o: u32, byte: u8, depth: u32) -> bool {
        if o == 0xBB || o == 0xC7 || o == 0xD3 || o == 0xDF {
            exists|mid: GbaBus|
                #![trigger mid.dma_started(after, dma_channel_of(o), depth)]
                {
                    &&& mid.io@ == self.io@.update(o as int, byte)
                    &&& mid == (GbaBus { io: mid.io, ..*self })
                    &&& mid.dma_started(after, dma_channel_of(o), depth)
                }
        } else {
            self.io_byte_stored(after, o, byte)
        }
    }

    /// The I/O halfword at `off`.
    pub fn io_u16(&self, off: u32) -> (v: u16)
        requires
            self.wf(),
            off <= 0x3FE,
        ensures
            v == (self.io@[off as int] as u16) | ((self.io@[off + 1] as u16) << 8),
    {
        (self.io[off as usize] as u16) | ((self.io[off as usize + 1] as u16) << 8)
    }

    /// The I/O word at `off`.
    fn io_u32(&self, off: u32) -> (v: u32)
        requires
            self.wf(),
            off <= 0x3FC,
        ensures
            v == (self.io@[off as int] as u32) | ((self.io@[off + 1] as u32) << 8) | ((self.io@[off + 2] as u32) << 16)
                | ((self.io@[off + 3] as u32) << 24),
    {
        let o = off as usize;
        (self.io[o] as u32) | ((self.io[o + 1] as u32) << 8) | ((self.io[o + 2] as u32) << 16) | ((self.io[o + 3] as u32)
            << 24)
    }

    /// Store the low `width` bytes of `val` at `addr`. DMA transfers this
    /// starts may nest `depth` deep.
    fn write(&mut self, addr: u32, val: u32, width: u32, depth: u32)
        requires
            old(self).wf(),
            width == 1 || width == 2 || width == 4,
        ensures
            old(self).stored(&*final(self), addr, val, width),
            old(self).store_effect(&*final(self), addr, val, width, depth),
            old(self).kept(&*final(self)),
        decreases depth, 6int,
    {
        if addr >= 0x1000_0000 {
            return;
        }
        let a = if width == 4 {
            addr & 0xFFFF_FFFC
        } else if width == 2 {
            addr & 0xFFFF_FFFE
        } else {
            addr
        };
        let r = (a >> 24) & 0xF;
        proof {
            crate::bits::lemma_u32_bits(a, 0x3_FFFF);
            crate::bits::lemma_u32_bits(a, 0x7FFF);
            crate::bits::lemma_u32_bits(a, 0x3FF);
            lemma_store_addr(addr);
        }
        if r == 2 {
            write_le(&mut self.ewram, (a & 0x3_FFFF) as usize, val, width);
        } else if r == 3 {
            write_le(&mut self.iwram, (a & 0x7FFF) as usize, val, width);
        } else if r == 4 {
            assert(store_addr(a, width) == a);
            self.io_write(a, val, width, depth);
        } else if r == 5 {
            if width == 1 {
                self.ppu.write_pal8(a, val as u8);
            } else {
                write_le(&mut self.ppu.palram, (a & 0x3FF) as usize, val, width);
            }
        } else if r == 6 {
            if width == 1 {
                self.ppu.write_vram8(a, val as u8);
            } else {
                let i = Ppu::vram_index(a);
                write_le(&mut self.ppu.vram, i, val, width);
            }
        } else if r == 7 {
            if width != 1 {
                write_le(&mut self.ppu.oam, (a & 0x3FF) as usize, val, width);
            }
        } else if r == 0xE || r == 0xF {
            self.save.write(a, val as u8);
        }
    }

    /// Store bytes into the I/O registers, one at a time.
    fn io_write(&mut self, addr: u32, val: u32, width: u32, depth: u32)
        requires
            old(self).wf(),
            width == 1 || width == 2 || width == 4,
            addr == store_addr(addr, width),
        ensures
            old(self).kept(&*final(self)),
            old(self).io_bytes_stored(&*final(self), addr & 0x3FF, val, width),
            exists|s: Seq<GbaBus>| #[trigger] old(self).io_effect_run(&*final(self), addr & 0x3FF, val, width, s, depth),
        decreases depth, 5int,
    {
        let off = addr & 0x3FF;
        proof {
            lemma_store_addr(addr);
        }
        let ghost mut states: Seq<GbaBus> = seq![*self];
        let mut i: u32 = 0;
        while i < width
            invariant
                i <= width,
                width <= 4,
                off + width <= 0x400,
                off == addr & 0x3FF,
                old(self).kept(&*self),
                states.len() == i + 1,
                states[0] == *old(self),
                states[i as int] == *self,
                forall|j: int|
                    0 <= j < i ==> #[trigger] states[j].io_byte_stored(&states[j + 1], (off + j) as u32, le_byte(val, j)),
                forall|j: int|
                    0 <= j < i ==> #[trigger] states[j].io_byte_effect(
                        &states[j + 1],
                        (off + j) as u32,
                        le_byte(val, j),
                        depth,
                    ),
            decreases width - i,
        {
            let ghost before = *self;
            let o = off + i;
            let byte = ((val >> (8 * i)) & 0xFF) as u8;
            self.io_store_byte(o, byte, depth);
            proof {
                assert(before.io_byte_stored(&*self, o, le_byte(val, i as int)));
                assert(before.io_byte_effect(&*self, o, le_byte(val, i as int), depth));
                states = states.push(*self);
            }
            i = i + 1;
        }
        proof {
            assert(old(self).io_store_run(&*self, addr & 0x3FF, val, width, states));
            assert(old(self).io_effect_run(&*self, addr & 0x3FF, val, width, states, depth));
        }
    }

    /// Store `byte` at I/O offset `o`.
    fn io_store_byte(&mut self, o: u32, byte: u8, depth: u32)
        requires
            old(self).wf(),
            o <= 0x3FF,
        ensures
            old(self).kept(&*final(self)),
            old(self).io_byte_stored(&*final(self), o, byte),
            old(self).io_byte_effect(&*final(self), o, byte, depth),
        decreases depth, 4int,
    {
        if o <= 0x5F {
            let reg = o & 0x3FE;
            let cur = self.ppu.read_reg16(reg);
            let merged: u16 = if o & 1 == 0 {
                (cur & 0xFF00) | byte as u16
            } else {
                (cur & 0x00FF) | ((byte as u16) << 8)
            };
            self.ppu.write_reg16(reg, merged);
        } else if 0x60 <= o && o <= 0xA7 {
            self.apu.write8(o, byte);
        } else if o == 0x130 || o == 0x131 {
        } else if o == 0x200 {
            self.ie = (self.ie & 0xFF00) | byte as u16;
        } else if o == 0x201 {
            self.ie = (self.ie & 0x00FF) | ((byte as u16) << 8);
        } else if o == 0x202 {
            self.if_ = self.if_ & !(byte as u16);
        } else if o == 0x203 {
            self.if_ = self.if_ & !((byte as u16) << 8);
        } else if o == 0x208 {
            self.ime = (self.ime & 0xFF00) | byte as u16;
        } else if o == 0x209 {
            self.ime = (self.ime & 0x00FF) | ((byte as u16) << 8);
        } else if 0x100 <= o && o <= 0x10F {
            let ch = ((o - 0x100) / 4) as usize;
            let k = (o - 0x100) % 4;
            let mut t = self.timers[ch];
            if k == 0 {
                t.reload = (t.reload & 0xFF00) | byte as u16;
            } else if k == 1 {
                t.reload = (t.reload & 0x00FF) | ((byte as u16) << 8);
            } else if k == 2 {
                let was_on = t.control & 0x80 != 0;
                t.control = (t.control & 0xFF00) | byte as u16;
                if t.control & 0x80 != 0 && !was_on {
                    t.counter = t.reload;
                    t.subcycle = 0;
                }
            } else {
                t.control = (t.control & 0x00FF) | ((byte as u16) << 8);
            }
            self.timers[ch] = t;
        } else {
            self.io.set(o as usize, byte);
            if o == 0xBB || o == 0xC7 || o == 0xD3 || o == 0xDF {
                let ghost mid = *self;
                self.start_dma(((o - 0xBB) / 12) as usize, depth);
                proof {
                    assert(mid == (GbaBus { io: mid.io, ..*old(self) }));
                    assert(mid.dma_started(&*self, dma_channel_of(o), depth));
                    assert(mid.dma_enable_effect(&*self, dma_channel_of(o)));
                }
            }
        }
    }

    /// The I/O halfword at `o`.
    pub open spec fn io16(&self, o: int) -> u16 {
        (self.io@[o] as u16) | ((self.io@[o + 1] as u16) << 8)
    }

    /// The I/O word at `o`.
    pub open spec fn io32(&self, o: int) -> u32 {
        (self.io@[o] as u32) | ((self.io@[o + 1] as u32) << 8) | ((self.io@[o + 2] as u32) << 16) | ((self.io@[o
            + 3] as u32) << 24)
    }

    /// The `width`-byte value (2 or 4) a DMA unit reads at `raddr`.
    pub open spec fn unit_value(&self, raddr: u32, width: u32) -> u32 {
        if width == 4 { self.read32_spec(raddr) } else { self.read16_spec(raddr) as u32 }
    }

    /// One unit copied by DMA: the `width`-byte value (2 or 4) at `raddr`
    /// stored at `waddr`, then `charge` cycles charged (saturating).
    pub open spec fn copy_unit(&self, after: &GbaBus, raddr: u32, waddr: u32, width: u32, charge: u64) -> bool {
        exists|mid: GbaBus|
            #![trigger self.stored(&mid, waddr, self.unit_value(raddr, width), width)]
            {
                &&& self.stored(&mid, waddr, self.unit_value(raddr, width), width)
                &&& mid.kept(after)
                &&& *after == (GbaBus { cycles: mid.cycles.saturating_add(charge), ..mid })
            }
    }

    /// The value an EEPROM DMA unit reads, with the backup chip after the
    /// read: the EEPROM's next serial bit when it is the source (`ee_src`),
    /// else the halfword at `raddr`.
    pub open spec fn ee_source(&self, raddr: u32, ee_src: bool) -> (u32, crate::save::SaveModel) {
        if ee_src {
            crate::save::read_bit_spec(self.save@)
        } else {
            (self.read16_spec(raddr) as u32, self.save@)
        }
    }

    /// One unit of a DMA transfer that involves the EEPROM: the value read
    /// (`ee_source`) goes into the EEPROM as a bit when that is the
    /// destination (`ee_dst`), else as a halfword at `waddr`; then `charge`
    /// cycles are charged.
    pub open spec fn ee_unit(
        &self,
        after: &GbaBus,
        raddr: u32,
        waddr: u32,
        ee_src: bool,
        ee_dst: bool,
        charge: u64,
    ) -> bool {
        exists|b1: GbaBus, mid: GbaBus|
            #![trigger b1.stored(&mid, waddr, self.ee_source(raddr, ee_src).0, 2)]
            #![trigger b1.save, mid.save]
            {
                &&& b1.save@ == self.ee_source(raddr, ee_src).1
                &&& b1 == (GbaBus { save: b1.save, ..*self })
                &&& if ee_dst {
                    &&& mid.save@ == crate::save::write_bit_spec(b1.save@, self.ee_source(raddr, ee_src).0 as u8)
                    &&& mid == (GbaBus { save: mid.save, ..b1 })
                } else {
                    &&& b1.stored(&mid, waddr, self.ee_source(raddr, ee_src).0, 2)
                    &&& mid.kept(after)
                }
                &&& *after == (GbaBus { cycles: mid.cycles.saturating_add(charge), ..mid })
            }
    }

    /// One unit of a DMA transfer from `src` to `dst`: an EEPROM unit when
    /// the EEPROM is involved, else a 32-bit (`word`) or 16-bit copy between
    /// the aligned addresses; the cycles charged are the unit's size.
    pub open spec fn dma_unit(&self, after: &GbaBus, word: bool, src: u32, dst: u32, ee_src: bool, ee_dst: bool) -> bool {
        let size: u64 = if word { 4 } else { 2 };
        if ee_src || ee_dst {
            self.ee_unit(after, src & 0xFFFF_FFFE, dst & 0xFFFF_FFFE, ee_src, ee_dst, size)
        } else if word {
            self.copy_unit(after, src & 0xFFFF_FFFC, dst & 0xFFFF_FFFC, 4, 4)
        } else {
            self.copy_unit(after, src & 0xFFFF_FFFE, dst & 0xFFFF_FFFE, 2, 2)
        }
    }

    /// `after` is this bus after DMA channel `ch` runs to completion. With
    /// the channel's control word (I/O 0xBA + 12 `ch`): 16- or 32-bit units
    /// (bit 10), the destination and source stepping (bits 5-6, 7-8: up,
    /// down, fixed, or up with reload), repeat (bit 9), IRQ at the end (bit
    /// 14) and start timing (bits 12-13). A transfer that touches region 0xD
    /// on an EEPROM cartridge first announces its length to the EEPROM. The
    /// latched count of units is copied one after another; then the latched
    /// source is where the source stepped to, the channel's IRQ is requested
    /// when asked for, and a repeating, not immediate, channel reloads its
    /// count (0 meaning the maximum) and, with reload stepping, its
    /// destination, while any other channel keeps its stepped destination
    /// and has its enable bit cleared.
    pub open spec fn dma_ran(&self, after: &GbaBus, ch: int) -> bool {
        let base = 0xB0 + ch * 12;
        let control = self.io16(base + 10);
        let size: u32 = if control & 0x400 != 0 { 4 } else { 2 };
        let dst_ctrl = (control >> 5) & 3;
        let src0 = self.dma_src[ch];
        let dst0 = self.dma_dst[ch];
        let ee_src = self.save.kind == crate::save::SaveKind::Eeprom && (src0 >> 24u32) == 0xD;
        let ee_dst = self.save.kind == crate::save::SaveKind::Eeprom && (dst0 >> 24u32) == 0xD;
        let count = self.dma_count[ch];
        exists|s: Seq<GbaBus>|
            #![trigger s.len()]
            {
                &&& s.len() == count + 1
                &&& if ee_src || ee_dst {
                    &&& s[0].save@ == crate::save::set_dma_len_spec(self.save@, count)
                    &&& s[0] == (GbaBus { save: s[0].save, ..*self })
                } else {
                    s[0] == *self
                }
                &&& forall|k: int|
                    0 <= k < count ==> #[trigger] s[k].dma_unit(
                        &s[k + 1],
                        word_units(control),
                        stepped(src0, (control >> 7) & 3, size, k as nat),
                        stepped(dst0, dst_ctrl, size, k as nat),
                        ee_src,
                        ee_dst,
                    )
                &&& dma_finished(s[count as int], *after, ch, control, stepped(src0, (control >> 7) & 3, size, count as nat),
                    stepped(dst0, dst_ctrl, size, count as nat))
            }
    }

    /// `after` is this bus after DMA channel `ch`'s enable byte is written
    /// with DMA nesting depth `depth` left: a disabled channel does nothing;
    /// an enabled one latches its source and destination (28 bits) and its
    /// count (0 meaning 0x4000, or 0x10000 for channel 3), and with
    /// immediate timing, while the depth allows, runs.
    pub open spec fn dma_started(&self, after: &GbaBus, ch: int, depth: u32) -> bool {
        let control = self.io16(0xB0 + ch * 12 + 10);
        if control & 0x8000 == 0 {
            *after == *self
        } else if (control >> 12) & 3 == 0 && depth > 0 {
            self.dma_latched(ch).dma_ran(after, ch)
        } else {
            *after == self.dma_latched(ch)
        }
    }

    /// This bus with DMA channel `ch`'s source and destination (28 bits)
    /// and count (0 meaning 0x4000, or 0x10000 for channel 3) latched from
    /// its registers.
    pub open spec fn dma_latched(&self, ch: int) -> GbaBus {
        let base = 0xB0 + ch * 12;
        let cl = self.io16(base + 8) as u32;
        let max: u32 = if ch == 3 { 0x1_0000 } else { 0x4000 };
        GbaBus {
            dma_src: vstd::array::spec_array_update(self.dma_src, ch, self.io32(base) & 0x0FFF_FFFF),
            dma_dst: vstd::array::spec_array_update(self.dma_dst, ch, self.io32(base + 4) & 0x0FFF_FFFF),
            dma_count: vstd::array::spec_array_update(self.dma_count, ch, if cl == 0 { max } else { cl }),
            ..*self
        }
    }

    /// `after` is this bus after DMA channel `ch`'s enable byte is written,
    /// as a store states it: a disabled channel does nothing; an enabled
    /// one latches its registers (`dma_latched`), and with immediate timing
    /// then runs, of which a store states what every transfer keeps
    /// (`dma_started` states the run itself).
    pub open spec fn dma_enable_effect(&self, after: &GbaBus, ch: int) -> bool {
        let control = self.io16(0xB0 + ch * 12 + 10);
        if control & 0x8000 == 0 {
            *after == *self
        } else if (control >> 12) & 3 == 0 {
            self.dma_latched(ch).kept(after)
        } else {
            *after == self.dma_latched(ch)
        }
    }

    /// Whether channel `ch` of this bus is enabled with start timing
    /// `timing`.
    pub open spec fn dma_due(&self, ch: int, timing: u16) -> bool {
        let control = self.io16(0xB0 + ch * 12 + 10);
        control & 0x8000 != 0 && (control >> 12) & 3 == timing
    }

    /// `after` is this bus after each channel in turn that is enabled with
    /// start timing `timing` (as it stands when its turn comes) runs.
    pub open spec fn dma_timing_ran(&self, after: &GbaBus, timing: u16) -> bool {
        exists|s: Seq<GbaBus>|
            #![trigger s.len()]
            {
                &&& s.len() == 5
                &&& s[0] == *self
                &&& s[4] == *after
                &&& forall|c: int|
                    0 <= c < 4 ==> if #[trigger] s[c].dma_due(c, timing) {
                        s[c].dma_ran(&s[c + 1], c)
                    } else {
                        s[c + 1] == s[c]
                    }
            }
    }

    /// Where DMA channel `ch` (1 or 2) of this bus feeds a sound FIFO, and
    /// whether it asks to now: enabled in sound-FIFO timing, its destination
    /// (27 bits) FIFO A's or FIFO B's port, and that FIFO holding 16 samples
    /// or fewer.
    pub open spec fn fifo_request(&self, ch: int) -> (bool, u32) {
        let base = 0xB0 + ch * 12;
        let control = self.io16(base + 10);
        let dst = self.io32(base + 4) & 0x07FF_FFFF;
        let level = if dst == 0x0400_00A0 { self.apu.fifo_a.len } else { self.apu.fifo_b.len };
        (control & 0x8000 != 0 && (control >> 12) & 3 == 3 && (dst == 0x0400_00A0 || dst == 0x0400_00A4) && level
            <= 16, dst)
    }

    /// `after` is this bus after DMA1 and then DMA2 serve their sound-FIFO
    /// requests.
    pub open spec fn fifos_refilled(&self, after: &GbaBus) -> bool {
        exists|s: Seq<GbaBus>|
            #![trigger s.len()]
            {
                &&& s.len() == 3
                &&& s[0] == *self
                &&& s[2] == *after
                &&& forall|j: int|
                    0 <= j < 2 ==> if (#[trigger] s[j].fifo_request(j + 1)).0 {
                        s[j].sound_dma_ran(&s[j + 1], j + 1, s[j].fifo_request(j + 1).1)
                    } else {
                        s[j + 1] == s[j]
                    }
            }
    }

    /// `after` is this bus after one sound-FIFO request of DMA channel `ch`
    /// into the port `dst`: four words copied from the latched source,
    /// stepping it by the control word's source stepping, to `dst`; then the
    /// latched source is where it stepped to and the channel's IRQ is
    /// requested when its control word asks for it.
    pub open spec fn sound_dma_ran(&self, after: &GbaBus, ch: int, dst: u32) -> bool {
        let control = self.io16(0xB0 + ch * 12 + 10);
        let src_ctrl = (control >> 7) & 3;
        let src0 = self.dma_src[ch];
        exists|s: Seq<GbaBus>|
            #![trigger s.len()]
            {
                &&& s.len() == 5
                &&& s[0] == (GbaBus { dbg_fifo_refills: self.dbg_fifo_refills.saturating_add(1), ..*self })
                &&& forall|k: int|
                    0 <= k < 4 ==> #[trigger] s[k].copy_unit(
                        &s[k + 1],
                        stepped(src0, src_ctrl, 4, k as nat) & 0xFFFF_FFFC,
                        dst,
                        4,
                        4,
                    )
                &&& *after == (GbaBus {
                    dma_src: vstd::array::spec_array_update(s[4].dma_src, ch, stepped(src0, src_ctrl, 4, 4)),
                    if_: if control & 0x4000 != 0 { s[4].if_ | (1u16 << ((8 + ch) as u16)) } else { s[4].if_ },
                    ..s[4]
                })
            }
    }

    /// Latch a DMA channel's registers when its enable bit is set, running
    /// it at once when its timing is "immediate".
    fn start_dma(&mut self, ch: usize, depth: u32)
        requires
            old(self).wf(),
            ch < 4,
        ensures
            old(self).kept(&*final(self)),
            old(self).dma_started(&*final(self), ch as int, depth),
        decreases depth, 3int,
    {
        let base = 0xB0 + (ch as u32) * 12;
        let control = self.io_u16(base + 10);
        if control & 0x8000 == 0 {
            return;
        }
        let s = self.io_u32(base) & 0x0FFF_FFFF;
        let d = self.io_u32(base + 4) & 0x0FFF_FFFF;
        let cl = self.io_u16(base + 8) as u32;
        let ghost pre = *self;
        self.dma_src[ch] = s;
        self.dma_dst[ch] = d;
        let max: u32 = if ch == 3 { 0x1_0000 } else { 0x4000 };
        self.dma_count[ch] = if cl == 0 { max } else { cl };
        proof {
            broadcast use vstd::array::group_array_axioms;
            assert(self.dma_src =~= vstd::array::spec_array_update(pre.dma_src, ch as int, s));
            assert(self.dma_dst =~= vstd::array::spec_array_update(pre.dma_dst, ch as int, d));
            assert(self.dma_count =~= vstd::array::spec_array_update(pre.dma_count, ch as int, if cl == 0 { max } else { cl }));
        }
        if (control >> 12) & 3 == 0 && depth > 0 {
            self.run_dma(ch, depth);
        }
    }

    /// One unit of a DMA transfer from `src` to `dst`.
    fn dma_step(&mut self, word: bool, src: u32, dst: u32, ee_src: bool, ee_dst: bool, depth: u32)
        requires
            old(self).wf(),
            depth > 0,
        ensures
            old(self).kept(&*final(self)),
            old(self).dma_unit(&*final(self), word, src, dst, ee_src, ee_dst),
        decreases depth, 1int,
    {
        if ee_src || ee_dst {
            let size: u64 = if word { 4 } else { 2 };
            self.ee_step(src & 0xFFFF_FFFE, dst & 0xFFFF_FFFE, ee_src, ee_dst, size, depth);
        } else if word {
            self.copy_step(src & 0xFFFF_FFFC, dst & 0xFFFF_FFFC, 4, depth);
        } else {
            self.copy_step(src & 0xFFFF_FFFE, dst & 0xFFFF_FFFE, 2, depth);
        }
    }

    /// Copy one `width`-byte unit (2 or 4) from `raddr` to `waddr`, the store
    /// nesting DMA at most `depth - 1` deep, and charge `width` cycles.
    fn copy_step(&mut self, raddr: u32, waddr: u32, width: u32, depth: u32)
        requires
            old(self).wf(),
            width == 2 || width == 4,
            depth > 0,
        ensures
            old(self).kept(&*final(self)),
            old(self).copy_unit(&*final(self), raddr, waddr, width, width as u64),
        decreases depth, 0int,
    {
        let v: u32 = if width == 4 {
            self.read32_raw(raddr)
        } else {
            self.read16_raw(raddr) as u32
        };
        self.write(waddr, v, width, depth - 1);
        let ghost mid = *self;
        self.cycles = self.cycles.saturating_add(width as u64);
        proof {
            assert(v == old(self).unit_value(raddr, width));
            assert(old(self).stored(&mid, waddr, old(self).unit_value(raddr, width), width));
            assert(mid.kept(&*self));
        }
    }

    /// One DMA unit involving the EEPROM (see `ee_unit`).
    fn ee_step(&mut self, raddr: u32, waddr: u32, ee_src: bool, ee_dst: bool, charge: u64, depth: u32)
        requires
            old(self).wf(),
            depth > 0,
        ensures
            old(self).kept(&*final(self)),
            old(self).ee_unit(&*final(self), raddr, waddr, ee_src, ee_dst, charge),
        decreases depth, 0int,
    {
        let v: u32 = if ee_src {
            self.save.eeprom_read_bit() as u32
        } else {
            self.read16_raw(raddr) as u32
        };
        let ghost b1 = *self;
        if ee_dst {
            self.save.eeprom_write_bit(v as u8);
        } else {
            self.write(waddr, v, 2, depth - 1);
        }
        let ghost mid = *self;
        self.cycles = self.cycles.saturating_add(charge);
        proof {
            let src = old(self).ee_source(raddr, ee_src);
            assert(src.0 == v);
            assert(b1.save@ == src.1);
            assert(b1 == (GbaBus { save: b1.save, ..*old(self) }));
            if ee_dst {
                assert(mid.save@ == crate::save::write_bit_spec(b1.save@, v as u8));
                assert(mid == (GbaBus { save: mid.save, ..b1 }));
            } else {
                assert(b1.stored(&mid, waddr, src.0, 2));
                assert(mid.kept(&*self));
            }
            assert(*self == (GbaBus { cycles: mid.cycles.saturating_add(charge), ..mid }));
        }
    }

    /// Run DMA channel `ch` to completion: `dma_count` units of 16 or 32
    /// bits, the addresses stepping by the control bits (up, down, fixed, or
    /// up with destination reload on repeat). A transfer touching the EEPROM
    /// region drives the EEPROM bit-serially, its length announced first.
    #[verifier::spinoff_prover]
    #[verifier::rlimit(40)]
    fn run_dma(&mut self, ch: usize, depth: u32)
        requires
            old(self).wf(),
            ch < 4,
            depth > 0,
        ensures
            old(self).kept(&*final(self)),
            old(self).dma_ran(&*final(self), ch as int),
        decreases depth, 2int,
    {
        let base = 0xB0 + (ch as u32) * 12;
        let control = self.io_u16(base + 10);
        let word = control & 0x400 != 0;
        let size: u32 = if word { 4 } else { 2 };
        let dst_ctrl = (control >> 5) & 3;
        let src_ctrl = (control >> 7) & 3;
        let mut src = self.dma_src[ch];
        let mut dst = self.dma_dst[ch];
        let ghost src0 = src;
        let ghost dst0 = dst;
        let ee_src = self.save.is_eeprom() && (src >> 24) == 0xD;
        let ee_dst = self.save.is_eeprom() && (dst >> 24) == 0xD;
        if ee_src || ee_dst {
            self.save.eeprom_set_dma_len(self.dma_count[ch]);
        }
        let count = self.dma_count[ch];
        let ghost s0 = *self;
        let ghost mut states: Seq<GbaBus> = seq![*self];
        let mut n: u32 = 0;
        while n < count
            invariant
                n <= count,
                self.wf(),
                old(self).kept(&*self),
                depth > 0,
                ch < 4,
                size == (if word { 4u32 } else { 2u32 }),
                word == word_units(control),
                states.len() == n + 1,
                states[0] == s0,
                states[n as int] == *self,
                src == stepped(src0, src_ctrl, size, n as nat),
                dst == stepped(dst0, dst_ctrl, size, n as nat),
                forall|k: int|
                    0 <= k < n ==> #[trigger] states[k].dma_unit(
                        &states[k + 1],
                        word_units(control),
                        stepped(src0, src_ctrl, size, k as nat),
                        stepped(dst0, dst_ctrl, size, k as nat),
                        ee_src,
                        ee_dst,
                    ),
            decreases count - n,
        {
            self.dma_step(word, src, dst, ee_src, ee_dst, depth);
            proof {
                states = states.push(*self);
            }
            src = step_addr(src, src_ctrl, size);
            dst = step_addr(dst, dst_ctrl, size);
            n = n + 1;
        }
        let ghost b = *self;
        self.dma_src[ch] = src;
        if control & 0x4000 != 0 {
            self.if_ = self.if_ | (1u16 << ((8 + ch) as u16));
        }
        let repeat = control & 0x200 != 0 && (control >> 12) & 3 != 0;
        if repeat {
            let cl = self.io_u16(base + 8) as u32;
            let max: u32 = if ch == 3 { 0x1_0000 } else { 0x4000 };
            self.dma_count[ch] = if cl == 0 { max } else { cl };
            self.dma_dst[ch] = if dst_ctrl == 3 { self.io_u32(base + 4) & 0x0FFF_FFFF } else { dst };
        } else {
            self.dma_dst[ch] = dst;
            let cleared = control & 0x7FFF;
            self.io.set((base + 10) as usize, cleared as u8);
            self.io.set((base + 11) as usize, (cleared >> 8) as u8);
        }
        proof {
            broadcast use vstd::array::group_array_axioms;
            assert(self.dma_src =~= vstd::array::spec_array_update(b.dma_src, ch as int, src));
            if repeat {
                let cl = b.io16(base + 8) as u32;
                let max: u32 = if ch == 3 { 0x1_0000 } else { 0x4000 };
                assert(self.dma_count =~= vstd::array::spec_array_update(b.dma_count, ch as int, if cl == 0 { max } else { cl }));
                assert(self.dma_dst =~= vstd::array::spec_array_update(
                    b.dma_dst,
                    ch as int,
                    if (control >> 5) & 3 == 3 { b.io32(base + 4) & 0x0FFF_FFFF } else { dst },
                ));
            } else {
                assert(self.dma_dst =~= vstd::array::spec_array_update(b.dma_dst, ch as int, dst));
                let cleared = control & 0x7FFF;
                assert(self.io@ =~= b.io@.update(base + 10, cleared as u8).update(base + 11, (cleared >> 8u16) as u8));
            }
            assert(dma_finished(b, *self, ch as int, control, src, dst));
            assert(states.len() == count + 1);
        }
    }

    /// Run the enabled DMA channels whose start timing is `timing`
    /// (1 = V-blank, 2 = H-blank).
    pub fn trigger_dma(&mut self, timing: u16)
        requires
            old(self).wf(),
        ensures
            old(self).kept(&*final(self)),
            old(self).dma_timing_ran(&*final(self), timing),
    {
        let ghost mut states: Seq<GbaBus> = seq![*self];
        let mut ch: usize = 0;
        while ch < 4
            invariant
                ch <= 4,
                self.wf(),
                old(self).kept(&*self),
                states.len() == ch + 1,
                states[0] == *old(self),
                states[ch as int] == *self,
                forall|c: int|
                    0 <= c < ch ==> if #[trigger] states[c].dma_due(c, timing) {
                        states[c].dma_ran(&states[c + 1], c)
                    } else {
                        states[c + 1] == states[c]
                    },
            decreases 4 - ch,
        {
            let control = self.io_u16(0xB0 + (ch as u32) * 12 + 10);
            if control & 0x8000 != 0 && (control >> 12) & 3 == timing {
                self.run_dma(ch, DMA_DEPTH);
            }
            proof {
                states = states.push(*self);
            }
            ch = ch + 1;
        }
        proof {
            assert(states.len() == 5);
        }
    }

    /// Top up the Direct Sound FIFOs: DMA1 / DMA2 in sound-FIFO timing feed
    /// FIFO A / B (by their destination) four words at a time whenever the
    /// FIFO holds 16 bytes or fewer.
    pub fn refill_fifos(&mut self)
        requires
            old(self).wf(),
        ensures
            old(self).kept(&*final(self)),
            old(self).fifos_refilled(&*final(self)),
    {
        let ghost mut states: Seq<GbaBus> = seq![*self];
        let mut ch: usize = 1;
        while ch <= 2
            invariant
                1 <= ch <= 3,
                self.wf(),
                old(self).kept(&*self),
                states.len() == ch,
                states[0] == *old(self),
                states[ch - 1] == *self,
                forall|j: int|
                    0 <= j < ch - 1 ==> if (#[trigger] states[j].fifo_request(j + 1)).0 {
                        states[j].sound_dma_ran(&states[j + 1], j + 1, states[j].fifo_request(j + 1).1)
                    } else {
                        states[j + 1] == states[j]
                    },
            decreases 3 - ch,
        {
            let base = 0xB0 + (ch as u32) * 12;
            let control = self.io_u16(base + 10);
            if control & 0x8000 != 0 && (control >> 12) & 3 == 3 {
                let dst = self.io_u32(base + 4) & 0x07FF_FFFF;
                if dst == 0x0400_00A0 || dst == 0x0400_00A4 {
                    let level = if dst == 0x0400_00A0 { self.apu.fifo_a_len() } else { self.apu.fifo_b_len() };
                    if level <= 16 {
                        self.run_sound_dma(ch, dst);
                    }
                }
            }
            proof {
                states = states.push(*self);
            }
            ch = ch + 1;
        }
        proof {
            assert(states.len() == 3);
        }
    }

    /// One FIFO request: four words from the channel's source into the FIFO
    /// port.
    fn run_sound_dma(&mut self, ch: usize, dst: u32)
        requires
            old(self).wf(),
            ch < 4,
        ensures
            old(self).kept(&*final(self)),
            old(self).sound_dma_ran(&*final(self), ch as int, dst),
    {
        self.dbg_fifo_refills = self.dbg_fifo_refills.saturating_add(1);
        let base = 0xB0 + (ch as u32) * 12;
        let control = self.io_u16(base + 10);
        let src_ctrl = (control >> 7) & 3;
        let mut src = self.dma_src[ch];
        let ghost src0 = src;
        let ghost mut states: Seq<GbaBus> = seq![*self];
        let mut k: u32 = 0;
        while k < 4
            invariant
                k <= 4,
                self.wf(),
                old(self).kept(&*self),
                ch < 4,
                states.len() == k + 1,
                states[0] == (GbaBus { dbg_fifo_refills: old(self).dbg_fifo_refills.saturating_add(1), ..*old(self) }),
                states[k as int] == *self,
                src == stepped(src0, src_ctrl, 4, k as nat),
                forall|j: int|
                    0 <= j < k ==> #[trigger] states[j].copy_unit(
                        &states[j + 1],
                        stepped(src0, src_ctrl, 4, j as nat) & 0xFFFF_FFFC,
                        dst,
                        4,
                        4,
                    ),
            decreases 4 - k,
        {
            self.copy_step(src & 0xFFFF_FFFC, dst, 4, DMA_DEPTH + 1);
            proof {
                states = states.push(*self);
            }
            src = step_addr(src, src_ctrl, 4);
            k = k + 1;
        }
        let ghost b = *self;
        self.dma_src[ch] = src;
        if control & 0x4000 != 0 {
            self.if_ = self.if_ | (1u16 << ((8 + ch) as u16));
        }
        proof {
            broadcast use vstd::array::group_array_axioms;
            assert(self.dma_src =~= vstd::array::spec_array_update(b.dma_src, ch as int, src));
            assert(states.len() == 5);
        }
    }
}

/// The DMA channel whose high control byte sits at I/O offset `o`.
pub open spec fn dma_channel_of(o: u32) -> int {
    ((o - 0xBB) / 12) as int
}

/// Whether a DMA control word asks for 32-bit units (bit 10).
pub open spec fn word_units(control: u16) -> bool {
    control & 0x400 != 0
}

/// An address stepped `k` times as DMA steps it.
pub open spec fn stepped(a: u32, ctrl: u16, size: u32, k: nat) -> u32
    decreases k,
{
    if k == 0 {
        a
    } else {
        let b = stepped(a, ctrl, size, (k - 1) as nat);
        if ctrl == 1 { b.wrapping_sub(size) } else if ctrl == 2 { b } else { b.wrapping_add(size) }
    }
}

/// The channel's registers after its units are copied (`b` is the bus then,
/// `src` and `dst` where the addresses stepped to).
pub open spec fn dma_finished(b: GbaBus, after: GbaBus, ch: int, control: u16, src: u32, dst: u32) -> bool {
    let base = 0xB0 + ch * 12;
    let if_ = if control & 0x4000 != 0 { b.if_ | (1u16 << ((8 + ch) as u16)) } else { b.if_ };
    let max: u32 = if ch == 3 { 0x1_0000 } else { 0x4000 };
    let cl = b.io16(base + 8) as u32;
    if control & 0x200 != 0 && (control >> 12) & 3 != 0 {
        after == (GbaBus {
            dma_src: vstd::array::spec_array_update(b.dma_src, ch, src),
            if_,
            dma_count: vstd::array::spec_array_update(b.dma_count, ch, if cl == 0 { max } else { cl }),
            dma_dst: vstd::array::spec_array_update(
                b.dma_dst,
                ch,
                if (control >> 5) & 3 == 3 { b.io32(base + 4) & 0x0FFF_FFFF } else { dst },
            ),
            ..b
        })
    } else {
        let cleared = control & 0x7FFF;
        &&& after.io@ == b.io@.update(base + 10, cleared as u8).update(base + 11, (cleared >> 8u16) as u8)
        &&& after == (GbaBus {
            dma_src: vstd::array::spec_array_update(b.dma_src, ch, src),
            if_,
            dma_dst: vstd::array::spec_array_update(b.dma_dst, ch, dst),
            io: after.io,
            ..b
        })
    }
}

/// The next DMA address: down (1), fixed (2), or up (0, 3) by `size`.
fn step_addr(a: u32, ctrl: u16, size: u32) -> (r: u32)
    ensures
        r == if ctrl == 1 { a.wrapping_sub(size) } else if ctrl == 2 { a } else { a.wrapping_add(size) },
{
    if ctrl == 1 {
        a.wrapping_sub(size)
    } else if ctrl == 2 {
        a
    } else {
        a.wrapping_add(size)
    }
}

/// A timer counter advanced by `ticks`, reloading on overflow: the new
/// counter and how many times it overflowed. After the first overflow the
/// counter runs from `reload`, so each further one takes `0x10000 - reload`
/// ticks.
pub open spec fn timer_add_spec(counter: u16, reload: u16, ticks: u64) -> (u16, u64) {
    let val = counter as int + ticks as int;
    if val <= 0xFFFF {
        (val as u16, 0)
    } else {
        let period = 0x1_0000 - reload as int;
        let extra = val - 0x1_0000;
        ((reload as int + extra % period) as u16, (1 + extra / period) as u64)
    }
}

/// A timer after `delta` cycles (or, counting up, after `prev` overflows of
/// the timer before it), with how often it overflowed: a stopped timer stays
/// as it is; a running one counts prescaled cycles, keeping the remainder.
pub open spec fn timer_stepped(t: Timer, count_up: bool, delta: u32, prev: u64) -> (Timer, u64) {
    if t.control & 0x80 == 0 {
        (t, 0)
    } else if count_up {
        let (c, o) = timer_add_spec(t.counter, t.reload, prev);
        (Timer { counter: c, ..t }, o)
    } else {
        let acc = t.subcycle as int + delta as int;
        let (c, o) = timer_add_spec(t.counter, t.reload, (acc / prescaler_spec(t.control)) as u64);
        (Timer { counter: c, subcycle: (acc % prescaler_spec(t.control)) as u32, ..t }, o)
    }
}

/// The first `n` timers of `ts` after `delta` cycles, in order (a timer
/// 1-3 in count-up mode takes the overflows of the one before it), with the
/// overflows of the last of them and the interrupt bits (3 + timer) that
/// overflows with the IRQ bit set request.
pub open spec fn timers_stepped(ts: Seq<Timer>, delta: u32, n: nat) -> (Seq<Timer>, u64, u16)
    decreases n,
{
    if n == 0 {
        (Seq::empty(), 0, 0)
    } else {
        let prev = timers_stepped(ts, delta, (n - 1) as nat);
        let t = ts[n - 1];
        let (t2, o) = timer_stepped(t, n - 1 > 0 && t.control & 4 != 0, delta, prev.1);
        let bit: u16 = if o > 0 && t.control & 0x40 != 0 { 1u16 << ((3 + n - 1) as u16) } else { 0 };
        (prev.0.push(t2), o, prev.2 | bit)
    }
}

proof fn lemma_or_regroup(a: u16, b: u16, c: u16)
    by (bit_vector)
    ensures
        (a | b) | c == a | (b | c),
        a | 0u16 == a,
{
}

fn timer_add(counter: &mut u16, reload: u16, ticks: u64) -> (overflows: u64)
    requires
        ticks <= 0x100_0000_0000,
    ensures
        (*final(counter), overflows) == timer_add_spec(*old(counter), reload, ticks),
        overflows <= 1 + ticks,
{
    if ticks == 0 {
        return 0;
    }
    let val = *counter as u64 + ticks;
    if val <= 0xFFFF {
        *counter = val as u16;
        return 0;
    }
    let period = 0x1_0000 - reload as u64;
    let extra = val - 0x1_0000;
    proof {
        vstd::arithmetic::div_mod::lemma_mod_bound(extra as int, period as int);
        vstd::arithmetic::div_mod::lemma_div_is_ordered_by_denominator(extra as int, 1, period as int);
    }
    *counter = (reload as u64 + extra % period) as u16;
    1 + extra / period
}

/// The overflow period in cycles of a running timer: `0x10000 - reload`
/// ticks of its prescaler (1, 64, 256 or 1024 cycles).
pub open spec fn timer_period_spec(t: Timer) -> u32 {
    ((0x1_0000 - t.reload as int) * prescaler_spec(t.control)) as u32
}

pub open spec fn prescaler_spec(control: u16) -> int {
    let p = control & 3;
    if p == 0 {
        1
    } else if p == 1 {
        64
    } else if p == 2 {
        256
    } else {
        1024
    }
}

/// A running timer that does not count up ticks once every 1, 64, 256 or
/// 1024 cycles for prescaler field 0, 1, 2 or 3: over a step of `delta`
/// cycles it takes `k` ticks, where `k` whole periods and the leftover it
/// keeps (less than one period) make up the cycles it had banked plus
/// `delta`; the counter then moves on by those `k` ticks (reloading on each
/// overflow), and when it does not pass 0xFFFF it simply goes up by `k`.
pub proof fn lemma_timer_prescaler(t: Timer, delta: u32, prev: u64)
    requires
        t.control & 0x80 != 0,
    ensures
        ({
            let p = t.control & 3;
            let period: int = if p == 0 { 1 } else if p == 1 { 64 } else if p == 2 { 256 } else { 1024 };
            let (t2, o) = timer_stepped(t, false, delta, prev);
            let k = (t.subcycle as int + delta as int) / period;
            &&& period * k + t2.subcycle == t.subcycle as int + delta as int
            &&& 0 <= t2.subcycle < period
            &&& (t2.counter, o) == timer_add_spec(t.counter, t.reload, k as u64)
            &&& (t.counter as int + k <= 0xFFFF ==> t2.counter == t.counter + k && o == 0)
            &&& t2.reload == t.reload && t2.control == t.control
        }),
{
    let p = t.control & 3;
    let period: int = if p == 0 { 1 } else if p == 1 { 64 } else if p == 2 { 256 } else { 1024 };
    assert(prescaler_spec(t.control) == period);
    let acc = t.subcycle as int + delta as int;
    vstd::arithmetic::div_mod::lemma_fundamental_div_mod(acc, period);
    vstd::arithmetic::div_mod::lemma_mod_bound(acc, period);
    assert(acc / period <= acc) by {
        vstd::arithmetic::div_mod::lemma_div_is_ordered_by_denominator(acc, 1, period);
    }
}

fn prescaler(control: u16) -> (p: u64)
    ensures
        p == prescaler_spec(control),
        1 <= p <= 1024,
{
    let k = control & 3;
    if k == 0 {
        1
    } else if k == 1 {
        64
    } else if k == 2 {
        256
    } else {
        1024
    }
}

impl GbaBus {
    /// Advance the four timers by the cycles elapsed since the last call:
    /// each running timer counts prescaled cycles, or (count-up, timers 1-3)
    /// the overflows of the timer before it; an overflow with the IRQ bit set
    /// requests timer interrupt `3 + ch`.
    #[verifier::spinoff_prover]
    #[verifier::rlimit(40)]
    pub fn step_timers(&mut self)
        requires
            old(self).wf(),
        ensures
            old(self).timers_advanced(*final(self)),
            final(self).wf(),
            final(self).timer_cycles == old(self).cycles,
            final(self).log == old(self).log,
            final(self).cycles == old(self).cycles,
            final(self).ie == old(self).ie && final(self).ime == old(self).ime,
            final(self).if_ & old(self).if_ == old(self).if_,
            final(self).if_ & !0x0078u16 == old(self).if_ & !0x0078u16,
            forall|ch: int| 0 <= ch < 4 ==> #[trigger] final(self).timers[ch].reload == old(self).timers[ch].reload
                && final(self).timers[ch].control == old(self).timers[ch].control,
            forall|ch: int|
                0 <= ch < 4 && old(self).timers[ch].control & 0x80 == 0 ==> #[trigger] final(self).timers[ch]
                    == old(self).timers[ch],
            final(self).timers@ == timers_stepped(
                old(self).timers@,
                old(self).cycles.wrapping_sub(old(self).timer_cycles) as u32,
                4,
            ).0,
            final(self).if_ == old(self).if_ | timers_stepped(
                old(self).timers@,
                old(self).cycles.wrapping_sub(old(self).timer_cycles) as u32,
                4,
            ).2,
            ({
                let t = old(self).timers[0];
                let delta = (old(self).cycles.wrapping_sub(old(self).timer_cycles) as u32) as int;
                let ticks = (t.subcycle as int + delta) / prescaler_spec(t.control);
                t.control & 0x80 != 0 ==> {
                    &&& final(self).timers[0].subcycle == (t.subcycle as int + delta) % prescaler_spec(t.control)
                    &&& final(self).timers[0].counter == timer_add_spec(t.counter, t.reload, ticks as u64).0
                    &&& (timer_add_spec(t.counter, t.reload, ticks as u64).1 > 0 && t.control & 0x40 != 0)
                        ==> final(self).if_ & 0x0008 != 0
                }
            }),
    {
        let delta = self.cycles.wrapping_sub(self.timer_cycles) as u32;
        let ghost orig_if: u16 = self.if_;
        proof {
            crate::bits::lemma_u16_bits(orig_if, 0);
        }
        self.timer_cycles = self.cycles;
        let mut prev_overflows: u64 = 0;
        let mut ch: usize = 0;
        while ch < 4
            invariant
                ch <= 4,
                self.wf(),
                self.timer_cycles == old(self).cycles,
                *self == (GbaBus { timers: self.timers, if_: self.if_, timer_cycles: self.timer_cycles, ..*old(self) }),
                self.log == old(self).log,
                self.cycles == old(self).cycles,
                self.ie == old(self).ie && self.ime == old(self).ime,
                orig_if == old(self).if_,
                self.if_ & orig_if == orig_if,
                self.if_ & !0x0078u16 == orig_if & !0x0078u16,
                delta == old(self).cycles.wrapping_sub(old(self).timer_cycles) as u32,
                prev_overflows <= 0x2_0000_0000 + 2 * ch,
                timers_stepped(old(self).timers@, delta, ch as nat).0.len() == ch,
                prev_overflows == timers_stepped(old(self).timers@, delta, ch as nat).1,
                self.if_ == orig_if | timers_stepped(old(self).timers@, delta, ch as nat).2,
                forall|c: int|
                    0 <= c < ch ==> self.timers[c] == #[trigger] timers_stepped(old(self).timers@, delta, ch as nat).0[c],
                forall|c: int| 0 <= c < 4 ==> #[trigger] self.timers[c].reload == old(self).timers[c].reload
                    && self.timers[c].control == old(self).timers[c].control,
                forall|c: int| ch <= c < 4 ==> #[trigger] self.timers[c] == old(self).timers[c],
                forall|c: int|
                    0 <= c < 4 && old(self).timers[c].control & 0x80 == 0 ==> #[trigger] self.timers[c] == old(
                        self,
                    ).timers[c],
                ch >= 1 ==> ({
                    let t = old(self).timers[0];
                    let ticks = (t.subcycle as int + delta as int) / prescaler_spec(t.control);
                    t.control & 0x80 != 0 ==> {
                        &&& self.timers[0].subcycle == (t.subcycle as int + delta as int) % prescaler_spec(t.control)
                        &&& self.timers[0].counter == timer_add_spec(t.counter, t.reload, ticks as u64).0
                        &&& (timer_add_spec(t.counter, t.reload, ticks as u64).1 > 0 && t.control & 0x40 != 0)
                            ==> self.if_ & 0x0008 != 0
                    }
                }),
            decreases 4 - ch,
        {
            let ghost before_if = self.if_;
            let ghost prev = timers_stepped(old(self).timers@, delta, ch as nat);
            let ghost next = timers_stepped(old(self).timers@, delta, (ch + 1) as nat);
            let mut t = self.timers[ch];
            let ctrl = t.control;
            proof {
                assert(t == old(self).timers@[ch as int]);
                lemma_or_regroup(orig_if, prev.2, 0);
                lemma_or_regroup(prev.2, 0, 0);
            }
            if ctrl & 0x80 == 0 {
                prev_overflows = 0;
            } else {
                let ticks: u64 = if ch > 0 && ctrl & 4 != 0 {
                    prev_overflows
                } else {
                    let period = prescaler(ctrl);
                    let acc = t.subcycle as u64 + delta as u64;
                    let q = acc / period;
                    let r = acc % period;
                    proof {
                        vstd::arithmetic::div_mod::lemma_mod_bound(acc as int, period as int);
                        vstd::arithmetic::div_mod::lemma_div_is_ordered_by_denominator(acc as int, 1, period as int);
                    }
                    t.subcycle = r as u32;
                    q
                };
                let overflows = timer_add(&mut t.counter, t.reload, ticks);
                self.timers[ch] = t;
                if overflows > 0 && ctrl & 0x40 != 0 {
                    let bit: u16 = 1u16 << ((3 + ch) as u16);
                    let old_if = self.if_;
                    self.if_ = self.if_ | bit;
                    let sh: u16 = (3 + ch) as u16;
                    assert(bit == 1u16 << sh);
                    assert({
                        &&& (old_if | bit) & !0x0078u16 == orig_if & !0x0078u16
                        &&& (old_if | bit) & orig_if == orig_if
                        &&& (old_if & 0x0008 != 0 ==> (old_if | bit) & 0x0008 != 0)
                        &&& (sh == 3 ==> (old_if | bit) & 0x0008 != 0)
                    }) by (bit_vector)
                        requires
                            3 <= sh < 7,
                            bit == 1u16 << sh,
                            old_if & !0x0078u16 == orig_if & !0x0078u16,
                            old_if & orig_if == orig_if,
                    ;
                }
                prev_overflows = overflows;
                proof {
                    let bit: u16 = if overflows > 0 && ctrl & 0x40 != 0 { 1u16 << ((3 + ch) as u16) } else { 0 };
                    lemma_or_regroup(orig_if, prev.2, bit);
                }
            }
            proof {
                assert(next.0 == prev.0.push(next.0[ch as int]));
            }
            ch = ch + 1;
        }
        proof {
            assert(self.timers@ =~= timers_stepped(old(self).timers@, delta, 4).0);
            assert forall|c: int| 0 <= c < 4 implies #[trigger] self.timers[c].reload == old(self).timers[c].reload
                && self.timers[c].control == old(self).timers[c].control by {
                assert(self.timers[c].reload == old(self).timers[c].reload);
            }
        }
    }

    /// The overflow period (in cycles) of timer `ch`, or `None` when it is
    /// stopped or counting up.
    pub fn ds_timer_period(&self, ch: usize) -> (p: Option<u32>)
        requires
            ch < 4,
        ensures
            p == self.ds_period(ch as int),
            ({
                let t = self.timers[ch as int];
                if t.control & 0x80 == 0 || (ch > 0 && t.control & 4 != 0) {
                    p is None
                } else {
                    p == Some(timer_period_spec(t))
                }
            }),
    {
        let t = self.timers[ch];
        if t.control & 0x80 == 0 || (ch > 0 && t.control & 4 != 0) {
            return None;
        }
        let pre = prescaler(t.control);
        let ticks = 0x1_0000 - t.reload as u64;
        assert(ticks * pre <= 0x1_0000 * 1024) by (nonlinear_arith)
            requires
                ticks <= 0x1_0000,
                pre <= 1024,
        ;
        Some((ticks * pre) as u32)
    }

    /// Whether the CPU should take an interrupt: IME on and some enabled
    /// source requesting (the CPU still gates on its own I bit).
    pub fn irq_pending(&self) -> (b: bool)
        ensures
            b == (self.ime & 1 != 0 && self.ie & self.if_ != 0),
    {
        self.ime & 1 != 0 && (self.ie & self.if_) != 0
    }

    /// `after` is this bus with the LCD interrupts for `line` raised per
    /// DISPSTAT's enable bits: V-blank on line 160, H-blank on every line,
    /// V-counter on a match.
    pub open spec fn lcd_irqs_raised(self, after: GbaBus, line: u16) -> bool {
        let stat = self.ppu.regs[2];
        &&& after.if_ == self.if_ | (if line == 160 && stat & 0x08 != 0 { 1u16 } else { 0u16 }) | (if stat & 0x10 != 0 {
            2u16
        } else {
            0u16
        }) | (if line == stat >> 8 && stat & 0x20 != 0 { 4u16 } else { 0u16 })
        &&& after == (GbaBus { if_: after.if_, ..self })
    }

    /// The overflow period of timer `ch` that paces Direct Sound, or `None`
    /// when it is stopped or counting up.
    pub open spec fn ds_period(self, ch: int) -> Option<u32> {
        let t = self.timers[ch];
        if t.control & 0x80 == 0 || (ch > 0 && t.control & 4 != 0) {
            None
        } else {
            Some(timer_period_spec(t))
        }
    }

    /// The Direct Sound pacing periods of timers 0 and 1.
    pub open spec fn ds_periods(self) -> [Option<u32>; 2] {
        [self.ds_period(0), self.ds_period(1)]
    }

    /// `after` is this bus with its timers advanced to the bus clock
    /// (`timers_stepped`), their overflow interrupts requested.
    pub open spec fn timers_advanced(self, after: GbaBus) -> bool {
        let st = timers_stepped(self.timers@, self.cycles.wrapping_sub(self.timer_cycles) as u32, 4);
        &&& after.timers@ == st.0
        &&& after == (GbaBus { timers: after.timers, if_: self.if_ | st.2, timer_cycles: self.cycles, ..self })
    }

    /// Raise the LCD interrupts for `line` per DISPSTAT's enable bits:
    /// V-blank on line 160, H-blank on every line, V-counter on a match.
    pub fn raise_ppu_irqs(&mut self, line: u16)
        ensures
            old(self).lcd_irqs_raised(*final(self), line),
            ({
                let stat = old(self).ppu.regs[2];
                final(self).if_ == old(self).if_ | (if line == 160 && stat & 0x08 != 0 { 1u16 } else { 0u16 }) | (if stat
                    & 0x10 != 0 {
                    2u16
                } else {
                    0u16
                }) | (if line == stat >> 8 && stat & 0x20 != 0 { 4u16 } else { 0u16 })
            }),
            *final(self) == (GbaBus { if_: final(self).if_, ..*old(self) }),
    {
        let stat = self.ppu.dispstat();
        let old_if = self.if_;
        let a: u16 = if line == 160 && stat & 0x08 != 0 { 1 } else { 0 };
        let b: u16 = if stat & 0x10 != 0 { 2 } else { 0 };
        let c: u16 = if line == stat >> 8 && stat & 0x20 != 0 { 4 } else { 0 };
        self.if_ = old_if | a | b | c;
    }

    /// DMA channel `ch`'s programmed source and destination (28 bits), its
    /// control register, and its running source.
    pub fn dma_dbg(&self, ch: usize) -> (r: (u32, u32, u16, u32))
        requires
            self.wf(),
            ch < 4,
        ensures
            ({
                let base = 0xB0 + 12 * ch;
                let word = |o: int|
                    (self.io@[o] as u32) | ((self.io@[o + 1] as u32) << 8) | ((self.io@[o + 2] as u32) << 16) | ((
                    self.io@[o + 3] as u32) << 24);
                &&& r.0 == word(base) & 0x0FFF_FFFF
                &&& r.1 == word(base + 4) & 0x0FFF_FFFF
                &&& r.2 == (self.io@[base + 10] as u16) | ((self.io@[base + 11] as u16) << 8)
                &&& r.3 == self.dma_src[ch as int]
            }),
    {
        let base = 0xB0 + (ch as u32) * 12;
        (self.io_u32(base) & 0x0FFF_FFFF, self.io_u32(base + 4) & 0x0FFF_FFFF, self.io_u16(base + 10), self.dma_src[ch])
    }
}


/// The word the BIOS stand-in holds at word index `w`: a branch from the IRQ
/// vector (0x18) to a handler at 0x20 that saves the scratch registers,
/// calls the user handler whose address is at 0x03FFFFFC, restores them and
/// returns from the interrupt.
pub open spec fn hle_irq_word(w: int) -> u32 {
    if w == 6 {
        0xEA00_0000
    } else if w == 8 {
        0xE92D_500F
    } else if w == 9 {
        0xE3A0_0301
    } else if w == 10 {
        0xE28F_E000
    } else if w == 11 {
        0xE510_F004
    } else if w == 12 {
        0xE8BD_500F
    } else if w == 13 {
        0xE25E_F004
    } else {
        0
    }
}

fn hle_irq_word_at(w: usize) -> (v: u32)
    ensures
        v == hle_irq_word(w as int),
{
    if w == 6 {
        0xEA00_0000
    } else if w == 8 {
        0xE92D_500F
    } else if w == 9 {
        0xE3A0_0301
    } else if w == 10 {
        0xE28F_E000
    } else if w == 11 {
        0xE510_F004
    } else if w == 12 {
        0xE8BD_500F
    } else if w == 13 {
        0xE25E_F004
    } else {
        0
    }
}

/// The BIOS region as loaded: the image given, cut or zero-filled to 16 KB;
/// with no image, the IRQ stand-in and zeros.
pub open spec fn bios_image(bios: Seq<u8>) -> Seq<u8> {
    Seq::new(
        BIOS_LEN as nat,
        |i: int|
            if bios.len() == 0 {
                le_byte(hle_irq_word(i / 4), i % 4)
            } else {
                byte_or(bios, i, 0)
            },
    )
}

proof fn lemma_le_byte_zero(i: int)
    requires
        0 <= i < 4,
    ensures
        le_byte(0, i) == 0,
{
    let s: u32 = (8 * i) as u32;
    crate::bits::lemma_u32_bits(0, s);
    crate::bits::lemma_u32_bits(0u32 >> s, 0xFF);
}

/// The BIOS region built from `bios`.
fn load_bios(bios: &Vec<u8>) -> (b: Vec<u8>)
    ensures
        b@ == bios_image(bios@),
{
    let mut b = crate::ppu::zeroed_bytes(BIOS_LEN);
    if bios.len() == 0 {
        let mut w: usize = 0;
        while w < 14
            invariant
                w <= 14,
                bios@.len() == 0,
                b@.len() == BIOS_LEN,
                forall|i: int|
                    0 <= i < BIOS_LEN ==> #[trigger] b@[i] == if i < 4 * w {
                        le_byte(hle_irq_word(i / 4), i % 4)
                    } else {
                        0
                    },
            decreases 14 - w,
        {
            let v = hle_irq_word_at(w);
            write_le(&mut b, 4 * w, v, 4);
            w = w + 1;
        }
        proof {
            assert forall|i: int| 0 <= i < BIOS_LEN implies #[trigger] b@[i] == bios_image(bios@)[i] by {
                if i >= 56 {
                    assert(hle_irq_word(i / 4) == 0);
                    lemma_le_byte_zero(i % 4);
                }
            }
            assert(b@ =~= bios_image(bios@));
        }
    } else {
        let n = if bios.len() < BIOS_LEN { bios.len() } else { BIOS_LEN };
        let mut i: usize = 0;
        while i < n
            invariant
                i <= n <= BIOS_LEN,
                n <= bios@.len(),
                n == if bios@.len() < BIOS_LEN { bios@.len() } else { BIOS_LEN as nat },
                b@.len() == BIOS_LEN,
                forall|k: int| 0 <= k < BIOS_LEN ==> #[trigger] b@[k] == if k < i { bios@[k] } else { 0 },
            decreases n - i,
        {
            b.set(i, bios[i]);
            i = i + 1;
        }
        assert(b@ =~= bios_image(bios@));
    }
    b
}

impl GbaBus {
    /// A bus at power-on: the BIOS image loaded (or the IRQ stand-in), work
    /// RAM and I/O zeroed, all keys released, the backup chip the ROM asks
    /// for, erased.
    /// A bus as `new` makes it for `rom` and `bios`.
    pub open spec fn fresh(self, rom: Seq<u8>, bios: Seq<u8>) -> bool {
        &&& self.wf()
        &&& self.bios@ == bios_image(bios)
        &&& self.rom@ == rom
        &&& forall|i: int| 0 <= i < EWRAM_LEN ==> self.ewram@[i] == 0
        &&& forall|i: int| 0 <= i < IWRAM_LEN ==> self.iwram@[i] == 0
        &&& forall|i: int| 0 <= i < IO_LEN ==> self.io@[i] == 0
        &&& crate::save::fresh(self.save@, rom)
        &&& forall|i: int| 0 <= i < 64 ==> self.ppu.regs[i] == 0
        &&& forall|i: int| 0 <= i < 72 ==> self.apu.reg[i] == 0
        &&& !self.apu.master_enable
        &&& self.keyinput == 0x03FF
        &&& self.ie == 0 && self.if_ == 0 && self.ime == 0
        &&& forall|i: int| 0 <= i < 4 ==> #[trigger] self.timers[i] == (Timer { reload: 0, counter: 0, control: 0, subcycle: 0 })
        &&& forall|i: int| 0 <= i < 4 ==> self.dma_src[i] == 0 && self.dma_dst[i] == 0 && self.dma_count[i] == 0
        &&& self.cycles == 0 && self.timer_cycles == 0
        &&& !self.halted
        &&& self.dbg_fifo_refills == 0
        &&& self.log@ == Seq::<BusEvent>::empty()
    }

    pub fn new(rom: Vec<u8>, bios: Vec<u8>) -> (b: GbaBus)
        ensures
            b.wf(),
            b.bios@ == bios_image(bios@),
            b.rom@ == rom@,
            forall|i: int| 0 <= i < EWRAM_LEN ==> b.ewram@[i] == 0,
            forall|i: int| 0 <= i < IWRAM_LEN ==> b.iwram@[i] == 0,
            forall|i: int| 0 <= i < IO_LEN ==> b.io@[i] == 0,
            crate::save::fresh(b.save@, rom@),
            forall|i: int| 0 <= i < 64 ==> b.ppu.regs[i] == 0,
            forall|i: int| 0 <= i < 72 ==> b.apu.reg[i] == 0,
            !b.apu.master_enable,
            b.keyinput == 0x03FF,
            b.ie == 0 && b.if_ == 0 && b.ime == 0,
            forall|i: int|
                0 <= i < 4 ==> #[trigger] b.timers[i] == (Timer { reload: 0, counter: 0, control: 0, subcycle: 0 }),
            forall|i: int| 0 <= i < 4 ==> b.dma_src[i] == 0 && b.dma_dst[i] == 0 && b.dma_count[i] == 0,
            b.cycles == 0 && b.timer_cycles == 0,
            !b.halted,
            b.dbg_fifo_refills == 0,
            b.log@ == Seq::<BusEvent>::empty(),
            b.inv(),
            b.fresh(rom@, bios@),
            b.marked() == b,
            b.mark_at@ == 0,
    {
        let bios_region = load_bios(&bios);
        let save = Save::detect(rom.as_slice());
        let t = Timer { reload: 0, counter: 0, control: 0, subcycle: 0 };
        let mut b = GbaBus {
            bios: bios_region,
            ewram: crate::ppu::zeroed_bytes(EWRAM_LEN),
            iwram: crate::ppu::zeroed_bytes(IWRAM_LEN),
            rom,
            save,
            ppu: Ppu::new(),
            apu: Apu::new(),
            io: crate::ppu::zeroed_bytes(IO_LEN),
            keyinput: 0x03FF,
            ie: 0,
            if_: 0,
            ime: 0,
            timers: [t, t, t, t],
            timer_cycles: 0,
            dma_src: [0; 4],
            dma_dst: [0; 4],
            dma_count: [0; 4],
            cycles: 0,
            halted: false,
            dbg_fifo_refills: 0,
            log: Ghost(Seq::empty()),
            mark: Ghost(Seq::empty()),
            mark_at: Ghost(0),
        };
        b.set_mark();
        b
    }

    /// Start following the requests this bus serves from the bus as it
    /// stands (see `inv`).
    pub fn set_mark(&mut self)
        requires
            old(self).wf(),
        ensures
            final(self).inv(),
            final(self).marked() == *final(self),
            *final(self) == (GbaBus {
                mark: Ghost(seq![*old(self)]),
                mark_at: Ghost(old(self).log@.len()),
                ..*old(self)
            }),
    {
        let ghost b = *self;
        self.mark = Ghost(Seq::empty().push(b));
        self.mark_at = Ghost(b.log@.len());
        proof {
            let q = *self;
            assert(Seq::empty().push(b) =~= seq![b]);
            assert(q.marked() == q);
            assert(q.log@.skip(q.mark_at@ as int) =~= Seq::<BusEvent>::empty());
            assert(serving_run(q, q, Seq::<BusEvent>::empty(), seq![q]));
        }
    }

    /// Whether the memories have their fixed sizes.
    pub fn sized(&self) -> (b: bool)
        ensures
            b == self.wf(),
    {
        self.bios.len() == BIOS_LEN && self.ewram.len() == EWRAM_LEN && self.iwram.len() == IWRAM_LEN
            && self.io.len() == IO_LEN && self.ppu.vram.len() == crate::ppu::VRAM_LEN && self.ppu.palram.len()
            == crate::ppu::PAL_LEN && self.ppu.oam.len() == crate::ppu::OAM_LEN && self.ppu.framebuffer.len()
            == crate::ppu::FRAME_LEN && self.apu.fifo_a.head < 32 && self.apu.fifo_a.len <= 32
            && self.apu.fifo_b.head < 32 && self.apu.fifo_b.len <= 32 && self.save.data.len() <= 0xFFFF_FFFF
            && self.save.ee_read.len() <= 68 && self.save.flash_bank <= 0xFFFF_FFFF
            && self.save.ee_read_pos <= 0xFFFF_FFFF
    }
}

impl GbaBus {
    /// `self` with an access of the given width to `addr` charged to the
    /// clock.
    pub open spec fn charged(&self, addr: u32, word: bool) -> GbaBus {
        GbaBus { cycles: self.cycles.saturating_add(access_cycles_spec(addr, word)), ..*self }
    }

    /// `self` with the log of `before`.
    pub open spec fn relogged(&self, before: &GbaBus) -> GbaBus {
        GbaBus { log: before.log, ..*self }
    }

    /// Whether a halfword access at `addr` goes to the serial EEPROM.
    pub open spec fn eeprom_access(&self, addr: u32) -> bool {
        self.save.kind == crate::save::SaveKind::Eeprom && addr >> 24 == 0xD
    }

    /// A store through the bus: the cost charged, then the store made (on a
    /// bus whose memories have their sizes).
    fn store(&mut self, addr: u32, val: u32, width: u32, word: bool)
        requires
            width == 1 || width == 2 || width == 4,
        ensures
            final(self).log == old(self).log,
            clock_advances(old(self).cycles as int, final(self).cycles as int),
            old(self).wf() ==> old(self).charged(addr, word).stored(&*final(self), addr, val, width),
            old(self).wf() ==> old(self).charged(addr, word).store_effect(&*final(self), addr, val, width, DMA_DEPTH),
            old(self).wf() ==> old(self).charged(addr, word).kept(&*final(self)),
            !old(self).wf() ==> *final(self) == old(self).charged(addr, word),
    {
        let c = access_cycles(addr, word);
        self.cycles = self.cycles.saturating_add(c);
        if self.sized() {
            self.write(addr, val, width, DMA_DEPTH);
        }
    }
}

impl Bus for GbaBus {
    open spec fn events(&self) -> Seq<BusEvent> {
        self.log@
    }

    open spec fn clock(&self) -> int {
        self.cycles as int
    }

    /// The memories have their sizes, and every request since the mark was
    /// served as `serves` says, from the marked bus to this one.
    open spec fn inv(&self) -> bool {
        &&& self.wf()
        &&& self.mark_at@ <= self.log@.len()
        &&& served(self.marked(), *self, self.log@.skip(self.mark_at@ as int))
    }

    /// The BIOS, the cartridge ROM and the mark.
    type Setup = (Seq<u8>, Seq<u8>, Seq<GbaBus>, nat);

    open spec fn setup(&self) -> (Seq<u8>, Seq<u8>, Seq<GbaBus>, nat) {
        (self.bios@, self.rom@, self.mark@, self.mark_at@)
    }

    /// Reads have no effect but their cost.
    fn read8(&mut self, addr: u32, access: Access) -> (v: u8)
        ensures
            v == old(self).read8_spec(addr),
            *final(self) == (GbaBus {
                log: Ghost(old(self).log@.push(read_event(Width::Byte, addr, access, v as u32))),
                ..old(self).charged(addr, false)
            }),
    {
        let v = self.read8_raw(addr);
        let c = access_cycles(addr, false);
        self.cycles = self.cycles.saturating_add(c);
        self.log = Ghost(self.log@.push(read_event(Width::Byte, addr, access, v as u32)));
        proof {
            lemma_serve_one(*old(self), *self, read_event(Width::Byte, addr, access, v as u32));
        }
        v
    }

    /// A halfword read; in region 0xD with an EEPROM fitted, the chip's next
    /// serial bit.
    fn read16(&mut self, addr: u32, access: Access) -> (v: u16)
        ensures
            !old(self).eeprom_access(addr) ==> {
                &&& v == old(self).read16_spec(addr)
                &&& *final(self) == (GbaBus {
                    log: Ghost(old(self).log@.push(read_event(Width::Half, addr, access, v as u32))),
                    ..old(self).charged(addr, false)
                })
            },
            old(self).eeprom_access(addr) ==> {
                let m = old(self).save@;
                &&& if m.ee_read_pos < m.ee_read.len() {
                    &&& v == (if m.ee_read[m.ee_read_pos as int] { 1u16 } else { 0u16 })
                    &&& final(self).save@ == (crate::save::SaveModel { ee_read_pos: m.ee_read_pos + 1, ..m })
                } else {
                    &&& v == 1
                    &&& final(self).save@ == m
                }
                &&& *final(self) == (GbaBus {
                    log: Ghost(old(self).log@.push(read_event(Width::Half, addr, access, v as u32))),
                    save: final(self).save,
                    ..old(self).charged(addr, false)
                })
            },
    {
        let c = access_cycles(addr, false);
        let v = if self.save.is_eeprom() && (addr >> 24) == 0xD {
            self.save.eeprom_read_bit() as u16
        } else {
            self.read16_raw(addr)
        };
        self.cycles = self.cycles.saturating_add(c);
        self.log = Ghost(self.log@.push(read_event(Width::Half, addr, access, v as u32)));
        proof {
            lemma_serve_one(*old(self), *self, read_event(Width::Half, addr, access, v as u32));
        }
        v
    }

    fn read32(&mut self, addr: u32, access: Access) -> (v: u32)
        ensures
            v == old(self).read32_spec(addr),
            *final(self) == (GbaBus {
                log: Ghost(old(self).log@.push(read_event(Width::Word, addr, access, v))),
                ..old(self).charged(addr, true)
            }),
    {
        let v = self.read32_raw(addr);
        let c = access_cycles(addr, true);
        self.cycles = self.cycles.saturating_add(c);
        self.log = Ghost(self.log@.push(read_event(Width::Word, addr, access, v)));
        proof {
            lemma_serve_one(*old(self), *self, read_event(Width::Word, addr, access, v));
        }
        v
    }

    fn write8(&mut self, addr: u32, val: u8, access: Access)
        ensures
            old(self).wf() ==> old(self).charged(addr, false).stored(
                &final(self).relogged(old(self)),
                addr,
                val as u32,
                1,
            ),
            old(self).wf() ==> old(self).charged(addr, false).store_effect(
                &final(self).relogged(old(self)),
                addr,
                val as u32,
                1,
                DMA_DEPTH,
            ),
            !old(self).wf() ==> final(self).relogged(old(self)) == old(self).charged(addr, false),
    {
        self.store(addr, val as u32, 1, false);
        self.log = Ghost(self.log@.push(write_event(Width::Byte, addr, access, val as u32)));
        proof {
            lemma_serve_one(*old(self), *self, write_event(Width::Byte, addr, access, val as u32));
        }
    }

    /// A halfword store; in region 0xD with an EEPROM fitted, bit 0 goes to
    /// the chip's command stream.
    fn write16(&mut self, addr: u32, val: u16, access: Access)
        ensures
            !old(self).eeprom_access(addr) && old(self).wf() ==> old(self).charged(addr, false).stored(
                &final(self).relogged(old(self)),
                addr,
                val as u32,
                2,
            ),
            !old(self).eeprom_access(addr) && old(self).wf() ==> old(self).charged(addr, false).store_effect(
                &final(self).relogged(old(self)),
                addr,
                val as u32,
                2,
                DMA_DEPTH,
            ),
            !old(self).eeprom_access(addr) && !old(self).wf() ==> final(self).relogged(old(self))
                == old(self).charged(addr, false),
            old(self).eeprom_access(addr) ==> {
                &&& final(self).save@ == crate::save::write_bit_spec(old(self).save@, val as u8)
                &&& *final(self) == (GbaBus {
                    log: Ghost(old(self).log@.push(write_event(Width::Half, addr, access, val as u32))),
                    save: final(self).save,
                    ..old(self).charged(addr, false)
                })
            },
    {
        if self.save.is_eeprom() && (addr >> 24) == 0xD {
            let c = access_cycles(addr, false);
            self.cycles = self.cycles.saturating_add(c);
            self.save.eeprom_write_bit(val as u8);
        } else {
            self.store(addr, val as u32, 2, false);
        }
        self.log = Ghost(self.log@.push(write_event(Width::Half, addr, access, val as u32)));
        proof {
            lemma_serve_one(*old(self), *self, write_event(Width::Half, addr, access, val as u32));
        }
    }

    fn write32(&mut self, addr: u32, val: u32, access: Access)
        ensures
            old(self).wf() ==> old(self).charged(addr, true).stored(&final(self).relogged(old(self)), addr, val, 4),
            old(self).wf() ==> old(self).charged(addr, true).store_effect(
                &final(self).relogged(old(self)),
                addr,
                val,
                4,
                DMA_DEPTH,
            ),
            !old(self).wf() ==> final(self).relogged(old(self)) == old(self).charged(addr, true),
    {
        self.store(addr, val, 4, true);
        self.log = Ghost(self.log@.push(write_event(Width::Word, addr, access, val)));
        proof {
            lemma_serve_one(*old(self), *self, write_event(Width::Word, addr, access, val));
        }
    }

    fn tick(&mut self, n: u32)
        ensures
            *final(self) == (GbaBus {
                cycles: old(self).cycles.saturating_add(n as u64),
                log: Ghost(old(self).log@.push(BusEvent::Tick { cycles: n })),
                ..*old(self)
            }),
    {
        self.cycles = self.cycles.saturating_add(n as u64);
        self.log = Ghost(self.log@.push(BusEvent::Tick { cycles: n }));
        proof {
            lemma_serve_one(*old(self), *self, BusEvent::Tick { cycles: n });
        }
    }

    fn set_halted(&mut self, halted: bool)
        ensures
            *final(self) == (GbaBus {
                halted,
                log: Ghost(old(self).log@.push(BusEvent::Halt { halted })),
                ..*old(self)
            }),
    {
        self.halted = halted;
        self.log = Ghost(self.log@.push(BusEvent::Halt { halted }));
        proof {
            lemma_serve_one(*old(self), *self, BusEvent::Halt { halted });
        }
    }
}

impl GbaBus {
    /// This bus as it stood when marked: the marked bus with this bus's mark.
    pub open spec fn marked(&self) -> GbaBus {
        GbaBus { mark: self.mark, mark_at: self.mark_at, ..self.mark@[0] }
    }

    /// `after` is this bus after it serves request `e`, as the `Bus` methods
    /// say: a read returns the value of the location (a halfword read of
    /// region 0xD with an EEPROM fitted, the chip's next serial bit) and
    /// charges its cost; a store charges its cost and has the whole effect
    /// `store_effect` states (a halfword store to region 0xD with an EEPROM
    /// fitted sends bit 0 to the chip); internal cycles are charged; the
    /// halt line is set. The request is logged.
    pub open spec fn serves(self, after: GbaBus, e: BusEvent) -> bool {
        let logged = self.log@.push(e);
        match e {
            BusEvent::Read { width, addr, access, value } => match width {
                Width::Byte => {
                    &&& value == self.read8_spec(addr) as u32
                    &&& after == (GbaBus { log: Ghost(logged), ..self.charged(addr, false) })
                },
                Width::Half => if self.eeprom_access(addr) {
                    &&& value == crate::save::read_bit_spec(self.save@).0
                    &&& after.save@ == crate::save::read_bit_spec(self.save@).1
                    &&& after == (GbaBus { log: Ghost(logged), save: after.save, ..self.charged(addr, false) })
                } else {
                    &&& value == self.read16_spec(addr) as u32
                    &&& after == (GbaBus { log: Ghost(logged), ..self.charged(addr, false) })
                },
                Width::Word => {
                    &&& value == self.read32_spec(addr)
                    &&& after == (GbaBus { log: Ghost(logged), ..self.charged(addr, true) })
                },
            },
            BusEvent::Write { width, addr, access, value } => match width {
                Width::Byte => {
                    &&& after.log@ == logged
                    &&& self.charged(addr, false).store_effect(&after.relogged(&self), addr, value, 1, DMA_DEPTH)
                },
                Width::Half => if self.eeprom_access(addr) {
                    &&& after.save@ == crate::save::write_bit_spec(self.save@, value as u8)
                    &&& after == (GbaBus { log: Ghost(logged), save: after.save, ..self.charged(addr, false) })
                } else {
                    &&& after.log@ == logged
                    &&& self.charged(addr, false).store_effect(&after.relogged(&self), addr, value, 2, DMA_DEPTH)
                },
                Width::Word => {
                    &&& after.log@ == logged
                    &&& self.charged(addr, true).store_effect(&after.relogged(&self), addr, value, 4, DMA_DEPTH)
                },
            },
            BusEvent::Tick { cycles } => after == (GbaBus {
                cycles: self.cycles.saturating_add(cycles as u64),
                log: Ghost(logged),
                ..self
            }),
            BusEvent::Halt { halted } => after == (GbaBus { halted, log: Ghost(logged), ..self }),
        }
    }
}

/// `h` runs from `from` to `to`, one bus per request of `events`, each
/// serving the next request.
pub open spec fn serving_run(from: GbaBus, to: GbaBus, events: Seq<BusEvent>, h: Seq<GbaBus>) -> bool {
    &&& h.len() == events.len() + 1
    &&& h[0] == from
    &&& h[events.len() as int] == to
    &&& forall|i: int| 0 <= i < events.len() ==> #[trigger] h[i].serves(h[i + 1], events[i])
}

/// `to` is `from` after it serves `events` in order.
pub open spec fn served(from: GbaBus, to: GbaBus, events: Seq<BusEvent>) -> bool {
    exists|h: Seq<GbaBus>| #[trigger] serving_run(from, to, events, h)
}

/// `after` is the bus `before` (as it stood before being marked) after
/// serving the requests logged since.
pub open spec fn bus_served(before: GbaBus, after: GbaBus) -> bool {
    &&& before.log@.len() <= after.log@.len()
    &&& served(GbaBus { mark: after.mark, mark_at: after.mark_at, ..before }, after, after.log@.skip(before.log@.len() as int))
}

/// Serving one more request keeps the bus's invariant.
proof fn lemma_serve_one(a: GbaBus, b: GbaBus, e: BusEvent)
    requires
        a.inv() ==> b.wf(),
        a.inv() ==> a.serves(b, e),
        b.mark == a.mark,
        b.mark_at == a.mark_at,
        b.log@ == a.log@.push(e),
    ensures
        a.inv() ==> b.inv(),
{
    if a.inv() {
        let evs = a.log@.skip(a.mark_at@ as int);
        let h = choose|h: Seq<GbaBus>| #[trigger] serving_run(a.marked(), a, evs, h);
        assert(b.log@.skip(b.mark_at@ as int) =~= evs.push(e));
        assert(b.marked() == a.marked());
        assert(serving_run(b.marked(), b, evs.push(e), h.push(b)));
    }
}

/// The bytes of an aligned word: they stay in its region and sit at
/// consecutive offsets within any power-of-two mirror.
proof fn lemma_aligned_word(addr: u32, k: u32)
    by (bit_vector)
    requires
        k < 4,
    ensures
        region(((addr & 0xFFFF_FFFC) + k) as u32) == region(addr),
        (((addr & 0xFFFF_FFFC) + k) as u32) & 0x3_FFFF == ((addr & 0xFFFF_FFFC) & 0x3_FFFF) + k,
        (((addr & 0xFFFF_FFFC) + k) as u32) & 0x7FFF == ((addr & 0xFFFF_FFFC) & 0x7FFF) + k,
        (addr & 0xFFFF_FFFC) & 0x3_FFFF <= 0x3_FFFC,
        (addr & 0xFFFF_FFFC) & 0x7FFF <= 0x7FFC,
        (addr & 0xFFFF_FFFC) + k <= 0xFFFF_FFFF,
        ((addr & 0xFFFF_FFFC) & 0x3_FFFF) % 4 == 0,
        ((addr & 0xFFFF_FFFC) & 0x7FFF) % 4 == 0,
{
}

/// Aligning a store address again changes nothing, and an aligned access of
/// its width fits inside the I/O page.
proof fn lemma_store_addr(addr: u32)
    by (bit_vector)
    ensures
        (addr & 0xFFFF_FFFC) & 0xFFFF_FFFC == addr & 0xFFFF_FFFC,
        (addr & 0xFFFF_FFFE) & 0xFFFF_FFFE == addr & 0xFFFF_FFFE,
        addr == addr & 0xFFFF_FFFC ==> (addr & 0x3FF) + 4 <= 0x400,
        addr == addr & 0xFFFF_FFFE ==> (addr & 0x3FF) + 2 <= 0x400,
        (addr & 0x3FF) + 1 <= 0x400,
{
}

proof fn lemma_le_bytes_join(val: u32)
    ensures
        (le_byte(val, 0) as u32) | ((le_byte(val, 1) as u32) << 8) | ((le_byte(val, 2) as u32) << 16) | ((le_byte(
            val,
            3,
        ) as u32) << 24) == val,
{
    crate::state::lemma_le32_roundtrip(val);
}

/// The offset of the word holding `addr` within its work-RAM region.
pub open spec fn ram_word(addr: u32) -> int {
    if region(addr) == 2 {
        ((addr & 0xFFFF_FFFC) & 0x3_FFFF) as int
    } else {
        ((addr & 0xFFFF_FFFC) & 0x7FFF) as int
    }
}

proof fn lemma_ack_bits(x: u16, v: u16)
    by (bit_vector)
    ensures
        (x & !(((v as u32 >> 0u32) & 0xFF) as u8 as u16)) & !(((((v as u32) >> 8u32) & 0xFF) as u8 as u16) << 8u16)
            == x & !v,
        0x0400_0202u32 & 0xFFFF_FFFE == 0x0400_0202u32,
        (0x0400_0202u32 >> 24u32) & 0xF == 4,
        0x0400_0202u32 & 0x3FF == 0x202,
{
}

/// Writing a halfword to IF (0x04000202) acknowledges interrupts: each
/// request bit set in the value written is cleared, and the others stay.
pub proof fn lemma_if_write_acknowledges(b: GbaBus, after: GbaBus, v: u16)
    requires
        b.stored(&after, 0x0400_0202, v as u32, 2),
    ensures
        after.if_ == b.if_ & !v,
{
    lemma_ack_bits(b.if_, v);
    assert(b.io_bytes_stored(&after, 0x202, v as u32, 2));
    let s = choose|s: Seq<GbaBus>| #[trigger] b.io_store_run(&after, 0x202, v as u32, 2, s);
    let off: u32 = 0x202;
    let j0: int = 0;
    let j1: int = 1;
    assert(s[j0].io_byte_stored(&s[j0 + 1], (off + j0) as u32, le_byte(v as u32, j0)));
    assert(s[j1].io_byte_stored(&s[j1 + 1], (off + j1) as u32, le_byte(v as u32, j1)));
    assert(s[1].if_ == b.if_ & !(le_byte(v as u32, 0) as u16));
}

/// Writing back to IF every request bit it holds acknowledges them all: no
/// interrupt is pending afterwards.
pub proof fn lemma_ack_all_clears_pending(b: GbaBus, after: GbaBus)
    requires
        b.stored(&after, 0x0400_0202, b.if_ as u32, 2),
    ensures
        after.if_ == 0,
        !(after.ime & 1 != 0 && after.ie & after.if_ != 0),
{
    lemma_if_write_acknowledges(b, after, b.if_);
    let x = b.if_;
    let e = after.ie;
    assert(x & !x == 0 && e & 0 == 0) by (bit_vector);
}

/// A word stored to work RAM (EWRAM or IWRAM) reads back at its address,
/// however it was aligned, and every other word of that RAM is untouched.
pub proof fn lemma_ram_store_then_load(b: GbaBus, after: GbaBus, addr: u32, val: u32, other: u32)
    requires
        b.wf(),
        addr < 0x1000_0000,
        region(addr) == 2 || region(addr) == 3,
        b.stored(&after, addr, val, 4),
    ensures
        after.read32_spec(addr) == val,
        region(other) == region(addr) && ram_word(other) != ram_word(addr) ==> after.read32_spec(other)
            == b.read32_spec(other),
{
    let a = addr & 0xFFFF_FFFC;
    assert(store_addr(addr, 4) == a);
    assert(region(a) == region(addr)) by {
        lemma_aligned_word(addr, 0);
        assert(((addr & 0xFFFF_FFFC) + 0u32) as u32 == addr & 0xFFFF_FFFC);
    }
    lemma_aligned_word(addr, 0);
    lemma_aligned_word(addr, 1);
    lemma_aligned_word(addr, 2);
    lemma_aligned_word(addr, 3);
    lemma_aligned_word(other, 0);
    lemma_aligned_word(other, 1);
    lemma_aligned_word(other, 2);
    lemma_aligned_word(other, 3);
    assert((a + 0) as u32 == a);
    let o = other & 0xFFFF_FFFC;
    assert((o + 0) as u32 == o);
    lemma_le_bytes_join(val);
}

/// The save-state bytes of a timer.
pub open spec fn timer_bytes(t: Timer) -> Seq<u8> {
    le16(t.reload) + le16(t.counter) + le16(t.control) + le32(t.subcycle)
}

/// The save-state bytes of a DMA channel's running registers.
pub open spec fn dma_bytes(src: u32, dst: u32, count: u32) -> Seq<u8> {
    le32(src) + le32(dst) + le32(count)
}

/// The length of the bus's scalar state in a save-state image.
pub const BUS_HEADER_LEN: usize = 113;

impl GbaBus {
    /// The first `n` DMA channels' images.
    pub open spec fn dma_image(&self, n: int) -> Seq<u8>
        decreases n,
    {
        if n <= 0 {
            Seq::empty()
        } else {
            self.dma_image(n - 1) + dma_bytes(self.dma_src[n - 1], self.dma_dst[n - 1], self.dma_count[n - 1])
        }
    }

    /// The first `n` timers' images.
    pub open spec fn timer_image(&self, n: int) -> Seq<u8>
        decreases n,
    {
        if n <= 0 {
            Seq::empty()
        } else {
            self.timer_image(n - 1) + timer_bytes(self.timers[n - 1])
        }
    }

    /// The scalar state: keys, interrupt controller, clocks, halt, the DMA
    /// channels and the timers.
    pub open spec fn header_bytes(&self) -> Seq<u8> {
        le16(self.keyinput) + le16(self.ie) + le16(self.if_) + le16(self.ime) + le64(self.cycles) + le64(
            self.timer_cycles,
        ) + seq![crate::save::flag(self.halted)] + self.dma_image(4) + self.timer_image(4)
    }

    /// The save-state image of the bus: its scalar state, work RAM and I/O
    /// as blocks, then the backup chip, the display and the sound unit.
    pub open spec fn state_bytes(&self) -> Seq<u8> {
        self.base_bytes() + self.apu.state_bytes()
    }

    /// The image up to the sound unit's part: what images made before the
    /// sound unit was saved hold.
    pub open spec fn base_bytes(&self) -> Seq<u8> {
        self.header_bytes() + block(self.ewram@) + block(self.iwram@) + block(self.io@) + crate::save::save_bytes(
            self.save@,
        ) + self.ppu.state_bytes()
    }

    fn put_header(&self, w: &mut Writer)
        ensures
            final(w).buf@ == old(w).buf@ + self.header_bytes(),
    {
        w.u16(self.keyinput);
        w.u16(self.ie);
        w.u16(self.if_);
        w.u16(self.ime);
        w.u64(self.cycles);
        w.u64(self.timer_cycles);
        w.bool(self.halted);
        let ghost start = w.buf@;
        let mut i: usize = 0;
        while i < 4
            invariant
                i <= 4,
                w.buf@ == start + self.dma_image(i as int),
            decreases 4 - i,
        {
            w.u32(self.dma_src[i]);
            w.u32(self.dma_dst[i]);
            w.u32(self.dma_count[i]);
            i = i + 1;
            assert(w.buf@ =~= start + self.dma_image(i as int));
        }
        let ghost mid = w.buf@;
        let mut i: usize = 0;
        while i < 4
            invariant
                i <= 4,
                w.buf@ == mid + self.timer_image(i as int),
            decreases 4 - i,
        {
            let t = self.timers[i];
            w.u16(t.reload);
            w.u16(t.counter);
            w.u16(t.control);
            w.u32(t.subcycle);
            i = i + 1;
            assert(w.buf@ =~= mid + self.timer_image(i as int));
        }
        assert(w.buf@ =~= old(w).buf@ + self.header_bytes());
    }

    /// Append the save-state image of the bus.
    pub fn serialize(&self, w: &mut Writer)
        ensures
            final(w).buf@ == old(w).buf@ + self.state_bytes(),
    {
        self.put_header(w);
        w.bytes(self.ewram.as_slice());
        w.bytes(self.iwram.as_slice());
        w.bytes(self.io.as_slice());
        self.save.serialize(w);
        self.ppu.serialize(w);
        self.apu.serialize(w);
        assert(w.buf@ =~= old(w).buf@ + self.state_bytes());
    }
}

/// Where each scalar sits in the image of the bus's scalar state.
#[verifier::rlimit(30)]
proof fn lemma_header_layout(q: GbaBus)
    ensures
        q.header_bytes().len() == BUS_HEADER_LEN,
        q.header_bytes().subrange(0, 2) == le16(q.keyinput),
        q.header_bytes().subrange(2, 4) == le16(q.ie),
        q.header_bytes().subrange(4, 6) == le16(q.if_),
        q.header_bytes().subrange(6, 8) == le16(q.ime),
        q.header_bytes().subrange(8, 16) == le64(q.cycles),
        q.header_bytes().subrange(16, 24) == le64(q.timer_cycles),
        q.header_bytes()[24] == crate::save::flag(q.halted),
        forall|j: int|
            0 <= j < 4 ==> #[trigger] q.header_bytes().subrange(25 + 12 * j, 37 + 12 * j) == dma_bytes(
                q.dma_src[j],
                q.dma_dst[j],
                q.dma_count[j],
            ),
        forall|j: int|
            0 <= j < 4 ==> #[trigger] q.header_bytes().subrange(73 + 10 * j, 83 + 10 * j) == timer_bytes(
                q.timers[j],
            ),
{
    reveal_with_fuel(GbaBus::dma_image, 5);
    reveal_with_fuel(GbaBus::timer_image, 5);
    let h = q.header_bytes();
    let d = q.dma_image(4);
    let t = q.timer_image(4);
    assert(d.len() == 48);
    assert(t.len() == 40);
    assert(h.subrange(25, 73) =~= d);
    assert(h.subrange(73, 113) =~= t);
    assert forall|j: int| 0 <= j < 4 implies #[trigger] h.subrange(25 + 12 * j, 37 + 12 * j) == dma_bytes(
        q.dma_src[j],
        q.dma_dst[j],
        q.dma_count[j],
    ) by {
        assert(h.subrange(25 + 12 * j, 37 + 12 * j) =~= d.subrange(12 * j, 12 * j + 12));
        assert(q.dma_image(j + 1) =~= d.subrange(0, 12 * j + 12));
        assert(d.subrange(12 * j, 12 * j + 12) =~= q.dma_image(j + 1).subrange(12 * j, 12 * j + 12));
    }
    assert forall|j: int| 0 <= j < 4 implies #[trigger] h.subrange(73 + 10 * j, 83 + 10 * j) == timer_bytes(
        q.timers[j],
    ) by {
        assert(h.subrange(73 + 10 * j, 83 + 10 * j) =~= t.subrange(10 * j, 10 * j + 10));
        assert(q.timer_image(j + 1) =~= t.subrange(0, 10 * j + 10));
        assert(t.subrange(10 * j, 10 * j + 10) =~= q.timer_image(j + 1).subrange(10 * j, 10 * j + 10));
    }
    assert(h.subrange(0, 2) =~= le16(q.keyinput));
    assert(h.subrange(2, 4) =~= le16(q.ie));
    assert(h.subrange(4, 6) =~= le16(q.if_));
    assert(h.subrange(6, 8) =~= le16(q.ime));
    assert(h.subrange(8, 16) =~= le64(q.cycles));
    assert(h.subrange(16, 24) =~= le64(q.timer_cycles));
}

impl GbaBus {
    /// The scalar state of the bus equals that of `q`.
    pub open spec fn header_restored(&self, q: &GbaBus) -> bool {
        &&& self.keyinput == q.keyinput && self.ie == q.ie && self.if_ == q.if_ && self.ime == q.ime
        &&& self.cycles == q.cycles && self.timer_cycles == q.timer_cycles && self.halted == q.halted
        &&& self.dma_src == q.dma_src && self.dma_dst == q.dma_dst && self.dma_count == q.dma_count
        &&& self.timers == q.timers
    }

    fn get_dma(&mut self, r: &mut Reader)
        ensures
            final(r).buf@ == old(r).buf@,
            old(r).failed ==> final(r).failed,
            *final(self) == (GbaBus {
                dma_src: final(self).dma_src,
                dma_dst: final(self).dma_dst,
                dma_count: final(self).dma_count,
                ..*old(self)
            }),
            old(r).ran(*final(r), 48),
            old(r).has(48) ==> {
                let p = old(r).pos as int;
                let buf = old(r).buf@;
                &&& final(r).pos == p + 48 && final(r).failed == old(r).failed
                &&& forall|j: int|
                    0 <= j < 4 ==> {
                        &&& #[trigger] final(self).dma_src[j] == from_le32(buf.subrange(p + 12 * j, p + 4 + 12 * j))
                        &&& final(self).dma_dst[j] == from_le32(buf.subrange(p + 4 + 12 * j, p + 8 + 12 * j))
                        &&& final(self).dma_count[j] == from_le32(buf.subrange(p + 8 + 12 * j, p + 12 + 12 * j))
                    }
            },
    {
        let ghost p = old(r).pos as int;
        let ghost buf = old(r).buf@;
        let ghost s0 = *self;
        let mut i: usize = 0;
        while i < 4
            invariant
                i <= 4,
                r.buf@ == buf,
                old(r).buf@ == buf,
                p == old(r).pos,
                old(r).failed ==> r.failed,
                i > 0 ==> old(r).ran(*r, 12 * i),
                i == 0 ==> *r == *old(r),
                old(r).has(48) ==> r.pos == p + 12 * i && r.failed == old(r).failed,
                old(r).has(48) ==> forall|j: int|
                    0 <= j < i ==> #[trigger] self.dma_src[j] == from_le32(buf.subrange(p + 12 * j, p + 4 + 12 * j)),
                old(r).has(48) ==> forall|j: int|
                    0 <= j < i ==> #[trigger] self.dma_dst[j] == from_le32(buf.subrange(p + 4 + 12 * j, p + 8 + 12 * j)),
                old(r).has(48) ==> forall|j: int|
                    0 <= j < i ==> #[trigger] self.dma_count[j] == from_le32(
                        buf.subrange(p + 8 + 12 * j, p + 12 + 12 * j),
                    ),
                *self == (GbaBus { dma_src: self.dma_src, dma_dst: self.dma_dst, dma_count: self.dma_count, ..s0 }),
            decreases 4 - i,
        {
            let ghost at = r.pos as int;
            let ghost before = *r;
            let a = r.u32();
            let b = r.u32();
            let c = r.u32();
            proof {
                crate::state::lemma_ran_intro(before, *r, 12);
                if i > 0 {
                    crate::state::lemma_ran_seq(*old(r), before, *r, 12 * i, 12);
                }
            }
            let ghost prev = *self;
            self.dma_src[i] = a;
            self.dma_dst[i] = b;
            self.dma_count[i] = c;
            proof {
                if old(r).has(48) {
                    let k = i as int;
                    assert(at == p + 12 * k);
                    assert(a == from_le32(buf.subrange(p + 12 * k, p + 4 + 12 * k)));
                    assert(b == from_le32(buf.subrange(p + 4 + 12 * k, p + 8 + 12 * k)));
                    assert(c == from_le32(buf.subrange(p + 8 + 12 * k, p + 12 + 12 * k)));
                    assert(self.dma_src[k] == a);
                    assert(self.dma_dst[k] == b);
                    assert(self.dma_count[k] == c);
                    assert forall|j: int| 0 <= j < k + 1 implies #[trigger] self.dma_src[j] == from_le32(
                        buf.subrange(p + 12 * j, p + 4 + 12 * j),
                    ) by {
                        if j < k {
                            assert(self.dma_src[j] == prev.dma_src[j]);
                        }
                    }
                    assert forall|j: int| 0 <= j < k + 1 implies #[trigger] self.dma_dst[j] == from_le32(
                        buf.subrange(p + 4 + 12 * j, p + 8 + 12 * j),
                    ) by {
                        if j < k {
                            assert(self.dma_dst[j] == prev.dma_dst[j]);
                        }
                    }
                    assert forall|j: int| 0 <= j < k + 1 implies #[trigger] self.dma_count[j] == from_le32(
                        buf.subrange(p + 8 + 12 * j, p + 12 + 12 * j),
                    ) by {
                        if j < k {
                            assert(self.dma_count[j] == prev.dma_count[j]);
                        }
                    }
                }
            }
            i = i + 1;
        }
    }

    fn get_timers(&mut self, r: &mut Reader)
        ensures
            final(r).buf@ == old(r).buf@,
            old(r).failed ==> final(r).failed,
            *final(self) == (GbaBus { timers: final(self).timers, ..*old(self) }),
            old(r).ran(*final(r), 40),
            old(r).has(40) ==> {
                let p = old(r).pos as int;
                let buf = old(r).buf@;
                &&& final(r).pos == p + 40 && final(r).failed == old(r).failed
                &&& forall|j: int| 0 <= j < 4 ==> #[trigger] final(self).timers[j] == timer_at(buf, p + 10 * j)
            },
    {
        let ghost p = old(r).pos as int;
        let ghost buf = old(r).buf@;
        let t0 = read_timer(r);
        let ghost r1 = *r;
        let t1 = read_timer(r);
        let ghost r2 = *r;
        let t2 = read_timer(r);
        let ghost r3 = *r;
        let t3 = read_timer(r);
        proof {
            crate::state::lemma_ran_seq(*old(r), r1, r2, 10, 10);
            crate::state::lemma_ran_seq(*old(r), r2, r3, 20, 10);
            crate::state::lemma_ran_seq(*old(r), r3, *r, 30, 10);
        }
        self.timers[0] = t0;
        self.timers[1] = t1;
        self.timers[2] = t2;
        self.timers[3] = t3;
        proof {
            if old(r).has(40) {
                assert forall|j: int| 0 <= j < 4 implies #[trigger] self.timers[j] == timer_at(buf, p + 10 * j) by {
                    if j == 0 {
                    } else if j == 1 {
                    } else if j == 2 {
                    } else {
                    }
                }
            }
        }
    }

    fn get_header(&mut self, r: &mut Reader)
        ensures
            final(r).buf@ == old(r).buf@,
            old(r).failed ==> final(r).failed,
            *final(self) == (GbaBus {
                keyinput: final(self).keyinput,
                ie: final(self).ie,
                if_: final(self).if_,
                ime: final(self).ime,
                cycles: final(self).cycles,
                timer_cycles: final(self).timer_cycles,
                halted: final(self).halted,
                dma_src: final(self).dma_src,
                dma_dst: final(self).dma_dst,
                dma_count: final(self).dma_count,
                timers: final(self).timers,
                ..*old(self)
            }),
            old(r).ran(*final(r), 113),
            old(r).has(113) ==> final(r).pos == old(r).pos + 113 && final(r).failed == old(r).failed,
            forall|q: GbaBus|
                old(r).has(113) && old(r).next_bytes(113) == #[trigger] q.header_bytes()
                    ==> final(self).header_restored(&q),
    {
        let ghost p = old(r).pos as int;
        let ghost buf = old(r).buf@;
        self.keyinput = r.u16();
        let ghost r1 = *r;
        self.ie = r.u16();
        let ghost r2 = *r;
        self.if_ = r.u16();
        let ghost r3 = *r;
        self.ime = r.u16();
        let ghost r4 = *r;
        self.cycles = r.u64();
        let ghost r5 = *r;
        self.timer_cycles = r.u64();
        let ghost r6 = *r;
        self.halted = r.bool();
        let ghost r7 = *r;
        self.get_dma(r);
        let ghost r8 = *r;
        self.get_timers(r);
        proof {
            crate::state::lemma_ran_intro(*old(r), r7, 25);
            crate::state::lemma_ran_seq(*old(r), r7, r8, 25, 48);
            crate::state::lemma_ran_seq(*old(r), r8, *r, 73, 40);
            assert forall|q: GbaBus|
                old(r).has(113) && old(r).next_bytes(113) == #[trigger] q.header_bytes() implies self.header_restored(
                &q,
            ) by {
                lemma_header_decode(q, buf, p);
                assert(old(r).next_bytes(2) =~= buf.subrange(p, p + 2));
                assert(r1.next_bytes(2) =~= buf.subrange(p + 2, p + 4));
                assert(r2.next_bytes(2) =~= buf.subrange(p + 4, p + 6));
                assert(r3.next_bytes(2) =~= buf.subrange(p + 6, p + 8));
                assert(r4.next_bytes(8) =~= buf.subrange(p + 8, p + 16));
                assert(r5.next_bytes(8) =~= buf.subrange(p + 16, p + 24));
                assert(r7.pos == p + 25);
                assert(r8.pos == p + 73);
                assert forall|j: int| 0 <= j < 4 implies {
                    &&& #[trigger] self.dma_src[j] == q.dma_src[j]
                    &&& self.dma_dst[j] == q.dma_dst[j]
                    &&& self.dma_count[j] == q.dma_count[j]
                } by {
                    assert(self.dma_src[j] == from_le32(buf.subrange(p + 25 + 12 * j, p + 29 + 12 * j)));
                    assert(q.dma_src[j] == from_le32(buf.subrange(p + 25 + 12 * j, p + 29 + 12 * j)));
                }
                assert forall|j: int| 0 <= j < 4 implies #[trigger] self.dma_dst[j] == q.dma_dst[j] by {
                    assert(self.dma_src[j] == q.dma_src[j]);
                }
                assert forall|j: int| 0 <= j < 4 implies #[trigger] self.dma_count[j] == q.dma_count[j] by {
                    assert(self.dma_src[j] == q.dma_src[j]);
                }
                assert forall|j: int| 0 <= j < 4 implies #[trigger] self.timers[j] == q.timers[j] by {
                    assert(self.timers[j].reload == from_le16(buf.subrange(p + 73 + 10 * j, p + 75 + 10 * j)));
                    assert(q.timers[j].reload == from_le16(buf.subrange(p + 73 + 10 * j, p + 75 + 10 * j)));
                }
                assert(self.dma_src =~= q.dma_src);
                assert(self.dma_dst =~= q.dma_dst);
                assert(self.dma_count =~= q.dma_count);
                assert(self.timers =~= q.timers);
            }
        }
    }
}

/// What the image of the bus's scalar state decodes to.
#[verifier::spinoff_prover]
proof fn lemma_header_decode(q: GbaBus, buf: Seq<u8>, p: int)
    requires
        0 <= p,
        p + BUS_HEADER_LEN <= buf.len(),
        buf.subrange(p, p + BUS_HEADER_LEN) == q.header_bytes(),
    ensures
        from_le16(buf.subrange(p, p + 2)) == q.keyinput,
        from_le16(buf.subrange(p + 2, p + 4)) == q.ie,
        from_le16(buf.subrange(p + 4, p + 6)) == q.if_,
        from_le16(buf.subrange(p + 6, p + 8)) == q.ime,
        from_le64(buf.subrange(p + 8, p + 16)) == q.cycles,
        from_le64(buf.subrange(p + 16, p + 24)) == q.timer_cycles,
        (buf[p + 24] != 0) == q.halted,
        forall|j: int|
            0 <= j < 4 ==> {
                &&& from_le32(buf.subrange(p + 25 + 12 * j, p + 29 + 12 * j)) == #[trigger] q.dma_src[j]
                &&& from_le32(buf.subrange(p + 29 + 12 * j, p + 33 + 12 * j)) == q.dma_dst[j]
                &&& from_le32(buf.subrange(p + 33 + 12 * j, p + 37 + 12 * j)) == q.dma_count[j]
            },
        forall|j: int|
            0 <= j < 4 ==> {
                &&& from_le16(buf.subrange(p + 73 + 10 * j, p + 75 + 10 * j)) == #[trigger] q.timers[j].reload
                &&& from_le16(buf.subrange(p + 75 + 10 * j, p + 77 + 10 * j)) == q.timers[j].counter
                &&& from_le16(buf.subrange(p + 77 + 10 * j, p + 79 + 10 * j)) == q.timers[j].control
                &&& from_le32(buf.subrange(p + 79 + 10 * j, p + 83 + 10 * j)) == q.timers[j].subcycle
            },
{
    lemma_header_layout(q);
    let h = q.header_bytes();
    assert forall|k: int| 0 <= k < 113 implies buf[p + k] == #[trigger] h[k] by {
        assert(buf.subrange(p, p + 113)[k] == buf[p + k]);
    }
    crate::state::lemma_le16_roundtrip(q.keyinput);
    crate::state::lemma_le16_roundtrip(q.ie);
    crate::state::lemma_le16_roundtrip(q.if_);
    crate::state::lemma_le16_roundtrip(q.ime);
    crate::state::lemma_le64_roundtrip(q.cycles);
    crate::state::lemma_le64_roundtrip(q.timer_cycles);
    assert(buf.subrange(p, p + 2) =~= h.subrange(0, 2));
    assert(buf.subrange(p + 2, p + 4) =~= h.subrange(2, 4));
    assert(buf.subrange(p + 4, p + 6) =~= h.subrange(4, 6));
    assert(buf.subrange(p + 6, p + 8) =~= h.subrange(6, 8));
    assert(buf.subrange(p + 8, p + 16) =~= h.subrange(8, 16));
    assert(buf.subrange(p + 16, p + 24) =~= h.subrange(16, 24));
    lemma_header_decode_dma(q, buf, p);
    lemma_header_decode_timers(q, buf, p);
}

impl GbaBus {
    /// An image of `self` can be read back into `target`: `self` is a valid
    /// bus and the backup chips are the same size (as they are for two
    /// machines made from one cartridge).
    pub open spec fn restorable_into(&self, target: &GbaBus) -> bool {
        &&& self.wf()
        &&& self.save@.data.len() == target.save@.data.len()
    }

    /// `self` holds everything the image of `q` carries (the backup chip
    /// keeps its own kind and dirty flag).
    pub open spec fn restored_from(&self, q: &GbaBus) -> bool {
        &&& self.base_restored_from(q)
        &&& self.apu.restored_from(&q.apu)
    }

    /// `self` holds everything the image of `q` carries before the sound
    /// unit's part.
    pub open spec fn base_restored_from(&self, q: &GbaBus) -> bool {
        &&& self.header_restored(q)
        &&& self.ewram@ == q.ewram@
        &&& self.iwram@ == q.iwram@
        &&& self.io@ == q.io@
        &&& self.save@ == (SaveModel { kind: self.save@.kind, dirty: self.save@.dirty, ..q.save@ })
        &&& self.ppu.restored_from(&q.ppu)
    }

    /// Read the bus back from a save-state image. The sound unit's part is
    /// read only when more than 8 bytes remain for it, so images without it
    /// still load. When the reader holds the image of a bus that can be read
    /// back into this one, everything that image carries comes back; when it
    /// holds such an image without the sound unit's part, with at most 8
    /// bytes after it, the rest comes back and the sound unit is left as it
    /// was.
    #[verifier::spinoff_prover]
    #[verifier::rlimit(40)]
    pub fn deserialize(&mut self, r: &mut Reader)
        requires
            old(self).wf(),
        ensures
            final(self).wf(),
            final(r).buf@ == old(r).buf@,
            final(self).bios@ == old(self).bios@,
            final(self).rom@ == old(self).rom@,
            final(self).log == old(self).log,
            final(self).save.kind == old(self).save.kind,
            old(r).ran(*final(r), image_need(old(r).buf@, old(r).pos as int)),
            forall|q: GbaBus|
                q.restorable_into(old(self)) && old(r).pos + q.state_bytes().len() <= old(r).buf@.len()
                    && old(r).buf@.subrange(old(r).pos as int, old(r).pos + q.state_bytes().len())
                    == #[trigger] q.state_bytes() ==> {
                    &&& final(self).restored_from(&q)
                    &&& final(r).pos == old(r).pos + q.state_bytes().len()
                    &&& final(r).failed == old(r).failed
                },
            forall|q: GbaBus|
                q.restorable_into(old(self)) && old(r).pos + q.base_bytes().len() <= old(r).buf@.len()
                    && old(r).buf@.len() <= old(r).pos + q.base_bytes().len() + 8
                    && old(r).buf@.subrange(old(r).pos as int, old(r).pos + q.base_bytes().len())
                    == #[trigger] q.base_bytes() ==> {
                    &&& final(self).base_restored_from(&q)
                    &&& final(self).apu == old(self).apu
                    &&& final(r).pos == old(r).pos + q.base_bytes().len()
                    &&& final(r).failed == old(r).failed
                },
    {
        let ghost p = old(r).pos as int;
        let ghost buf = old(r).buf@;
        let ghost s0 = *self;
        self.deserialize_base(r);
        let ghost r6 = *r;
        let ghost a5 = self.apu;
        let more = r.remaining() > 8;
        if more {
            self.apu.deserialize(r);
        }
        proof {
            let b = base_need(buf, p);
            crate::state::lemma_ran_elim(*old(r), r6, b);
            if more {
                crate::state::lemma_ran_elim(r6, *r, crate::apu::apu_need(buf, r6.pos as int));
            }
            crate::state::lemma_ran_intro(*old(r), *r, image_need(buf, p));
            assert forall|q: GbaBus|
                q.restorable_into(&s0) && p + q.state_bytes().len() <= buf.len() && buf.subrange(
                    p,
                    p + q.state_bytes().len(),
                ) == #[trigger] q.state_bytes() implies {
                &&& self.restored_from(&q)
                &&& r.pos == p + q.state_bytes().len()
                &&& r.failed == old(r).failed
            } by {
                lemma_bus_image_lengths(q);
                crate::state::lemma_split(buf, p, q.base_bytes(), q.apu.state_bytes());
                assert(buf.subrange(p, p + q.base_bytes().len()) == q.base_bytes());
                let o6 = p + q.base_bytes().len();
                assert(r6.pos == o6);
                assert(r6.buf@.subrange(o6, o6 + 329) == q.apu.state_bytes());
                assert(self.apu.restored_from(&q.apu));
            }
            assert forall|q: GbaBus|
                q.restorable_into(&s0) && p + q.base_bytes().len() <= buf.len() && buf.len() <= p
                    + q.base_bytes().len() + 8 && buf.subrange(p, p + q.base_bytes().len())
                    == #[trigger] q.base_bytes() implies {
                &&& self.base_restored_from(&q)
                &&& self.apu == s0.apu
                &&& r.pos == p + q.base_bytes().len()
                &&& r.failed == old(r).failed
            } by {
                assert(r6.pos == p + q.base_bytes().len());
            }
        }
    }

    /// Read back everything of a save-state image before the sound unit's
    /// part.
    #[verifier::spinoff_prover]
    #[verifier::rlimit(100)]
    fn deserialize_base(&mut self, r: &mut Reader)
        requires
            old(self).wf(),
        ensures
            final(self).wf(),
            final(r).buf@ == old(r).buf@,
            final(self).bios@ == old(self).bios@,
            final(self).rom@ == old(self).rom@,
            final(self).log == old(self).log,
            final(self).save.kind == old(self).save.kind,
            final(self).apu == old(self).apu,
            old(r).ran(*final(r), base_need(old(r).buf@, old(r).pos as int)),
            forall|q: GbaBus|
                q.restorable_into(old(self)) && old(r).pos + q.base_bytes().len() <= old(r).buf@.len()
                    && old(r).buf@.subrange(old(r).pos as int, old(r).pos + q.base_bytes().len())
                    == #[trigger] q.base_bytes() ==> {
                    &&& final(self).base_restored_from(&q)
                    &&& final(r).pos == old(r).pos + q.base_bytes().len()
                    &&& final(r).failed == old(r).failed
                },
    {
        let ghost p = old(r).pos as int;
        let ghost buf = old(r).buf@;
        let ghost s0 = *self;
        self.get_header(r);
        let ghost r1 = *r;
        r.bytes_into(self.ewram.as_mut_slice());
        let ghost r2 = *r;
        r.bytes_into(self.iwram.as_mut_slice());
        let ghost r3 = *r;
        r.bytes_into(self.io.as_mut_slice());
        let ghost r4 = *r;
        self.save.deserialize(r);
        let ghost r5 = *r;
        self.ppu.deserialize(r);
        let ghost r6 = *r;
        proof {
            assert(old(r).ran(*r, base_need(buf, p))) by {
                let e = block_need(buf, p + 113);
                let i = block_need(buf, p + 113 + e);
                let o = block_need(buf, p + 113 + e + i);
                let sv = crate::save::save_need(buf, p + 113 + e + i + o);
                let pp = crate::ppu::ppu_need(buf, p + 113 + e + i + o + sv);
                crate::state::lemma_ran_elim(*old(r), r1, 113);
                crate::state::lemma_ran_seq(*old(r), r1, r2, 113, e);
                crate::state::lemma_ran_elim(*old(r), r2, 113 + e);
                crate::state::lemma_ran_seq(*old(r), r2, r3, 113 + e, i);
                crate::state::lemma_ran_elim(*old(r), r3, 113 + e + i);
                crate::state::lemma_ran_seq(*old(r), r3, r4, 113 + e + i, o);
                crate::state::lemma_ran_elim(*old(r), r4, 113 + e + i + o);
                crate::state::lemma_ran_seq(*old(r), r4, r5, 113 + e + i + o, sv);
                crate::state::lemma_ran_elim(*old(r), r5, 113 + e + i + o + sv);
                crate::state::lemma_ran_elim(r5, r6, crate::ppu::ppu_need(buf, r5.pos as int));
                crate::state::lemma_ran_seq(*old(r), r5, r6, 113 + e + i + o + sv, pp);
            }
            assert forall|q: GbaBus|
                q.restorable_into(&s0) && p + q.base_bytes().len() <= buf.len() && buf.subrange(
                    p,
                    p + q.base_bytes().len(),
                ) == #[trigger] q.base_bytes() implies {
                &&& self.base_restored_from(&q)
                &&& r.pos == p + q.base_bytes().len()
                &&& r.failed == old(r).failed
            } by {
                lemma_bus_image_lengths(q);
                lemma_split6(
                    buf,
                    p,
                    q.header_bytes(),
                    block(q.ewram@),
                    block(q.iwram@),
                    block(q.io@),
                    crate::save::save_bytes(q.save@),
                    q.ppu.state_bytes(),
                );
                let dl = q.save@.data.len() as int;
                let o4 = p + 296061;
                let o5 = o4 + 117 + dl;
                let o6 = o5 + 100508;
                assert(r1.pos == p + 113);
                crate::state::lemma_block_at(buf, p + 113, q.ewram@);
                assert(r1.next_bytes(4) =~= buf.subrange(p + 113, p + 117));
                assert(r2.pos == p + 113 + 0x40004);
                crate::state::lemma_block_at(buf, p + 262261, q.iwram@);
                assert(r2.next_bytes(4) =~= buf.subrange(p + 262261, p + 262265));
                assert(r3.pos == p + 262261 + 0x8004);
                crate::state::lemma_block_at(buf, p + 295033, q.io@);
                assert(r3.next_bytes(4) =~= buf.subrange(p + 295033, p + 295037));
                assert(r3.buf@ == buf);
                assert(from_le32(r3.next_bytes(4)) == 0x400);
                assert(r3.has(4) && r3.has(0x404));
                assert(r4.pos == o4);
                let rest = buf.subrange(o4, buf.len() as int);
                assert(rest.subrange(0, 117 + dl) =~= buf.subrange(o4, o5));
                crate::save::lemma_save_roundtrip_prefix(s0.save@, q.save@, rest);
                assert(rest.subrange(113, 117) =~= r4.next_bytes(117).subrange(113, 117));
                assert(r4.buf@.subrange(r4.pos as int, r4.buf@.len() as int) =~= rest);
                assert(r5.pos == o5);
                assert(r5.buf@.subrange(o5, o5 + 100508) == q.ppu.state_bytes());
                assert(r6.pos == o6);
                assert(self.header_restored(&q));
                assert(self.ewram@ == q.ewram@);
                assert(self.iwram@ == q.iwram@);
                assert(self.io@ == q.io@);
                assert(self.save@ == (SaveModel { kind: self.save@.kind, dirty: self.save@.dirty, ..q.save@ }));
                assert(self.ppu.restored_from(&q.ppu));
            }
        }
    }
}

/// The bytes the bus's image at `p` of `buf` takes before the sound unit's
/// part: the scalar state, the three memory blocks and the backup chip as
/// long as their length fields say, and the display controller.
pub open spec fn base_need(buf: Seq<u8>, p: int) -> int {
    let e = block_need(buf, p + 113);
    let i = block_need(buf, p + 113 + e);
    let o = block_need(buf, p + 113 + e + i);
    let sv = crate::save::save_need(buf, p + 113 + e + i + o);
    113 + e + i + o + sv + crate::ppu::ppu_need(buf, p + 113 + e + i + o + sv)
}

/// The bytes the bus's image at `p` of `buf` takes: the part before the sound
/// unit's, then the sound unit's part when more than 8 bytes remain for it.
pub open spec fn image_need(buf: Seq<u8>, p: int) -> int {
    let b = base_need(buf, p);
    if buf.len() - (p + b) > 8 {
        b + crate::apu::apu_need(buf, p + b)
    } else {
        b
    }
}

/// A window of `buf` that holds seven pieces one after another holds
/// each of them in turn.
proof fn lemma_split6(buf: Seq<u8>, p: int, x1: Seq<u8>, x2: Seq<u8>, x3: Seq<u8>, x4: Seq<u8>, x5: Seq<u8>, x6: Seq<u8>)
    requires
        0 <= p,
        p + (x1 + x2 + x3 + x4 + x5 + x6).len() <= buf.len(),
        buf.subrange(p, p + (x1 + x2 + x3 + x4 + x5 + x6).len()) == x1 + x2 + x3 + x4 + x5 + x6,
    ensures
        ({
            let o2 = p + x1.len();
            let o3 = o2 + x2.len();
            let o4 = o3 + x3.len();
            let o5 = o4 + x4.len();
            let o6 = o5 + x5.len();
            &&& buf.subrange(p, o2) == x1
            &&& buf.subrange(o2, o3) == x2
            &&& buf.subrange(o3, o4) == x3
            &&& buf.subrange(o4, o5) == x4
            &&& buf.subrange(o5, o6) == x5
            &&& buf.subrange(o6, o6 + x6.len()) == x6
        }),
{
    let y2 = x1 + x2;
    let y3 = y2 + x3;
    let y4 = y3 + x4;
    let y5 = y4 + x5;
    crate::state::lemma_split(buf, p, y5, x6);
    crate::state::lemma_split(buf, p, y4, x5);
    crate::state::lemma_split(buf, p, y3, x4);
    crate::state::lemma_split(buf, p, y2, x3);
    crate::state::lemma_split(buf, p, x1, x2);
}

/// The lengths of the parts of the bus's image.
proof fn lemma_bus_image_lengths(q: GbaBus)
    requires
        q.wf(),
    ensures
        q.header_bytes().len() == 113,
        block(q.ewram@).len() == 4 + 0x40000,
        block(q.iwram@).len() == 4 + 0x8000,
        block(q.io@).len() == 4 + 0x400,
        crate::save::save_bytes(q.save@).len() == 117 + q.save@.data.len(),
        q.ppu.state_bytes().len() == 100508,
        q.apu.state_bytes().len() == 329,
{
    lemma_header_len(q);
    lemma_save_image_len(q.save@);
    crate::ppu::lemma_ppu_image_len(q.ppu);
    crate::apu::lemma_apu_image_len(q.apu);
}

proof fn lemma_header_len(q: GbaBus)
    ensures
        q.header_bytes().len() == 113,
{
    lemma_header_layout(q);
}

proof fn lemma_save_image_len(m: SaveModel)
    ensures
        crate::save::save_bytes(m).len() == 117 + m.data.len(),
{
}




proof fn lemma_header_decode_dma(q: GbaBus, buf: Seq<u8>, p: int)
    requires
        0 <= p,
        p + BUS_HEADER_LEN <= buf.len(),
        buf.subrange(p, p + BUS_HEADER_LEN) == q.header_bytes(),
    ensures
        forall|j: int|
            0 <= j < 4 ==> {
                &&& from_le32(buf.subrange(p + 25 + 12 * j, p + 29 + 12 * j)) == #[trigger] q.dma_src[j]
                &&& from_le32(buf.subrange(p + 29 + 12 * j, p + 33 + 12 * j)) == q.dma_dst[j]
                &&& from_le32(buf.subrange(p + 33 + 12 * j, p + 37 + 12 * j)) == q.dma_count[j]
            },
{
    lemma_header_layout(q);
    let h = q.header_bytes();
    assert forall|k: int| 0 <= k < 113 implies buf[p + k] == #[trigger] h[k] by {
        assert(buf.subrange(p, p + 113)[k] == buf[p + k]);
    }
    assert forall|j: int| 0 <= j < 4 implies {
        &&& from_le32(buf.subrange(p + 25 + 12 * j, p + 29 + 12 * j)) == #[trigger] q.dma_src[j]
        &&& from_le32(buf.subrange(p + 29 + 12 * j, p + 33 + 12 * j)) == q.dma_dst[j]
        &&& from_le32(buf.subrange(p + 33 + 12 * j, p + 37 + 12 * j)) == q.dma_count[j]
    } by {
        let d = h.subrange(25 + 12 * j, 37 + 12 * j);
        assert(d == dma_bytes(q.dma_src[j], q.dma_dst[j], q.dma_count[j]));
        crate::state::lemma_le32_roundtrip(q.dma_src[j]);
        crate::state::lemma_le32_roundtrip(q.dma_dst[j]);
        crate::state::lemma_le32_roundtrip(q.dma_count[j]);
        assert(buf.subrange(p + 25 + 12 * j, p + 29 + 12 * j) =~= d.subrange(0, 4));
        assert(d.subrange(0, 4) =~= le32(q.dma_src[j]));
        assert(buf.subrange(p + 29 + 12 * j, p + 33 + 12 * j) =~= d.subrange(4, 8));
        assert(d.subrange(4, 8) =~= le32(q.dma_dst[j]));
        assert(buf.subrange(p + 33 + 12 * j, p + 37 + 12 * j) =~= d.subrange(8, 12));
        assert(d.subrange(8, 12) =~= le32(q.dma_count[j]));
    }
}

#[verifier::spinoff_prover]
#[verifier::rlimit(40)]
proof fn lemma_header_decode_timers(q: GbaBus, buf: Seq<u8>, p: int)
    requires
        0 <= p,
        p + BUS_HEADER_LEN <= buf.len(),
        buf.subrange(p, p + BUS_HEADER_LEN) == q.header_bytes(),
    ensures
        forall|j: int|
            0 <= j < 4 ==> {
                &&& from_le16(buf.subrange(p + 73 + 10 * j, p + 75 + 10 * j)) == #[trigger] q.timers[j].reload
                &&& from_le16(buf.subrange(p + 75 + 10 * j, p + 77 + 10 * j)) == q.timers[j].counter
                &&& from_le16(buf.subrange(p + 77 + 10 * j, p + 79 + 10 * j)) == q.timers[j].control
                &&& from_le32(buf.subrange(p + 79 + 10 * j, p + 83 + 10 * j)) == q.timers[j].subcycle
            },
{
    lemma_header_layout(q);
    let h = q.header_bytes();
    assert forall|k: int| 0 <= k < 113 implies buf[p + k] == #[trigger] h[k] by {
        assert(buf.subrange(p, p + 113)[k] == buf[p + k]);
    }
    assert forall|j: int| 0 <= j < 4 implies {
        &&& from_le16(buf.subrange(p + 73 + 10 * j, p + 75 + 10 * j)) == #[trigger] q.timers[j].reload
        &&& from_le16(buf.subrange(p + 75 + 10 * j, p + 77 + 10 * j)) == q.timers[j].counter
        &&& from_le16(buf.subrange(p + 77 + 10 * j, p + 79 + 10 * j)) == q.timers[j].control
        &&& from_le32(buf.subrange(p + 79 + 10 * j, p + 83 + 10 * j)) == q.timers[j].subcycle
    } by {
        let d = h.subrange(73 + 10 * j, 83 + 10 * j);
        let t = q.timers[j];
        assert(d == timer_bytes(t));
        crate::state::lemma_le16_roundtrip(t.reload);
        crate::state::lemma_le16_roundtrip(t.counter);
        crate::state::lemma_le16_roundtrip(t.control);
        crate::state::lemma_le32_roundtrip(t.subcycle);
        assert(buf.subrange(p + 73 + 10 * j, p + 75 + 10 * j) =~= d.subrange(0, 2));
        assert(d.subrange(0, 2) =~= le16(t.reload));
        assert(buf.subrange(p + 75 + 10 * j, p + 77 + 10 * j) =~= d.subrange(2, 4));
        assert(d.subrange(2, 4) =~= le16(t.counter));
        assert(buf.subrange(p + 77 + 10 * j, p + 79 + 10 * j) =~= d.subrange(4, 6));
        assert(d.subrange(4, 6) =~= le16(t.control));
        assert(buf.subrange(p + 79 + 10 * j, p + 83 + 10 * j) =~= d.subrange(6, 10));
        assert(d.subrange(6, 10) =~= le32(t.subcycle));
    }
}

} // verus!
