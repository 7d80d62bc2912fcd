//! The LCD video controller: display memory (VRAM, palette, OAM), the LCD I/O
//! registers, the scanline and blanking timing, and the scanline renderer
//! (bitmap modes 3-5; tile modes 0-2 with text and affine backgrounds and
//! regular sprites).

use vstd::prelude::*;
use crate::state::{Reader, Writer, le32, halves_le, block, block_need, put_halves, get_halves};

verus! {

pub const SCREEN_W: usize = 240;

pub const SCREEN_H: usize = 160;

/// Dots per scanline including H-blank, and scanlines per frame including
/// V-blank. Each dot takes four CPU cycles.
pub const DOTS_PER_LINE: u32 = 308;

pub const TOTAL_LINES: u32 = 228;

pub const CYCLES_PER_DOT: u32 = 4;

pub const CYCLES_PER_LINE: u32 = 1232;

/// Cycles of a line's visible part (240 dots); H-blank follows.
pub const HDRAW_CYCLES: u32 = 960;

pub const VRAM_LEN: usize = 0x18000;

pub const PAL_LEN: usize = 0x400;

pub const OAM_LEN: usize = 0x400;

pub const FRAME_LEN: usize = 38400;

pub struct Ppu {
    /// LCD I/O registers 0x04000000..0x04000080 as halfwords.
    pub regs: [u16; 64],
    pub vram: Vec<u8>,
    pub palram: Vec<u8>,
    pub oam: Vec<u8>,
    /// The rendered frame, RGB555, 240 x 160.
    pub framebuffer: Vec<u16>,
    /// The internal affine reference points (28-bit signed, 8.8 fixed):
    /// BG2 x, BG2 y, BG3 x, BG3 y.
    pub bg_ref: [i32; 4],
}

/// A 28-bit signed affine coordinate, sign-extended.
pub open spec fn sext28(v: u32) -> i32 {
    let m = v & 0x0FFF_FFFF;
    if m & 0x0800_0000 != 0 {
        (m | 0xF000_0000) as i32
    } else {
        m as i32
    }
}

fn sign_extend_28(v: u32) -> (r: i32)
    ensures
        r == sext28(v),
{
    let m = v & 0x0FFF_FFFF;
    if m & 0x0800_0000 != 0 {
        (m | 0xF000_0000) as i32
    } else {
        m as i32
    }
}

/// Where a display address lands in VRAM: a 128 KB window whose top 32 KB
/// mirror 0x10000..0x18000.
pub open spec fn vram_index_spec(addr: u32) -> int {
    let o = (addr & 0x1_FFFF) as int;
    if o >= 0x18000 {
        o - 0x8000
    } else {
        o
    }
}

impl Ppu {
    /// Display memory and the frame have their fixed sizes.
    pub open spec fn wf(&self) -> bool {
        &&& self.vram@.len() == VRAM_LEN
        &&& self.palram@.len() == PAL_LEN
        &&& self.oam@.len() == OAM_LEN
        &&& self.framebuffer@.len() == FRAME_LEN
    }

    /// Everything but the registers and the reference points is kept.
    pub open spec fn memory_kept(&self, other: &Ppu) -> bool {
        &&& other.vram@ == self.vram@
        &&& other.palram@ == self.palram@
        &&& other.oam@ == self.oam@
        &&& other.framebuffer@ == self.framebuffer@
    }

    /// A powered-on controller: registers and memory zero.
    pub fn new() -> (p: Ppu)
        ensures
            p.wf(),
            forall|i: int| 0 <= i < 64 ==> p.regs[i] == 0,
            forall|i: int| 0 <= i < VRAM_LEN ==> p.vram@[i] == 0,
            forall|i: int| 0 <= i < PAL_LEN ==> p.palram@[i] == 0,
            forall|i: int| 0 <= i < OAM_LEN ==> p.oam@[i] == 0,
            forall|i: int| 0 <= i < FRAME_LEN ==> p.framebuffer@[i] == 0,
            forall|i: int| 0 <= i < 4 ==> p.bg_ref[i] == 0,
    {
        Ppu {
            regs: [0; 64],
            vram: zeroed_bytes(VRAM_LEN),
            palram: zeroed_bytes(PAL_LEN),
            oam: zeroed_bytes(OAM_LEN),
            framebuffer: zeroed_pixels(FRAME_LEN),
            bg_ref: [0; 4],
        }
    }

    // --- LCD I/O registers -------------------------------------------------------

    /// The register halfword at byte offset `offset` (0x00..0x7F, wrapping).
    pub fn read_reg16(&self, offset: u32) -> (v: u16)
        ensures
            v == self.regs[((offset >> 1) & 0x3F) as int],
    {
        let i = ((offset >> 1) & 0x3F) as usize;
        proof {
            crate::bits::lemma_u32_bits(offset >> 1, 0x3F);
        }
        self.regs[i]
    }

    /// DISPSTAT.
    pub fn dispstat(&self) -> (v: u16)
        ensures
            v == self.regs[2],
    {
        self.regs[2]
    }

    /// The reference point of BG2 (`bg` 0) or BG3 (1) from its BGxX / BGxY
    /// registers.
    pub open spec fn ref_from_regs(regs: [u16; 64], bg: int) -> (i32, i32) {
        let xb = if bg == 0 { 0x14int } else { 0x1Cint };
        (
            sext28((regs[xb] as u32) | ((regs[xb + 1] as u32) << 16)),
            sext28((regs[xb + 2] as u32) | ((regs[xb + 3] as u32) << 16)),
        )
    }

    fn reload_bg_ref(&mut self, bg: usize)
        requires
            bg < 2,
        ensures
            final(self).regs == old(self).regs,
            old(self).memory_kept(&*final(self)),
            final(self).bg_ref[2 * bg as int] == Self::ref_from_regs(old(self).regs, bg as int).0,
            final(self).bg_ref[2 * bg as int + 1] == Self::ref_from_regs(old(self).regs, bg as int).1,
            final(self).bg_ref[2 - 2 * bg as int] == old(self).bg_ref[2 - 2 * bg as int],
            final(self).bg_ref[3 - 2 * bg as int] == old(self).bg_ref[3 - 2 * bg as int],
    {
        let xb: usize = if bg == 0 { 0x14 } else { 0x1C };
        let x = (self.regs[xb] as u32) | ((self.regs[xb + 1] as u32) << 16);
        let y = (self.regs[xb + 2] as u32) | ((self.regs[xb + 3] as u32) << 16);
        self.bg_ref[2 * bg] = sign_extend_28(x);
        self.bg_ref[2 * bg + 1] = sign_extend_28(y);
    }

    /// The register file after a halfword write at register index `i`:
    /// VCOUNT is read-only and DISPSTAT's status bits 0..2 are kept.
    pub open spec fn regs_after_write(regs: [u16; 64], i: int, val: u16) -> u16 {
        if i == 3 {
            regs[3]
        } else if i == 2 {
            (val & 0xFFF8) | (regs[2] & 0x0007)
        } else {
            val
        }
    }

    /// `after` is this controller after `val` is written to the register
    /// halfword at byte offset `offset`: VCOUNT is read-only, DISPSTAT keeps
    /// its status bits 0-2, and writing any half of BG2X/BG2Y or BG3X/BG3Y
    /// reloads that background's reference point; display memory is kept.
    pub open spec fn reg_written(&self, after: &Ppu, offset: u32, val: u16) -> bool {
        let i = ((offset >> 1) & 0x3F) as int;
        &&& after.regs@ == self.regs@.update(i, Self::regs_after_write(self.regs, i, val))
        &&& self.memory_kept(after)
        &&& if 0x14 <= i < 0x18 {
            &&& (after.bg_ref[0], after.bg_ref[1]) == Self::ref_from_regs(after.regs, 0)
            &&& after.bg_ref[2] == self.bg_ref[2] && after.bg_ref[3] == self.bg_ref[3]
        } else if 0x1C <= i < 0x20 {
            &&& (after.bg_ref[2], after.bg_ref[3]) == Self::ref_from_regs(after.regs, 1)
            &&& after.bg_ref[0] == self.bg_ref[0] && after.bg_ref[1] == self.bg_ref[1]
        } else {
            after.bg_ref == self.bg_ref
        }
    }

    /// Write the register halfword at byte offset `offset`. Writing any half
    /// of BG2X/BG2Y or BG3X/BG3Y reloads that background's reference point.
    pub fn write_reg16(&mut self, offset: u32, val: u16)
        ensures
            old(self).reg_written(&*final(self), offset, val),
    {
        let i = ((offset >> 1) & 0x3F) as usize;
        proof {
            crate::bits::lemma_u32_bits(offset >> 1, 0x3F);
        }
        let ghost r0 = self.regs;
        if i == 3 {
        } else if i == 2 {
            let ro = self.regs[2] & 0x0007;
            self.regs[2] = (val & 0xFFF8) | ro;
        } else {
            self.regs[i] = val;
        }
        assert(self.regs@ =~= r0@.update(i as int, Self::regs_after_write(r0, i as int, val)));
        if 0x14 <= i && i < 0x18 {
            self.reload_bg_ref(0);
        } else if 0x1C <= i && i < 0x20 {
            self.reload_bg_ref(1);
        }
    }

    // --- Display memory, with GBA mirroring --------------------------------------

    pub fn vram_index(addr: u32) -> (i: usize)
        ensures
            i as int == vram_index_spec(addr),
            i < VRAM_LEN,
    {
        let o = (addr & 0x1_FFFF) as usize;
        proof {
            crate::bits::lemma_u32_bits(addr, 0x1_FFFF);
        }
        if o >= 0x18000 {
            o - 0x8000
        } else {
            o
        }
    }

    pub fn read_pal8(&self, addr: u32) -> (v: u8)
        requires
            self.wf(),
        ensures
            v == self.palram@[(addr & 0x3FF) as int],
    {
        proof {
            crate::bits::lemma_u32_bits(addr, 0x3FF);
        }
        self.palram[(addr & 0x3FF) as usize]
    }

    pub fn read_vram8(&self, addr: u32) -> (v: u8)
        requires
            self.wf(),
        ensures
            v == self.vram@[vram_index_spec(addr)],
    {
        self.vram[Self::vram_index(addr)]
    }

    pub fn read_oam8(&self, addr: u32) -> (v: u8)
        requires
            self.wf(),
        ensures
            v == self.oam@[(addr & 0x3FF) as int],
    {
        proof {
            crate::bits::lemma_u32_bits(addr, 0x3FF);
        }
        self.oam[(addr & 0x3FF) as usize]
    }

    /// A byte write to palette RAM lands in both bytes of its halfword.
    pub fn write_pal8(&mut self, addr: u32, v: u8)
        requires
            old(self).wf(),
        ensures
            final(self).wf(),
            final(self).palram@ == old(self).palram@.update((addr & 0x3FE) as int, v).update((addr & 0x3FE) + 1, v),
            final(self).vram == old(self).vram,
            final(self).oam == old(self).oam,
            final(self).framebuffer == old(self).framebuffer,
            final(self).regs == old(self).regs,
            final(self).bg_ref == old(self).bg_ref,
    {
        let a = (addr & 0x3FE) as usize;
        proof {
            crate::bits::lemma_u32_bits(addr, 0x3FE);
        }
        self.palram.set(a, v);
        self.palram.set(a + 1, v);
    }

    /// A byte write to VRAM lands in both bytes of its halfword.
    pub fn write_vram8(&mut self, addr: u32, v: u8)
        requires
            old(self).wf(),
        ensures
            final(self).wf(),
            ({
                let i = vram_index_spec(addr) - vram_index_spec(addr) % 2;
                final(self).vram@ == old(self).vram@.update(i, v).update(i + 1, v)
            }),
            final(self).palram == old(self).palram,
            final(self).oam == old(self).oam,
            final(self).framebuffer == old(self).framebuffer,
            final(self).regs == old(self).regs,
            final(self).bg_ref == old(self).bg_ref,
    {
        let j = Self::vram_index(addr);
        let i = j - j % 2;
        self.vram.set(i, v);
        self.vram.set(i + 1, v);
    }

    /// OAM ignores byte writes.
    pub fn write_oam8(&mut self, addr: u32, v: u8)
        ensures
            *final(self) == *old(self),
    {
    }

    // --- Timing ----------------------------------------------------------------

    /// `after` is this PPU entering scanline `line` (see `begin_line`).
    pub open spec fn line_begun(self, after: Ppu, line: u32) -> bool {
        &&& self.memory_kept(&after)
        &&& after.regs[3] == line as u16
        &&& after.regs[2] == (self.regs[2] & 0xFFF8) | (if line >= 160 && line != 227 { 1u16 } else { 0u16 }) | (if line
            as u16 == (self.regs[2] >> 8) & 0xFF {
            4u16
        } else {
            0u16
        })
        &&& forall|i: int| 0 <= i < 64 && i != 2 && i != 3 ==> after.regs[i] == self.regs[i]
        &&& line == 0 ==> (after.bg_ref[0], after.bg_ref[1]) == Self::ref_from_regs(self.regs, 0) && (
            after.bg_ref[2],
            after.bg_ref[3],
        ) == Self::ref_from_regs(self.regs, 1)
        &&& 0 < line < 160 ==> {
            &&& after.bg_ref[0] == self.bg_ref[0].wrapping_add(self.regs[0x11] as i16 as i32)
            &&& after.bg_ref[1] == self.bg_ref[1].wrapping_add(self.regs[0x13] as i16 as i32)
            &&& after.bg_ref[2] == self.bg_ref[2].wrapping_add(self.regs[0x19] as i16 as i32)
            &&& after.bg_ref[3] == self.bg_ref[3].wrapping_add(self.regs[0x1B] as i16 as i32)
        }
        &&& line >= 160 ==> after.bg_ref == self.bg_ref
    }

    /// `after` is this PPU with visible line `line` rendered into its
    /// framebuffer (see `render_line`); nothing else changes.
    pub open spec fn line_rendered(self, after: Ppu, line: int) -> bool {
        let dispcnt = self.regs[0];
        let mode = dispcnt & 7;
        &&& after.regs == self.regs
        &&& after.bg_ref == self.bg_ref
        &&& after.vram@ == self.vram@
        &&& after.palram@ == self.palram@
        &&& after.oam@ == self.oam@
        &&& after.framebuffer@.len() == self.framebuffer@.len()
        &&& forall|i: int|
            0 <= i < FRAME_LEN && !(line * 240 <= i < line * 240 + 240) ==> after.framebuffer@[i] == self.framebuffer@[i]
        &&& forall|x: int|
            0 <= x < 240 ==> #[trigger] after.framebuffer@[line * 240 + x] == if dispcnt & 0x80 != 0 {
                0x7FFFu16
            } else if mode == 3 || mode == 4 || mode == 5 {
                bitmap_pixel(self, line, x, mode, dispcnt)
            } else {
                tiled_pixel(self, mode, dispcnt, line, x)
            }
    }

    /// `after` is this PPU with DISPSTAT's H-blank flag set.
    pub open spec fn hblank_entered(self, after: Ppu) -> bool {
        &&& self.memory_kept(&after)
        &&& after.regs@ == self.regs@.update(2, self.regs[2] | 2)
        &&& after.bg_ref == self.bg_ref
    }

    /// Enter scanline `line`: VCOUNT takes the line, the affine reference
    /// points are reloaded at the top of the frame and advanced by PB / PD on
    /// each other visible line, and DISPSTAT's status bits are recomputed
    /// (V-blank on lines 160..226, H-blank off, V-counter match).
    pub fn begin_line(&mut self, line: u32)
        ensures
            old(self).line_begun(*final(self), line),
            old(self).memory_kept(&*final(self)),
            final(self).regs[3] == line as u16,
            final(self).regs[2] == (old(self).regs[2] & 0xFFF8) | (if line >= 160 && line != 227 { 1u16 } else { 0u16 }) | (
            if line as u16 == (old(self).regs[2] >> 8) & 0xFF {
                4u16
            } else {
                0u16
            }),
            forall|i: int| 0 <= i < 64 && i != 2 && i != 3 ==> final(self).regs[i] == old(self).regs[i],
            line == 0 ==> (final(self).bg_ref[0], final(self).bg_ref[1]) == Self::ref_from_regs(old(self).regs, 0) && (
            final(self).bg_ref[2],
            final(self).bg_ref[3],
            ) == Self::ref_from_regs(old(self).regs, 1),
            0 < line < 160 ==> {
                &&& final(self).bg_ref[0] == old(self).bg_ref[0].wrapping_add(old(self).regs[0x11] as i16 as i32)
                &&& final(self).bg_ref[1] == old(self).bg_ref[1].wrapping_add(old(self).regs[0x13] as i16 as i32)
                &&& final(self).bg_ref[2] == old(self).bg_ref[2].wrapping_add(old(self).regs[0x19] as i16 as i32)
                &&& final(self).bg_ref[3] == old(self).bg_ref[3].wrapping_add(old(self).regs[0x1B] as i16 as i32)
            },
            line >= 160 ==> final(self).bg_ref == old(self).bg_ref,
    {
        self.regs[3] = line as u16;
        let ghost r1 = self.regs;
        if line == 0 {
            self.reload_bg_ref(0);
            self.reload_bg_ref(1);
            proof {
                assert(Self::ref_from_regs(r1, 0) == Self::ref_from_regs(old(self).regs, 0));
                assert(Self::ref_from_regs(r1, 1) == Self::ref_from_regs(old(self).regs, 1));
            }
        } else if line < 160 {
            let pb2 = self.regs[0x11] as i16 as i32;
            let pd2 = self.regs[0x13] as i16 as i32;
            let pb3 = self.regs[0x19] as i16 as i32;
            let pd3 = self.regs[0x1B] as i16 as i32;
            self.bg_ref[0] = self.bg_ref[0].wrapping_add(pb2);
            self.bg_ref[1] = self.bg_ref[1].wrapping_add(pd2);
            self.bg_ref[2] = self.bg_ref[2].wrapping_add(pb3);
            self.bg_ref[3] = self.bg_ref[3].wrapping_add(pd3);
        }
        let mut stat = self.regs[2] & 0xFFF8;
        if line >= 160 && line != 227 {
            stat = stat | 0x0001;
        }
        let vmatch = (self.regs[2] >> 8) & 0xFF;
        if line as u16 == vmatch {
            stat = stat | 0x0004;
        }
        proof {
            let s0 = old(self).regs[2] & 0xFFF8;
            crate::bits::lemma_u16_bits(s0, 0);
            crate::bits::lemma_u16_bits(s0 | 1, 0);
        }
        self.regs[2] = stat;
    }

    /// Enter the H-blank part of the line: DISPSTAT bit 1 is set.
    pub fn enter_hblank(&mut self)
        ensures
            old(self).hblank_entered(*final(self)),
            old(self).memory_kept(&*final(self)),
            final(self).regs@ == old(self).regs@.update(2, old(self).regs[2] | 2),
            final(self).bg_ref == old(self).bg_ref,
    {
        self.regs[2] = self.regs[2] | 2;
    }
}

/// The RGB555 colour of palette entry `idx`.
pub open spec fn color_at(pal: Seq<u8>, idx: int) -> u16 {
    ((pal[2 * idx] as u16) | ((pal[2 * idx + 1] as u16) << 8)) & 0x7FFF
}

/// The little-endian halfword at `o` of `mem`, top bit cleared.
pub open spec fn rgb_at(mem: Seq<u8>, o: int) -> u16 {
    ((mem[o] as u16) | ((mem[o + 1] as u16) << 8)) & 0x7FFF
}

/// Pixel `x` of bitmap-mode line `line`: mode 3 is a 240 x 160 direct-colour
/// frame, mode 4 a paletted 240 x 160 frame, mode 5 a 160 x 128 direct-colour
/// frame in the backdrop; DISPCNT bit 4 selects the second frame of 4 and 5.
pub open spec fn bitmap_pixel(p: Ppu, line: int, x: int, mode: u16, dispcnt: u16) -> u16 {
    let frame: int = if dispcnt & 0x10 != 0 { 0xA000 } else { 0 };
    if mode == 3 {
        rgb_at(p.vram@, (line * 240 + x) * 2)
    } else if mode == 4 {
        color_at(p.palram@, p.vram@[frame + line * 240 + x] as int)
    } else if line < 128 && x < 160 {
        rgb_at(p.vram@, frame + (line * 160 + x) * 2)
    } else {
        color_at(p.palram@, 0)
    }
}

impl Ppu {
    /// The backdrop colour, palette entry 0.
    fn backdrop(&self) -> (c: u16)
        requires
            self.wf(),
        ensures
            c == color_at(self.palram@, 0),
    {
        ((self.palram[0] as u16) | ((self.palram[1] as u16) << 8)) & 0x7FFF
    }

    /// Palette entry `idx`.
    fn color(&self, idx: usize) -> (c: u16)
        requires
            self.wf(),
            idx < 512,
        ensures
            c == color_at(self.palram@, idx as int),
    {
        ((self.palram[2 * idx] as u16) | ((self.palram[2 * idx + 1] as u16) << 8)) & 0x7FFF
    }

    /// The VRAM byte at `i`, or 0 past the end.
    fn vram_at(&self, i: usize) -> (b: u8)
        ensures
            i < self.vram@.len() ==> b == self.vram@[i as int],
            i >= self.vram@.len() ==> b == 0,
    {
        if i < self.vram.len() {
            self.vram[i]
        } else {
            0
        }
    }

    /// Render visible line `line` into the framebuffer. Forced blank (DISPCNT
    /// bit 7) paints it white; modes 3-5 are bitmaps; the others composite
    /// the enabled backgrounds and sprites by priority over the backdrop.
    /// Reads past the end of VRAM see zero.
    pub fn render_line(&mut self, line: usize)
        requires
            old(self).wf(),
            line < SCREEN_H,
        ensures
            old(self).line_rendered(*final(self), line as int),
            final(self).wf(),
            final(self).regs == old(self).regs,
            final(self).bg_ref == old(self).bg_ref,
            final(self).vram@ == old(self).vram@,
            final(self).palram@ == old(self).palram@,
            final(self).oam@ == old(self).oam@,
            forall|i: int|
                0 <= i < FRAME_LEN && !(line * 240 <= i < line * 240 + 240) ==> final(self).framebuffer@[i]
                    == old(self).framebuffer@[i],
            ({
                let dispcnt = old(self).regs[0];
                let mode = dispcnt & 7;
                forall|x: int|
                    0 <= x < 240 ==> #[trigger] final(self).framebuffer@[line * 240 + x] == if dispcnt & 0x80 != 0 {
                        0x7FFFu16
                    } else if mode == 3 || mode == 4 || mode == 5 {
                        bitmap_pixel(*old(self), line as int, x, mode, dispcnt)
                    } else {
                        tiled_pixel(*old(self), mode, dispcnt, line as int, x)
                    }
            }),
            ({
                let dispcnt = old(self).regs[0];
                let mode = dispcnt & 7;
                dispcnt & 0x80 == 0 && !(mode == 3 || mode == 4 || mode == 5) && dispcnt & 0x1F00 == 0 ==> forall|
                    x: int,
                | 0 <= x < 240 ==> #[trigger] final(self).framebuffer@[line * 240 + x] == color_at(old(self).palram@, 0)
            }),
    {
        let dispcnt = self.regs[0];
        let mode = dispcnt & 7;
        if dispcnt & 0x80 != 0 {
            let row = vec_of(0x7FFF, 240);
            self.put_row(line, &row);
            return;
        }
        if mode == 3 || mode == 4 || mode == 5 {
            let row = self.bitmap_row(line, mode, dispcnt);
            self.put_row(line, &row);
        } else {
            let row = self.tiled_row(line, mode, dispcnt);
            self.put_row(line, &row);
        }
    }

    /// Store a rendered row.
    fn put_row(&mut self, line: usize, row: &Vec<u16>)
        requires
            old(self).wf(),
            line < SCREEN_H,
            row@.len() == 240,
        ensures
            final(self).wf(),
            final(self).regs == old(self).regs,
            final(self).bg_ref == old(self).bg_ref,
            final(self).vram@ == old(self).vram@,
            final(self).palram@ == old(self).palram@,
            final(self).oam@ == old(self).oam@,
            forall|i: int|
                0 <= i < FRAME_LEN ==> #[trigger] final(self).framebuffer@[i] == if line * 240 <= i < line * 240 + 240 {
                    row@[i - line * 240]
                } else {
                    old(self).framebuffer@[i]
                },
    {
        let base = line * 240;
        let mut x: usize = 0;
        while x < 240
            invariant
                x <= 240,
                base == line * 240,
                line < SCREEN_H,
                row@.len() == 240,
                self.wf(),
                self.regs == old(self).regs,
                self.bg_ref == old(self).bg_ref,
                self.vram@ == old(self).vram@,
                self.palram@ == old(self).palram@,
                self.oam@ == old(self).oam@,
                forall|i: int|
                    0 <= i < FRAME_LEN ==> #[trigger] self.framebuffer@[i] == if base <= i < base + x {
                        row@[i - base]
                    } else {
                        old(self).framebuffer@[i]
                    },
            decreases 240 - x,
        {
            self.framebuffer.set(base + x, row[x]);
            x = x + 1;
        }
    }

    fn bitmap_row(&self, line: usize, mode: u16, dispcnt: u16) -> (row: Vec<u16>)
        requires
            self.wf(),
            line < SCREEN_H,
            mode == 3 || mode == 4 || mode == 5,
        ensures
            row@.len() == 240,
            forall|x: int| 0 <= x < 240 ==> #[trigger] row@[x] == bitmap_pixel(*self, line as int, x, mode, dispcnt),
    {
        let frame: usize = if dispcnt & 0x10 != 0 { 0xA000 } else { 0 };
        let mut row: Vec<u16> = Vec::new();
        let mut x: usize = 0;
        while x < 240
            invariant
                x <= 240,
                row@.len() == x,
                self.wf(),
                line < SCREEN_H,
                mode == 3 || mode == 4 || mode == 5,
                frame == if dispcnt & 0x10 != 0 { 0xA000usize } else { 0usize },
                forall|k: int| 0 <= k < x ==> #[trigger] row@[k] == bitmap_pixel(*self, line as int, k, mode, dispcnt),
            decreases 240 - x,
        {
            let px = if mode == 3 {
                let o = (line * 240 + x) * 2;
                ((self.vram[o] as u16) | ((self.vram[o + 1] as u16) << 8)) & 0x7FFF
            } else if mode == 4 {
                let idx = self.vram[frame + line * 240 + x] as usize;
                self.color(idx)
            } else if line < 128 && x < 160 {
                let o = frame + (line * 160 + x) * 2;
                ((self.vram[o] as u16) | ((self.vram[o + 1] as u16) << 8)) & 0x7FFF
            } else {
                self.backdrop()
            };
            row.push(px);
            x = x + 1;
        }
        row
    }
}

/// What the layer passes keep of the working row and its ownership.
pub open spec fn row_shape(out: Seq<u16>, wp: Seq<u8>, wr: Seq<u8>) -> bool {
    out.len() == 240 && wp.len() == 240 && wr.len() == 240
}

/// Pixel `k` of a row under composition: its colour, and the priority and
/// rank of the layer that drew it.
pub open spec fn px_at(out: Seq<u16>, wp: Seq<u8>, wr: Seq<u8>, k: int) -> (u16, u8, u8) {
    (out[k], wp[k], wr[k])
}

/// The VRAM byte at `i`, or 0 past the end.
pub open spec fn vram_byte(v: Seq<u8>, i: int) -> u8 {
    if 0 <= i < v.len() {
        v[i]
    } else {
        0
    }
}

/// Whether a layer pixel of priority `prio` and rank `rank` is hidden by the
/// layer that drew the pixel (priority `wp`, rank `wr`): lower priority
/// numbers win, and at equal priority lower ranks (OBJ 0, then BG0..BG3).
pub open spec fn hidden(prio: u8, rank: u8, wp: u8, wr: u8) -> bool {
    prio > wp || (prio == wp && rank >= wr)
}

/// A pixel after a layer's pixel `c` (None where the layer is transparent)
/// of priority `prio` and rank `rank` is drawn over it.
pub open spec fn draw(px: (u16, u8, u8), c: Option<u16>, prio: u8, rank: u8) -> (u16, u8, u8) {
    match c {
        Some(col) => if hidden(prio, rank, px.1, px.2) {
            px
        } else {
            (col, prio, rank)
        },
        None => px,
    }
}

/// The priority of background `bg` (BGxCNT bits 0-1).
pub open spec fn bg_priority(p: Ppu, bg: int) -> u8 {
    (p.regs[4 + bg] & 3) as u8
}

/// The colour of pixel (`fx`, `fy`) of the tile a map entry names, or None
/// where it is colour 0. The entry holds the tile number (bits 0-9), the
/// horizontal and vertical flips (bits 10 and 11) and, at 4 bits per pixel,
/// the palette bank (bits 12-15); tiles start at `char_base` and take 64
/// bytes at 8 bits per pixel, 32 bytes at 4.
#[verifier::opaque]
pub open spec fn tile_pixel(p: Ppu, char_base: int, is_8bpp: bool, entry: u16, fx: int, fy: int) -> Option<u16> {
    let tile = (entry & 0x3FF) as int;
    let tx = if entry & 0x400 != 0 { 7 - fx } else { fx };
    let ty = if entry & 0x800 != 0 { 7 - fy } else { fy };
    let idx: int = if is_8bpp {
        vram_byte(p.vram@, char_base + tile * 64 + ty * 8 + tx) as int
    } else {
        let b = vram_byte(p.vram@, char_base + tile * 32 + ty * 4 + tx / 2);
        (if tx % 2 == 0 { b & 0xF } else { b >> 4 }) as int
    };
    if idx == 0 {
        None
    } else if is_8bpp {
        Some(color_at(p.palram@, idx))
    } else {
        Some(color_at(p.palram@, ((entry >> 12) & 0xF) as int * 16 + idx))
    }
}

/// Where text background `bg` puts column `x` of `line` on its map: the
/// scrolled map coordinates (wrapping at the map's width and height) and
/// the map entry there. BGxCNT holds the map base (bits 8-12, 2 KB units)
/// and the map size (bits 14-15: 256 or 512 pixels each way, in 256 x 256
/// screen blocks of 32 x 32 two-byte entries).
#[verifier::opaque]
pub open spec fn text_map(p: Ppu, bg: int, line: int, x: int) -> (u16, int, int) {
    let cnt = p.regs[4 + bg];
    let screen_base = ((cnt >> 8) & 0x1F) as int * 0x800;
    let size = (cnt >> 14) & 3;
    let wide = size == 1 || size == 3;
    let tall = size == 2 || size == 3;
    let bgx = (x + (p.regs[8 + 2 * bg] & 0x1FF) as int) % (if wide { 512int } else { 256int });
    let bgy = (line + (p.regs[9 + 2 * bg] & 0x1FF) as int) % (if tall { 512int } else { 256int });
    let sb = if wide && tall {
        2 * (bgy / 256) + bgx / 256
    } else if wide {
        bgx / 256
    } else if tall {
        bgy / 256
    } else {
        0
    };
    let map = screen_base + sb * 0x800 + ((bgy % 256) / 8 * 32 + (bgx % 256) / 8) * 2;
    ((vram_byte(p.vram@, map) as u16) | ((vram_byte(p.vram@, map + 1) as u16) << 8), bgx, bgy)
}

/// What text background `bg` shows at column `x` of `line`: the pixel of
/// the map entry's tile its scroll offsets bring there. BGxCNT holds the
/// tile base (bits 2-3, 16 KB units) and 8 bits per pixel (bit 7).
pub open spec fn text_pixel(p: Ppu, bg: int, line: int, x: int) -> Option<u16> {
    let cnt = p.regs[4 + bg];
    let (entry, bgx, bgy) = text_map(p, bg, line, x);
    tile_pixel(p, ((cnt >> 2) & 3) as int * 0x4000, cnt & 0x80 != 0, entry, bgx % 8, bgy % 8)
}

/// A reference-point coordinate after `n` pixels: `v` advanced `n` times
/// by `d`, wrapping at 32 bits.
pub open spec fn affine_advance(v: i32, d: i32, n: nat) -> i32
    decreases n,
{
    if n == 0 {
        v
    } else {
        affine_advance(v, d, (n - 1) as nat).wrapping_add(d)
    }
}

/// The (x, y) reference point of affine background `bg` (2 or 3) at column
/// `x` of the line: the latched point stepped `x` times by (PA, PC), the
/// signed BGxPA and BGxPC registers.
pub open spec fn affine_point(p: Ppu, bg: int, x: int) -> (i32, i32) {
    let pbase: int = if bg == 2 { 0x10 } else { 0x18 };
    let k = 2 * (bg - 2);
    (
        affine_advance(p.bg_ref[k], p.regs[pbase] as i16 as i32, x as nat),
        affine_advance(p.bg_ref[k + 1], p.regs[pbase + 2] as i16 as i32, x as nat),
    )
}

/// What affine background `bg` shows at reference point (`cx`, `cy`) (8.8
/// fixed point): the 8-bit-per-pixel tile pixel at the point's integer
/// part, or None where that pixel is colour 0 or the point lies outside a
/// map that does not wrap. BGxCNT holds the tile base (bits 2-3, 16 KB
/// units), the map base (bits 8-12, 2 KB units), the wrap bit (13) and the
/// map size (bits 14-15: 16, 32, 64 or 128 tiles each way, one byte per
/// tile number).
#[verifier::opaque]
pub open spec fn affine_texel(p: Ppu, bg: int, cx: i32, cy: i32) -> Option<u16> {
    let cnt = p.regs[4 + bg];
    let char_base = ((cnt >> 2) & 3) as int * 0x4000;
    let screen_base = ((cnt >> 8) & 0x1F) as int * 0x800;
    let sz = (cnt >> 14) & 3;
    let map_tiles: int = if sz == 0 { 16 } else if sz == 1 { 32 } else if sz == 2 { 64 } else { 128 };
    let map_px = map_tiles * 8;
    let tx = (cx >> 8u32) as int;
    let ty = (cy >> 8u32) as int;
    let wrap = cnt & 0x2000 != 0;
    let ux = if wrap { tx % map_px } else { tx };
    let uy = if wrap { ty % map_px } else { ty };
    if !wrap && !(0 <= tx < map_px && 0 <= ty < map_px) {
        None
    } else {
        let tile = vram_byte(p.vram@, screen_base + (uy / 8) * map_tiles + ux / 8) as int;
        let pal = vram_byte(p.vram@, char_base + tile * 64 + (uy % 8) * 8 + ux % 8) as int;
        if pal == 0 {
            None
        } else {
            Some(color_at(p.palram@, pal))
        }
    }
}

/// What affine background `bg` shows at column `x` of the line.
pub open spec fn affine_pixel(p: Ppu, bg: int, x: int) -> Option<u16> {
    let (cx, cy) = affine_point(p, bg, x);
    affine_texel(p, bg, cx, cy)
}

/// The little-endian halfword at `o` of OAM.
pub open spec fn oam_half(p: Ppu, o: int) -> u16 {
    (p.oam@[o] as u16) | ((p.oam@[o + 1] as u16) << 8)
}

/// The (width, height) in pixels of a sprite of `shape` (square, wide,
/// tall) and `size`.
pub open spec fn sprite_dims(shape: u16, size: u16) -> (i32, i32) {
    if shape == 0 {
        if size == 0 { (8, 8) } else if size == 1 { (16, 16) } else if size == 2 { (32, 32) } else { (64, 64) }
    } else if shape == 1 {
        if size == 0 { (16, 8) } else if size == 1 { (32, 8) } else if size == 2 { (32, 16) } else { (64, 32) }
    } else {
        if size == 0 { (8, 16) } else if size == 1 { (8, 32) } else if size == 2 { (16, 32) } else { (32, 64) }
    }
}

/// The sprite sizes: a square sprite (shape 0) is 8 pixels on a side at
/// size 0 and doubles with each size; a wide sprite (shape 1) is twice or
/// four times as wide as it is tall, and a tall sprite (shape 2) of the same
/// size is the wide one turned on its side. Every side is 8, 16, 32 or 64
/// pixels, and a larger size never makes a sprite smaller.
pub proof fn lemma_sprite_shapes(size: u16)
    requires
        size <= 3,
    ensures
        sprite_dims(0, 0) == (8i32, 8i32),
        size < 3 ==> sprite_dims(0, (size + 1) as u16).0 == 2 * sprite_dims(0, size).0,
        sprite_dims(0, size).0 == sprite_dims(0, size).1,
        sprite_dims(1, size).0 == 2 * sprite_dims(1, size).1 || sprite_dims(1, size).0 == 4 * sprite_dims(1, size).1,
        sprite_dims(2, size) == (sprite_dims(1, size).1, sprite_dims(1, size).0),
        forall|shape: u16|
            shape <= 2 ==> {
                let (w, h) = #[trigger] sprite_dims(shape, size);
                &&& (w == 8 || w == 16 || w == 32 || w == 64)
                &&& (h == 8 || h == 16 || h == 32 || h == 64)
                &&& (size < 3 ==> w <= sprite_dims(shape, (size + 1) as u16).0 && h <= sprite_dims(
                    shape,
                    (size + 1) as u16,
                ).1 && w * h < sprite_dims(shape, (size + 1) as u16).0 * sprite_dims(shape, (size + 1) as u16).1)
            },
{
}

/// What a regular sprite draws on one line: its leftmost screen column
/// `x`, its width `w`, the sprite row `sy` it shows there (after a vertical
/// flip), and how its tiles are laid out and coloured.
pub struct SpriteRow {
    pub x: i32,
    pub w: i32,
    pub sy: i32,
    pub is_8bpp: bool,
    pub hflip: bool,
    pub base_tile: usize,
    pub priority: u8,
    pub pal_bank: usize,
    pub unit_stride: usize,
    pub row_stride: usize,
}

/// The row sprite `i` (OAM entry `i`) draws on `line`, or None where it is
/// hidden, affine, of the forbidden shape, or does not reach the line.
/// Attribute 0 holds the top row (bits 0-7, wrapping at 256), the affine
/// and hide bits (8, 9), 8 bits per pixel (13) and the shape (14-15);
/// attribute 1 the left column (bits 0-8, signed), the flips (12, 13) and
/// the size (14-15); attribute 2 the first tile (bits 0-9), the priority
/// (10-11) and the palette bank (12-15). Tiles are 32-byte units from VRAM
/// 0x10000; a row of tiles is 32 units apart, or the sprite's own width
/// apart in one-dimensional mapping (`one_dim`).
#[verifier::opaque]
pub open spec fn sprite_attrs(p: Ppu, i: int, line: int, one_dim: bool) -> Option<SpriteRow> {
    let a0 = oam_half(p, 8 * i);
    let a1 = oam_half(p, 8 * i + 2);
    let a2 = oam_half(p, 8 * i + 4);
    let shape = (a0 >> 14) & 3;
    let (w, h) = sprite_dims(shape, (a1 >> 14) & 3);
    let y = (a0 & 0xFF) as int;
    let row = if line >= y { line - y } else { line - y + 256 };
    let x0 = (a1 & 0x1FF) as int;
    let is_8bpp = a0 & 0x2000 != 0;
    let unit_stride: int = if is_8bpp { 2 } else { 1 };
    if a0 & 0x100 != 0 || a0 & 0x200 != 0 || shape == 3 || row >= h {
        None
    } else {
        Some(
            SpriteRow {
                x: (if x0 >= 256 { x0 - 512 } else { x0 }) as i32,
                w,
                sy: (if a1 & 0x2000 != 0 { h - 1 - row } else { row }) as i32,
                is_8bpp,
                hflip: a1 & 0x1000 != 0,
                base_tile: (a2 & 0x3FF) as usize,
                priority: ((a2 >> 10) & 3) as u8,
                pal_bank: ((a2 >> 12) & 0xF) as usize,
                unit_stride: unit_stride as usize,
                row_stride: (if one_dim { (w / 8) * unit_stride } else { 32 }) as usize,
            },
        )
    }
}

/// The colour of column `col` of a sprite row, or None where it is colour
/// 0. Sprites use the second half of the palette.
#[verifier::opaque]
pub open spec fn sprite_texel(p: Ppu, r: SpriteRow, col: int) -> Option<u16> {
    let tex_x = if r.hflip { r.w - 1 - col } else { col };
    let unit = r.base_tile + (r.sy / 8) * r.row_stride + (tex_x / 8) * r.unit_stride;
    let base = 0x1_0000 + unit * 32;
    let px = tex_x % 8;
    let py = r.sy % 8;
    let idx: int = if r.is_8bpp {
        vram_byte(p.vram@, base + py * 8 + px) as int
    } else {
        let b = vram_byte(p.vram@, base + py * 4 + px / 2);
        (if px % 2 == 0 { b & 0xF } else { b >> 4 }) as int
    };
    if idx == 0 {
        None
    } else if r.is_8bpp {
        Some(color_at(p.palram@, 0x100 + idx))
    } else {
        Some(color_at(p.palram@, 0x100 + r.pal_bank * 16 + idx))
    }
}

/// The ranges a sprite row's fields keep.
pub open spec fn row_ok(r: SpriteRow) -> bool {
    &&& 8 <= r.w <= 64
    &&& -256 <= r.x < 256
    &&& 0 <= r.sy < 64
    &&& r.base_tile <= 0x3FF
    &&& r.pal_bank <= 0xF
    &&& r.unit_stride <= 2
    &&& r.row_stride <= 32
}

/// What sprite `i` shows at screen column `sx` of `line`: its colour and
/// priority, or None where it does not cover the pixel or is transparent
/// there.
pub open spec fn sprite_pixel(p: Ppu, i: int, line: int, sx: int, one_dim: bool) -> Option<(u16, u8)> {
    match sprite_attrs(p, i, line, one_dim) {
        Some(r) => if r.x <= sx < r.x + r.w {
            match sprite_texel(p, r, sx - r.x) {
                Some(c) => Some((c, r.priority)),
                None => None,
            }
        } else {
            None
        },
        None => None,
    }
}

/// Pixel `sx` after the first `n` sprites are drawn over it in OAM order,
/// with the best sprite priority seen there so far: a sprite pixel counts
/// only when its priority beats every earlier sprite's at that pixel, and
/// then it draws with rank 0 unless a background of better priority is
/// already there.
pub open spec fn sprites_over(
    p: Ppu,
    line: int,
    sx: int,
    one_dim: bool,
    n: nat,
    px: (u16, u8, u8),
    best: u8,
) -> ((u16, u8, u8), u8)
    decreases n,
{
    if n == 0 {
        (px, best)
    } else {
        let (q, b) = sprites_over(p, line, sx, one_dim, (n - 1) as nat, px, best);
        match sprite_pixel(p, n - 1, line, sx, one_dim) {
            Some((c, pr)) => if pr < b {
                (draw(q, Some(c), pr, 0), pr)
            } else {
                (q, b)
            },
            None => (q, b),
        }
    }
}

/// What background `bg` shows at column `x` of `line` in tile mode `mode`:
/// nothing when its DISPCNT enable bit (8 + `bg`) is clear; a text layer
/// for every background of mode 0 and BG0 / BG1 of mode 1; an affine layer
/// for BG2 of mode 1 and BG2 / BG3 of mode 2; nothing otherwise.
pub open spec fn layer_pixel(p: Ppu, mode: u16, dispcnt: u16, bg: int, line: int, x: int) -> Option<u16> {
    if dispcnt & (1u16 << ((8 + bg) as u16)) == 0 {
        None
    } else if mode == 0 || (mode == 1 && bg < 2) {
        text_pixel(p, bg, line, x)
    } else if (mode == 1 && bg == 2) || (mode == 2 && (bg == 2 || bg == 3)) {
        affine_pixel(p, bg, x)
    } else {
        None
    }
}

/// Pixel `x` of a tile-mode line after the first `n` backgrounds are drawn
/// over the backdrop (palette entry 0, below every layer: priority 4, rank
/// 5), BG0 first; background `bg` draws with rank `bg` + 1.
pub open spec fn bgs_over(p: Ppu, mode: u16, dispcnt: u16, line: int, x: int, n: nat) -> (u16, u8, u8)
    decreases n,
{
    if n == 0 {
        (color_at(p.palram@, 0), 4, 5)
    } else {
        draw(
            bgs_over(p, mode, dispcnt, line, x, (n - 1) as nat),
            layer_pixel(p, mode, dispcnt, n - 1, line, x),
            bg_priority(p, n - 1),
            n as u8,
        )
    }
}

/// The colour of pixel `x` of tile-mode line `line`: the four backgrounds
/// over the backdrop, then, when DISPCNT bit 12 is set, the sprites over
/// them (DISPCNT bit 6 selects one-dimensional tile mapping).
pub open spec fn tiled_pixel(p: Ppu, mode: u16, dispcnt: u16, line: int, x: int) -> u16 {
    let q = bgs_over(p, mode, dispcnt, line, x, 4);
    if dispcnt & 0x1000 != 0 {
        sprites_over(p, line, x, dispcnt & 0x40 != 0, 128, q, 255).0.0
    } else {
        q.0
    }
}

impl Ppu {
    /// Tile modes: mode 0 has four text backgrounds; mode 1 BG0 / BG1 text and
    /// BG2 affine; mode 2 BG2 / BG3 affine. Sprites draw when DISPCNT bit 12
    /// is set. With no layer enabled the row is the backdrop.
    fn tiled_row(&self, line: usize, mode: u16, dispcnt: u16) -> (row: Vec<u16>)
        requires
            self.wf(),
            line < SCREEN_H,
        ensures
            row@.len() == 240,
            forall|x: int| 0 <= x < 240 ==> #[trigger] row@[x] == tiled_pixel(*self, mode, dispcnt, line as int, x),
            dispcnt & 0x1F00 == 0 ==> forall|x: int| 0 <= x < 240 ==> #[trigger] row@[x] == color_at(self.palram@, 0),
    {
        let backdrop = self.backdrop();
        let mut out = vec_of(backdrop, 240);
        let mut win_prio = vec_of_u8(4, 240);
        let mut win_rank = vec_of_u8(5, 240);
        let mut bg: usize = 0;
        while bg < 4
            invariant
                bg <= 4,
                self.wf(),
                line < SCREEN_H,
                row_shape(out@, win_prio@, win_rank@),
                forall|x: int|
                    0 <= x < 240 ==> #[trigger] px_at(out@, win_prio@, win_rank@, x) == bgs_over(
                        *self,
                        mode,
                        dispcnt,
                        line as int,
                        x,
                        bg as nat,
                    ),
                dispcnt & 0x1F00 == 0 ==> forall|x: int| 0 <= x < 240 ==> #[trigger] out@[x] == backdrop,
                backdrop == color_at(self.palram@, 0),
            decreases 4 - bg,
        {
            let on = dispcnt & (1u16 << ((8 + bg) as u16)) != 0;
            proof {
                lemma_layer_bits(dispcnt, (8 + bg) as u16);
            }
            let ghost b = (out@, win_prio@, win_rank@);
            if on {
                let text = mode == 0 || (mode == 1 && bg < 2);
                let affine = (mode == 1 && bg == 2) || (mode == 2 && (bg == 2 || bg == 3));
                if text {
                    self.text_bg_line(bg, line, &mut out, &mut win_prio, &mut win_rank);
                } else if affine {
                    self.affine_bg_line(bg, &mut out, &mut win_prio, &mut win_rank);
                }
            }
            proof {
                assert forall|x: int| 0 <= x < 240 implies #[trigger] px_at(out@, win_prio@, win_rank@, x) == bgs_over(
                    *self,
                    mode,
                    dispcnt,
                    line as int,
                    x,
                    (bg + 1) as nat,
                ) by {
                    assert(px_at(b.0, b.1, b.2, x) == bgs_over(*self, mode, dispcnt, line as int, x, bg as nat));
                }
            }
            bg = bg + 1;
        }
        proof {
            lemma_layer_bits(dispcnt, 12);
        }
        let ghost b = (out@, win_prio@, win_rank@);
        if dispcnt & 0x1000 != 0 {
            self.sprite_line(line, dispcnt, &mut out, &mut win_prio, &mut win_rank);
        }
        proof {
            assert forall|x: int| 0 <= x < 240 implies #[trigger] out@[x] == tiled_pixel(
                *self,
                mode,
                dispcnt,
                line as int,
                x,
            ) by {
                assert(px_at(b.0, b.1, b.2, x) == bgs_over(*self, mode, dispcnt, line as int, x, 4));
                assert(px_at(out@, win_prio@, win_rank@, x).0 == out@[x]);
            }
        }
        out
    }

    /// Composite one text background's pixels of `line`.
    fn text_bg_line(&self, bg: usize, line: usize, out: &mut Vec<u16>, win_prio: &mut Vec<u8>, win_rank: &mut Vec<u8>)
        requires
            self.wf(),
            bg < 4,
            line < SCREEN_H,
            row_shape(old(out)@, old(win_prio)@, old(win_rank)@),
        ensures
            row_shape(final(out)@, final(win_prio)@, final(win_rank)@),
            forall|k: int|
                0 <= k < 240 ==> #[trigger] px_at(final(out)@, final(win_prio)@, final(win_rank)@, k) == draw(
                    px_at(old(out)@, old(win_prio)@, old(win_rank)@, k),
                    text_pixel(*self, bg as int, line as int, k),
                    bg_priority(*self, bg as int),
                    (bg + 1) as u8,
                ),
    {
        let priority = (self.regs[4 + bg] & 3) as u8;
        proof {
            crate::bits::lemma_u16_bits(self.regs[4 + bg], 3);
        }
        let rank = (bg + 1) as u8;
        let ghost o0 = old(out)@;
        let ghost p0 = old(win_prio)@;
        let ghost r0 = old(win_rank)@;
        let mut x: usize = 0;
        while x < 240
            invariant
                x <= 240,
                self.wf(),
                bg < 4,
                line < SCREEN_H,
                row_shape(out@, win_prio@, win_rank@),
                row_shape(o0, p0, r0),
                priority == bg_priority(*self, bg as int),
                rank == (bg + 1) as u8,
                forall|k: int|
                    0 <= k < x ==> #[trigger] px_at(out@, win_prio@, win_rank@, k) == draw(
                        px_at(o0, p0, r0, k),
                        text_pixel(*self, bg as int, line as int, k),
                        priority,
                        rank,
                    ),
                forall|k: int| x <= k < 240 ==> #[trigger] px_at(out@, win_prio@, win_rank@, k) == px_at(o0, p0, r0, k),
            decreases 240 - x,
        {
            let ghost k = x as int;
            let ghost b = (out@, win_prio@, win_rank@);
            assert(px_at(out@, win_prio@, win_rank@, k) == px_at(o0, p0, r0, k));
            if !loses(priority, rank, win_prio[x], win_rank[x]) {
                match self.text_px(bg, line, x) {
                    Some(c) => {
                        out.set(x, c);
                        win_prio.set(x, priority);
                        win_rank.set(x, rank);
                    },
                    None => {},
                }
            }
            assert(px_at(out@, win_prio@, win_rank@, k) == draw(
                px_at(o0, p0, r0, k),
                text_pixel(*self, bg as int, line as int, k),
                priority,
                rank,
            ));
            assert forall|j: int| 0 <= j < 240 && j != k implies #[trigger] px_at(out@, win_prio@, win_rank@, j)
                == px_at(b.0, b.1, b.2, j) by {}
            x = x + 1;
        }
    }

    /// What text background `bg` shows at column `x` of `line`.
    fn text_px(&self, bg: usize, line: usize, x: usize) -> (c: Option<u16>)
        requires
            self.wf(),
            bg < 4,
            line < SCREEN_H,
            x < 240,
        ensures
            c == text_pixel(*self, bg as int, line as int, x as int),
    {
        let cnt = self.regs[4 + bg];
        let char_base = ((cnt >> 2) & 3) as usize * 0x4000;
        proof {
            crate::bits::lemma_u16_bits(cnt >> 2, 3);
        }
        let (entry, bgx, bgy) = self.text_map_at(bg, line, x);
        self.tile_px(char_base, cnt & 0x80 != 0, entry, bgx % 8, bgy % 8)
    }

    /// The scrolled map coordinates of column `x` of `line` on text
    /// background `bg`, and the map entry there.
    fn text_map_at(&self, bg: usize, line: usize, x: usize) -> (r: (u16, usize, usize))
        requires
            self.wf(),
            bg < 4,
            line < SCREEN_H,
            x < 240,
        ensures
            r.1 < 512,
            r.2 < 512,
            (r.0, r.1 as int, r.2 as int) == text_map(*self, bg as int, line as int, x as int),
    {
        reveal(text_map);
        let cnt = self.regs[4 + bg];
        let screen_base = ((cnt >> 8) & 0x1F) as usize * 0x800;
        let size = (cnt >> 14) & 3;
        let w: usize = if size == 1 || size == 3 { 512 } else { 256 };
        let h: usize = if size == 2 || size == 3 { 512 } else { 256 };
        let hreg = self.regs[8 + bg * 2];
        let vreg = self.regs[9 + bg * 2];
        let hofs = (hreg & 0x1FF) as usize;
        let vofs = (vreg & 0x1FF) as usize;
        proof {
            crate::bits::lemma_u16_bits(cnt >> 8, 0x1F);
            crate::bits::lemma_u16_bits(hreg, 0x1FF);
            crate::bits::lemma_u16_bits(vreg, 0x1FF);
        }
        let vsum = line + vofs;
        let hmask = h - 1;
        let bgy = vsum & hmask;
        let hsum = x + hofs;
        let wmask = w - 1;
        let bgx = hsum & wmask;
        proof {
            crate::bits::lemma_usize_bits(vsum, hmask);
            crate::bits::lemma_usize_bits(hsum, wmask);
        }
        let sb: usize = if w == 512 && h == 512 {
            bgy / 256 * 2 + bgx / 256
        } else if w == 512 {
            bgx / 256
        } else if h == 512 {
            bgy / 256
        } else {
            0
        };
        let map = screen_base + sb * 0x800 + ((bgy % 256) / 8 * 32 + (bgx % 256) / 8) * 2;
        let entry = (self.vram_at(map) as u16) | ((self.vram_at(map + 1) as u16) << 8);
        (entry, bgx, bgy)
    }

    /// The colour of pixel (`fx`, `fy`) of the tile map entry `entry` names.
    fn tile_px(&self, char_base: usize, is_8bpp: bool, entry: u16, fx: usize, fy: usize) -> (c: Option<u16>)
        requires
            self.wf(),
            char_base <= 0xC000,
            fx < 8,
            fy < 8,
        ensures
            c == tile_pixel(*self, char_base as int, is_8bpp, entry, fx as int, fy as int),
    {
        reveal(tile_pixel);
        let tile = (entry & 0x3FF) as usize;
        proof {
            crate::bits::lemma_u16_bits(entry, 0x3FF);
            crate::bits::lemma_u16_bits(entry >> 12, 0xF);
        }
        let px = if entry & 0x400 != 0 { 7 - fx } else { fx };
        let py = if entry & 0x800 != 0 { 7 - fy } else { fy };
        let idx: usize = if is_8bpp {
            self.vram_at(char_base + tile * 64 + py * 8 + px) as usize
        } else {
            let b = self.vram_at(char_base + tile * 32 + py * 4 + px / 2);
            proof {
                crate::bits::lemma_u8_bits(b, 0xF);
            }
            (if px % 2 == 0 { b & 0xF } else { b >> 4 }) as usize
        };
        if idx == 0 {
            None
        } else if is_8bpp {
            Some(self.color(idx))
        } else {
            let bank = ((entry >> 12) & 0xF) as usize;
            Some(self.color(bank * 16 + idx))
        }
    }
}

impl Ppu {
    /// Composite one affine background (BG2 or BG3, 8 bits per pixel) from
    /// its reference point, stepping by PA / PC per pixel. Outside the map a
    /// pixel is transparent, unless the wrap bit folds it back in.
    fn affine_bg_line(&self, bg: usize, out: &mut Vec<u16>, win_prio: &mut Vec<u8>, win_rank: &mut Vec<u8>)
        requires
            self.wf(),
            bg == 2 || bg == 3,
            row_shape(old(out)@, old(win_prio)@, old(win_rank)@),
        ensures
            row_shape(final(out)@, final(win_prio)@, final(win_rank)@),
            forall|k: int|
                0 <= k < 240 ==> #[trigger] px_at(final(out)@, final(win_prio)@, final(win_rank)@, k) == draw(
                    px_at(old(out)@, old(win_prio)@, old(win_rank)@, k),
                    affine_pixel(*self, bg as int, k),
                    bg_priority(*self, bg as int),
                    (bg + 1) as u8,
                ),
    {
        let priority = (self.regs[4 + bg] & 3) as u8;
        proof {
            crate::bits::lemma_u16_bits(self.regs[4 + bg], 3);
        }
        let rank = (bg + 1) as u8;
        let pbase: usize = if bg == 2 { 0x10 } else { 0x18 };
        let pa = self.regs[pbase] as i16 as i32;
        let pc = self.regs[pbase + 2] as i16 as i32;
        let k0 = 2 * (bg - 2);
        let mut cx = self.bg_ref[k0];
        let mut cy = self.bg_ref[k0 + 1];
        let ghost o0 = old(out)@;
        let ghost p0 = old(win_prio)@;
        let ghost r0 = old(win_rank)@;
        let mut x: usize = 0;
        while x < 240
            invariant
                x <= 240,
                self.wf(),
                bg == 2 || bg == 3,
                row_shape(out@, win_prio@, win_rank@),
                row_shape(o0, p0, r0),
                priority == bg_priority(*self, bg as int),
                rank == (bg + 1) as u8,
                (cx, cy) == affine_point(*self, bg as int, x as int),
                pa == self.regs[pbase as int] as i16 as i32,
                pc == self.regs[pbase + 2] as i16 as i32,
                pbase == (if bg == 2 { 0x10usize } else { 0x18usize }),
                k0 == 2 * (bg - 2),
                forall|k: int|
                    0 <= k < x ==> #[trigger] px_at(out@, win_prio@, win_rank@, k) == draw(
                        px_at(o0, p0, r0, k),
                        affine_pixel(*self, bg as int, k),
                        priority,
                        rank,
                    ),
                forall|k: int| x <= k < 240 ==> #[trigger] px_at(out@, win_prio@, win_rank@, k) == px_at(o0, p0, r0, k),
            decreases 240 - x,
        {
            let ghost k = x as int;
            let ghost b = (out@, win_prio@, win_rank@);
            assert(px_at(out@, win_prio@, win_rank@, k) == px_at(o0, p0, r0, k));
            if !loses(priority, rank, win_prio[x], win_rank[x]) {
                match self.affine_px(bg, cx, cy) {
                    Some(c) => {
                        out.set(x, c);
                        win_prio.set(x, priority);
                        win_rank.set(x, rank);
                    },
                    None => {},
                }
            }
            assert(px_at(out@, win_prio@, win_rank@, k) == draw(
                px_at(o0, p0, r0, k),
                affine_pixel(*self, bg as int, k),
                priority,
                rank,
            ));
            assert forall|j: int| 0 <= j < 240 && j != k implies #[trigger] px_at(out@, win_prio@, win_rank@, j)
                == px_at(b.0, b.1, b.2, j) by {}
            cx = cx.wrapping_add(pa);
            cy = cy.wrapping_add(pc);
            x = x + 1;
        }
    }

    /// What affine background `bg` shows at reference point (`cx`, `cy`).
    #[verifier::rlimit(40)]
    fn affine_px(&self, bg: usize, cx: i32, cy: i32) -> (c: Option<u16>)
        requires
            self.wf(),
            bg == 2 || bg == 3,
        ensures
            c == affine_texel(*self, bg as int, cx, cy),
    {
        reveal(affine_texel);
        let cnt = self.regs[4 + bg];
        let char_base = ((cnt >> 2) & 3) as usize * 0x4000;
        let screen_base = ((cnt >> 8) & 0x1F) as usize * 0x800;
        let wrap = cnt & 0x2000 != 0;
        let sz = (cnt >> 14) & 3;
        proof {
            crate::bits::lemma_u16_bits(cnt >> 2, 3);
            crate::bits::lemma_u16_bits(cnt >> 8, 0x1F);
            crate::bits::lemma_u16_bits(cnt >> 14, 3);
        }
        let map_tiles: usize = if sz == 0 { 16 } else if sz == 1 { 32 } else if sz == 2 { 64 } else { 128 };
        let map_px = (map_tiles * 8) as i32;
        let mut tx = cx >> 8u32;
        let mut ty = cy >> 8u32;
        if wrap {
            tx = match tx.checked_rem_euclid(map_px) {
                Some(v) => v,
                None => 0,
            };
            ty = match ty.checked_rem_euclid(map_px) {
                Some(v) => v,
                None => 0,
            };
        } else if tx < 0 || ty < 0 || tx >= map_px || ty >= map_px {
            return None;
        }
        let (ux, uy) = (tx as usize, ty as usize);
        let tile = self.vram_at(screen_base + (uy / 8) * map_tiles + ux / 8) as usize;
        let pal = self.vram_at(char_base + tile * 64 + (uy % 8) * 8 + (ux % 8)) as usize;
        if pal == 0 {
            None
        } else {
            Some(self.color(pal))
        }
    }

    /// Composite the regular (non-affine) sprites on `line`: the first sprite
    /// in OAM order with the best priority owns a pixel, and a sprite beats a
    /// background of equal priority.
    fn sprite_line(&self, line: usize, dispcnt: u16, out: &mut Vec<u16>, win_prio: &mut Vec<u8>, win_rank: &mut Vec<u8>)
        requires
            self.wf(),
            line < SCREEN_H,
            row_shape(old(out)@, old(win_prio)@, old(win_rank)@),
        ensures
            row_shape(final(out)@, final(win_prio)@, final(win_rank)@),
            forall|k: int|
                0 <= k < 240 ==> #[trigger] px_at(final(out)@, final(win_prio)@, final(win_rank)@, k) == sprites_over(
                    *self,
                    line as int,
                    k,
                    dispcnt & 0x40 != 0,
                    128,
                    px_at(old(out)@, old(win_prio)@, old(win_rank)@, k),
                    255,
                ).0,
    {
        let one_dim = dispcnt & 0x40 != 0;
        let mut obj_prio = vec_of_u8(255, 240);
        let ghost o0 = old(out)@;
        let ghost p0 = old(win_prio)@;
        let ghost r0 = old(win_rank)@;
        let mut i: usize = 0;
        while i < 128
            invariant
                i <= 128,
                self.wf(),
                line < SCREEN_H,
                row_shape(out@, win_prio@, win_rank@),
                row_shape(o0, p0, r0),
                obj_prio@.len() == 240,
                one_dim == (dispcnt & 0x40 != 0),
                forall|k: int|
                    0 <= k < 240 ==> (#[trigger] px_at(out@, win_prio@, win_rank@, k), obj_prio@[k]) == sprites_over(
                        *self,
                        line as int,
                        k,
                        one_dim,
                        i as nat,
                        px_at(o0, p0, r0, k),
                        255,
                    ),
            decreases 128 - i,
        {
            match self.sprite_row(i, line, one_dim) {
                None => {
                    assert forall|k: int| 0 <= k < 240 implies (#[trigger] px_at(out@, win_prio@, win_rank@, k),
                        obj_prio@[k]) == sprites_over(
                        *self,
                        line as int,
                        k,
                        one_dim,
                        (i + 1) as nat,
                        px_at(o0, p0, r0, k),
                        255,
                    ) by {
                        assert(sprite_pixel(*self, i as int, line as int, k, one_dim) is None);
                    }
                },
                Some(r) => {
                    self.sprite_row_draw(i, line, one_dim, &r, out, win_prio, win_rank, &mut obj_prio, Ghost(o0), Ghost(p0), Ghost(r0));
                },
            }
            i = i + 1;
        }
    }

    /// Draw one sprite row over the pixels it covers.
    fn sprite_row_draw(
        &self,
        i: usize,
        line: usize,
        one_dim: bool,
        r: &SpriteRow,
        out: &mut Vec<u16>,
        win_prio: &mut Vec<u8>,
        win_rank: &mut Vec<u8>,
        obj_prio: &mut Vec<u8>,
        Ghost(o0): Ghost<Seq<u16>>,
        Ghost(p0): Ghost<Seq<u8>>,
        Ghost(r0): Ghost<Seq<u8>>,
    )
        requires
            self.wf(),
            i < 128,
            line < SCREEN_H,
            row_shape(old(out)@, old(win_prio)@, old(win_rank)@),
            row_shape(o0, p0, r0),
            old(obj_prio)@.len() == 240,
            sprite_attrs(*self, i as int, line as int, one_dim) == Some(*r),
            row_ok(*r),
            forall|k: int|
                0 <= k < 240 ==> (#[trigger] px_at(old(out)@, old(win_prio)@, old(win_rank)@, k), old(obj_prio)@[k])
                    == sprites_over(*self, line as int, k, one_dim, i as nat, px_at(o0, p0, r0, k), 255),
        ensures
            row_shape(final(out)@, final(win_prio)@, final(win_rank)@),
            final(obj_prio)@.len() == 240,
            forall|k: int|
                0 <= k < 240 ==> (#[trigger] px_at(final(out)@, final(win_prio)@, final(win_rank)@, k),
                    final(obj_prio)@[k]) == sprites_over(*self, line as int, k, one_dim, (i + 1) as nat, px_at(o0, p0, r0, k), 255),
    {
        let mut col: i32 = 0;
        while col < r.w
            invariant
                0 <= col <= r.w,
                row_ok(*r),
                self.wf(),
                i < 128,
                line < SCREEN_H,
                row_shape(out@, win_prio@, win_rank@),
                row_shape(o0, p0, r0),
                obj_prio@.len() == 240,
                sprite_attrs(*self, i as int, line as int, one_dim) == Some(*r),
                forall|k: int|
                    0 <= k < 240 ==> (#[trigger] px_at(out@, win_prio@, win_rank@, k), obj_prio@[k]) == sprites_over(
                        *self,
                        line as int,
                        k,
                        one_dim,
                        if r.x <= k < r.x + col { (i + 1) as nat } else { i as nat },
                        px_at(o0, p0, r0, k),
                        255,
                    ),
            decreases r.w - col,
        {
            let sx = r.x + col;
            let ghost b = (out@, win_prio@, win_rank@, obj_prio@);
            if 0 <= sx && sx < 240 {
                let sxu = sx as usize;
                let t = self.sprite_texel_at(r, col);
                proof {
                    let k = sx as int;
                    assert(sprite_pixel(*self, i as int, line as int, k, one_dim) == match t {
                        Some(c) => Some((c, r.priority)),
                        None => None::<(u16, u8)>,
                    });
                    assert((px_at(b.0, b.1, b.2, k), b.3[k]) == sprites_over(
                        *self,
                        line as int,
                        k,
                        one_dim,
                        i as nat,
                        px_at(o0, p0, r0, k),
                        255,
                    ));
                }
                match t {
                    Some(color) => {
                        if r.priority < obj_prio[sxu] {
                            obj_prio.set(sxu, r.priority);
                            if !loses(r.priority, 0, win_prio[sxu], win_rank[sxu]) {
                                out.set(sxu, color);
                                win_prio.set(sxu, r.priority);
                                win_rank.set(sxu, 0);
                            }
                        }
                    },
                    None => {},
                }
                proof {
                    let k = sx as int;
                    assert((px_at(out@, win_prio@, win_rank@, k), obj_prio@[k]) == sprites_over(
                        *self,
                        line as int,
                        k,
                        one_dim,
                        (i + 1) as nat,
                        px_at(o0, p0, r0, k),
                        255,
                    ));
                }
            }
            proof {
                assert forall|k: int| 0 <= k < 240 && k != sx implies (#[trigger] px_at(out@, win_prio@, win_rank@, k),
                    obj_prio@[k]) == (px_at(b.0, b.1, b.2, k), b.3[k]) by {}
            }
            col = col + 1;
        }
        proof {
            assert forall|k: int| 0 <= k < 240 && !(r.x <= k < r.x + r.w) implies #[trigger] sprite_pixel(
                *self,
                i as int,
                line as int,
                k,
                one_dim,
            ) is None by {}
        }
    }

    /// The row sprite `i` draws on `line`.
    fn sprite_row(&self, i: usize, line: usize, one_dim: bool) -> (r: Option<SpriteRow>)
        requires
            self.wf(),
            i < 128,
            line < SCREEN_H,
        ensures
            r == sprite_attrs(*self, i as int, line as int, one_dim),
            r matches Some(row) ==> row_ok(row),
    {
        reveal(sprite_attrs);
        let a0 = (self.oam[i * 8] as u16) | ((self.oam[i * 8 + 1] as u16) << 8);
        let a1 = (self.oam[i * 8 + 2] as u16) | ((self.oam[i * 8 + 3] as u16) << 8);
        let a2 = (self.oam[i * 8 + 4] as u16) | ((self.oam[i * 8 + 5] as u16) << 8);
        let shape = (a0 >> 14) & 3;
        let size = (a1 >> 14) & 3;
        proof {
            crate::bits::lemma_u16_bits(a0 >> 14, 3);
            crate::bits::lemma_u16_bits(a1 >> 14, 3);
            crate::bits::lemma_u16_bits(a0, 0xFF);
            crate::bits::lemma_u16_bits(a1, 0x1FF);
            crate::bits::lemma_u16_bits(a2, 0x3FF);
            crate::bits::lemma_u16_bits(a2 >> 10, 3);
            crate::bits::lemma_u16_bits(a2 >> 12, 0xF);
        }
        if a0 & 0x100 != 0 || a0 & 0x200 != 0 || shape == 3 {
            return None;
        }
        let (w, h) = sprite_size(shape, size);
        let y = (a0 & 0xFF) as i32;
        let d = line as i32 - y;
        let row = d & 0xFF;
        proof {
            crate::bits::lemma_i32_mask(d, 0xFF);
        }
        if row >= h {
            return None;
        }
        let x0 = (a1 & 0x1FF) as i32;
        let x = if x0 >= 256 { x0 - 512 } else { x0 };
        let is_8bpp = a0 & 0x2000 != 0;
        let unit_stride: usize = if is_8bpp { 2 } else { 1 };
        Some(SpriteRow {
            x,
            w,
            sy: if a1 & 0x2000 != 0 { h - 1 - row } else { row },
            is_8bpp,
            hflip: a1 & 0x1000 != 0,
            base_tile: (a2 & 0x3FF) as usize,
            priority: ((a2 >> 10) & 3) as u8,
            pal_bank: ((a2 >> 12) & 0xF) as usize,
            unit_stride,
            row_stride: if one_dim { (w / 8) as usize * unit_stride } else { 32 },
        })
    }

    /// The colour of column `col` of a sprite row.
    fn sprite_texel_at(&self, r: &SpriteRow, col: i32) -> (c: Option<u16>)
        requires
            self.wf(),
            row_ok(*r),
            0 <= col < r.w,
        ensures
            c == sprite_texel(*self, *r, col as int),
    {
        reveal(sprite_texel);
        let tex_x = if r.hflip { r.w - 1 - col } else { col };
        let qy = (r.sy / 8) as usize;
        let qx = (tex_x / 8) as usize;
        assert(qy * r.row_stride <= 256 && qx * r.unit_stride <= 16) by (nonlinear_arith)
            requires
                qy < 8,
                qx < 8,
                r.row_stride <= 32,
                r.unit_stride <= 2,
        ;
        let unit = r.base_tile + qy * r.row_stride + qx * r.unit_stride;
        let base = 0x1_0000 + unit * 32;
        let px = (tex_x % 8) as usize;
        let py = (r.sy % 8) as usize;
        let idx: usize = if r.is_8bpp {
            self.vram_at(base + py * 8 + px) as usize
        } else {
            let b = self.vram_at(base + py * 4 + px / 2);
            proof {
                crate::bits::lemma_u8_bits(b, 0xF);
            }
            (if px % 2 == 0 { b & 0xF } else { b >> 4 }) as usize
        };
        if idx == 0 {
            None
        } else if r.is_8bpp {
            Some(self.color(0x100 + idx))
        } else {
            Some(self.color(0x100 + r.pal_bank * 16 + idx))
        }
    }
}

/// The (width, height) in pixels of a sprite of `shape` (square, wide, tall)
/// and `size`.
fn sprite_size(shape: u16, size: u16) -> (r: (i32, i32))
    requires
        shape < 3,
        size < 4,
    ensures
        r == sprite_dims(shape, size),
        8 <= r.0 <= 64,
        8 <= r.1 <= 64,
{
    if shape == 0 {
        if size == 0 { (8, 8) } else if size == 1 { (16, 16) } else if size == 2 { (32, 32) } else { (64, 64) }
    } else if shape == 1 {
        if size == 0 { (16, 8) } else if size == 1 { (32, 8) } else if size == 2 { (32, 16) } else { (64, 32) }
    } else {
        if size == 0 { (8, 16) } else if size == 1 { (8, 32) } else if size == 2 { (16, 32) } else { (32, 64) }
    }
}

/// `n` copies of `v`.
fn vec_of(v: u16, n: usize) -> (r: Vec<u16>)
    ensures
        r@.len() == n,
        forall|i: int| 0 <= i < n ==> r@[i] == v,
{
    let mut r: Vec<u16> = Vec::new();
    while r.len() < n
        invariant
            r@.len() <= n,
            forall|i: int| 0 <= i < r@.len() ==> r@[i] == v,
        decreases n - r@.len(),
    {
        r.push(v);
    }
    r
}

fn vec_of_u8(v: u8, n: usize) -> (r: Vec<u8>)
    ensures
        r@.len() == n,
        forall|i: int| 0 <= i < n ==> r@[i] == v,
{
    let mut r: Vec<u8> = Vec::new();
    while r.len() < n
        invariant
            r@.len() <= n,
            forall|i: int| 0 <= i < r@.len() ==> r@[i] == v,
        decreases n - r@.len(),
    {
        r.push(v);
    }
    r
}

/// Whether a layer of (`prio`, `rank`) is beaten by the pixel owner
/// (`wp`, `wr`): lower priority numbers win, then lower ranks (OBJ 0, then
/// BG0..BG3).
fn loses(prio: u8, rank: u8, wp: u8, wr: u8) -> (b: bool)
    ensures
        b == (prio > wp || (prio == wp && rank >= wr)),
{
    prio > wp || (prio == wp && rank >= wr)
}

/// The length of a controller's save-state image.
pub const PPU_STATE_LEN: usize = 100508;

impl Ppu {
    /// The save-state image of the controller: the registers, the three
    /// display memories as length-prefixed blocks, then the reference points.
    /// The framebuffer is not part of it.
    #[verifier::opaque]
    pub open spec fn state_bytes(&self) -> Seq<u8> {
        halves_le(self.regs@) + block(self.vram@) + block(self.palram@) + block(self.oam@) + self.ref_bytes()
    }

    /// The image of the four affine reference points.
    pub open spec fn ref_bytes(&self) -> Seq<u8> {
        le32(self.bg_ref[0] as u32) + le32(self.bg_ref[1] as u32) + le32(self.bg_ref[2] as u32) + le32(
            self.bg_ref[3] as u32,
        )
    }

    /// `self` holds everything the image of `q` carries.
    pub open spec fn restored_from(&self, q: &Ppu) -> bool {
        &&& self.regs == q.regs
        &&& self.vram@ == q.vram@
        &&& self.palram@ == q.palram@
        &&& self.oam@ == q.oam@
        &&& self.bg_ref == q.bg_ref
    }

    pub fn serialize(&self, w: &mut Writer)
        ensures
            final(w).buf@ == old(w).buf@ + self.state_bytes(),
    {
        put_halves(w, &self.regs);
        w.bytes(self.vram.as_slice());
        w.bytes(self.palram.as_slice());
        w.bytes(self.oam.as_slice());
        w.i32(self.bg_ref[0]);
        w.i32(self.bg_ref[1]);
        w.i32(self.bg_ref[2]);
        w.i32(self.bg_ref[3]);
        reveal(Ppu::state_bytes);
        assert(w.buf@ =~= old(w).buf@ + self.state_bytes());
    }

    /// Read the controller back from a save-state image: when the reader
    /// holds the image of a well-formed controller next, its state comes back.
    #[verifier::rlimit(60)]
    pub fn deserialize(&mut self, r: &mut Reader)
        requires
            old(self).wf(),
        ensures
            final(self).wf(),
            final(r).buf@ == old(r).buf@,
            final(self).framebuffer@ == old(self).framebuffer@,
            old(r).ran(*final(r), ppu_need(old(r).buf@, old(r).pos as int)),
            forall|q: Ppu|
                q.wf() && old(r).pos + PPU_STATE_LEN <= old(r).buf@.len() && old(r).buf@.subrange(
                    old(r).pos as int,
                    old(r).pos + PPU_STATE_LEN,
                ) == #[trigger] q.state_bytes() ==> {
                    &&& final(self).restored_from(&q)
                    &&& final(r).pos == old(r).pos + PPU_STATE_LEN
                    &&& final(r).failed == old(r).failed
                },
    {
        let ghost p = old(r).pos as int;
        get_halves(r, &mut self.regs);
        let ghost r1 = *r;
        r.bytes_into(self.vram.as_mut_slice());
        let ghost r2 = *r;
        r.bytes_into(self.palram.as_mut_slice());
        let ghost r3 = *r;
        r.bytes_into(self.oam.as_mut_slice());
        let ghost r4 = *r;
        self.bg_ref[0] = r.i32();
        let ghost r5 = *r;
        self.bg_ref[1] = r.i32();
        let ghost r6 = *r;
        self.bg_ref[2] = r.i32();
        let ghost r7 = *r;
        self.bg_ref[3] = r.i32();
        proof {
            let buf = old(r).buf@;
            let b1 = block_need(buf, p + 128);
            let b2 = block_need(buf, p + 128 + b1);
            let b3 = block_need(buf, p + 128 + b1 + b2);
            let n4 = 128 + b1 + b2 + b3;
            crate::state::lemma_ran_seq(*old(r), r1, r2, 128, b1);
            crate::state::lemma_ran_seq(*old(r), r2, r3, 128 + b1, b2);
            crate::state::lemma_ran_seq(*old(r), r3, r4, 128 + b1 + b2, b3);
            crate::state::lemma_ran_intro(r4, *r, 16);
            crate::state::lemma_ran_seq(*old(r), r4, *r, n4, 16);
            assert forall|q: Ppu|
                q.wf() && p + PPU_STATE_LEN <= old(r).buf@.len() && old(r).buf@.subrange(p, p + PPU_STATE_LEN)
                    == #[trigger] q.state_bytes() implies {
                &&& self.restored_from(&q)
                &&& r.pos == p + PPU_STATE_LEN
                &&& r.failed == old(r).failed
            } by {
                let buf = old(r).buf@;
                let x1 = halves_le(q.regs@);
                let x2 = block(q.vram@);
                let x3 = block(q.palram@);
                let x4 = block(q.oam@);
                let x5 = q.ref_bytes();
                crate::state::lemma_halves_le_layout(q.regs@);
                assert(x1.len() == 128);
                reveal(Ppu::state_bytes);
                assert(q.state_bytes() == x1 + x2 + x3 + x4 + x5);
                crate::state::lemma_split(buf, p, x1 + x2 + x3 + x4, x5);
                crate::state::lemma_split(buf, p, x1 + x2 + x3, x4);
                crate::state::lemma_split(buf, p, x1 + x2, x3);
                crate::state::lemma_split(buf, p, x1, x2);
                assert(self.regs == q.regs) by {
                    crate::state::lemma_halves_roundtrip(q.regs@);
                    assert(self.regs@ =~= q.regs@);
                    assert(self.regs =~= q.regs);
                }
                crate::state::lemma_block_at(buf, p + 128, q.vram@);
                crate::state::lemma_block_at(buf, p + 98436, q.palram@);
                crate::state::lemma_block_at(buf, p + 99464, q.oam@);
                assert(r1.pos == p + 128);
                assert(r1.next_bytes(4) =~= buf.subrange(p + 128, p + 132));
                assert(r2.next_bytes(4) =~= buf.subrange(p + 98436, p + 98440));
                assert(r3.next_bytes(4) =~= buf.subrange(p + 99464, p + 99468));
                assert(r4.pos == p + 100492);
                assert(self.vram@ == q.vram@ && self.palram@ == q.palram@ && self.oam@ == q.oam@) by {
                    assert(self.vram@ =~= q.vram@);
                    assert(self.palram@ =~= q.palram@);
                    assert(self.oam@ =~= q.oam@);
                }
                assert(self.bg_ref == q.bg_ref) by {
                    crate::state::lemma_le32_roundtrip(q.bg_ref[0] as u32);
                    crate::state::lemma_le32_roundtrip(q.bg_ref[1] as u32);
                    crate::state::lemma_le32_roundtrip(q.bg_ref[2] as u32);
                    crate::state::lemma_le32_roundtrip(q.bg_ref[3] as u32);
                    assert(r4.next_bytes(4) =~= x5.subrange(0, 4));
                    assert(r5.next_bytes(4) =~= x5.subrange(4, 8));
                    assert(r6.next_bytes(4) =~= x5.subrange(8, 12));
                    assert(r7.next_bytes(4) =~= x5.subrange(12, 16));
                    assert(x5.subrange(0, 4) =~= le32(q.bg_ref[0] as u32));
                    assert(x5.subrange(4, 8) =~= le32(q.bg_ref[1] as u32));
                    assert(x5.subrange(8, 12) =~= le32(q.bg_ref[2] as u32));
                    assert(x5.subrange(12, 16) =~= le32(q.bg_ref[3] as u32));
                    let b0 = q.bg_ref[0];
                    let b1 = q.bg_ref[1];
                    let b2 = q.bg_ref[2];
                    let b3 = q.bg_ref[3];
                    crate::bits::lemma_i32_reinterpret(b0);
                    crate::bits::lemma_i32_reinterpret(b1);
                    crate::bits::lemma_i32_reinterpret(b2);
                    crate::bits::lemma_i32_reinterpret(b3);
                    assert(self.bg_ref =~= q.bg_ref);
                }
            }
        }
    }
}

/// The bytes a controller's image at `p` of `buf` takes: its registers, the
/// three memory blocks as long as their length fields say, and the reference
/// points.
pub open spec fn ppu_need(buf: Seq<u8>, p: int) -> int {
    let b1 = block_need(buf, p + 128);
    let b2 = block_need(buf, p + 128 + b1);
    let b3 = block_need(buf, p + 128 + b1 + b2);
    128 + b1 + b2 + b3 + 16
}

/// The image of a well-formed controller is always the same length.
pub proof fn lemma_ppu_image_len(v: Ppu)
    requires
        v.wf(),
    ensures
        v.state_bytes().len() == PPU_STATE_LEN,
{
    reveal(Ppu::state_bytes);
    crate::state::lemma_halves_le_layout(v.regs@);
}

/// `n` zero bytes.
pub fn zeroed_bytes(n: usize) -> (v: Vec<u8>)
    ensures
        v@.len() == n,
        forall|i: int| 0 <= i < n ==> v@[i] == 0,
{
    let mut v: Vec<u8> = Vec::new();
    while v.len() < n
        invariant
            v@.len() <= n,
            forall|i: int| 0 <= i < v@.len() ==> v@[i] == 0,
        decreases n - v@.len(),
    {
        v.push(0);
    }
    v
}

fn zeroed_pixels(n: usize) -> (v: Vec<u16>)
    ensures
        v@.len() == n,
        forall|i: int| 0 <= i < n ==> v@[i] == 0,
{
    let mut v: Vec<u16> = Vec::new();
    while v.len() < n
        invariant
            v@.len() <= n,
            forall|i: int| 0 <= i < v@.len() ==> v@[i] == 0,
        decreases n - v@.len(),
    {
        v.push(0);
    }
    v
}


/// A display-control word whose layer bits (8..12) are all clear has each of
/// them clear.
proof fn lemma_layer_bits(dispcnt: u16, bit: u16)
    by (bit_vector)
    ensures
        dispcnt & 0x1F00 == 0 && 8 <= bit < 13 ==> dispcnt & (1u16 << bit) == 0,
        dispcnt & 0x1F00 == 0 ==> dispcnt & 0x1000 == 0,
{
}

} // verus!
