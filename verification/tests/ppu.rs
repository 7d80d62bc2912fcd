use gba_core::state::{Reader, Writer};
use gba_core::ppu::Ppu;

fn put16(mem: &mut [u8], off: usize, v: u16) {
    mem[off] = v as u8;
    mem[off + 1] = (v >> 8) as u8;
}

#[test]
fn text_bg0_renders_a_tile() {
    let mut p = Ppu::new();
    put16(&mut p.palram, 2, 0x001F); // palette[1] = red
    for i in 0..32 {
        p.vram[i] = 0x11; // tile 0 (char base 0): every 4bpp pixel = index 1
    }
    put16(&mut p.vram, 0x800, 0); // screenblock 1: map entry 0 -> tile 0
    p.write_reg16(0x08, 0x0100); // BG0CNT: char base 0, screen base block 1
    p.write_reg16(0x00, 0x0100); // DISPCNT: mode 0, BG0 on
    p.render_line(0);
    assert_eq!(p.framebuffer[0], 0x001F);
    assert_eq!(p.framebuffer[7], 0x001F);
}

#[test]
fn sprite_draws_over_backdrop() {
    let mut p = Ppu::new();
    put16(&mut p.palram, 0, 0x7C00); // backdrop = blue
    put16(&mut p.palram, 0x202, 0x03E0); // OBJ palette[1] = green
    for i in 0..32 {
        p.vram[0x1_0000 + i] = 0x11; // OBJ tile 0, index 1
    }
    // OAM sprite 0: y=0, x=0, 8x8, tile 0 (all attribute words zero).
    p.write_reg16(0x00, 0x1040); // DISPCNT: mode 0, OBJ on, 1D mapping
    p.render_line(0);
    assert_eq!(p.framebuffer[0], 0x03E0, "sprite pixel green");
    assert_eq!(p.framebuffer[8], 0x7C00, "outside sprite = backdrop");
}

#[test]
fn sprite_beats_bg_at_equal_priority() {
    let mut p = Ppu::new();
    put16(&mut p.palram, 2, 0x001F); // BG palette[1] = red
    put16(&mut p.palram, 0x202, 0x03E0); // OBJ palette[1] = green
    for i in 0..32 {
        p.vram[i] = 0x11;
        p.vram[0x1_0000 + i] = 0x11;
    }
    put16(&mut p.vram, 0x800, 0);
    p.write_reg16(0x08, 0x0100); // BG0CNT priority 0
    p.write_reg16(0x00, 0x1140); // DISPCNT: mode 0, BG0 + OBJ, 1D
    p.render_line(0);
    assert_eq!(p.framebuffer[0], 0x03E0, "OBJ wins over BG at equal priority");
}

#[test]
fn affine_bg2_renders_a_texel() {
    let mut p = Ppu::new();
    put16(&mut p.palram, 2, 0x03E0); // BG palette[1] = green
    for i in 0..64 {
        p.vram[i] = 1; // tile 0 (8bpp, char base 0): every texel index 1
    }
    p.vram[0x800] = 0; // affine map (screen base block 1) entry (0,0) -> tile 0
    p.write_reg16(0x0C, 0x0100); // BG2CNT: char base 0, screen base block 1
    p.write_reg16(0x20, 0x0100); // PA = 1.0 (8.8)
    p.write_reg16(0x26, 0x0100); // PD = 1.0
    p.write_reg16(0x28, 0); // BG2X = 0 (reloads the reference point)
    p.write_reg16(0x2C, 0); // BG2Y = 0
    p.write_reg16(0x00, 0x0402); // DISPCNT: mode 2, BG2 on
    p.begin_line(0); // latch the affine reference for this frame
    p.render_line(0);
    assert_eq!(p.framebuffer[0], 0x03E0, "affine BG2 texel renders");
    assert_eq!(p.framebuffer[7], 0x03E0, "identity transform fills the row");
}

#[test]
fn affine_regs_do_not_alias_control_regs() {
    let mut p = Ppu::new();
    p.write_reg16(0x04, 0x0008); // DISPSTAT: VBlank IRQ enable
    p.write_reg16(0x24, 0x0000); // BG2PC = 0
    p.write_reg16(0x20, 0x0100); // BG2PA
    assert_eq!(p.dispstat() & 0x0008, 0x0008, "DISPSTAT survives affine writes");
    assert_eq!(p.read_reg16(0x00), 0x0000, "DISPCNT not touched by BG2PA");
    assert_eq!(p.read_reg16(0x24), 0x0000, "BG2PC read back independently");
    assert_eq!(p.read_reg16(0x20), 0x0100, "BG2PA read back independently");
}

#[test]
fn forced_blank_renders_white() {
    let mut p = Ppu::new();
    p.write_reg16(0x00, 0x0080); // DISPCNT: forced blank
    p.render_line(3);
    assert!(p.framebuffer[3 * 240..4 * 240].iter().all(|&px| px == 0x7FFF));
}

#[test]
fn bitmap_mode3_shows_vram() {
    let mut p = Ppu::new();
    put16(&mut p.vram, 2 * (240 * 5 + 7), 0x1234);
    p.write_reg16(0x00, 0x0403); // DISPCNT: mode 3, BG2 on
    p.render_line(5);
    assert_eq!(p.framebuffer[240 * 5 + 7], 0x1234);
    assert_eq!(p.framebuffer[240 * 5 + 6], 0x0000);
}

#[test]
fn ppu_state_roundtrips() {
    let mut p = Ppu::new();
    p.write_reg16(0x08, 0x0123);
    p.vram[0x100] = 9;
    p.palram[3] = 4;
    p.oam[5] = 6;
    let mut w = Writer::default();
    p.serialize(&mut w);
    assert_eq!(w.buf.len(), gba_core::ppu::PPU_STATE_LEN);
    let mut q = Ppu::new();
    let mut r = Reader::new(&w.buf);
    q.deserialize(&mut r);
    assert!(!r.failed);
    assert_eq!(q.read_reg16(0x08), 0x0123);
    assert_eq!(q.vram, p.vram);
    assert_eq!(q.palram, p.palram);
    assert_eq!(q.oam, p.oam);
}
