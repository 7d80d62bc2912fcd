use gba_core::{Button, Gba};

#[test]
fn save_state_roundtrip_is_deterministic() {
    // A small ROM: enough for the CPU to run deterministically for a while.
    let rom = vec![0u8; 0x2000];
    let mut a = Gba::new(rom.clone(), Vec::new());
    for _ in 0..8 {
        a.run_frame();
    }
    let blob = a.save_state();

    // Restore into a fresh machine and confirm it resumes identically.
    let mut b = Gba::new(rom, Vec::new());
    assert!(b.load_state(&blob), "state should load");
    assert_eq!(a.cpu.r, b.cpu.r, "registers restored");
    assert_eq!(a.cpu.cpsr, b.cpu.cpsr);
    assert_eq!(a.bus.cycles, b.bus.cycles);

    // Advancing both from the same point stays bit-identical.
    for _ in 0..4 {
        a.run_frame();
        b.run_frame();
    }
    assert_eq!(a.cpu.r, b.cpu.r, "diverged after resume");
    assert_eq!(&a.bus.ppu.framebuffer[..], &b.bus.ppu.framebuffer[..]);

    // A garbage blob is rejected, not panicked on.
    assert!(!b.load_state(&[1, 2, 3]));
}

/// The CPU must see DISPSTAT's H-blank flag (bit 1) go high and come back down
/// within a frame: count the polls where bit 1 is set (r1) against the total
/// polls (r3).
#[test]
fn hblank_flag_is_visible_to_the_cpu_and_clears_again() {
    let code: [u32; 8] = [
        0xE3A0_0404, // mov  r0, #0x04000000
        0xE3A0_1000, // mov  r1, #0            ; polls that saw H-blank
        0xE3A0_3000, // mov  r3, #0            ; polls total
        0xE1D0_20B4, // ldrh r2, [r0, #4]      ; DISPSTAT
        0xE312_0002, // tst  r2, #2
        0x1281_1001, // addne r1, r1, #1
        0xE283_3001, // add  r3, r3, #1
        0xEAFF_FFFA, // b    -> the ldrh
    ];
    let mut rom = vec![0u8; 0x2000];
    for (i, w) in code.iter().enumerate() {
        rom[i * 4..i * 4 + 4].copy_from_slice(&w.to_le_bytes());
    }
    let mut gba = Gba::new(rom, Vec::new());
    gba.run_frame();

    let (seen, total) = (gba.cpu.r[1], gba.cpu.r[3]);
    assert!(total > 0, "the poll loop should have run at all");
    assert!(seen > 0, "H-blank flag never read as set in a whole frame");
    assert!(seen < total, "H-blank flag never read as clear: stuck on");
}

/// A ROM that divides `number` by zero through SWI 06h and then parks.
fn div_by_zero_rom(number: u32) -> Vec<u8> {
    let code: [u32; 4] = [
        0xE3A0_0000 | number, // mov r0, #number
        0xE3A0_1000,          // mov r1, #0
        0xEF06_0000,          // swi 0x06        Div
        0xEAFF_FFFE,          // b .
    ];
    let mut rom = vec![0u8; 0x2000];
    for (i, w) in code.iter().enumerate() {
        rom[i * 4..i * 4 + 4].copy_from_slice(&w.to_le_bytes());
    }
    rom
}

/// A stand-in BIOS in which every vector is an infinite loop.
fn hanging_bios() -> Vec<u8> {
    0xEAFF_FFFEu32.to_le_bytes().repeat(0x4000 / 4)
}

#[test]
fn zero_over_zero_is_answered_without_entering_the_bios() {
    for bios in [Vec::new(), hanging_bios()] {
        let mut gba = Gba::new(div_by_zero_rom(0), bios.clone());
        for _ in 0..2 {
            gba.run_frame();
        }
        let tag = if bios.is_empty() { "HLE" } else { "BIOS" };
        assert_eq!(gba.cpu.r[0], 1, "{tag}: 0/0 quotient");
        assert_eq!(gba.cpu.r[1], 0, "{tag}: 0/0 remainder");
        assert_eq!(gba.cpu.r[3], 1, "{tag}: 0/0 abs quotient");
        assert!(
            gba.cpu.r[15] >= 0x0800_0000,
            "{tag}: should have returned to the cartridge, not parked in the BIOS"
        );
    }
}

/// A stand-in BIOS whose every vector returns immediately without touching r0-r3.
fn returning_bios() -> Vec<u8> {
    0xE1B0_F00Eu32.to_le_bytes().repeat(0x4000 / 4) // movs pc, lr
}

#[test]
fn divide_seeds_r3_without_taking_over_the_call() {
    let code: [u32; 9] = [
        0xE3A0_0064, // mov r0, #100
        0xE3A0_1007, // mov r1, #7
        0xE3A0_30FF, // mov r3, #0xFF     sentinel: untouched means not set
        0xEF06_0000, // swi 0x06          Div
        0xE3A0_4403, // mov r4, #0x03000000
        0xE584_0000, // str r0, [r4]
        0xE584_1004, // str r1, [r4, #4]
        0xE584_3008, // str r3, [r4, #8]
        0xEAFF_FFFE, // b .
    ];
    let mut rom = vec![0u8; 0x2000];
    for (i, w) in code.iter().enumerate() {
        rom[i * 4..i * 4 + 4].copy_from_slice(&w.to_le_bytes());
    }
    let mut gba = Gba::new(rom, returning_bios());
    for _ in 0..2 {
        gba.run_frame();
    }
    assert_eq!(gba.cpu.r[3], 14, "r3 must be seeded with abs(quotient)");
    assert_eq!(gba.cpu.r[0], 100, "the divide itself is left to the BIOS");
}

#[test]
fn nonzero_over_zero_still_reaches_the_bios() {
    let mut gba = Gba::new(div_by_zero_rom(5), hanging_bios());
    for _ in 0..2 {
        gba.run_frame();
    }
    assert!(
        gba.cpu.r[15] < 0x0800_0000,
        "N/0 must not be intercepted: hardware hangs here, so we must too"
    );
}

#[test]
fn buttons_are_active_low() {
    let mut gba = Gba::new(vec![0u8; 0x200], Vec::new());
    assert_eq!(gba.bus.keyinput, 0x03FF);
    gba.set_button(Button::Start, true);
    assert_eq!(gba.bus.keyinput, 0x03F7);
    gba.set_button(Button::L, true);
    assert_eq!(gba.bus.keyinput, 0x01F7);
    gba.set_button(Button::Start, false);
    assert_eq!(gba.bus.keyinput, 0x01FF);
}

#[test]
fn direct_boot_starts_in_the_cartridge() {
    let gba = Gba::new(vec![0u8; 0x200], Vec::new());
    assert_eq!(gba.cpu.cpsr, 0x1F);
    assert_eq!(gba.cpu.r[13], 0x0300_7F00);
    assert_eq!(gba.cpu.r[15], 0x0800_0008);
    assert!(gba.cpu.hle_bios);
}

#[test]
fn full_boot_starts_at_the_reset_vector() {
    let gba = Gba::boot(vec![0u8; 0x200], vec![0u8; 0x4000], true);
    assert_eq!(gba.cpu.cpsr, 0xD3);
    assert_eq!(gba.cpu.r[15], 0x8);
    assert!(!gba.cpu.hle_bios);
}

#[test]
fn a_frame_is_228_lines_of_audio_clock() {
    let mut gba = Gba::new(vec![0u8; 0x2000], Vec::new());
    gba.run_frame();
    assert_eq!(gba.audio_clock, 228 * 1232);
    assert!(gba.bus.cycles >= 228 * 1232);
    let audio = gba.take_audio();
    assert_eq!(audio.len(), 2 * (228 * 1232 / 512));
    assert!(gba.take_audio().is_empty());
}

#[test]
fn foreign_state_is_refused_unchanged() {
    let mut gba = Gba::new(vec![0u8; 0x2000], Vec::new());
    let before = gba.save_state();
    let mut blob = before.clone();
    blob[0] ^= 0xFF; // break the magic word
    assert!(!gba.load_state(&blob));
    assert_eq!(gba.save_state(), before);
}

#[test]
fn health_check_reports_a_blank_rom() {
    let h = gba_core::health_check(vec![0u8; 0x2000], Vec::new(), 3);
    assert_eq!(h.peak, 1);
    assert_eq!(h.peak_frame, 0);
    assert_eq!(h.late, 1);
    assert!(h.steps > 0);
}

#[test]
fn truncated_state_is_refused() {
    let rom = vec![0u8; 0x2000];
    let mut a = Gba::new(rom.clone(), Vec::new());
    a.run_frame();
    let blob = a.save_state();
    let mut b = Gba::new(rom, Vec::new());
    // Cut inside the CPU's part, inside work RAM, and one byte short of the
    // sound unit's part.
    for cut in [5usize, 100, 189, 190 + 1000, blob.len() - 1] {
        assert!(!b.load_state(&blob[..cut]), "cut at {cut} should be refused");
    }
    // Without the sound unit's part the image still loads.
    assert!(b.load_state(&blob[..blob.len() - 329]));
    assert_eq!(a.cpu.r, b.cpu.r);
    // The whole image loads.
    assert!(b.load_state(&blob));
}

#[test]
fn saving_after_a_load_gives_the_image_back() {
    let rom = vec![0u8; 0x2000];
    let mut a = Gba::new(rom.clone(), Vec::new());
    a.run_frame();
    a.run_frame();
    let blob = a.save_state();
    let mut b = Gba::new(rom, Vec::new());
    assert!(b.load_state(&blob));
    assert_eq!(b.save_state(), blob);
}
