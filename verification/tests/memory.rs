use gba_core::state::{Reader, Writer};
use gba_core::bus::{Access, Bus};
use gba_core::memory::GbaBus;

fn bus() -> GbaBus {
    GbaBus::new(vec![0; 0x100], Vec::new())
}

#[test]
fn unused_high_addresses_do_not_alias_into_ram() {
    // Addresses >= 0x10000000 are unused space; writes there must be dropped,
    // not folded into a real region.
    let mut b = bus();
    b.write32(0x0300_0054, 0xE28C_C004, Access::NonSeq); // real IWRAM word
    b.write32(0xE3A0_0057, 0x0000_0000, Access::NonSeq); // wild pointer store
    assert_eq!(
        b.read32(0x0300_0054, Access::NonSeq),
        0xE28C_C004,
        "a store to unused space (0xE3A00057) must not touch IWRAM"
    );
}

#[test]
fn unaligned_word_store_force_aligns() {
    let mut b = bus();
    b.write32(0x0300_0010, 0xAAAA_AAAA, Access::NonSeq); // neighbour slot
    b.write32(0x0300_000F, 0x0800_996D, Access::NonSeq); // unaligned -> 0x...0C
    assert_eq!(
        b.read32(0x0300_000C, Access::NonSeq),
        0x0800_996D,
        "unaligned word store must land at the aligned slot"
    );
    assert_eq!(
        b.read32(0x0300_0010, Access::NonSeq),
        0xAAAA_AAAA,
        "unaligned word store must not corrupt the next word"
    );
    // Halfword stores force-align to & ~1 the same way.
    b.write16(0x0300_0021, 0x1234, Access::NonSeq); // -> 0x...20
    assert_eq!(b.read16(0x0300_0020, Access::NonSeq), 0x1234);
}

#[test]
fn timer_overflow_raises_irq() {
    let mut b = bus();
    b.write16(0x0400_0100, 0xFFFE, Access::NonSeq); // reload
    b.write16(0x0400_0102, 0x00C0, Access::NonSeq); // enable + IRQ, prescaler 1
    b.timer_cycles = b.cycles; // ignore setup cycles
    b.cycles += 4;
    b.step_timers();
    assert!(b.if_ & (1 << 3) != 0, "timer0 overflow should request IRQ");
    assert_eq!(b.timers[0].counter, 0xFFFE);
}

#[test]
fn dma_immediate_copy() {
    let mut b = bus();
    for i in 0..8u32 {
        b.write32(0x0300_0000 + i * 4, 0x1000 + i, Access::NonSeq);
    }
    b.write32(0x0400_00B0, 0x0300_0000, Access::NonSeq); // SAD
    b.write32(0x0400_00B4, 0x0300_0100, Access::NonSeq); // DAD
    b.write16(0x0400_00B8, 8, Access::NonSeq); // count
    b.write16(0x0400_00BA, 0x8000 | 0x400, Access::NonSeq); // enable, 32-bit, immediate
    for i in 0..8u32 {
        assert_eq!(b.read32(0x0300_0100 + i * 4, Access::NonSeq), 0x1000 + i);
    }
    // Enable bit self-clears after a non-repeating transfer.
    assert_eq!(b.io_u16(0xBA) & 0x8000, 0);
}

#[test]
fn ewram_store_then_load_and_mirror() {
    let mut b = bus();
    b.write32(0x0200_0100, 0xDEAD_BEEF, Access::NonSeq);
    assert_eq!(b.read32(0x0200_0100, Access::NonSeq), 0xDEAD_BEEF);
    // EWRAM mirrors every 256 KB.
    assert_eq!(b.read32(0x0204_0100, Access::NonSeq), 0xDEAD_BEEF);
    assert_eq!(b.read8(0x0200_0101, Access::Sequential), 0xBE);
}

#[test]
fn rom_and_bios_are_read_only() {
    let mut rom = vec![0u8; 0x100];
    rom[0] = 0x11;
    let mut b = GbaBus::new(rom, Vec::new());
    b.write8(0x0800_0000, 0x99, Access::NonSeq);
    assert_eq!(b.read8(0x0800_0000, Access::NonSeq), 0x11);
    let before = b.read32(0x0000_0018, Access::NonSeq);
    b.write32(0x0000_0018, 0, Access::NonSeq);
    assert_eq!(b.read32(0x0000_0018, Access::NonSeq), before);
}

#[test]
fn missing_bios_installs_the_irq_stub() {
    let mut b = bus();
    assert_eq!(b.read32(0x18, Access::NonSeq), 0xEA00_0000);
    assert_eq!(b.read32(0x20, Access::NonSeq), 0xE92D_500F);
    assert_eq!(b.read32(0x34, Access::NonSeq), 0xE25E_F004);
    assert_eq!(b.read32(0x38, Access::NonSeq), 0);
}

#[test]
fn accesses_charge_their_region_cost() {
    let mut b = bus();
    let c0 = b.cycles;
    b.read32(0x0200_0000, Access::NonSeq);
    assert_eq!(b.cycles - c0, 6);
    b.read16(0x0800_0000, Access::NonSeq);
    assert_eq!(b.cycles - c0, 11);
    b.tick(3);
    assert_eq!(b.cycles - c0, 14);
}

#[test]
fn interrupt_flags_clear_by_writing_one() {
    let mut b = bus();
    b.if_ = 0x0009;
    b.write16(0x0400_0202, 0x0001, Access::NonSeq);
    assert_eq!(b.if_, 0x0008);
    b.write16(0x0400_0200, 0x0008, Access::NonSeq);
    b.write16(0x0400_0208, 1, Access::NonSeq);
    assert!(b.irq_pending());
}

#[test]
fn bus_state_roundtrips() {
    let mut a = bus();
    a.write32(0x0300_0040, 0x1234_5678, Access::NonSeq);
    a.write16(0x0400_0100, 0xFF00, Access::NonSeq);
    let mut w = Writer::default();
    a.serialize(&mut w);
    let mut b = bus();
    let mut r = Reader::new(&w.buf);
    b.deserialize(&mut r);
    assert!(!r.failed);
    assert_eq!(r.pos, w.buf.len());
    assert_eq!(b.cycles, a.cycles);
    assert_eq!(b.timers[0].reload, 0xFF00);
    assert_eq!(b.read32(0x0300_0040, Access::NonSeq), 0x1234_5678);
}

#[test]
fn count_up_timer_takes_the_overflows_of_the_one_before() {
    let mut b = bus();
    b.write16(0x0400_0100, 0xFFFF, Access::NonSeq); // timer 0 reload: overflows every tick
    b.write16(0x0400_0104, 0x0010, Access::NonSeq); // timer 1 reload
    b.write16(0x0400_0106, 0x00C4, Access::NonSeq); // timer 1: enable, IRQ, count-up
    b.write16(0x0400_0102, 0x0080, Access::NonSeq); // timer 0: enable, prescaler 1
    b.timer_cycles = b.cycles;
    b.cycles += 3;
    b.step_timers();
    assert_eq!(b.timers[1].counter, 0x0013, "three overflows of timer 0 count timer 1 up three times");
    assert_eq!(b.if_ & (1 << 4), 0, "timer 1 has not overflowed");
}

#[test]
fn dma_enable_store_with_timing_latches_without_copying() {
    let mut b = bus();
    b.write32(0x0300_0000, 0xCAFE_F00D, Access::NonSeq);
    b.write32(0x0400_00D4, 0x0300_0000, Access::NonSeq);
    b.write32(0x0400_00D8, 0x0300_0100, Access::NonSeq);
    b.write16(0x0400_00DC, 1, Access::NonSeq);
    b.write16(0x0400_00DE, 0x9400, Access::NonSeq); // enable, 32-bit, V-blank timing
    assert_eq!(b.read32(0x0300_0100, Access::NonSeq), 0, "nothing copied before V-blank");
    assert_eq!(b.dma_src[3], 0x0300_0000);
    assert_eq!(b.dma_dst[3], 0x0300_0100);
    assert_eq!(b.dma_count[3], 1);
    b.trigger_dma(1);
    assert_eq!(b.read32(0x0300_0100, Access::NonSeq), 0xCAFE_F00D);
}

#[test]
fn image_without_the_sound_unit_keeps_the_sound_unit() {
    let mut a = bus();
    a.write32(0x0300_0040, 0x1234_5678, Access::NonSeq);
    let mut w = Writer::default();
    a.serialize(&mut w);
    let short = &w.buf[..w.buf.len() - gba_core::apu::APU_STATE_LEN];
    let mut b = bus();
    b.write8(0x0400_0084, 0x80, Access::NonSeq); // sound on in the target
    let mut r = Reader::new(short);
    b.deserialize(&mut r);
    assert!(!r.failed);
    assert_eq!(r.pos, short.len());
    assert_eq!(b.read32(0x0300_0040, Access::NonSeq), 0x1234_5678);
    assert!(b.apu.master_enable, "the target's sound unit stays as it was");
}
