use gba_core::state::{Reader, Writer};
use gba_core::apu::Apu;

fn w16(a: &mut Apu, off: u32, v: u16) {
    a.write8(off, v as u8);
    a.write8(off + 1, (v >> 8) as u8);
}

#[test]
fn square_channel_produces_a_waveform() {
    let mut a = Apu::new();
    a.write8(0x84, 0x80); // master enable
    w16(&mut a, 0x80, 0x7777); // full L/R volume, all channels both sides
    w16(&mut a, 0x82, 0x0002); // PSG ratio 100%
    // Channel 2: duty 50%, full volume, mid frequency, trigger.
    w16(&mut a, 0x68, 0xF080);
    w16(&mut a, 0x6C, 0x8400);
    assert!(a.ch2.enabled, "channel 2 should be on after trigger");
    a.generate([None, None], 200_000);
    let peak = a.out.iter().map(|s| s.unsigned_abs()).max().unwrap_or(0);
    assert!(peak > 1000, "square wave should swing, peak was {peak}");
}

#[test]
fn direct_sound_pops_fifo_at_timer_rate() {
    let mut a = Apu::new();
    a.write8(0x84, 0x80);
    // DS A: full volume, both sides, timer 0.
    w16(&mut a, 0x82, 0x0304);
    // Fill FIFO A with a step: +64 then -64 samples.
    for _ in 0..16 {
        a.write8(0xA0, 64);
    }
    for _ in 0..16 {
        a.write8(0xA0, (-64i8) as u8);
    }
    assert_eq!(a.fifo_a_len(), 32);
    // Timer 0 overflows every 512 cycles => one pop per output sample.
    a.generate([Some(512), None], 512 * 40);
    assert!(a.fifo_a_len() < 32, "FIFO should have drained");
    let peak = a.out.iter().map(|s| s.unsigned_abs()).max().unwrap_or(0);
    assert!(peak > 1000, "Direct Sound should be audible, peak {peak}");
}

#[test]
fn master_disable_silences_output() {
    let mut a = Apu::new();
    a.write8(0x84, 0x00); // master off
    w16(&mut a, 0x68, 0xF080);
    w16(&mut a, 0x6C, 0x8400);
    a.generate([None, None], 100_000);
    assert!(a.out.iter().all(|&s| s == 0), "no output while master disabled");
}

#[test]
fn taking_the_output_drains_it() {
    let mut a = Apu::new();
    a.generate([None, None], 512 * 4);
    assert_eq!(a.out.len(), 8);
    let out = a.take_output();
    assert_eq!(out.len(), 8);
    assert!(a.out.is_empty());
}

#[test]
fn apu_state_roundtrips() {
    let mut a = Apu::new();
    a.write8(0x84, 0x80);
    w16(&mut a, 0x80, 0x7777);
    w16(&mut a, 0x68, 0xF080);
    w16(&mut a, 0x6C, 0x8400);
    a.write8(0xA0, 7);
    a.generate([None, None], 10_000);
    let mut w = Writer::default();
    a.serialize(&mut w);
    assert_eq!(w.buf.len(), 329);
    let mut b = Apu::new();
    let mut r = Reader::new(&w.buf);
    b.deserialize(&mut r);
    assert!(!r.failed);
    assert_eq!(r.pos, 329);
    assert_eq!(b.reg, a.reg);
    assert_eq!(b.cycle, a.cycle);
    assert_eq!(b.fifo_a_len(), a.fifo_a_len());
    assert_eq!(b.ch2.timer, a.ch2.timer);
}

#[test]
fn apu_state_keeps_envelopes_and_length_counters() {
    let mut a = Apu::new();
    a.write8(0x84, 0x80);
    w16(&mut a, 0x80, 0x7777);
    w16(&mut a, 0x62, 0xF1C0); // ch1: volume 15, decreasing envelope, period 1, length 0
    w16(&mut a, 0x64, 0xC400); // trigger, length enabled
    a.generate([None, None], 200_000);
    a.take_output();
    let mut w = Writer::default();
    a.serialize(&mut w);
    let mut b = Apu::new();
    let mut r = Reader::new(&w.buf);
    b.deserialize(&mut r);
    assert!(!r.failed);
    assert_eq!(b.ch1.env.vol, a.ch1.env.vol);
    assert_eq!(b.ch1.env.timer, a.ch1.env.timer);
    assert_eq!(b.ch1.length, a.ch1.length);
    assert_eq!(b.ch1.enabled, a.ch1.enabled);
    a.generate([None, None], 300_000);
    b.generate([None, None], 300_000);
    assert_eq!(a.take_output(), b.take_output());
}
