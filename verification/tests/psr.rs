use gba_core::cpu::psr::{Cond, Flags};

#[test]
fn signed_comparisons_follow_n_v() {
    // GE is true when N == V; LT when they differ.
    let ge = Flags { n: true, v: true, ..Default::default() };
    assert!(ge.eval(Cond::Ge));
    assert!(!ge.eval(Cond::Lt));

    let lt = Flags { n: true, v: false, ..Default::default() };
    assert!(lt.eval(Cond::Lt));
    assert!(!lt.eval(Cond::Ge));
}

#[test]
fn unsigned_higher_needs_c_and_not_z() {
    let hi = Flags { c: true, z: false, ..Default::default() };
    assert!(hi.eval(Cond::Hi));
    assert!(!hi.eval(Cond::Ls));
}

#[test]
fn al_always_nv_never() {
    let f = Flags::default();
    assert!(f.eval(Cond::Al));
    assert!(!f.eval(Cond::Nv));
}

#[test]
fn every_mode_but_user_and_system_has_an_spsr() {
    let mut cpu = gba_core::cpu::Arm7tdmi::new();
    cpu.cpsr = 0x14; // an undefined mode code
    assert!(cpu.has_spsr());
    assert_eq!(cpu.current_spsr(), 0);
    cpu.set_current_spsr(0x1234);
    assert_eq!(cpu.current_spsr(), 0);
    cpu.cpsr = 0x10;
    assert!(!cpu.has_spsr());
    cpu.cpsr = 0x1F;
    assert!(!cpu.has_spsr());
    cpu.cpsr = 0x13;
    assert!(cpu.has_spsr());
}
