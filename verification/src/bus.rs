//! The boundary between the CPU and the outside world.
//!
//! The ARM7TDMI never touches a concrete memory map: it talks to a [`Bus`].
//! Every access a bus performs is recorded in a ghost event log, so the CPU's
//! contracts can say exactly which reads and writes an instruction performs and
//! how the values that came back flow into the registers.

use vstd::prelude::*;

verus! {

/// Access width.
#[derive(Clone, Copy, Debug, PartialEq, Eq, Structural)]
pub enum Width {
    Byte,
    Half,
    Word,
}

/// Sequential or non-sequential access (the S/N cycle distinction).
#[derive(Clone, Copy, Debug, PartialEq, Eq, Structural)]
pub enum Access {
    Sequential,
    NonSeq,
}

/// One interaction between the CPU and a bus.
pub ghost enum BusEvent {
    Read { width: Width, addr: u32, access: Access, value: u32 },
    Write { width: Width, addr: u32, access: Access, value: u32 },
    Tick { cycles: u32 },
    Halt { halted: bool },
}

/// The bus clock never runs backwards, and it moves forward on every access
/// unless it has reached its ceiling.
pub open spec fn clock_advances(before: int, after: int) -> bool {
    &&& after >= before
    &&& before < u64::MAX ==> after > before
}

/// The data value an access event carries.
pub open spec fn event_value(e: BusEvent) -> u32 {
    match e {
        BusEvent::Read { value, .. } => value,
        BusEvent::Write { value, .. } => value,
        _ => 0,
    }
}

pub open spec fn read_event(width: Width, addr: u32, access: Access, value: u32) -> BusEvent {
    BusEvent::Read { width, addr, access, value }
}

pub open spec fn write_event(width: Width, addr: u32, access: Access, value: u32) -> BusEvent {
    BusEvent::Write { width, addr, access, value }
}

/// `ev1` is `ev0` with possibly more events after it.
pub open spec fn extends(ev0: Seq<BusEvent>, ev1: Seq<BusEvent>) -> bool {
    &&& ev1.len() >= ev0.len()
    &&& ev1.subrange(0, ev0.len() as int) == ev0
}

pub broadcast proof fn lemma_extends_push(ev0: Seq<BusEvent>, e: BusEvent)
    ensures
        #[trigger] extends(ev0, ev0.push(e)),
{
    assert(ev0.push(e).subrange(0, ev0.len() as int) =~= ev0);
}

pub broadcast proof fn lemma_extends_concat(ev0: Seq<BusEvent>, more: Seq<BusEvent>)
    ensures
        #[trigger] extends(ev0, ev0 + more),
{
    assert((ev0 + more).subrange(0, ev0.len() as int) =~= ev0);
}

pub broadcast proof fn lemma_extends_refl(ev0: Seq<BusEvent>)
    ensures
        #[trigger] extends(ev0, ev0),
{
    assert(ev0.subrange(0, ev0.len() as int) =~= ev0);
}

pub proof fn lemma_extends_trans(a: Seq<BusEvent>, b: Seq<BusEvent>, c: Seq<BusEvent>)
    requires
        extends(a, b),
        extends(b, c),
    ensures
        extends(a, c),
{
    assert(c.subrange(0, a.len() as int) =~= b.subrange(0, a.len() as int));
}

pub broadcast group group_extends {
    lemma_extends_push,
    lemma_extends_concat,
    lemma_extends_refl,
}

/// Everything the ARM7TDMI needs from memory. Reads and writes are
/// little-endian; addresses are full 32-bit, region decoding lives in the bus.
pub trait Bus {
    /// The ordered log of everything this bus has been asked to do.
    spec fn events(&self) -> Seq<BusEvent>;

    /// A monotone clock, used to bound loops that run until time has passed.
    spec fn clock(&self) -> int;

    /// The bus's own well-formedness, which every operation keeps.
    spec fn inv(&self) -> bool;

    /// What the bus was built with and no operation changes.
    type Setup;

    /// This bus's setup.
    spec fn setup(&self) -> Self::Setup;

    fn read8(&mut self, addr: u32, access: Access) -> (v: u8)
        ensures
            final(self).events() == old(self).events().push(read_event(Width::Byte, addr, access, v as u32)),
            clock_advances(old(self).clock(), final(self).clock()),
            old(self).inv() ==> final(self).inv(),
            final(self).setup() == old(self).setup(),
    ;

    fn read16(&mut self, addr: u32, access: Access) -> (v: u16)
        ensures
            final(self).events() == old(self).events().push(read_event(Width::Half, addr, access, v as u32)),
            clock_advances(old(self).clock(), final(self).clock()),
            old(self).inv() ==> final(self).inv(),
            final(self).setup() == old(self).setup(),
    ;

    fn read32(&mut self, addr: u32, access: Access) -> (v: u32)
        ensures
            final(self).events() == old(self).events().push(read_event(Width::Word, addr, access, v)),
            clock_advances(old(self).clock(), final(self).clock()),
            old(self).inv() ==> final(self).inv(),
            final(self).setup() == old(self).setup(),
    ;

    fn write8(&mut self, addr: u32, val: u8, access: Access)
        ensures
            final(self).events() == old(self).events().push(write_event(Width::Byte, addr, access, val as u32)),
            clock_advances(old(self).clock(), final(self).clock()),
            old(self).inv() ==> final(self).inv(),
            final(self).setup() == old(self).setup(),
    ;

    fn write16(&mut self, addr: u32, val: u16, access: Access)
        ensures
            final(self).events() == old(self).events().push(write_event(Width::Half, addr, access, val as u32)),
            clock_advances(old(self).clock(), final(self).clock()),
            old(self).inv() ==> final(self).inv(),
            final(self).setup() == old(self).setup(),
    ;

    fn write32(&mut self, addr: u32, val: u32, access: Access)
        ensures
            final(self).events() == old(self).events().push(write_event(Width::Word, addr, access, val)),
            clock_advances(old(self).clock(), final(self).clock()),
            old(self).inv() ==> final(self).inv(),
            final(self).setup() == old(self).setup(),
    ;

    /// Charge `n` internal cycles.
    fn tick(&mut self, n: u32)
        ensures
            final(self).events() == old(self).events().push(BusEvent::Tick { cycles: n }),
            final(self).clock() >= old(self).clock(),
            old(self).inv() ==> final(self).inv(),
            final(self).setup() == old(self).setup(),
    ;

    /// Park (or release) the CPU until an interrupt arrives.
    fn set_halted(&mut self, halted: bool)
        ensures
            final(self).events() == old(self).events().push(BusEvent::Halt { halted }),
            final(self).clock() >= old(self).clock(),
            old(self).inv() ==> final(self).inv(),
            final(self).setup() == old(self).setup(),
    ;
}

} // verus!
