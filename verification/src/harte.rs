//! Single-step CPU conformance vectors: their binary file format, a bus that
//! replays a vector's recorded transactions, and the check of one vector.
//!
//! File layout (little-endian):
//!   file:  [magic u32 = 0xD33DBAE0][num_tests u32] then `num_tests` tests
//!   test:  [full_sz i32] initial state, final state, transactions, opcode block
//!   state: [full_sz i32][pad u32] then 40 u32:
//!            R[0..16] R_fiq[16..23] R_svc[23..25] R_abt[25..27]
//!            R_irq[27..29] R_und[29..31] CPSR[31] SPSR[32..37]
//!            pipeline[37..39] access[39]
//!   txs:   [full_sz i32][magic i32 = 3][count i32] then count * 6 u32
//!            (kind, size, addr, data, cycle, access)
//!   op:    [full_sz i32][pad u32][opcode u32][base_addr u32]
//!
//! Each block starts with its own byte size and the parser advances by those
//! sizes.

use vstd::prelude::*;
use crate::bus::{Access, Bus, BusEvent, Width, read_event, write_event};
use crate::cpu::Arm7tdmi;
use crate::state::from_le32;

verus! {

pub const FILE_MAGIC: u32 = 0xD33D_BAE0;

/// A CPU state as the vectors record it.
#[derive(Clone, Copy)]
pub struct State {
    /// The User/System bank for r0..r15; in privileged modes the active
    /// r8..r14 come from the banks below.
    pub r: [u32; 16],
    /// FIQ's r8..r14.
    pub r_fiq: [u32; 7],
    /// r13/r14 of the other privileged modes.
    pub r_svc: [u32; 2],
    pub r_abt: [u32; 2],
    pub r_irq: [u32; 2],
    pub r_und: [u32; 2],
    pub cpsr: u32,
    /// SPSRs in the order [fiq, svc, abt, irq, und].
    pub spsr: [u32; 5],
    pub pipeline: [u32; 2],
    pub access: u32,
}

impl State {
    /// The SPSR of the state's current mode; 0 in User and System mode.
    pub open spec fn mode_spsr(&self) -> u32 {
        let m = self.cpsr & 0x1F;
        if m == 0x11 {
            self.spsr[0]
        } else if m == 0x13 {
            self.spsr[1]
        } else if m == 0x17 {
            self.spsr[2]
        } else if m == 0x12 {
            self.spsr[3]
        } else if m == 0x1B {
            self.spsr[4]
        } else {
            0
        }
    }

    /// Register `i` as the CPU sees it in the state's mode.
    pub open spec fn active(&self, i: int) -> u32 {
        let m = self.cpsr & 0x1F;
        if m == 0x11 && 8 <= i < 15 {
            self.r_fiq[i - 8]
        } else if m == 0x13 && 13 <= i < 15 {
            self.r_svc[i - 13]
        } else if m == 0x17 && 13 <= i < 15 {
            self.r_abt[i - 13]
        } else if m == 0x12 && 13 <= i < 15 {
            self.r_irq[i - 13]
        } else if m == 0x1B && 13 <= i < 15 {
            self.r_und[i - 13]
        } else {
            self.r[i]
        }
    }

    pub fn spsr_for_mode(&self) -> (v: u32)
        ensures
            v == self.mode_spsr(),
    {
        let m = self.cpsr & 0x1F;
        if m == 0x11 {
            self.spsr[0]
        } else if m == 0x13 {
            self.spsr[1]
        } else if m == 0x17 {
            self.spsr[2]
        } else if m == 0x12 {
            self.spsr[3]
        } else if m == 0x1B {
            self.spsr[4]
        } else {
            0
        }
    }

    /// The register file as the CPU sees it in the state's mode: the banked
    /// r8..r14 laid over the User/System bank.
    pub fn active_regs(&self) -> (regs: [u32; 16])
        ensures
            forall|i: int| 0 <= i < 16 ==> #[trigger] regs[i] == self.active(i),
    {
        let mut regs = self.r;
        let m = self.cpsr & 0x1F;
        if m == 0x11 {
            let mut k: usize = 0;
            while k < 7
                invariant
                    k <= 7,
                    m == self.cpsr & 0x1F,
                    m == 0x11,
                    forall|i: int| 0 <= i < 16 ==> #[trigger] regs[i] == if 8 <= i < 8 + k {
                        self.r_fiq[i - 8]
                    } else {
                        self.r[i]
                    },
                decreases 7 - k,
            {
                regs[8 + k] = self.r_fiq[k];
                k = k + 1;
            }
        } else if m == 0x13 {
            regs[13] = self.r_svc[0];
            regs[14] = self.r_svc[1];
        } else if m == 0x17 {
            regs[13] = self.r_abt[0];
            regs[14] = self.r_abt[1];
        } else if m == 0x12 {
            regs[13] = self.r_irq[0];
            regs[14] = self.r_irq[1];
        } else if m == 0x1B {
            regs[13] = self.r_und[0];
            regs[14] = self.r_und[1];
        }
        regs
    }
}

/// One recorded bus transaction.
#[derive(Clone, Copy)]
pub struct Tx {
    /// Code fetch (0) or data access (1); the direction follows from the
    /// instruction.
    pub kind: u32,
    /// Bytes.
    pub size: u32,
    pub addr: u32,
    pub data: u32,
    pub cycle: u32,
    pub access: u32,
}

/// One vector: the state before and after a single step, the transactions
/// the step makes, and the opcode it executes.
pub struct Test {
    pub initial: State,
    pub final_: State,
    pub transactions: Vec<Tx>,
    pub opcode: u32,
    pub base_addr: u32,
}

/// Why a vector file could not be read.
#[derive(Clone, Copy, Debug, PartialEq, Eq, Structural)]
pub enum ParseError {
    /// Shorter than the 8-byte file header.
    TooSmall,
    /// The file does not start with [`FILE_MAGIC`]; the word found.
    BadMagic(u32),
    /// A block reaches past the end of the file.
    Truncated,
}

/// The little-endian word at `off`.
pub open spec fn word_at(b: Seq<u8>, off: int) -> u32 {
    from_le32(b.subrange(off, off + 4))
}

/// The block size at `off`, read as a signed word.
pub open spec fn size_at(b: Seq<u8>, off: int) -> int {
    word_at(b, off) as i32 as int
}

/// `s` is the state block at `pos`.
pub open spec fn decodes_state(s: State, b: Seq<u8>, pos: int) -> bool {
    let v = |i: int| word_at(b, pos + 8 + 4 * i);
    &&& forall|i: int| 0 <= i < 16 ==> #[trigger] s.r[i] == v(i)
    &&& forall|i: int| 0 <= i < 7 ==> #[trigger] s.r_fiq[i] == v(16 + i)
    &&& s.r_svc[0] == v(23) && s.r_svc[1] == v(24)
    &&& s.r_abt[0] == v(25) && s.r_abt[1] == v(26)
    &&& s.r_irq[0] == v(27) && s.r_irq[1] == v(28)
    &&& s.r_und[0] == v(29) && s.r_und[1] == v(30)
    &&& s.cpsr == v(31)
    &&& forall|i: int| 0 <= i < 5 ==> #[trigger] s.spsr[i] == v(32 + i)
    &&& s.pipeline[0] == v(37) && s.pipeline[1] == v(38)
    &&& s.access == v(39)
}

/// `t` is the transaction record at `off`.
pub open spec fn decodes_tx(t: Tx, b: Seq<u8>, off: int) -> bool {
    &&& t.kind == word_at(b, off)
    &&& t.size == word_at(b, off + 4)
    &&& t.addr == word_at(b, off + 8)
    &&& t.data == word_at(b, off + 12)
    &&& t.cycle == word_at(b, off + 16)
    &&& t.access == word_at(b, off + 20)
}

/// Where the blocks of the test at `pos` start: initial state, final state,
/// transactions, opcode block, and where the test ends; `None` when a block
/// reaches past the end of `b` or a size is negative.
pub open spec fn test_layout(b: Seq<u8>, pos: int) -> Option<(int, int, int, int, int)> {
    let p1 = pos + 4;
    if !(0 <= p1 && p1 + 168 <= b.len() && size_at(b, p1) >= 0) {
        None
    } else {
        let p2 = p1 + size_at(b, p1);
        if !(p2 + 168 <= b.len() && size_at(b, p2) >= 0) {
            None
        } else {
            let p3 = p2 + size_at(b, p2);
            if !(p3 + 12 <= b.len() && size_at(b, p3) >= 0 && size_at(b, p3 + 8) >= 0 && p3 + 12 + 24 * size_at(
                b,
                p3 + 8,
            ) <= b.len()) {
                None
            } else {
                let p4 = p3 + size_at(b, p3);
                if !(p4 + 16 <= b.len() && size_at(b, p4) >= 0) {
                    None
                } else {
                    Some((p1, p2, p3, p4, p4 + size_at(b, p4)))
                }
            }
        }
    }
}

/// Where the test after the first `k` tests of the file starts, when all
/// of those fit in it.
pub open spec fn tests_end(b: Seq<u8>, k: nat) -> Option<int>
    decreases k,
{
    if k == 0 {
        Some(8)
    } else {
        match tests_end(b, (k - 1) as nat) {
            None => None,
            Some(pos) => match test_layout(b, pos) {
                None => None,
                Some(l) => Some(l.4),
            },
        }
    }
}

impl Test {
    /// `self` is the test at `pos`.
    pub open spec fn decodes(&self, b: Seq<u8>, pos: int) -> bool {
        match test_layout(b, pos) {
            None => false,
            Some((p1, p2, p3, p4, _end)) => {
                &&& decodes_state(self.initial, b, p1)
                &&& decodes_state(self.final_, b, p2)
                &&& self.transactions@.len() == size_at(b, p3 + 8)
                &&& forall|i: int|
                    0 <= i < self.transactions@.len() ==> decodes_tx(
                        #[trigger] self.transactions@[i],
                        b,
                        p3 + 12 + 24 * i,
                    )
                &&& self.opcode == word_at(b, p4 + 8)
                &&& self.base_addr == word_at(b, p4 + 12)
            },
        }
    }
}

fn word(buf: &[u8], off: usize) -> (w: u32)
    requires
        off + 4 <= buf@.len(),
    ensures
        w == word_at(buf@, off as int),
{
    (buf[off] as u32) | ((buf[off + 1] as u32) << 8) | ((buf[off + 2] as u32) << 16) | ((buf[off + 3] as u32) << 24)
}

/// The block size at `off`, or `None` when it is negative.
fn size(buf: &[u8], off: usize) -> (n: Option<u128>)
    requires
        off + 4 <= buf@.len(),
    ensures
        match n {
            Some(v) => size_at(buf@, off as int) >= 0 && v == size_at(buf@, off as int),
            None => size_at(buf@, off as int) < 0,
        },
{
    let w = word(buf, off) as i32;
    if w < 0 {
        None
    } else {
        Some(w as u128)
    }
}

fn read_state(buf: &[u8], pos: usize) -> (s: State)
    requires
        pos + 168 <= buf@.len(),
    ensures
        decodes_state(s, buf@, pos as int),
{
    let len = buf.len();
    let base = pos + 8;
    let mut r = [0u32; 16];
    let mut i: usize = 0;
    while i < 16
        invariant
            i <= 16,
            base == pos + 8,
            pos + 168 <= buf@.len(),
            len == buf@.len(),
            forall|j: int| 0 <= j < i ==> #[trigger] r[j] == word_at(buf@, base + 4 * j),
        decreases 16 - i,
    {
        r[i] = word(buf, base + 4 * i);
        i = i + 1;
    }
    let mut r_fiq = [0u32; 7];
    let mut k: usize = 0;
    while k < 7
        invariant
            k <= 7,
            base == pos + 8,
            pos + 168 <= buf@.len(),
            len == buf@.len(),
            forall|j: int| 0 <= j < k ==> #[trigger] r_fiq[j] == word_at(buf@, base + 4 * (16 + j)),
        decreases 7 - k,
    {
        r_fiq[k] = word(buf, base + 4 * (16 + k));
        k = k + 1;
    }
    let mut spsr = [0u32; 5];
    let mut k: usize = 0;
    while k < 5
        invariant
            k <= 5,
            base == pos + 8,
            pos + 168 <= buf@.len(),
            len == buf@.len(),
            forall|j: int| 0 <= j < k ==> #[trigger] spsr[j] == word_at(buf@, base + 4 * (32 + j)),
        decreases 5 - k,
    {
        spsr[k] = word(buf, base + 4 * (32 + k));
        k = k + 1;
    }
    State {
        r,
        r_fiq,
        r_svc: [word(buf, base + 4 * 23), word(buf, base + 4 * 24)],
        r_abt: [word(buf, base + 4 * 25), word(buf, base + 4 * 26)],
        r_irq: [word(buf, base + 4 * 27), word(buf, base + 4 * 28)],
        r_und: [word(buf, base + 4 * 29), word(buf, base + 4 * 30)],
        cpsr: word(buf, base + 4 * 31),
        spsr,
        pipeline: [word(buf, base + 4 * 37), word(buf, base + 4 * 38)],
        access: word(buf, base + 4 * 39),
    }
}

fn read_txs(buf: &[u8], off: usize, count: usize) -> (txs: Vec<Tx>)
    requires
        off + 24 * count <= buf@.len(),
    ensures
        txs@.len() == count,
        forall|i: int| 0 <= i < count ==> decodes_tx(#[trigger] txs@[i], buf@, off + 24 * i),
{
    let len = buf.len();
    let mut txs: Vec<Tx> = Vec::new();
    let mut i: usize = 0;
    while i < count
        invariant
            i <= count,
            off + 24 * count <= buf@.len(),
            len == buf@.len(),
            txs@.len() == i,
            forall|j: int| 0 <= j < i ==> decodes_tx(#[trigger] txs@[j], buf@, off + 24 * j),
        decreases count - i,
    {
        let o = off + 24 * i;
        txs.push(
            Tx {
                kind: word(buf, o),
                size: word(buf, o + 4),
                addr: word(buf, o + 8),
                data: word(buf, o + 12),
                cycle: word(buf, o + 16),
                access: word(buf, o + 20),
            },
        );
        i = i + 1;
    }
    txs
}

/// The test at `pos` and where it ends, or `None` when it does not fit.
fn read_test(buf: &[u8], pos: u128) -> (res: Option<(Test, u128)>)
    ensures
        match res {
            Some((t, end)) => test_layout(buf@, pos as int) is Some && end == test_layout(
                buf@,
                pos as int,
            ).unwrap().4 && t.decodes(buf@, pos as int),
            None => test_layout(buf@, pos as int) is None,
        },
{
    let len = buf.len() as u128;
    if pos > len || len - pos < 4 + 168 {
        return None;
    }
    let p1 = pos + 4;
    let s1 = match size(buf, p1 as usize) {
        Some(v) => v,
        None => return None,
    };
    if s1 > len - p1 || len - p1 - s1 < 168 {
        return None;
    }
    let p2 = p1 + s1;
    let s2 = match size(buf, p2 as usize) {
        Some(v) => v,
        None => return None,
    };
    if s2 > len - p2 || len - p2 - s2 < 12 {
        return None;
    }
    let p3 = p2 + s2;
    let st = match size(buf, p3 as usize) {
        Some(v) => v,
        None => return None,
    };
    let count = match size(buf, (p3 + 8) as usize) {
        Some(v) => v,
        None => return None,
    };
    if len - p3 - 12 < 24 * count {
        return None;
    }
    if st > len - p3 || len - p3 - st < 16 {
        return None;
    }
    let p4 = p3 + st;
    let so = match size(buf, p4 as usize) {
        Some(v) => v,
        None => return None,
    };
    let initial = read_state(buf, p1 as usize);
    let final_ = read_state(buf, p2 as usize);
    let transactions = read_txs(buf, (p3 + 12) as usize, count as usize);
    let opcode = word(buf, (p4 + 8) as usize);
    let base_addr = word(buf, (p4 + 12) as usize);
    Some((Test { initial, final_, transactions, opcode, base_addr }, p4 + so))
}

/// Parse a whole vector file.
pub fn parse(buf: &[u8]) -> (res: Result<Vec<Test>, ParseError>)
    ensures
        buf@.len() < 8 ==> res == Err::<Vec<Test>, ParseError>(ParseError::TooSmall),
        buf@.len() >= 8 && word_at(buf@, 0) != FILE_MAGIC ==> res == Err::<Vec<Test>, ParseError>(
            ParseError::BadMagic(word_at(buf@, 0)),
        ),
        buf@.len() >= 8 && word_at(buf@, 0) == FILE_MAGIC ==> {
            let n = word_at(buf@, 4) as nat;
            match res {
                Ok(tests) => {
                    &&& tests_end(buf@, n) is Some
                    &&& tests@.len() == n
                    &&& forall|k: int|
                        0 <= k < n ==> #[trigger] tests@[k].decodes(buf@, tests_end(buf@, k as nat).unwrap())
                },
                Err(e) => e == ParseError::Truncated && tests_end(buf@, n) is None,
            }
        },
{
    if buf.len() < 8 {
        return Err(ParseError::TooSmall);
    }
    let magic = word(buf, 0);
    if magic != FILE_MAGIC {
        return Err(ParseError::BadMagic(magic));
    }
    let num = word(buf, 4);
    let mut tests: Vec<Test> = Vec::new();
    let mut pos: u128 = 8;
    let mut k: u32 = 0;
    while k < num
        invariant
            k <= num,
            buf@.len() >= 8,
            word_at(buf@, 0) == FILE_MAGIC,
            num == word_at(buf@, 4),
            tests_end(buf@, k as nat) == Some(pos as int),
            tests@.len() == k,
            forall|j: int|
                0 <= j < k ==> #[trigger] tests@[j].decodes(buf@, tests_end(buf@, j as nat).unwrap()),
        decreases num - k,
    {
        match read_test(buf, pos) {
            None => {
                proof {
                    lemma_tests_end_stuck(buf@, (k + 1) as nat, num as nat);
                }
                return Err(ParseError::Truncated);
            },
            Some((t, end)) => {
                tests.push(t);
                pos = end;
            },
        }
        k = k + 1;
    }
    Ok(tests)
}

/// Once a test does not fit, no longer prefix of tests does.
proof fn lemma_tests_end_stuck(b: Seq<u8>, k: nat, n: nat)
    requires
        tests_end(b, k) is None,
        k <= n,
    ensures
        tests_end(b, n) is None,
    decreases n - k,
{
    if k < n {
        lemma_tests_end_stuck(b, k + 1, n);
    }
}

/// A difference between what a step did on the bus and what the vector
/// records.
#[derive(Clone, Copy, Debug, PartialEq, Eq, Structural)]
pub enum TxMismatch {
    /// A read after the last recorded transaction.
    UnexpectedRead { addr: u32 },
    /// A read at another address than the recorded one.
    ReadAddr { addr: u32, expected: u32 },
    /// A write after the last recorded transaction.
    UnexpectedWrite { addr: u32 },
    /// A write at another address than the recorded one.
    WriteAddr { addr: u32, expected: u32 },
    /// A write of other data than the recorded (low bytes of sub-word
    /// writes only).
    WriteData { val: u32, expected: u32 },
}

/// The mask of the meaningful bytes of a `size`-byte write.
pub open spec fn size_mask(size: u32) -> u32 {
    if size == 1 {
        0xFF
    } else if size == 2 {
        0xFFFF
    } else {
        0xFFFF_FFFF
    }
}

/// What a read at `addr` answers and the mismatches it records, with the
/// replay at `idx`.
pub open spec fn read_outcome(txs: Seq<Tx>, idx: int, addr: u32) -> (u32, Seq<TxMismatch>) {
    if 0 <= idx < txs.len() {
        let t = txs[idx];
        (t.data, if t.addr != addr { seq![TxMismatch::ReadAddr { addr, expected: t.addr }] } else { seq![] })
    } else {
        (0, seq![TxMismatch::UnexpectedRead { addr }])
    }
}

/// The mismatches a `size`-byte write of `val` at `addr` records, with the
/// replay at `idx`.
pub open spec fn write_outcome(txs: Seq<Tx>, idx: int, addr: u32, size: u32, val: u32) -> Seq<TxMismatch> {
    if 0 <= idx < txs.len() {
        let t = txs[idx];
        (if t.addr != addr { seq![TxMismatch::WriteAddr { addr, expected: t.addr }] } else { seq![] }) + (if t.data
            & size_mask(size) != val & size_mask(size) {
            seq![TxMismatch::WriteData { val, expected: t.data }]
        } else {
            seq![]
        })
    } else {
        seq![TxMismatch::UnexpectedWrite { addr }]
    }
}

/// The byte count of an access width.
pub open spec fn width_bytes(w: Width) -> u32 {
    match w {
        Width::Byte => 1,
        Width::Half => 2,
        Width::Word => 4,
    }
}

/// Where a replay of `events` against `txs` stands, and the mismatches it
/// has recorded: every read and write takes the next transaction.
pub open spec fn replay(txs: Seq<Tx>, events: Seq<BusEvent>) -> (int, Seq<TxMismatch>)
    decreases events.len(),
{
    if events.len() == 0 {
        (0, seq![])
    } else {
        let (i, errs) = replay(txs, events.drop_last());
        let next = if i < usize::MAX { i + 1 } else { i };
        match events.last() {
            BusEvent::Read { addr, .. } => (next, errs + read_outcome(txs, i, addr).1),
            BusEvent::Write { width, addr, value, .. } => (
                next,
                errs + write_outcome(txs, i, addr, width_bytes(width), value),
            ),
            _ => (i, errs),
        }
    }
}

/// Replays a vector's transactions as the CPU's memory: each read answers
/// the next recorded transaction's data, each write is checked against it,
/// and every deviation is recorded.
pub struct TxBus {
    pub txs: Vec<Tx>,
    /// The next transaction to replay.
    pub idx: usize,
    pub errors: Vec<TxMismatch>,
    /// Everything the CPU has asked of this bus.
    pub log: Ghost<Seq<BusEvent>>,
}

impl TxBus {
    pub fn new(txs: Vec<Tx>) -> (b: TxBus)
        ensures
            b.txs@ == txs@,
            b.idx == 0,
            b.errors@ == Seq::<TxMismatch>::empty(),
            b.log@ == Seq::<BusEvent>::empty(),
            b.inv(),
    {
        let b = TxBus { txs, idx: 0, errors: Vec::new(), log: Ghost(Seq::empty()) };
        assert(replay(b.txs@, b.log@) == (0int, Seq::<TxMismatch>::empty()));
        b
    }

    /// Whether every recorded transaction has been replayed, exactly.
    pub fn fully_consumed(&self) -> (b: bool)
        ensures
            b == (self.idx == self.txs@.len()),
    {
        self.idx == self.txs.len()
    }

    fn do_read(&mut self, addr: u32) -> (v: u32)
        ensures
            v == read_outcome(old(self).txs@, old(self).idx as int, addr).0,
            final(self).errors@ == old(self).errors@ + read_outcome(old(self).txs@, old(self).idx as int, addr).1,
            final(self).idx == old(self).idx.saturating_add(1),
            final(self).txs@ == old(self).txs@,
            final(self).log == old(self).log,
    {
        let i = self.idx;
        self.idx = self.idx.saturating_add(1);
        if i < self.txs.len() {
            let t = self.txs[i];
            if t.addr != addr {
                self.errors.push(TxMismatch::ReadAddr { addr, expected: t.addr });
            }
            proof {
                assert(self.errors@ =~= old(self).errors@ + read_outcome(old(self).txs@, i as int, addr).1);
            }
            t.data
        } else {
            self.errors.push(TxMismatch::UnexpectedRead { addr });
            proof {
                assert(self.errors@ =~= old(self).errors@ + read_outcome(old(self).txs@, i as int, addr).1);
            }
            0
        }
    }

    fn do_write(&mut self, addr: u32, size: u32, val: u32)
        ensures
            final(self).errors@ == old(self).errors@ + write_outcome(
                old(self).txs@,
                old(self).idx as int,
                addr,
                size,
                val,
            ),
            final(self).idx == old(self).idx.saturating_add(1),
            final(self).txs@ == old(self).txs@,
            final(self).log == old(self).log,
    {
        let i = self.idx;
        self.idx = self.idx.saturating_add(1);
        if i < self.txs.len() {
            let t = self.txs[i];
            if t.addr != addr {
                self.errors.push(TxMismatch::WriteAddr { addr, expected: t.addr });
            }
            let mask: u32 = if size == 1 {
                0xFF
            } else if size == 2 {
                0xFFFF
            } else {
                0xFFFF_FFFF
            };
            if t.data & mask != val & mask {
                self.errors.push(TxMismatch::WriteData { val, expected: t.data });
            }
            proof {
                assert(self.errors@ =~= old(self).errors@ + write_outcome(old(self).txs@, i as int, addr, size, val));
            }
        } else {
            self.errors.push(TxMismatch::UnexpectedWrite { addr });
            proof {
                assert(self.errors@ =~= old(self).errors@ + write_outcome(old(self).txs@, i as int, addr, size, val));
            }
        }
    }
}

impl Bus for TxBus {
    open spec fn events(&self) -> Seq<BusEvent> {
        self.log@
    }

    /// The number of requests so far.
    open spec fn clock(&self) -> int {
        self.log@.len() as int
    }

    /// The replay position and the mismatches are those of replaying every
    /// request so far.
    open spec fn inv(&self) -> bool {
        replay(self.txs@, self.log@) == (self.idx as int, self.errors@)
    }

    /// The transactions replayed.
    type Setup = Seq<Tx>;

    open spec fn setup(&self) -> Seq<Tx> {
        self.txs@
    }

    fn read8(&mut self, addr: u32, access: Access) -> (v: u8)
        ensures
            v == read_outcome(old(self).txs@, old(self).idx as int, addr).0 as u8,
            final(self).errors@ == old(self).errors@ + read_outcome(old(self).txs@, old(self).idx as int, addr).1,
            final(self).idx == old(self).idx.saturating_add(1),
            final(self).txs@ == old(self).txs@,
    {
        let v = self.do_read(addr) as u8;
        self.log = Ghost(self.log@.push(read_event(Width::Byte, addr, access, v as u32)));
        assert(self.log@.drop_last() =~= old(self).log@);
        v
    }

    fn read16(&mut self, addr: u32, access: Access) -> (v: u16)
        ensures
            v == read_outcome(old(self).txs@, old(self).idx as int, addr).0 as u16,
            final(self).errors@ == old(self).errors@ + read_outcome(old(self).txs@, old(self).idx as int, addr).1,
            final(self).idx == old(self).idx.saturating_add(1),
            final(self).txs@ == old(self).txs@,
    {
        let v = self.do_read(addr) as u16;
        self.log = Ghost(self.log@.push(read_event(Width::Half, addr, access, v as u32)));
        assert(self.log@.drop_last() =~= old(self).log@);
        v
    }

    fn read32(&mut self, addr: u32, access: Access) -> (v: u32)
        ensures
            v == read_outcome(old(self).txs@, old(self).idx as int, addr).0,
            final(self).errors@ == old(self).errors@ + read_outcome(old(self).txs@, old(self).idx as int, addr).1,
            final(self).idx == old(self).idx.saturating_add(1),
            final(self).txs@ == old(self).txs@,
    {
        let v = self.do_read(addr);
        self.log = Ghost(self.log@.push(read_event(Width::Word, addr, access, v)));
        assert(self.log@.drop_last() =~= old(self).log@);
        v
    }

    fn write8(&mut self, addr: u32, val: u8, access: Access)
        ensures
            final(self).errors@ == old(self).errors@ + write_outcome(
                old(self).txs@,
                old(self).idx as int,
                addr,
                1,
                val as u32,
            ),
            final(self).idx == old(self).idx.saturating_add(1),
            final(self).txs@ == old(self).txs@,
    {
        self.do_write(addr, 1, val as u32);
        self.log = Ghost(self.log@.push(write_event(Width::Byte, addr, access, val as u32)));
        assert(self.log@.drop_last() =~= old(self).log@);
    }

    fn write16(&mut self, addr: u32, val: u16, access: Access)
        ensures
            final(self).errors@ == old(self).errors@ + write_outcome(
                old(self).txs@,
                old(self).idx as int,
                addr,
                2,
                val as u32,
            ),
            final(self).idx == old(self).idx.saturating_add(1),
            final(self).txs@ == old(self).txs@,
    {
        self.do_write(addr, 2, val as u32);
        self.log = Ghost(self.log@.push(write_event(Width::Half, addr, access, val as u32)));
        assert(self.log@.drop_last() =~= old(self).log@);
    }

    fn write32(&mut self, addr: u32, val: u32, access: Access)
        ensures
            final(self).errors@ == old(self).errors@ + write_outcome(
                old(self).txs@,
                old(self).idx as int,
                addr,
                4,
                val,
            ),
            final(self).idx == old(self).idx.saturating_add(1),
            final(self).txs@ == old(self).txs@,
    {
        self.do_write(addr, 4, val);
        self.log = Ghost(self.log@.push(write_event(Width::Word, addr, access, val)));
        assert(self.log@.drop_last() =~= old(self).log@);
    }

    /// Internal cycles are not recorded in the vectors.
    fn tick(&mut self, n: u32)
        ensures
            final(self).errors@ == old(self).errors@,
            final(self).idx == old(self).idx,
            final(self).txs@ == old(self).txs@,
    {
        self.log = Ghost(self.log@.push(BusEvent::Tick { cycles: n }));
        assert(self.log@.drop_last() =~= old(self).log@);
    }

    fn set_halted(&mut self, halted: bool)
        ensures
            final(self).errors@ == old(self).errors@,
            final(self).idx == old(self).idx,
            final(self).txs@ == old(self).txs@,
    {
        self.log = Ghost(self.log@.push(BusEvent::Halt { halted }));
        assert(self.log@.drop_last() =~= old(self).log@);
    }
}

/// A way in which a CPU step disagreed with a vector.
#[derive(Clone, Copy, Debug, PartialEq, Eq, Structural)]
pub enum Diff {
    /// A register (in the final mode's view) differs.
    Reg { index: u32, got: u32, want: u32 },
    Cpsr { got: u32, want: u32 },
    Pipeline { got0: u32, got1: u32, want0: u32, want1: u32 },
    /// Not every recorded transaction was replayed.
    Consumed { consumed: usize, total: usize },
    /// The step's bus traffic deviated from the record.
    Bus(TxMismatch),
}

/// The register differences among the first `n` registers.
pub open spec fn reg_diffs(c: Arm7tdmi, f: State, n: int) -> Seq<Diff>
    decreases n,
{
    if n <= 0 {
        seq![]
    } else {
        reg_diffs(c, f, n - 1) + if c.r[n - 1] != f.active(n - 1) {
            seq![Diff::Reg { index: (n - 1) as u32, got: c.r[n - 1], want: f.active(n - 1) }]
        } else {
            seq![]
        }
    }
}

/// Every difference between the CPU `c` and the replay bus `b` after a step
/// and the vector's final state `f`, in the order registers, CPSR,
/// pipeline, replay completeness, bus mismatches.
pub open spec fn step_diffs(c: Arm7tdmi, b: TxBus, f: State) -> Seq<Diff> {
    reg_diffs(c, f, 16) + (if c.cpsr != f.cpsr {
        seq![Diff::Cpsr { got: c.cpsr, want: f.cpsr }]
    } else {
        seq![]
    }) + (if c.pipeline[0] != f.pipeline[0] || c.pipeline[1] != f.pipeline[1] {
        seq![Diff::Pipeline { got0: c.pipeline[0], got1: c.pipeline[1], want0: f.pipeline[0], want1: f.pipeline[1] }]
    } else {
        seq![]
    }) + (if b.idx != b.txs@.len() {
        seq![Diff::Consumed { consumed: b.idx, total: b.txs@.len() as usize }]
    } else {
        seq![]
    }) + b.errors@.map_values(|e: TxMismatch| Diff::Bus(e))
}

/// `c` is the CPU a vector's state `s` describes, ready to step.
pub open spec fn loaded_from(c: Arm7tdmi, s: State) -> bool {
    &&& c.loaded_full(s.cpsr, s.r, s.r_fiq, s.r_svc, s.r_abt, s.r_irq, s.r_und, s.spsr)
    &&& c.pipeline == s.pipeline
    &&& !c.hle_bios
}

fn copy_txs(v: &Vec<Tx>) -> (out: Vec<Tx>)
    ensures
        out@ == v@,
{
    let mut out: Vec<Tx> = Vec::new();
    let mut i: usize = 0;
    while i < v.len()
        invariant
            i <= v@.len(),
            out@ == v@.subrange(0, i as int),
        decreases v@.len() - i,
    {
        out.push(v[i]);
        i = i + 1;
        assert(out@ =~= v@.subrange(0, i as int));
    }
    assert(v@.subrange(0, v@.len() as int) =~= v@);
    out
}

/// Run one vector: load its initial state, step once against a replay of
/// its transactions, and list every difference from its final state.
pub fn run_test(test: &Test) -> (res: Result<(), Vec<Diff>>)
    ensures
        exists|c0: Arm7tdmi, c: Arm7tdmi, b: TxBus|
            {
                &&& loaded_from(c0, test.initial)
                &&& #[trigger] c0.stepped(c, Seq::<BusEvent>::empty(), b.log@)
                &&& b.txs@ == test.transactions@
                &&& b.inv()
                &&& match res {
                    Ok(_) => step_diffs(c, b, test.final_).len() == 0,
                    Err(d) => d@ == step_diffs(c, b, test.final_) && d@.len() > 0,
                }
            },
{
    let init = &test.initial;
    let mut cpu = Arm7tdmi::new();
    cpu.pipeline = init.pipeline;
    cpu.load_full(init.cpsr, init.r, init.r_fiq, init.r_svc, init.r_abt, init.r_irq, init.r_und, init.spsr);
    let ghost c0 = cpu;
    let mut bus = TxBus::new(copy_txs(&test.transactions));
    cpu.step(&mut bus);
    let ghost b0 = bus;
    let f = &test.final_;
    let expected = f.active_regs();
    let mut diffs: Vec<Diff> = Vec::new();
    let mut i: usize = 0;
    while i < 16
        invariant
            i <= 16,
            forall|j: int| 0 <= j < 16 ==> #[trigger] expected[j] == f.active(j),
            diffs@ == reg_diffs(cpu, *f, i as int),
        decreases 16 - i,
    {
        if cpu.r[i] != expected[i] {
            diffs.push(Diff::Reg { index: i as u32, got: cpu.r[i], want: expected[i] });
        }
        i = i + 1;
        assert(diffs@ =~= reg_diffs(cpu, *f, i as int));
    }
    if cpu.cpsr != f.cpsr {
        diffs.push(Diff::Cpsr { got: cpu.cpsr, want: f.cpsr });
    }
    if cpu.pipeline[0] != f.pipeline[0] || cpu.pipeline[1] != f.pipeline[1] {
        diffs.push(
            Diff::Pipeline { got0: cpu.pipeline[0], got1: cpu.pipeline[1], want0: f.pipeline[0], want1: f.pipeline[1] },
        );
    }
    if !bus.fully_consumed() {
        diffs.push(Diff::Consumed { consumed: bus.idx, total: bus.txs.len() });
    }
    let ghost before_bus = diffs@;
    let mut k: usize = 0;
    while k < bus.errors.len()
        invariant
            k <= bus.errors@.len(),
            diffs@ == before_bus + bus.errors@.subrange(0, k as int).map_values(|e: TxMismatch| Diff::Bus(e)),
        decreases bus.errors@.len() - k,
    {
        diffs.push(Diff::Bus(bus.errors[k]));
        k = k + 1;
        assert(diffs@ =~= before_bus + bus.errors@.subrange(0, k as int).map_values(|e: TxMismatch| Diff::Bus(e)));
    }
    assert(bus.errors@.subrange(0, bus.errors@.len() as int) =~= bus.errors@);
    assert(diffs@ =~= step_diffs(cpu, bus, *f));
    assert(c0.stepped(cpu, Seq::<BusEvent>::empty(), bus.log@));
    assert(loaded_from(c0, test.initial));
    if diffs.len() == 0 {
        Ok(())
    } else {
        Err(diffs)
    }
}

} // verus!
