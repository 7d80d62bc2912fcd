//! Cartridge backup memory: SRAM, Flash (64/128 KB) and EEPROM (512 B / 8 KB).
//!
//! The type is found from the ID string commercial ROMs embed ("SRAM_V",
//! "FLASH_V" / "FLASH512_V", "FLASH1M_V", "EEPROM_V"). SRAM is a plain byte
//! array; Flash speaks a small command protocol (an unlock sequence, then a
//! command; games probe the chip ID at boot); EEPROM is a bit-serial protocol
//! the game drives over DMA, its address width keyed off the DMA length.

use vstd::prelude::*;
use crate::state::{Reader, Writer, le32, le128, from_le32, from_le128, block};

verus! {

broadcast use vstd::seq_lib::group_seq_properties;

#[derive(Clone, Copy, PartialEq, Eq, Debug, Structural)]
pub enum SaveKind {
    Absent,
    Sram,
    Flash64,
    Flash128,
    Eeprom,
}

/// The backup chip and its protocol state.
pub struct Save {
    pub kind: SaveKind,
    pub data: Vec<u8>,
    pub dirty: bool,
    /// Progress through the Flash unlock sequence (0, 1, 2).
    pub flash_phase: u8,
    /// Flash autoselect (chip ID) mode.
    pub flash_id_mode: bool,
    pub flash_erase_prep: bool,
    pub flash_write_pending: bool,
    pub flash_bank_pending: bool,
    /// The active 64 KB Flash bank.
    pub flash_bank: usize,
    /// EEPROM address width: 6 (512 B) or 14 (8 KB) bits.
    pub ee_addr_bits: u32,
    /// Bits expected in the current EEPROM command stream.
    pub ee_expect: u32,
    /// EEPROM command bits received so far, the latest in bit 0.
    pub ee_rx: u128,
    pub ee_rx_count: u32,
    /// Bits queued for reading out.
    pub ee_read: Vec<bool>,
    pub ee_read_pos: usize,
}

/// The state of a [`Save`] as plain values.
pub ghost struct SaveModel {
    pub kind: SaveKind,
    pub data: Seq<u8>,
    pub dirty: bool,
    pub flash_phase: u8,
    pub flash_id_mode: bool,
    pub flash_erase_prep: bool,
    pub flash_write_pending: bool,
    pub flash_bank_pending: bool,
    pub flash_bank: nat,
    pub ee_addr_bits: u32,
    pub ee_expect: u32,
    pub ee_rx: u128,
    pub ee_rx_count: u32,
    pub ee_read: Seq<bool>,
    pub ee_read_pos: nat,
}

impl SaveModel {
    /// The chip's counters fit their image fields and its read-out queue
    /// holds at most the 68 bits of one block.
    pub open spec fn wf(self) -> bool {
        &&& self.data.len() <= u32::MAX
        &&& self.ee_read.len() <= 68
        &&& self.flash_bank <= u32::MAX
        &&& self.ee_read_pos <= u32::MAX
    }
}

impl View for Save {
    type V = SaveModel;

    open spec fn view(&self) -> SaveModel {
        SaveModel {
            kind: self.kind,
            data: self.data@,
            dirty: self.dirty,
            flash_phase: self.flash_phase,
            flash_id_mode: self.flash_id_mode,
            flash_erase_prep: self.flash_erase_prep,
            flash_write_pending: self.flash_write_pending,
            flash_bank_pending: self.flash_bank_pending,
            flash_bank: self.flash_bank as nat,
            ee_addr_bits: self.ee_addr_bits,
            ee_expect: self.ee_expect,
            ee_rx: self.ee_rx,
            ee_rx_count: self.ee_rx_count,
            ee_read: self.ee_read@,
            ee_read_pos: self.ee_read_pos as nat,
        }
    }
}

// --- Detection ---------------------------------------------------------------

pub open spec fn eeprom_tag() -> Seq<u8> {
    seq![0x45, 0x45, 0x50, 0x52, 0x4F, 0x4D, 0x5F, 0x56]
}

pub open spec fn flash1m_tag() -> Seq<u8> {
    seq![0x46, 0x4C, 0x41, 0x53, 0x48, 0x31, 0x4D, 0x5F, 0x56]
}

pub open spec fn flash512_tag() -> Seq<u8> {
    seq![0x46, 0x4C, 0x41, 0x53, 0x48, 0x35, 0x31, 0x32, 0x5F, 0x56]
}

pub open spec fn flash_tag() -> Seq<u8> {
    seq![0x46, 0x4C, 0x41, 0x53, 0x48, 0x5F, 0x56]
}

pub open spec fn sram_tag() -> Seq<u8> {
    seq![0x53, 0x52, 0x41, 0x4D, 0x5F, 0x56]
}

/// Whether `tag` occurs in `rom` at a word-aligned offset `i` with
/// `i + tag.len() < rom.len()`.
pub open spec fn has_tag(rom: Seq<u8>, tag: Seq<u8>) -> bool {
    exists|i: int| 0 <= i && i % 4 == 0 && i + tag.len() < rom.len() && #[trigger] rom.subrange(i, i + tag.len()) == tag
}

/// The backup type a ROM's ID string names, EEPROM taking precedence, then
/// 128 KB Flash, 64 KB Flash, SRAM.
pub open spec fn kind_of(rom: Seq<u8>) -> SaveKind {
    if has_tag(rom, eeprom_tag()) {
        SaveKind::Eeprom
    } else if has_tag(rom, flash1m_tag()) {
        SaveKind::Flash128
    } else if has_tag(rom, flash512_tag()) || has_tag(rom, flash_tag()) {
        SaveKind::Flash64
    } else if has_tag(rom, sram_tag()) {
        SaveKind::Sram
    } else {
        SaveKind::Absent
    }
}

/// The backup size of each kind (EEPROM holds the largest, 8 KB).
pub open spec fn kind_size(kind: SaveKind) -> nat {
    match kind {
        SaveKind::Sram => 0x8000,
        SaveKind::Flash64 => 0x1_0000,
        SaveKind::Flash128 => 0x2_0000,
        SaveKind::Eeprom => 0x2000,
        SaveKind::Absent => 0,
    }
}

/// Whether `tag` occurs at `i` in `rom`.
fn tag_at(rom: &[u8], i: usize, tag: &[u8]) -> (b: bool)
    requires
        i + tag@.len() <= rom@.len(),
    ensures
        b == (rom@.subrange(i as int, i + tag@.len()) == tag@),
{
    let len = rom.len();
    let mut k: usize = 0;
    while k < tag.len()
        invariant
            k <= tag@.len(),
            i + tag@.len() <= rom@.len(),
            len == rom@.len(),
            forall|j: int| 0 <= j < k ==> rom@[i + j] == tag@[j],
        decreases tag@.len() - k,
    {
        if rom[i + k] != tag[k] {
            assert(rom@.subrange(i as int, i + tag@.len())[k as int] != tag@[k as int]);
            return false;
        }
        k = k + 1;
    }
    assert(rom@.subrange(i as int, i + tag@.len()) =~= tag@);
    true
}

/// Scan the word-aligned offsets of `rom` for `tag`.
fn find_tag(rom: &[u8], tag: &[u8]) -> (b: bool)
    ensures
        b == has_tag(rom@, tag@),
{
    let n = tag.len();
    let limit = if rom.len() > n { rom.len() - n } else { 0 };
    let mut i: usize = 0;
    while i < limit
        invariant
            i % 4 == 0,
            limit == if rom@.len() > n { rom@.len() - n } else { 0 },
            n == tag@.len(),
            forall|j: int|
                0 <= j < i && j % 4 == 0 && j + n < rom@.len() ==> #[trigger] rom@.subrange(j, j + n) != tag@,
        decreases limit - i,
    {
        if tag_at(rom, i, tag) {
            return true;
        }
        if limit - i < 4 {
            assert forall|j: int|
                0 <= j && j % 4 == 0 && j + n < rom@.len() implies #[trigger] rom@.subrange(j, j + n) != tag@ by {
                assert(j < i + 4);
            }
            return false;
        }
        i = i + 4;
    }
    false
}

fn detect_kind(rom: &[u8]) -> (k: SaveKind)
    ensures
        k == kind_of(rom@),
{
    let eeprom: [u8; 8] = [0x45, 0x45, 0x50, 0x52, 0x4F, 0x4D, 0x5F, 0x56];
    let flash1m: [u8; 9] = [0x46, 0x4C, 0x41, 0x53, 0x48, 0x31, 0x4D, 0x5F, 0x56];
    let flash512: [u8; 10] = [0x46, 0x4C, 0x41, 0x53, 0x48, 0x35, 0x31, 0x32, 0x5F, 0x56];
    let flash: [u8; 7] = [0x46, 0x4C, 0x41, 0x53, 0x48, 0x5F, 0x56];
    let sram: [u8; 6] = [0x53, 0x52, 0x41, 0x4D, 0x5F, 0x56];
    assert(eeprom@ =~= eeprom_tag());
    assert(flash1m@ =~= flash1m_tag());
    assert(flash512@ =~= flash512_tag());
    assert(flash@ =~= flash_tag());
    assert(sram@ =~= sram_tag());
    if find_tag(rom, &eeprom) {
        SaveKind::Eeprom
    } else if find_tag(rom, &flash1m) {
        SaveKind::Flash128
    } else if find_tag(rom, &flash512) || find_tag(rom, &flash) {
        SaveKind::Flash64
    } else if find_tag(rom, &sram) {
        SaveKind::Sram
    } else {
        SaveKind::Absent
    }
}

/// The state of a freshly detected backup chip: erased (all 0xFF), idle.
pub open spec fn fresh(m: SaveModel, rom: Seq<u8>) -> bool {
    &&& m.kind == kind_of(rom)
    &&& m.data == Seq::new(kind_size(m.kind), |i: int| 0xFFu8)
    &&& !m.dirty
    &&& m.flash_phase == 0
    &&& !m.flash_id_mode
    &&& !m.flash_erase_prep
    &&& !m.flash_write_pending
    &&& !m.flash_bank_pending
    &&& m.flash_bank == 0
    &&& m.ee_addr_bits == 6
    &&& m.ee_expect == 0
    &&& m.ee_rx == 0
    &&& m.ee_rx_count == 0
    &&& m.ee_read == Seq::<bool>::empty()
    &&& m.ee_read_pos == 0
}

impl Save {
    /// The backup chip a ROM asks for, erased.
    pub fn detect(rom: &[u8]) -> (s: Save)
        ensures
            fresh(s@, rom@),
            s@.wf(),
    {
        let kind = detect_kind(rom);
        let size: usize = match kind {
            SaveKind::Sram => 0x8000,
            SaveKind::Flash64 => 0x1_0000,
            SaveKind::Flash128 => 0x2_0000,
            SaveKind::Eeprom => 0x2000,
            SaveKind::Absent => 0,
        };
        let mut data: Vec<u8> = Vec::new();
        while data.len() < size
            invariant
                data@.len() <= size,
                forall|i: int| 0 <= i < data@.len() ==> data@[i] == 0xFF,
            decreases size - data@.len(),
        {
            data.push(0xFF);
        }
        let s = Save {
            kind,
            data,
            dirty: false,
            flash_phase: 0,
            flash_id_mode: false,
            flash_erase_prep: false,
            flash_write_pending: false,
            flash_bank_pending: false,
            flash_bank: 0,
            ee_addr_bits: 6,
            ee_expect: 0,
            ee_rx: 0,
            ee_rx_count: 0,
            ee_read: Vec::new(),
            ee_read_pos: 0,
        };
        assert(s@.data =~= Seq::new(kind_size(kind), |i: int| 0xFFu8));
        s
    }

    pub fn is_eeprom(&self) -> (b: bool)
        ensures
            b == (self.kind == SaveKind::Eeprom),
    {
        self.kind == SaveKind::Eeprom
    }
}

// --- SRAM / Flash (0x0E000000..0x0E00FFFF) ---------------------------------

/// The (manufacturer, device) ID a Flash chip of this kind reports.
pub open spec fn flash_id_spec(kind: SaveKind) -> (u8, u8) {
    if kind == SaveKind::Flash128 {
        (0x62, 0x13)
    } else {
        (0x32, 0x1B)
    }
}

/// The byte at `i`, or 0xFF past the end.
pub open spec fn byte_or_ff(data: Seq<u8>, i: int) -> u8 {
    if 0 <= i < data.len() {
        data[i]
    } else {
        0xFF
    }
}

/// What a read of the backup region at `addr` returns.
pub open spec fn read_spec(m: SaveModel, addr: u32) -> u8 {
    let off = (addr & 0xFFFF) as int;
    match m.kind {
        SaveKind::Sram => byte_or_ff(m.data, (addr & 0x7FFF) as int),
        SaveKind::Flash64 | SaveKind::Flash128 => if m.flash_id_mode {
            if off == 0 {
                flash_id_spec(m.kind).0
            } else if off == 1 {
                flash_id_spec(m.kind).1
            } else {
                0
            }
        } else {
            byte_or_ff(m.data, m.flash_bank * 0x1_0000 + off)
        },
        _ => 0xFF,
    }
}

/// `data` with the bytes at `start .. start + len` (those that exist) erased.
pub open spec fn erased(data: Seq<u8>, start: int, len: int) -> Seq<u8> {
    Seq::new(data.len(), |i: int| if start <= i < start + len { 0xFFu8 } else { data[i] })
}

/// The Flash command state machine on a write of `val` at offset `off`.
pub open spec fn flash_write_spec(m: SaveModel, off: int, val: u8) -> SaveModel {
    if m.flash_write_pending {
        let a = m.flash_bank * 0x1_0000 + off;
        if a < m.data.len() {
            SaveModel { data: m.data.update(a, val), dirty: true, flash_write_pending: false, ..m }
        } else {
            SaveModel { flash_write_pending: false, ..m }
        }
    } else if m.flash_bank_pending {
        SaveModel { flash_bank: (val & 1) as nat, flash_bank_pending: false, ..m }
    } else if val == 0xF0 {
        SaveModel { flash_id_mode: false, flash_phase: 0, ..m }
    } else if m.flash_phase == 0 && off == 0x5555 && val == 0xAA {
        SaveModel { flash_phase: 1, ..m }
    } else if m.flash_phase == 1 && off == 0x2AAA && val == 0x55 {
        SaveModel { flash_phase: 2, ..m }
    } else if m.flash_phase == 2 {
        let m2 = if off == 0x5555 {
            if val == 0x90 {
                SaveModel { flash_id_mode: true, ..m }
            } else if val == 0x80 {
                SaveModel { flash_erase_prep: true, ..m }
            } else if val == 0xA0 {
                SaveModel { flash_write_pending: true, ..m }
            } else if val == 0xB0 {
                SaveModel { flash_bank_pending: true, ..m }
            } else if val == 0x10 && m.flash_erase_prep {
                SaveModel { data: erased(m.data, 0, m.data.len() as int), dirty: true, flash_erase_prep: false, ..m }
            } else {
                m
            }
        } else if val == 0x30 && m.flash_erase_prep {
            SaveModel {
                data: erased(m.data, m.flash_bank * 0x1_0000 + (off / 0x1000) * 0x1000, 0x1000),
                dirty: true,
                flash_erase_prep: false,
                ..m
            }
        } else {
            m
        };
        SaveModel { flash_phase: 0, ..m2 }
    } else {
        SaveModel { flash_phase: 0, ..m }
    }
}

/// What a write of `val` to the backup region at `addr` does.
pub open spec fn write_spec(m: SaveModel, addr: u32, val: u8) -> SaveModel {
    match m.kind {
        SaveKind::Sram => {
            let i = (addr & 0x7FFF) as int;
            if i < m.data.len() {
                SaveModel { data: m.data.update(i, val), dirty: true, ..m }
            } else {
                m
            }
        },
        SaveKind::Flash64 | SaveKind::Flash128 => flash_write_spec(m, (addr & 0xFFFF) as int, val),
        _ => m,
    }
}

/// `bank * 0x10000 + off`, when it fits a `usize`.
fn bank_index(bank: usize, off: usize) -> (r: Option<usize>)
    ensures
        r matches Some(i) ==> i == bank * 0x1_0000 + off,
        r is None ==> bank * 0x1_0000 + off > usize::MAX,
{
    if bank > (usize::MAX - off) / 0x1_0000 {
        assert(bank * 0x1_0000 + off > usize::MAX) by (nonlinear_arith)
            requires
                bank > (usize::MAX - off) / 0x1_0000,
                off <= usize::MAX,
        ;
        None
    } else {
        assert(bank * 0x1_0000 + off <= usize::MAX) by (nonlinear_arith)
            requires
                bank <= (usize::MAX - off) / 0x1_0000,
                off <= usize::MAX,
        ;
        Some(bank * 0x1_0000 + off)
    }
}

impl Save {
    /// Read the SRAM / Flash region.
    pub fn read(&self, addr: u32) -> (v: u8)
        ensures
            v == read_spec(self@, addr),
    {
        let off = (addr & 0xFFFF) as usize;
        match self.kind {
            SaveKind::Sram => {
                let i = (addr & 0x7FFF) as usize;
                assert(i as int == (addr & 0x7FFF) as int);
                if i < self.data.len() {
                    self.data[i]
                } else {
                    0xFF
                }
            },
            SaveKind::Flash64 | SaveKind::Flash128 => {
                let n = self.data.len();
                if self.flash_id_mode {
                    let (man, dev) = self.flash_id();
                    if off == 0 {
                        man
                    } else if off == 1 {
                        dev
                    } else {
                        0
                    }
                } else {
                    match bank_index(self.flash_bank, off) {
                        Some(i) => if i < self.data.len() {
                            self.data[i]
                        } else {
                            0xFF
                        },
                        None => 0xFF,
                    }
                }
            },
            _ => 0xFF,
        }
    }

    /// Write the SRAM / Flash region.
    pub fn write(&mut self, addr: u32, val: u8)
        ensures
            final(self)@ == write_spec(old(self)@, addr, val),
            old(self)@.wf() ==> final(self)@.wf(),
    {
        match self.kind {
            SaveKind::Sram => {
                let i = (addr & 0x7FFF) as usize;
                if i < self.data.len() {
                    self.data.set(i, val);
                    self.dirty = true;
                }
            },
            SaveKind::Flash64 | SaveKind::Flash128 => {
                proof {
                    crate::bits::lemma_u32_bits(addr, 0xFFFF);
                }
                self.flash_write((addr & 0xFFFF) as usize, val);
            },
            _ => {},
        }
    }

    fn flash_id(&self) -> (r: (u8, u8))
        ensures
            r == flash_id_spec(self.kind),
    {
        if self.kind == SaveKind::Flash128 {
            (0x62, 0x13)
        } else {
            (0x32, 0x1B)
        }
    }

    /// Erase (to 0xFF) the existing bytes of `start .. start + len`.
    fn erase(&mut self, start: usize, len: usize)
        ensures
            final(self)@ == (SaveModel { data: erased(old(self)@.data, start as int, len as int), ..old(self)@ }),
    {
        let n = self.data.len();
        let mut i: usize = start;
        while i < n && i - start < len
            invariant
                start <= i,
                n == self.data@.len(),
                n == old(self)@.data.len(),
                self@ == (SaveModel { data: self@.data, ..old(self)@ }),
                forall|j: int|
                    0 <= j < n ==> #[trigger] self.data@[j] == if start <= j < i && j < start + len {
                        0xFFu8
                    } else {
                        old(self).data@[j]
                    },
            decreases n - i,
        {
            self.data.set(i, 0xFF);
            i = i + 1;
        }
        assert(self.data@ =~= erased(old(self)@.data, start as int, len as int));
    }

    fn flash_write(&mut self, off: usize, val: u8)
        requires
            off <= 0xFFFF,
        ensures
            final(self)@ == flash_write_spec(old(self)@, off as int, val),
    {
        if self.flash_write_pending {
            let n = self.data.len();
            match bank_index(self.flash_bank, off) {
                Some(a) => if a < n {
                    self.data.set(a, val);
                    self.dirty = true;
                },
                None => {},
            }
            self.flash_write_pending = false;
            return;
        }
        if self.flash_bank_pending {
            self.flash_bank = (val & 1) as usize;
            self.flash_bank_pending = false;
            return;
        }
        if val == 0xF0 {
            self.flash_id_mode = false;
            self.flash_phase = 0;
            return;
        }
        if self.flash_phase == 0 && off == 0x5555 && val == 0xAA {
            self.flash_phase = 1;
        } else if self.flash_phase == 1 && off == 0x2AAA && val == 0x55 {
            self.flash_phase = 2;
        } else if self.flash_phase == 2 {
            if off == 0x5555 {
                if val == 0x90 {
                    self.flash_id_mode = true;
                } else if val == 0x80 {
                    self.flash_erase_prep = true;
                } else if val == 0xA0 {
                    self.flash_write_pending = true;
                } else if val == 0xB0 {
                    self.flash_bank_pending = true;
                } else if val == 0x10 && self.flash_erase_prep {
                    let n = self.data.len();
                    self.erase(0, n);
                    self.dirty = true;
                    self.flash_erase_prep = false;
                }
            } else if val == 0x30 && self.flash_erase_prep {
                match bank_index(self.flash_bank, off / 0x1000 * 0x1000) {
                    Some(base) => self.erase(base, 0x1000),
                    None => {
                        let n = self.data.len();
                        let ghost big = self.flash_bank * 0x1_0000 + (off / 0x1000) * 0x1000;
                        assert(self.data@ =~= erased(self.data@, big, 0x1000));
                    },
                }
                self.dirty = true;
                self.flash_erase_prep = false;
            }
            self.flash_phase = 0;
        } else {
            self.flash_phase = 0;
        }
    }
}

// --- EEPROM (bit-serial over DMA) ------------------------------------------

/// A DMA of `len` halfwords to or from the EEPROM has begun: 9 / 73 mean a
/// 6-bit address, 17 / 81 a 14-bit one; anything but a 68-halfword read-out
/// starts a fresh command stream of `len` bits.
pub open spec fn set_dma_len_spec(m: SaveModel, len: u32) -> SaveModel {
    let ab = if len == 9 || len == 73 {
        6u32
    } else if len == 17 || len == 81 {
        14u32
    } else {
        m.ee_addr_bits
    };
    if len != 68 {
        SaveModel { ee_addr_bits: ab, ee_expect: len, ee_rx: 0, ee_rx_count: 0, ..m }
    } else {
        SaveModel { ee_addr_bits: ab, ..m }
    }
}

/// Whether a finished command stream can be decoded: it holds the two
/// command bits and the address, fits the 128-bit receiver, and the chip has
/// at least one 8-byte block.
pub open spec fn ee_decodable(m: SaveModel) -> bool {
    &&& 2 + m.ee_addr_bits <= m.ee_rx_count <= 128
    &&& m.data.len() >= 8
}

/// The two command bits of a finished stream (3 = read, 2 = write).
pub open spec fn ee_cmd(m: SaveModel) -> u128 {
    (m.ee_rx >> ((m.ee_rx_count - 2) as u32)) & 3
}

/// The first byte of the 8-byte block a finished stream addresses (the
/// address wrapped to the chip's size).
pub open spec fn ee_block(m: SaveModel) -> int {
    let n = m.ee_rx_count;
    let ab = m.ee_addr_bits;
    let addr = (m.ee_rx >> ((n - 2 - ab) as u32)) & (((1u128 << ab) - 1) as u128);
    ((addr & ((m.data.len() / 8 - 1) as u128)) as int) * 8
}

/// The byte at `i`, or 0 past the end.
pub open spec fn byte_or_zero(data: Seq<u8>, i: int) -> u8 {
    if 0 <= i < data.len() {
        data[i]
    } else {
        0
    }
}

/// The read-out queue for the block at `block`: four dummy bits, then the 64
/// data bits, most significant first.
pub open spec fn ee_read_queue(data: Seq<u8>, block: int) -> Seq<bool> {
    Seq::new(
        68,
        |i: int| i >= 4 && byte_or_zero(data, block + (i - 4) / 8) & (0x80u8 >> (((i - 4) % 8) as u8)) != 0,
    )
}

/// `data` with the 8-byte block at `block` holding `word`, big-endian.
pub open spec fn ee_written(data: Seq<u8>, block: int, word: u64) -> Seq<u8> {
    Seq::new(
        data.len(),
        |k: int| if block <= k < block + 8 { (word >> ((56 - 8 * (k - block)) as u64)) as u8 } else { data[k] },
    )
}

/// Carry out a finished command stream: a read queues the block's bits, a
/// write stores the 64 bits after the address into the block.
pub open spec fn finish_spec(m: SaveModel) -> SaveModel {
    if !ee_decodable(m) {
        m
    } else if ee_cmd(m) == 3 {
        SaveModel { ee_read: ee_read_queue(m.data, ee_block(m)), ee_read_pos: 0, ..m }
    } else if ee_cmd(m) == 2 {
        SaveModel {
            data: ee_written(m.data, ee_block(m), ((m.ee_rx >> 1u32) & 0xFFFF_FFFF_FFFF_FFFF) as u64),
            dirty: true,
            ..m
        }
    } else {
        m
    }
}

/// Receive one command bit (bit 0 of `bit`); the stream's last bit carries
/// the command out.
pub open spec fn write_bit_spec(m: SaveModel, bit: u8) -> SaveModel {
    let m1 = SaveModel {
        ee_rx: (m.ee_rx << 1u32) | ((bit & 1) as u128),
        ee_rx_count: m.ee_rx_count.wrapping_add(1),
        ..m
    };
    if m1.ee_expect != 0 && m1.ee_rx_count >= m1.ee_expect {
        SaveModel { ee_expect: 0, ee_rx: 0, ee_rx_count: 0, ..finish_spec(m1) }
    } else {
        m1
    }
}

impl Save {
    pub fn eeprom_set_dma_len(&mut self, len: u32)
        ensures
            final(self)@ == set_dma_len_spec(old(self)@, len),
            old(self)@.wf() ==> final(self)@.wf(),
    {
        if len == 9 || len == 73 {
            self.ee_addr_bits = 6;
        } else if len == 17 || len == 81 {
            self.ee_addr_bits = 14;
        }
        if len != 68 {
            self.ee_expect = len;
            self.ee_rx = 0;
            self.ee_rx_count = 0;
        }
    }

    /// Consume one command bit (bit 0 of a halfword written to the EEPROM).
    pub fn eeprom_write_bit(&mut self, bit: u8)
        ensures
            final(self)@ == write_bit_spec(old(self)@, bit),
            old(self)@.wf() ==> final(self)@.wf(),
    {
        self.ee_rx = (self.ee_rx << 1u32) | ((bit & 1) as u128);
        self.ee_rx_count = self.ee_rx_count.wrapping_add(1);
        if self.ee_expect != 0 && self.ee_rx_count >= self.ee_expect {
            self.eeprom_finish();
            self.ee_expect = 0;
            self.ee_rx = 0;
            self.ee_rx_count = 0;
        }
    }

    /// Decode a finished command stream. A stream too short to hold the
    /// command and the address, or longer than the receiver, is dropped.
    fn eeprom_finish(&mut self)
        ensures
            final(self)@ == finish_spec(old(self)@),
    {
        let n = self.ee_rx_count;
        let ab = self.ee_addr_bits;
        let len = self.data.len();
        if ab > 126 || n < 2 + ab || n > 128 || len < 8 {
            return;
        }
        let bits = self.ee_rx;
        let cmd = (bits >> (n - 2)) & 3;
        proof {
            crate::bits::lemma_u128_bits(0, ab as u128);
        }
        let mask = (1u128 << ab) - 1;
        let addr = (bits >> (n - 2 - ab)) & mask;
        let wrap = (len / 8 - 1) as u128;
        let within = addr & wrap;
        proof {
            crate::bits::lemma_u128_bits(addr, wrap);
        }
        let w = within as usize;
        assert(w * 8 + 8 <= len) by (nonlinear_arith)
            requires
                w <= len / 8 - 1,
                len >= 8,
        ;
        let block = w * 8;
        if cmd == 3 {
            let mut q: Vec<bool> = Vec::new();
            let mut i: usize = 0;
            while i < 4
                invariant
                    i <= 4,
                    q@.len() == i,
                    forall|k: int| 0 <= k < i ==> !q@[k],
                decreases 4 - i,
            {
                q.push(false);
                i = i + 1;
            }
            let mut j: usize = 0;
            while j < 64
                invariant
                    j <= 64,
                    q@.len() == 4 + j,
                    block + 8 <= len,
                    len == self.data@.len(),
                    forall|k: int| 0 <= k < 4 + j ==> q@[k] == ee_read_queue(self.data@, block as int)[k],
                decreases 64 - j,
            {
                let byte = self.data[block + j / 8];
                let sh = (j % 8) as u8;
                q.push(byte & (0x80u8 >> sh) != 0);
                proof {
                    let k = 4 + j as int;
                    assert((k - 4) / 8 == j / 8 && (k - 4) % 8 == j % 8);
                }
                j = j + 1;
            }
            assert(q@ =~= ee_read_queue(self.data@, block as int));
            self.ee_read = q;
            self.ee_read_pos = 0;
        } else if cmd == 2 {
            let word = ((bits >> 1u32) & 0xFFFF_FFFF_FFFF_FFFF) as u64;
            let ghost d0 = self.data@;
            let mut i: usize = 0;
            while i < 8
                invariant
                    i <= 8,
                    block + 8 <= len,
                    len == self.data@.len(),
                    d0.len() == len,
                    forall|k: int|
                        0 <= k < len ==> #[trigger] self.data@[k] == if block <= k < block + i {
                            (word >> ((56 - 8 * (k - block)) as u64)) as u8
                        } else {
                            d0[k]
                        },
                    self@ == (SaveModel { data: self@.data, ..old(self)@ }),
                decreases 8 - i,
            {
                let sh = (56 - i * 8) as u64;
                self.data.set(block + i, (word >> sh) as u8);
                i = i + 1;
            }
            assert(self.data@ =~= ee_written(d0, block as int, word));
            self.dirty = true;
        }
        proof {
            assert(ee_block(old(self)@) == block as int);
        }
    }

    /// Produce one bit for a halfword read from the EEPROM: the next queued
    /// bit, or 1 (ready) when the queue is empty.
    pub fn eeprom_read_bit(&mut self) -> (b: u8)
        ensures
            if old(self).ee_read_pos < old(self).ee_read@.len() {
                &&& b == (if old(self).ee_read@[old(self).ee_read_pos as int] { 1u8 } else { 0u8 })
                &&& final(self)@ == (SaveModel { ee_read_pos: old(self)@.ee_read_pos + 1, ..old(self)@ })
            } else {
                &&& b == 1
                &&& final(self)@ == old(self)@
            },
            old(self)@.wf() ==> final(self)@.wf(),
    {
        if self.ee_read_pos < self.ee_read.len() {
            let b = self.ee_read[self.ee_read_pos];
            self.ee_read_pos = self.ee_read_pos + 1;
            if b {
                1
            } else {
                0
            }
        } else {
            1
        }
    }
}

/// The EEPROM's next serial bit and the chip after it is read: the next
/// queued bit (1 or 0), or 1 once the queue is exhausted.
pub open spec fn read_bit_spec(m: SaveModel) -> (u32, SaveModel) {
    if m.ee_read_pos < m.ee_read.len() {
        (if m.ee_read[m.ee_read_pos as int] { 1u32 } else { 0u32 }, SaveModel { ee_read_pos: m.ee_read_pos + 1, ..m })
    } else {
        (1u32, m)
    }
}

// --- Save-states ---------------------------------------------------------------

/// The flag byte a `bool` is written as.
pub open spec fn flag(b: bool) -> u8 {
    if b { 1 } else { 0 }
}

/// The save-state image of the backup chip: the Flash and EEPROM protocol
/// state, the EEPROM read-out queue padded to 68 entries, then the data as a
/// length-prefixed block. The kind and the dirty flag are not part of it.
pub open spec fn save_bytes(m: SaveModel) -> Seq<u8> {
    seq![
        m.flash_phase,
        flag(m.flash_id_mode),
        flag(m.flash_erase_prep),
        flag(m.flash_write_pending),
        flag(m.flash_bank_pending),
    ] + le32(m.flash_bank as u32) + le32(m.ee_addr_bits) + le32(m.ee_expect) + le128(m.ee_rx) + le32(m.ee_rx_count)
        + le32(m.ee_read_pos as u32) + le32(m.ee_read.len() as u32) + Seq::new(
        68,
        |i: int| if i < m.ee_read.len() { flag(m.ee_read[i]) } else { 0u8 },
    ) + block(m.data)
}

/// What reading the image `s` into a chip in state `t` gives: every field
/// from the image, the data copied over as far as both lengths allow, the
/// kind and the dirty flag kept.
pub open spec fn decode_save(t: SaveModel, s: Seq<u8>) -> SaveModel {
    let qn = from_le32(s.subrange(41, 45)) as int;
    let q = if qn < 68 { qn } else { 68 };
    let dl = from_le32(s.subrange(113, 117)) as int;
    let mc = if dl < t.data.len() { dl } else { t.data.len() as int };
    SaveModel {
        kind: t.kind,
        dirty: t.dirty,
        flash_phase: s[0],
        flash_id_mode: s[1] != 0,
        flash_erase_prep: s[2] != 0,
        flash_write_pending: s[3] != 0,
        flash_bank_pending: s[4] != 0,
        flash_bank: from_le32(s.subrange(5, 9)) as nat,
        ee_addr_bits: from_le32(s.subrange(9, 13)),
        ee_expect: from_le32(s.subrange(13, 17)),
        ee_rx: from_le128(s.subrange(17, 33)),
        ee_rx_count: from_le32(s.subrange(33, 37)),
        ee_read_pos: from_le32(s.subrange(37, 41)) as nat,
        ee_read: Seq::new(q as nat, |i: int| s[45 + i] != 0),
        data: s.subrange(117, 117 + mc) + t.data.subrange(mc, t.data.len() as int),
    }
}

impl Save {
    /// Append the save-state image of the chip.
    pub fn serialize(&self, w: &mut Writer)
        ensures
            final(w).buf@ == old(w).buf@ + save_bytes(self@),
    {
        w.u8(self.flash_phase);
        w.bool(self.flash_id_mode);
        w.bool(self.flash_erase_prep);
        w.bool(self.flash_write_pending);
        w.bool(self.flash_bank_pending);
        w.u32(self.flash_bank as u32);
        w.u32(self.ee_addr_bits);
        w.u32(self.ee_expect);
        w.u128(self.ee_rx);
        w.u32(self.ee_rx_count);
        w.u32(self.ee_read_pos as u32);
        w.u32(self.ee_read.len() as u32);
        let ghost before = w.buf@;
        let mut i: usize = 0;
        while i < 68
            invariant
                i <= 68,
                w.buf@ == before + Seq::new(
                    i as nat,
                    |k: int| if k < self.ee_read@.len() { flag(self.ee_read@[k]) } else { 0u8 },
                ),
            decreases 68 - i,
        {
            let b: u8 = if i < self.ee_read.len() && self.ee_read[i] { 1 } else { 0 };
            w.u8(b);
            i = i + 1;
            assert(w.buf@ =~= before + Seq::new(
                i as nat,
                |k: int| if k < self.ee_read@.len() { flag(self.ee_read@[k]) } else { 0u8 },
            ));
        }
        w.bytes(self.data.as_slice());
        assert(w.buf@ =~= old(w).buf@ + save_bytes(self@));
    }

    /// Read the chip's state back from a save-state image (the data only as
    /// far as both lengths allow). A short buffer fails the reader.
    #[verifier::rlimit(80)]
    pub fn deserialize(&mut self, r: &mut Reader)
        ensures
            final(r).buf@ == old(r).buf@,
            old(self)@.wf() ==> final(self)@.wf(),
            old(r).ran(*final(r), save_need(old(r).buf@, old(r).pos as int)),
            final(self).kind == old(self).kind,
            final(self).data@.len() == old(self).data@.len(),
            ({
                let s = old(r).buf@.subrange(old(r).pos as int, old(r).buf@.len() as int);
                let dl = from_le32(s.subrange(113, 117)) as int;
                if old(r).has(117) && old(r).has(117 + dl) {
                    &&& final(r).pos == old(r).pos + 117 + dl
                    &&& final(r).failed == old(r).failed
                    &&& final(self)@ == decode_save(old(self)@, s)
                } else {
                    final(r).failed
                }
            }),
    {
        let ghost s = old(r).buf@.subrange(old(r).pos as int, old(r).buf@.len() as int);
        let ghost p = old(r).pos as int;
        self.flash_phase = r.u8();
        self.flash_id_mode = r.bool();
        self.flash_erase_prep = r.bool();
        self.flash_write_pending = r.bool();
        self.flash_bank_pending = r.bool();
        let ghost r5 = *r;
        self.flash_bank = r.u32() as usize;
        let ghost r9 = *r;
        self.ee_addr_bits = r.u32();
        let ghost r13 = *r;
        self.ee_expect = r.u32();
        let ghost r17 = *r;
        self.ee_rx = r.u128();
        let ghost r33 = *r;
        self.ee_rx_count = r.u32();
        let ghost r37 = *r;
        self.ee_read_pos = r.u32() as usize;
        let ghost r41 = *r;
        let n = r.u32() as usize;
        let ghost r45 = *r;
        let mut queue: Vec<bool> = Vec::new();
        let mut i: usize = 0;
        while i < 68
            invariant
                i <= 68,
                r.buf@ == old(r).buf@,
                r45.buf@ == old(r).buf@,
                r45.failed ==> r.failed,
                r45.has(68) ==> r.pos == r45.pos + i && r.failed == r45.failed,
                !r45.has(68) ==> (r.failed || (r.pos == r45.pos + i && i < 68)),
                queue@.len() == if i < n { i as int } else { n as int },
                r45.has(68) ==> forall|k: int| 0 <= k < queue@.len() ==> queue@[k] == (r.buf@[r45.pos + k] != 0),
            decreases 68 - i,
        {
            let b = r.bool();
            if i < n {
                queue.push(b);
            }
            i = i + 1;
        }
        self.ee_read = queue;
        let ghost r113 = *r;
        r.bytes_into(self.data.as_mut_slice());
        proof {
            assert(r5.failed || r5.pos == p + 5);
            assert(r9.failed || r9.pos == p + 9);
            assert(r13.failed || r13.pos == p + 13);
            assert(r17.failed || r17.pos == p + 17);
            assert(r33.failed || r33.pos == p + 33);
            assert(r37.failed || r37.pos == p + 37);
            assert(r41.failed || r41.pos == p + 41);
            assert(r45.failed || r45.pos == p + 45);
            assert(r113.failed || r113.pos == p + 113);
            if old(r).has(117) {
                assert(s.subrange(113, 117) =~= old(r).buf@.subrange(p + 113, p + 117));
            }
            if old(r).has(117) {
                assert(!r113.failed ==> !old(r).failed);
                assert(s.subrange(0, 117) =~= old(r).buf@.subrange(p, p + 117));
                assert(r5.next_bytes(4) =~= s.subrange(5, 9));
                assert(r9.next_bytes(4) =~= s.subrange(9, 13));
                assert(r13.next_bytes(4) =~= s.subrange(13, 17));
                assert(r17.next_bytes(16) =~= s.subrange(17, 33));
                assert(r33.next_bytes(4) =~= s.subrange(33, 37));
                assert(r37.next_bytes(4) =~= s.subrange(37, 41));
                assert(r41.next_bytes(4) =~= s.subrange(41, 45));
                assert(r113.next_bytes(4) =~= s.subrange(113, 117));
                let dl = from_le32(s.subrange(113, 117)) as int;
                if old(r).has(117 + dl) {
                    let mc = if dl < old(self)@.data.len() { dl } else { old(self)@.data.len() as int };
                    assert(old(r).buf@.subrange(p + 117, p + 117 + dl).subrange(0, mc) =~= s.subrange(117, 117 + mc));
                    assert(self.ee_read@ =~= Seq::new(
                        (if from_le32(s.subrange(41, 45)) < 68 { from_le32(s.subrange(41, 45)) as int } else { 68int }) as nat,
                        |k: int| s[45 + k] != 0,
                    ));
                }
            }
            crate::state::lemma_ran_intro(*old(r), *r, save_need(old(r).buf@, p));
        }
    }
}

/// The bytes a chip's image at `p` of `buf` takes: its fixed part, then as
/// many data bytes as its length field says (just the fixed part when that
/// field is not there).
pub open spec fn save_need(buf: Seq<u8>, p: int) -> int {
    if p + 117 <= buf.len() {
        117 + from_le32(buf.subrange(p + 113, p + 117))
    } else {
        117
    }
}

// --- Laws ------------------------------------------------------------------------

/// The Flash ID command: on an idle Flash chip, writing AA to 0x0E005555,
/// 55 to 0x0E002AAA and 90 to 0x0E005555 enters ID mode, leaves the data
/// alone, and the bytes read at 0x0E000000 and 0x0E000001 are then the
/// maker and device: 0x32, 0x1B (Panasonic) for the 64 KiB chip and 0x62,
/// 0x13 (Sanyo) for the 128 KiB one, so the two sizes report different IDs.
pub proof fn lemma_flash_id_command(m: SaveModel)
    requires
        m.kind == SaveKind::Flash64 || m.kind == SaveKind::Flash128,
        m.flash_phase == 0,
        !m.flash_write_pending,
        !m.flash_bank_pending,
    ensures
        ({
            let m3 = write_spec(write_spec(write_spec(m, 0x0E00_5555, 0xAA), 0x0E00_2AAA, 0x55), 0x0E00_5555, 0x90);
            let id = (read_spec(m3, 0x0E00_0000), read_spec(m3, 0x0E00_0001));
            &&& m3.flash_id_mode
            &&& m3.data == m.data
            &&& m3.kind == m.kind
            &&& (m.kind == SaveKind::Flash64 ==> id == (0x32u8, 0x1Bu8))
            &&& (m.kind == SaveKind::Flash128 ==> id == (0x62u8, 0x13u8))
        }),
{
    assert(0x0E00_5555u32 & 0xFFFF == 0x5555 && 0x0E00_2AAAu32 & 0xFFFF == 0x2AAA && 0x0E00_0000u32 & 0xFFFF == 0
        && 0x0E00_0001u32 & 0xFFFF == 1) by (bit_vector);
}


/// Reading back a written image restores every saved field; the data comes
/// back whole when the chip it is read into has the same size.
pub proof fn lemma_save_roundtrip(t: SaveModel, m: SaveModel)
    requires
        t.data.len() == m.data.len(),
        m.wf(),
    ensures
        decode_save(t, save_bytes(m)) == (SaveModel { kind: t.kind, dirty: t.dirty, ..m }),
{
    let s = save_bytes(m);
    crate::state::lemma_le32_roundtrip(m.flash_bank as u32);
    crate::state::lemma_le32_roundtrip(m.ee_addr_bits);
    crate::state::lemma_le32_roundtrip(m.ee_expect);
    crate::state::lemma_le128_roundtrip(m.ee_rx);
    crate::state::lemma_le32_roundtrip(m.ee_rx_count);
    crate::state::lemma_le32_roundtrip(m.ee_read_pos as u32);
    crate::state::lemma_le32_roundtrip(m.ee_read.len() as u32);
    crate::state::lemma_le32_roundtrip(m.data.len() as u32);
    assert(s.subrange(5, 9) =~= le32(m.flash_bank as u32));
    assert(s.subrange(9, 13) =~= le32(m.ee_addr_bits));
    assert(s.subrange(13, 17) =~= le32(m.ee_expect));
    assert(s.subrange(17, 33) =~= le128(m.ee_rx));
    assert(s.subrange(33, 37) =~= le32(m.ee_rx_count));
    assert(s.subrange(37, 41) =~= le32(m.ee_read_pos as u32));
    assert(s.subrange(41, 45) =~= le32(m.ee_read.len() as u32));
    assert(s.subrange(113, 117) =~= le32(m.data.len() as u32));
    let d = decode_save(t, s);
    assert(d.ee_read =~= m.ee_read);
    assert(s.subrange(117, 117 + m.data.len() as int) =~= m.data);
    assert(d.data =~= m.data);
}

/// Decoding looks only at the image: two byte strings that agree on it
/// decode alike.
proof fn lemma_decode_save_agree(t: SaveModel, s1: Seq<u8>, s2: Seq<u8>, n: int)
    requires
        117 <= n <= s1.len(),
        n <= s2.len(),
        forall|k: int| 0 <= k < n ==> s1[k] == s2[k],
        117 + from_le32(s1.subrange(113, 117)) <= n,
    ensures
        decode_save(t, s1) == decode_save(t, s2),
{
    assert(s1.subrange(5, 9) =~= s2.subrange(5, 9));
    assert(s1.subrange(9, 13) =~= s2.subrange(9, 13));
    assert(s1.subrange(13, 17) =~= s2.subrange(13, 17));
    assert(s1.subrange(17, 33) =~= s2.subrange(17, 33));
    assert(s1.subrange(33, 37) =~= s2.subrange(33, 37));
    assert(s1.subrange(37, 41) =~= s2.subrange(37, 41));
    assert(s1.subrange(41, 45) =~= s2.subrange(41, 45));
    assert(s1.subrange(113, 117) =~= s2.subrange(113, 117));
    let d1 = decode_save(t, s1);
    let d2 = decode_save(t, s2);
    assert(d1.ee_read =~= d2.ee_read);
    assert(d1.data =~= d2.data);
}

/// An image followed by other bytes reads back as the image alone.
#[verifier::rlimit(40)]
pub proof fn lemma_save_roundtrip_prefix(t: SaveModel, m: SaveModel, s: Seq<u8>)
    requires
        t.data.len() == m.data.len(),
        m.wf(),
        s.len() >= 117 + m.data.len(),
        s.subrange(0, 117 + m.data.len() as int) == save_bytes(m),
    ensures
        save_bytes(m).len() == 117 + m.data.len(),
        from_le32(s.subrange(113, 117)) == m.data.len(),
        decode_save(t, s) == (SaveModel { kind: t.kind, dirty: t.dirty, ..m }),
{
    lemma_save_roundtrip(t, m);
    let b = save_bytes(m);
    let n = 117 + m.data.len() as int;
    assert(b.len() == n);
    assert forall|k: int| 0 <= k < n implies s[k] == b[k] by {
        assert(s.subrange(0, n)[k] == s[k]);
    }
    assert(s.subrange(113, 117) =~= b.subrange(113, 117));
    crate::state::lemma_le32_roundtrip(m.data.len() as u32);
    assert(b.subrange(113, 117) =~= le32(m.data.len() as u32));
    lemma_decode_save_agree(t, s, b, n);
}

/// SRAM: a read after a write to the same address gives the written byte.
pub proof fn lemma_sram_write_read(m: SaveModel, addr: u32, v: u8)
    requires
        m.kind == SaveKind::Sram,
        (addr & 0x7FFF) < m.data.len(),
    ensures
        read_spec(write_spec(m, addr, v), addr) == v,
{
}

/// Flash: the unlock sequence (0xAA at 0x5555, 0x55 at 0x2AAA) followed by
/// the program command (0xA0 at 0x5555) arms a byte write, and that write is
/// what a read of its address then gives.
pub proof fn lemma_flash_program_read(m: SaveModel, addr: u32, v: u8)
    requires
        m.kind == SaveKind::Flash64 || m.kind == SaveKind::Flash128,
        m.flash_phase == 0,
        !m.flash_write_pending,
        !m.flash_bank_pending,
        !m.flash_id_mode,
        m.flash_bank * 0x1_0000 + (addr & 0xFFFF) < m.data.len(),
    ensures
        ({
            let m1 = write_spec(m, 0x0E00_5555, 0xAA);
            let m2 = write_spec(m1, 0x0E00_2AAA, 0x55);
            let m3 = write_spec(m2, 0x0E00_5555, 0xA0);
            let m4 = write_spec(m3, addr, v);
            &&& m3.flash_write_pending
            &&& read_spec(m4, addr) == v
            &&& m4.dirty
        }),
{
    assert(0x0E00_5555u32 & 0xFFFF == 0x5555 && 0x0E00_2AAAu32 & 0xFFFF == 0x2AAA) by (bit_vector);
}

/// Flash: 0xF0 leaves the ID mode and resets the unlock sequence from any
/// phase, unless a byte write or a bank switch is armed.
pub proof fn lemma_flash_reset(m: SaveModel, addr: u32)
    requires
        m.kind == SaveKind::Flash64 || m.kind == SaveKind::Flash128,
        !m.flash_write_pending,
        !m.flash_bank_pending,
    ensures
        !write_spec(m, addr, 0xF0).flash_id_mode,
        write_spec(m, addr, 0xF0).flash_phase == 0,
        write_spec(m, addr, 0xF0).data == m.data,
{
}

/// The value a stream of command bits spells, first bit most significant.
pub open spec fn bits_value(bits: Seq<u8>) -> int
    decreases bits.len(),
{
    if bits.len() == 0 {
        0
    } else {
        bits_value(bits.drop_last()) * 2 + (bits.last() & 1) as int
    }
}

/// The chip after receiving `bits` one after another.
pub open spec fn feed(m: SaveModel, bits: Seq<u8>) -> SaveModel
    decreases bits.len(),
{
    if bits.len() == 0 {
        m
    } else {
        write_bit_spec(feed(m, bits.drop_last()), bits.last())
    }
}

proof fn lemma_bits_value_bound(bits: Seq<u8>)
    ensures
        0 <= bits_value(bits) < vstd::arithmetic::power2::pow2(bits.len()),
    decreases bits.len(),
{
    if bits.len() == 0 {
        vstd::arithmetic::power2::lemma2_to64();
    } else {
        lemma_bits_value_bound(bits.drop_last());
        vstd::arithmetic::power2::lemma_pow2_unfold(bits.len());
        let b = bits.last();
        crate::bits::lemma_u8_bits(b, 1);
    }
}

proof fn lemma_shift_in(x: u128, b: u8)
    by (bit_vector)
    requires
        x < 0x8000_0000_0000_0000_0000_0000_0000_0000,
    ensures
        ((x << 1u32) | ((b & 1) as u128)) as int == 2 * (x as int) + (b & 1) as int,
{
}

/// Before the last bit of a stream arrives, the receiver holds the bits so
/// far.
proof fn lemma_feed_prefix(m: SaveModel, bits: Seq<u8>)
    requires
        m.ee_rx == 0,
        m.ee_rx_count == 0,
        bits.len() < m.ee_expect,
        bits.len() <= 127,
    ensures
        feed(m, bits) == (SaveModel { ee_rx: bits_value(bits) as u128, ee_rx_count: bits.len() as u32, ..m }),
    decreases bits.len(),
{
    if bits.len() > 0 {
        let p = bits.drop_last();
        lemma_feed_prefix(m, p);
        lemma_bits_value_bound(p);
        vstd::arithmetic::power2::lemma_pow2_strictly_increases(p.len(), 127);
        vstd::arithmetic::power2::lemma2_to64_rest();
        assert(vstd::arithmetic::power2::pow2(127) == 0x8000_0000_0000_0000_0000_0000_0000_0000) by {
            vstd::arithmetic::power2::lemma_pow2_adds(64, 63);
        }
        lemma_shift_in(bits_value(p) as u128, bits.last());
    }
}

/// A command stream of exactly the announced length is carried out as the
/// command its bits spell, and the receiver is then reset.
pub proof fn lemma_stream_finishes(m: SaveModel, bits: Seq<u8>)
    requires
        m.ee_rx == 0,
        m.ee_rx_count == 0,
        bits.len() == m.ee_expect,
        1 <= bits.len() <= 128,
    ensures
        feed(m, bits) == (SaveModel {
            ee_expect: 0,
            ee_rx: 0,
            ee_rx_count: 0,
            ..finish_spec(SaveModel { ee_rx: bits_value(bits) as u128, ee_rx_count: bits.len() as u32, ..m })
        }),
{
    let p = bits.drop_last();
    lemma_feed_prefix(m, p);
    lemma_bits_value_bound(p);
    if p.len() < 127 {
        vstd::arithmetic::power2::lemma_pow2_strictly_increases(p.len(), 127);
    }
    vstd::arithmetic::power2::lemma2_to64_rest();
    assert(vstd::arithmetic::power2::pow2(127) == 0x8000_0000_0000_0000_0000_0000_0000_0000) by {
        vstd::arithmetic::power2::lemma_pow2_adds(64, 63);
    }
    lemma_shift_in(bits_value(p) as u128, bits.last());
}

/// The write command stream for `addr` (of `ab` bits) and `value`: the
/// command bits 1, 0, the address, the 64 data bits, a stop bit.
pub open spec fn write_stream(ab: u32, addr: u64, value: u64) -> u128 {
    (2u128 << ((ab + 65) as u32)) | ((addr as u128) << 65u32) | ((value as u128) << 1u32)
}

/// The read command stream for `addr`: the command bits 1, 1, the address,
/// a stop bit.
pub open spec fn read_stream(ab: u32, addr: u64) -> u128 {
    (3u128 << ((ab + 1) as u32)) | ((addr as u128) << 1u32)
}

proof fn lemma_byte_bit(value: u64, j: u64, r: u8, s1: u64, s2: u64)
    by (bit_vector)
    requires
        j < 8,
        r < 8,
        s1 == 56 - 8 * j,
        s2 == 63 - 8 * j - r,
    ensures
        ((((value >> s1) as u8) & (0x80u8 >> r)) != 0) == ((value >> s2) & 1 == 1),
{
}

/// EEPROM: a read command after a write command to the same address queues
/// four dummy bits and then the 64 written bits, most significant first
/// (entry `i` of the queue is bit `67 - i` of the value).
pub proof fn lemma_eeprom_write_then_read(m: SaveModel, addr: u64, value: u64)
    requires
        m.ee_addr_bits == 6 || m.ee_addr_bits == 14,
        m.data.len() == 0x2000,
        addr < (1u64 << m.ee_addr_bits),
    ensures
        ({
            let ab = m.ee_addr_bits;
            let m2 = finish_spec(SaveModel { ee_rx: write_stream(ab, addr, value), ee_rx_count: (ab + 67) as u32, ..m });
            let m3 = finish_spec(SaveModel { ee_rx: read_stream(ab, addr), ee_rx_count: (ab + 3) as u32, ..m2 });
            &&& m3.ee_read.len() == 68
            &&& m3.ee_read_pos == 0
            &&& forall|i: int| 0 <= i < 4 ==> !m3.ee_read[i]
            &&& forall|i: int| 4 <= i < 68 ==> #[trigger] m3.ee_read[i] == ((value >> ((67 - i) as u64)) & 1 == 1)
        }),
{
    let ab = m.ee_addr_bits;
    let w = write_stream(ab, addr, value);
    let rd = read_stream(ab, addr);
    assert({
        &&& (w >> ((ab + 65) as u32)) & 3 == 2
        &&& (w >> 65u32) & (((1u128 << ab) - 1) as u128) == addr as u128
        &&& (w >> 1u32) & 0xFFFF_FFFF_FFFF_FFFF == value as u128
        &&& (rd >> ((ab + 1) as u32)) & 3 == 3
        &&& (rd >> 1u32) & (((1u128 << ab) - 1) as u128) == addr as u128
    }) by (bit_vector)
        requires
            ab == 6 || ab == 14,
            addr < (1u64 << ab),
            w == (2u128 << ((ab + 65) as u32)) | ((addr as u128) << 65u32) | ((value as u128) << 1u32),
            rd == (3u128 << ((ab + 1) as u32)) | ((addr as u128) << 1u32),
    ;
    let wm = SaveModel { ee_rx: w, ee_rx_count: (ab + 67) as u32, ..m };
    assert(ee_cmd(wm) == 2);
    let a = addr as u128 & 1023u128;
    crate::bits::lemma_u128_bits(addr as u128, 1023);
    let b = (a as int) * 8;
    assert(ee_block(wm) == b);
    assert(((w >> 1u32) & 0xFFFF_FFFF_FFFF_FFFF) as u64 == value);
    let m2 = finish_spec(wm);
    assert(m2.data == ee_written(m.data, b, value));
    let rm = SaveModel { ee_rx: rd, ee_rx_count: (ab + 3) as u32, ..m2 };
    assert(ee_cmd(rm) == 3);
    assert(ee_block(rm) == b);
    let m3 = finish_spec(rm);
    assert(m3.ee_read == ee_read_queue(m2.data, b));
    assert forall|i: int| 4 <= i < 68 implies #[trigger] m3.ee_read[i] == ((value >> ((67 - i) as u64)) & 1 == 1) by {
        let j = (i - 4) / 8;
        let r = (i - 4) % 8;
        assert(byte_or_zero(m2.data, b + j) == (value >> ((56 - 8 * j) as u64)) as u8);
        lemma_byte_bit(value, j as u64, r as u8, (56 - 8 * j) as u64, (67 - i) as u64);
    }
}

} // verus!
