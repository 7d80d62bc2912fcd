//! What a libretro host is told about the console: each pixel in the host's
//! 32-bit XRGB8888 format, the memory regions it may read by console
//! address, the host joypad id of each console button, and which memory
//! block, of what size, each host memory id names.

use vstd::prelude::*;
use crate::Button;
use crate::memory::{GbaBus, EWRAM_LEN, IWRAM_LEN};
use crate::save::SaveKind;

verus! {

/// Descriptor flag of a block of work RAM.
pub const MEMDESC_SYSTEM_RAM: u64 = 4;

/// Descriptor flag of a block of battery-backed save memory.
pub const MEMDESC_SAVE_RAM: u64 = 8;

/// Host memory id of the save memory.
pub const MEMORY_SAVE_RAM: u32 = 0;

/// Host memory id of the system RAM.
pub const MEMORY_SYSTEM_RAM: u32 = 2;

/// A 5-bit colour channel widened to 8 bits: shifted up by 3, with its top
/// 3 bits repeated below, so 0 stays 0 and 31 becomes 255.
pub open spec fn widen5(c: u32) -> u32 {
    (c * 8 + c / 4) as u32
}

/// The XRGB8888 word of an RGB555 pixel (red in bits 0-4, green in 5-9,
/// blue in 10-14): red in bits 16-23, green in 8-15, blue in 0-7.
pub open spec fn xrgb_of(p: u16) -> u32 {
    let r = (p % 32) as u32;
    let g = ((p / 32) % 32) as u32;
    let b = ((p / 1024) % 32) as u32;
    (widen5(r) * 0x1_0000 + widen5(g) * 0x100 + widen5(b)) as u32
}

proof fn lemma_xrgb(p: u16)
    by (bit_vector)
    ensures
        ({
            let r5 = (p & 0x1F) as u32;
            let g5 = ((p >> 5u16) & 0x1F) as u32;
            let b5 = ((p >> 10u16) & 0x1F) as u32;
            (((r5 << 3u32) | (r5 >> 2u32)) << 16u32) | (((g5 << 3u32) | (g5 >> 2u32)) << 8u32) | ((b5 << 3u32)
                | (b5 >> 2u32))
        }) == xrgb_of(p),
{
}

/// Expand an RGB555 pixel into the host's XRGB8888 format.
pub fn rgb555_to_xrgb8888(p: u16) -> (v: u32)
    ensures
        v == xrgb_of(p),
{
    let r5 = (p & 0x1F) as u32;
    let g5 = ((p >> 5) & 0x1F) as u32;
    let b5 = ((p >> 10) & 0x1F) as u32;
    let r = (r5 << 3) | (r5 >> 2);
    let g = (g5 << 3) | (g5 >> 2);
    let b = (b5 << 3) | (b5 >> 2);
    proof {
        lemma_xrgb(p);
    }
    (r << 16) | (g << 8) | b
}

/// A block of console memory offered to the host: its flags, its console
/// address, and its length in bytes.
#[derive(Clone, Copy, Debug, PartialEq, Eq, Structural)]
pub struct MemoryRegion {
    pub flags: u64,
    pub start: u32,
    pub len: usize,
}

/// Whether a cartridge's backup memory sits in the address space. SRAM and
/// Flash do, at 0x0E000000; EEPROM does not: it is clocked in a bit at a
/// time through another region, so its bytes at that address would mean
/// something else.
pub open spec fn save_is_mapped(kind: SaveKind) -> bool {
    kind is Sram || kind is Flash64 || kind is Flash128
}

/// The regions offered to the host: IWRAM at 0x03000000 and EWRAM at
/// 0x02000000, then the backup memory at 0x0E000000 when it is mapped there
/// and not empty.
pub open spec fn memory_map_spec(kind: SaveKind, save_len: nat) -> Seq<MemoryRegion> {
    let ram = seq![
        MemoryRegion { flags: MEMDESC_SYSTEM_RAM, start: 0x0300_0000, len: IWRAM_LEN },
        MemoryRegion { flags: MEMDESC_SYSTEM_RAM, start: 0x0200_0000, len: EWRAM_LEN },
    ];
    if save_is_mapped(kind) && save_len > 0 {
        ram.push(MemoryRegion { flags: MEMDESC_SAVE_RAM, start: 0x0E00_0000, len: save_len as usize })
    } else {
        ram
    }
}

/// The regions of `bus` the host may read by console address.
pub fn memory_map(bus: &GbaBus) -> (v: Vec<MemoryRegion>)
    requires
        bus.wf(),
    ensures
        v@ == memory_map_spec(bus.save.kind, bus.save.data@.len()),
{
    let mut v: Vec<MemoryRegion> = Vec::new();
    v.push(MemoryRegion { flags: MEMDESC_SYSTEM_RAM, start: 0x0300_0000, len: bus.iwram.len() });
    v.push(MemoryRegion { flags: MEMDESC_SYSTEM_RAM, start: 0x0200_0000, len: bus.ewram.len() });
    let mapped = match bus.save.kind {
        SaveKind::Sram | SaveKind::Flash64 | SaveKind::Flash128 => true,
        _ => false,
    };
    if mapped && bus.save.data.len() != 0 {
        v.push(MemoryRegion { flags: MEMDESC_SAVE_RAM, start: 0x0E00_0000, len: bus.save.data.len() });
    }
    assert(v@ =~= memory_map_spec(bus.save.kind, bus.save.data@.len()));
    v
}

/// The host joypad id read for each console button.
pub open spec fn joypad_id_spec(b: Button) -> u32 {
    match b {
        Button::B => 0,
        Button::Select => 2,
        Button::Start => 3,
        Button::Up => 4,
        Button::Down => 5,
        Button::Left => 6,
        Button::Right => 7,
        Button::A => 8,
        Button::L => 10,
        Button::R => 11,
    }
}

/// The host joypad id to read for button `b`.
pub fn joypad_id(b: Button) -> (id: u32)
    ensures
        id == joypad_id_spec(b),
{
    match b {
        Button::B => 0,
        Button::Select => 2,
        Button::Start => 3,
        Button::Up => 4,
        Button::Down => 5,
        Button::Left => 6,
        Button::Right => 7,
        Button::A => 8,
        Button::L => 10,
        Button::R => 11,
    }
}

/// No two console buttons read the same host joypad id.
pub proof fn lemma_joypad_ids_distinct(a: Button, b: Button)
    ensures
        joypad_id_spec(a) == joypad_id_spec(b) ==> a == b,
{
}

/// A memory block a host memory id names.
#[derive(Clone, Copy, Debug, PartialEq, Eq, Structural)]
pub enum HostMemory {
    Ewram,
    Save,
}

/// The block named by host memory id `id`: EWRAM for the system RAM, the
/// backup memory for the save RAM when there is any; nothing otherwise.
pub open spec fn host_memory_spec(id: u32, save_len: nat) -> Option<HostMemory> {
    if id == MEMORY_SYSTEM_RAM {
        Some(HostMemory::Ewram)
    } else if id == MEMORY_SAVE_RAM && save_len > 0 {
        Some(HostMemory::Save)
    } else {
        None
    }
}

/// Which block of `bus` host memory id `id` names.
pub fn host_memory(id: u32, bus: &GbaBus) -> (m: Option<HostMemory>)
    ensures
        m == host_memory_spec(id, bus.save.data@.len()),
{
    if id == MEMORY_SYSTEM_RAM {
        Some(HostMemory::Ewram)
    } else if id == MEMORY_SAVE_RAM && bus.save.data.len() != 0 {
        Some(HostMemory::Save)
    } else {
        None
    }
}

/// The size in bytes of the block host memory id `id` names: EWRAM's for
/// the system RAM, the backup memory's (possibly 0) for the save RAM, 0 for
/// any other id.
pub fn host_memory_size(id: u32, bus: &GbaBus) -> (n: usize)
    requires
        bus.wf(),
    ensures
        n == if id == MEMORY_SYSTEM_RAM {
            EWRAM_LEN as int
        } else if id == MEMORY_SAVE_RAM {
            bus.save.data@.len() as int
        } else {
            0
        },
{
    if id == MEMORY_SYSTEM_RAM {
        bus.ewram.len()
    } else if id == MEMORY_SAVE_RAM {
        bus.save.data.len()
    } else {
        0
    }
}

} // verus!
