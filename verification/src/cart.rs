//! Cartridge and container formats around the core: the cartridge header
//! and its checksum, and the front-end's save-state container.

use vstd::prelude::*;

verus! {

/// The cartridge header fields a front-end reports.
pub struct CartHeader {
    /// The title bytes at 0xA0, up to the first zero (at most 12).
    pub title: Vec<u8>,
    /// The game code at 0xAC.
    pub code: [u8; 4],
    /// The checksum byte stored at 0xBD.
    pub stored: u8,
    /// The checksum computed over 0xA0..0xBD.
    pub computed: u8,
}

/// 0 minus every byte of `s`, wrapping.
pub open spec fn negated_sum(s: Seq<u8>) -> u8
    decreases s.len(),
{
    if s.len() == 0 {
        0
    } else {
        negated_sum(s.drop_last()).wrapping_sub(s.last())
    }
}

/// The header checksum: 0 minus the bytes 0xA0..0xBC, minus 0x19.
pub open spec fn header_checksum(rom: Seq<u8>) -> u8 {
    negated_sum(rom.subrange(0xA0, 0xBD)).wrapping_sub(0x19)
}

/// The title field: the bytes from 0xA0 up to the first zero, at most 12.
pub open spec fn title_len(rom: Seq<u8>, n: int) -> int
    decreases 12 - n,
{
    if n >= 12 || rom[0xA0 + n] == 0 {
        n
    } else {
        title_len(rom, n + 1)
    }
}

/// Decode the cartridge header (title, game code, checksum); `None` for a
/// ROM shorter than the header.
pub fn cart_header(rom: &[u8]) -> (h: Option<CartHeader>)
    ensures
        rom@.len() < 0xC0 ==> h is None,
        rom@.len() >= 0xC0 ==> (h matches Some(hd) && {
            &&& hd.title@ == rom@.subrange(0xA0, 0xA0 + title_len(rom@, 0))
            &&& forall|i: int| 0 <= i < 4 ==> #[trigger] hd.code[i] == rom@[0xAC + i]
            &&& hd.stored == rom@[0xBD]
            &&& hd.computed == header_checksum(rom@)
        }),
{
    if rom.len() < 0xC0 {
        return None;
    }
    let mut title: Vec<u8> = Vec::new();
    let mut n: usize = 0;
    while n < 12 && rom[0xA0 + n] != 0
        invariant
            n <= 12,
            rom@.len() >= 0xC0,
            title_len(rom@, 0) == title_len(rom@, n as int),
            title@ == rom@.subrange(0xA0, 0xA0 + n),
        decreases 12 - n,
    {
        title.push(rom[0xA0 + n]);
        n = n + 1;
        assert(title@ =~= rom@.subrange(0xA0, 0xA0 + n));
    }
    let mut chk: u8 = 0;
    let mut i: usize = 0xA0;
    while i < 0xBD
        invariant
            0xA0 <= i <= 0xBD,
            rom@.len() >= 0xC0,
            chk == negated_sum(rom@.subrange(0xA0, i as int)),
        decreases 0xBD - i,
    {
        let ghost prev = rom@.subrange(0xA0, i as int);
        chk = chk.wrapping_sub(rom[i]);
        i = i + 1;
        assert(rom@.subrange(0xA0, i as int).drop_last() =~= prev);
    }
    chk = chk.wrapping_sub(0x19);
    Some(CartHeader { title, code: [rom[0xAC], rom[0xAD], rom[0xAE], rom[0xAF]], stored: rom[0xBD], computed: chk })
}

/// The front-end's save-state container starts with these 7 bytes.
pub open spec fn rastate_magic() -> Seq<u8> {
    seq![0x52u8, 0x41, 0x53, 0x54, 0x41, 0x54, 0x45]
}

/// The id of the block that holds the core's own state.
pub open spec fn mem_id() -> Seq<u8> {
    seq![0x4Du8, 0x45, 0x4D, 0x20]
}

/// Scan the container's blocks from `pos`: each is a 4-byte id, a 4-byte
/// little-endian size and the data (cut at the end of `b`). The range of
/// the first `MEM ` block's data, or all of `b` when there is none.
pub open spec fn scan_blocks(b: Seq<u8>, pos: int) -> (int, int)
    decreases b.len() - pos,
{
    if pos < 0 || pos + 8 > b.len() {
        (0, b.len() as int)
    } else {
        let start = pos + 8;
        let size = crate::state::from_le32(b.subrange(pos + 4, pos + 8)) as int;
        let end = if start + size < b.len() { start + size } else { b.len() as int };
        if b.subrange(pos, pos + 4) == mem_id() {
            (start, end)
        } else {
            scan_blocks(b, end)
        }
    }
}

/// The range of `bytes` that holds the core's state: inside a front-end
/// container, the `MEM ` block's data; otherwise all of it.
pub open spec fn core_state_range(b: Seq<u8>) -> (int, int) {
    if b.len() >= 7 && b.subrange(0, 7) == rastate_magic() {
        scan_blocks(b, 8)
    } else {
        (0, b.len() as int)
    }
}

/// Where the core's state lies in a blob that may be wrapped in the
/// front-end's save-state container.
pub fn core_state_span(bytes: &[u8]) -> (r: (usize, usize))
    ensures
        r.0 <= r.1 <= bytes@.len(),
        (r.0 as int, r.1 as int) == core_state_range(bytes@),
{
    let len = bytes.len();
    if len < 7 || bytes[0] != 0x52 || bytes[1] != 0x41 || bytes[2] != 0x53 || bytes[3] != 0x54 || bytes[4] != 0x41
        || bytes[5] != 0x54 || bytes[6] != 0x45 {
        proof {
            if bytes@.len() >= 7 {
                assert(bytes@.subrange(0, 7) != rastate_magic() ==> true);
                if bytes@.subrange(0, 7) == rastate_magic() {
                    assert(bytes@.subrange(0, 7)[0] == bytes@[0]);
                    assert(bytes@.subrange(0, 7)[6] == bytes@[6]);
                }
            }
        }
        return (0, len);
    }
    assert(bytes@.subrange(0, 7) =~= rastate_magic());
    let mut pos: usize = 8;
    while pos <= len && len - pos >= 8
        invariant
            len == bytes@.len(),
            8 <= pos,
            scan_blocks(bytes@, pos as int) == core_state_range(bytes@),
        decreases len - pos,
    {
        let start = pos + 8;
        let size = (bytes[pos + 4] as u32) | ((bytes[pos + 5] as u32) << 8) | ((bytes[pos + 6] as u32) << 16) | ((
        bytes[pos + 7] as u32) << 24);
        assert(bytes@.subrange(pos + 4, pos + 8)[0] == bytes@[pos + 4]);
        assert(size == crate::state::from_le32(bytes@.subrange(pos + 4, pos + 8)));
        let end = if (size as usize) < len - start {
            start + size as usize
        } else {
            len
        };
        if bytes[pos] == 0x4D && bytes[pos + 1] == 0x45 && bytes[pos + 2] == 0x4D && bytes[pos + 3] == 0x20 {
            assert(bytes@.subrange(pos as int, pos + 4) =~= mem_id());
            return (start, end);
        }
        assert(bytes@.subrange(pos as int, pos + 4) != mem_id()) by {
            if bytes@.subrange(pos as int, pos + 4) == mem_id() {
                assert(bytes@.subrange(pos as int, pos + 4)[0] == bytes@[pos as int]);
                assert(bytes@.subrange(pos as int, pos + 4)[1] == bytes@[pos + 1]);
                assert(bytes@.subrange(pos as int, pos + 4)[2] == bytes@[pos + 2]);
                assert(bytes@.subrange(pos as int, pos + 4)[3] == bytes@[pos + 3]);
            }
        }
        pos = end;
    }
    (0, len)
}

} // verus!
