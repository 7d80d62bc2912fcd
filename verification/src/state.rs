//! Minimal binary (de)serialization for save-states. Each component writes its
//! fields in a fixed order through [`Writer`] and reads them back through
//! [`Reader`]. Reads are bounds-checked: a short buffer sets the reader's
//! `failed` flag and yields zero instead of panicking.

use vstd::prelude::*;

verus! {

pub const MAGIC: u32 = 0x5052_4153;

pub const VERSION: u8 = 2;

/// Byte `j` (little-endian) of a word.
pub open spec fn byte_of(v: u32, j: int) -> u8 {
    ((v >> ((8 * j) as u32)) & 0xFF) as u8
}

/// The four little-endian bytes of a word.
pub open spec fn le32(v: u32) -> Seq<u8> {
    seq![byte_of(v, 0), byte_of(v, 1), byte_of(v, 2), byte_of(v, 3)]
}

/// The two little-endian bytes of a halfword.
pub open spec fn le16(v: u16) -> Seq<u8> {
    seq![(v & 0xFF) as u8, ((v >> 8) & 0xFF) as u8]
}

/// The eight little-endian bytes of a doubleword.
pub open spec fn le64(v: u64) -> Seq<u8> {
    le32(v as u32) + le32((v >> 32) as u32)
}

/// The sixteen little-endian bytes of a 128-bit value.
pub open spec fn le128(v: u128) -> Seq<u8> {
    le64(v as u64) + le64((v >> 64) as u64)
}

/// The word held little-endian in the first four bytes of `s`.
pub open spec fn from_le32(s: Seq<u8>) -> u32 {
    (s[0] as u32) | ((s[1] as u32) << 8) | ((s[2] as u32) << 16) | ((s[3] as u32) << 24)
}

pub open spec fn from_le16(s: Seq<u8>) -> u16 {
    (s[0] as u16) | ((s[1] as u16) << 8)
}

pub open spec fn from_le64(s: Seq<u8>) -> u64 {
    (from_le32(s) as u64) | ((from_le32(s.subrange(4, 8)) as u64) << 32)
}

pub open spec fn from_le128(s: Seq<u8>) -> u128 {
    (from_le64(s) as u128) | ((from_le64(s.subrange(8, 16)) as u128) << 64)
}

/// A length-prefixed byte block.
pub open spec fn block(b: Seq<u8>) -> Seq<u8> {
    le32(b.len() as u32) + b
}

/// Decoding what encoding produced gives the word back.
pub proof fn lemma_le32_roundtrip(v: u32)
    ensures
        from_le32(le32(v)) == v,
        le32(v).len() == 4,
{
    let b0 = byte_of(v, 0);
    let b1 = byte_of(v, 1);
    let b2 = byte_of(v, 2);
    let b3 = byte_of(v, 3);
    crate::bits::lemma_u32_bits(v, 0);
    assert((b0 as u32) | ((b1 as u32) << 8) | ((b2 as u32) << 16) | ((b3 as u32) << 24) == v) by (bit_vector)
        requires
            b0 == ((v >> 0u32) & 0xFF) as u8,
            b1 == ((v >> 8u32) & 0xFF) as u8,
            b2 == ((v >> 16u32) & 0xFF) as u8,
            b3 == ((v >> 24u32) & 0xFF) as u8,
    ;
}

pub proof fn lemma_le16_roundtrip(v: u16)
    ensures
        from_le16(le16(v)) == v,
        le16(v).len() == 2,
{
    let b0 = (v & 0xFF) as u8;
    let b1 = ((v >> 8) & 0xFF) as u8;
    assert((b0 as u16) | ((b1 as u16) << 8) == v) by (bit_vector)
        requires
            b0 == (v & 0xFF) as u8,
            b1 == ((v >> 8) & 0xFF) as u8,
    ;
}

pub proof fn lemma_le64_roundtrip(v: u64)
    ensures
        from_le64(le64(v)) == v,
        le64(v).len() == 8,
{
    let lo = v as u32;
    let hi = (v >> 32) as u32;
    lemma_le32_roundtrip(lo);
    lemma_le32_roundtrip(hi);
    let s = le64(v);
    assert(s.subrange(4, 8) =~= le32(hi));
    assert(from_le32(s) == from_le32(le32(lo)));
    assert((lo as u64) | ((hi as u64) << 32) == v) by (bit_vector)
        requires
            lo == v as u32,
            hi == (v >> 32) as u32,
    ;
}

pub proof fn lemma_le128_roundtrip(v: u128)
    ensures
        from_le128(le128(v)) == v,
        le128(v).len() == 16,
{
    let lo = v as u64;
    let hi = (v >> 64) as u64;
    lemma_le64_roundtrip(lo);
    lemma_le64_roundtrip(hi);
    let s = le128(v);
    assert(s.subrange(8, 16) =~= le64(hi));
    assert(s.subrange(0, 8) =~= le64(lo));
    assert(s.subrange(4, 8) =~= le64(lo).subrange(4, 8));
    assert(from_le64(s) == from_le64(le64(lo)));
    assert((lo as u128) | ((hi as u128) << 64) == v) by (bit_vector)
        requires
            lo == v as u64,
            hi == (v >> 64) as u64,
    ;
}

/// An append-only byte sink.
pub struct Writer {
    pub buf: Vec<u8>,
}

impl Default for Writer {
    fn default() -> (w: Writer)
        ensures
            w.buf@ == Seq::<u8>::empty(),
    {
        Writer { buf: Vec::new() }
    }
}

impl Writer {
    pub fn u8(&mut self, v: u8)
        ensures
            final(self).buf@ == old(self).buf@.push(v),
    {
        self.buf.push(v);
    }

    pub fn u16(&mut self, v: u16)
        ensures
            final(self).buf@ == old(self).buf@ + le16(v),
    {
        self.buf.push((v & 0xFF) as u8);
        self.buf.push(((v >> 8) & 0xFF) as u8);
        assert(final(self).buf@ =~= old(self).buf@ + le16(v));
    }

    pub fn u32(&mut self, v: u32)
        ensures
            final(self).buf@ == old(self).buf@ + le32(v),
    {
        self.buf.push((v & 0xFF) as u8);
        self.buf.push(((v >> 8) & 0xFF) as u8);
        self.buf.push(((v >> 16) & 0xFF) as u8);
        self.buf.push(((v >> 24) & 0xFF) as u8);
        proof {
            crate::bits::lemma_u32_bits(v, 0);
        }
        assert(final(self).buf@ =~= old(self).buf@ + le32(v));
    }

    pub fn u64(&mut self, v: u64)
        ensures
            final(self).buf@ == old(self).buf@ + le64(v),
    {
        self.u32(v as u32);
        self.u32((v >> 32) as u32);
        assert(final(self).buf@ =~= old(self).buf@ + le64(v));
    }

    pub fn u128(&mut self, v: u128)
        ensures
            final(self).buf@ == old(self).buf@ + le128(v),
    {
        self.u64(v as u64);
        self.u64((v >> 64) as u64);
        assert(final(self).buf@ =~= old(self).buf@ + le128(v));
    }

    pub fn i32(&mut self, v: i32)
        ensures
            final(self).buf@ == old(self).buf@ + le32(v as u32),
    {
        self.u32(v as u32);
    }

    pub fn bool(&mut self, v: bool)
        ensures
            final(self).buf@ == old(self).buf@.push(if v { 1u8 } else { 0u8 }),
    {
        self.u8(if v { 1 } else { 0 });
    }

    /// A length-prefixed byte block.
    pub fn bytes(&mut self, b: &[u8])
        ensures
            final(self).buf@ == old(self).buf@ + block(b@),
    {
        self.u32(b.len() as u32);
        let ghost mid = self.buf@;
        let mut i: usize = 0;
        while i < b.len()
            invariant
                i <= b@.len(),
                self.buf@ == mid + b@.subrange(0, i as int),
            decreases b@.len() - i,
        {
            self.buf.push(b[i]);
            i = i + 1;
            assert(self.buf@ =~= mid + b@.subrange(0, i as int));
        }
        assert(b@.subrange(0, b@.len() as int) =~= b@);
    }
}

/// The bytes a length-prefixed block at `p` of `buf` takes: its 4-byte
/// length and that many bytes (just the 4 when the length is not there).
pub open spec fn block_need(buf: Seq<u8>, p: int) -> int {
    if p + 4 <= buf.len() {
        4 + from_le32(buf.subrange(p, p + 4))
    } else {
        4
    }
}

/// Reading `n` bytes and then `m` more is reading `n + m` (the second read
/// needs to be `m` bytes only when the first found its bytes).
pub proof fn lemma_ran_seq<'a>(a: Reader<'a>, b: Reader<'a>, c: Reader<'a>, n: int, m: int)
    requires
        0 <= n,
        0 <= m,
        a.ran(b, n),
        b.buf@ == c.buf@,
        b.failed ==> c.failed,
        a.has(n) ==> b.ran(c, m),
    ensures
        a.ran(c, n + m),
{
    reveal(Reader::ran);
}

/// What reading `n` bytes in order means, spelled out.
pub proof fn lemma_ran_intro<'a>(a: Reader<'a>, b: Reader<'a>, n: int)
    requires
        b.buf@ == a.buf@,
        a.has(n) ==> b.pos == a.pos + n && b.failed == a.failed,
        !a.has(n) ==> b.failed,
    ensures
        a.ran(b, n),
{
    reveal(Reader::ran);
}

/// What having read `n` bytes in order tells of the reader.
pub proof fn lemma_ran_elim<'a>(a: Reader<'a>, b: Reader<'a>, n: int)
    requires
        a.ran(b, n),
    ensures
        b.buf@ == a.buf@,
        a.has(n) ==> b.pos == a.pos + n && b.failed == a.failed,
        !a.has(n) ==> b.failed,
{
    reveal(Reader::ran);
}

/// A bounds-checked cursor over a byte buffer.
pub struct Reader<'a> {
    pub buf: &'a [u8],
    pub pos: usize,
    pub failed: bool,
}

impl<'a> Reader<'a> {
    /// Whether `n` more bytes are available.
    pub open spec fn has(self, n: int) -> bool {
        self.pos + n <= self.buf@.len()
    }

    /// The next `n` bytes.
    pub open spec fn next_bytes(self, n: int) -> Seq<u8> {
        self.buf@.subrange(self.pos as int, self.pos + n)
    }

    /// The effect of consuming `n` bytes: advance on success, or stay and fail.
    pub open spec fn consumed(self, after: Reader<'a>, n: int) -> bool {
        &&& after.buf@ == self.buf@
        &&& if self.has(n) {
            after.pos == self.pos + n && after.failed == self.failed
        } else {
            after.pos == self.pos && after.failed
        }
    }

    /// `after` is this reader after reading `n` bytes in order: all of them
    /// when they are there (the reader advances and keeps its state);
    /// otherwise some read ran out and the reader has failed.
    #[verifier::opaque]
    pub open spec fn ran(self, after: Reader<'a>, n: int) -> bool {
        &&& after.buf@ == self.buf@
        &&& self.has(n) ==> after.pos == self.pos + n && after.failed == self.failed
        &&& !self.has(n) ==> after.failed
    }

    pub fn new(buf: &'a [u8]) -> (r: Self)
        ensures
            r.buf@ == buf@,
            r.pos == 0,
            !r.failed,
    {
        Reader { buf, pos: 0, failed: false }
    }

    /// Bytes not yet consumed.
    pub fn remaining(&self) -> (n: usize)
        ensures
            n == if self.pos <= self.buf@.len() { self.buf@.len() - self.pos } else { 0 },
    {
        self.buf.len().saturating_sub(self.pos)
    }

    /// Check that `n` bytes remain; consume them if so, fail otherwise.
    fn take(&mut self, n: usize) -> (ok: bool)
        ensures
            ok == old(self).has(n as int),
            old(self).consumed(*final(self), n as int),
    {
        if self.pos > self.buf.len() || n > self.buf.len() - self.pos {
            self.failed = true;
            false
        } else {
            self.pos = self.pos + n;
            true
        }
    }

    pub fn u8(&mut self) -> (v: u8)
        ensures
            old(self).consumed(*final(self), 1),
            v == if old(self).has(1) { old(self).buf@[old(self).pos as int] } else { 0 },
    {
        let p = self.pos;
        if self.take(1) {
            self.buf[p]
        } else {
            0
        }
    }

    pub fn u16(&mut self) -> (v: u16)
        ensures
            old(self).consumed(*final(self), 2),
            v == if old(self).has(2) { from_le16(old(self).next_bytes(2)) } else { 0 },
    {
        let p = self.pos;
        if self.take(2) {
            (self.buf[p] as u16) | ((self.buf[p + 1] as u16) << 8)
        } else {
            0
        }
    }

    pub fn u32(&mut self) -> (v: u32)
        ensures
            old(self).consumed(*final(self), 4),
            v == if old(self).has(4) { from_le32(old(self).next_bytes(4)) } else { 0 },
    {
        let p = self.pos;
        if self.take(4) {
            (self.buf[p] as u32) | ((self.buf[p + 1] as u32) << 8) | ((self.buf[p + 2] as u32) << 16)
                | ((self.buf[p + 3] as u32) << 24)
        } else {
            0
        }
    }

    pub fn u64(&mut self) -> (v: u64)
        ensures
            old(self).consumed(*final(self), 8),
            v == if old(self).has(8) { from_le64(old(self).next_bytes(8)) } else { 0 },
    {
        if self.pos <= self.buf.len() && 8 <= self.buf.len() - self.pos {
            let ghost s = old(self).next_bytes(8);
            let lo = self.u32();
            let hi = self.u32();
            assert(old(self).next_bytes(4) =~= s.subrange(0, 4));
            assert(s.subrange(4, 8) =~= self.buf@.subrange(old(self).pos + 4, old(self).pos + 8));
            (lo as u64) | ((hi as u64) << 32)
        } else {
            self.failed = true;
            0
        }
    }

    pub fn u128(&mut self) -> (v: u128)
        ensures
            old(self).consumed(*final(self), 16),
            v == if old(self).has(16) { from_le128(old(self).next_bytes(16)) } else { 0 },
    {
        if self.pos <= self.buf.len() && 16 <= self.buf.len() - self.pos {
            let ghost s = old(self).next_bytes(16);
            let lo = self.u64();
            let hi = self.u64();
            assert(old(self).next_bytes(8) =~= s.subrange(0, 8));
            assert(old(self).next_bytes(8).subrange(4, 8) =~= s.subrange(4, 8));
            assert(s.subrange(8, 16) =~= self.buf@.subrange(old(self).pos + 8, old(self).pos + 16));
            (lo as u128) | ((hi as u128) << 64)
        } else {
            self.failed = true;
            0
        }
    }

    pub fn i32(&mut self) -> (v: i32)
        ensures
            old(self).consumed(*final(self), 4),
            v == (if old(self).has(4) { from_le32(old(self).next_bytes(4)) } else { 0 }) as i32,
    {
        self.u32() as i32
    }

    pub fn bool(&mut self) -> (v: bool)
        ensures
            old(self).consumed(*final(self), 1),
            v == (old(self).has(1) && old(self).buf@[old(self).pos as int] != 0),
    {
        self.u8() != 0
    }

    /// Read a length-prefixed byte block into `dst`, copying only the bytes
    /// that fit; a short buffer fails and copies nothing.
    pub fn bytes_into(&mut self, dst: &mut [u8])
        ensures
            old(self).ran(*final(self), block_need(old(self).buf@, old(self).pos as int)),
            final(dst)@.len() == old(dst)@.len(),
            final(self).buf@ == old(self).buf@,
            ({
                let n = from_le32(old(self).next_bytes(4)) as int;
                if old(self).has(4) && old(self).has(4 + n) {
                    let src = old(self).buf@.subrange(old(self).pos + 4, old(self).pos + 4 + n);
                    let m = if n < old(dst)@.len() { n } else { old(dst)@.len() as int };
                    &&& final(self).pos == old(self).pos + 4 + n
                    &&& final(self).failed == old(self).failed
                    &&& final(dst)@ == src.subrange(0, m) + old(dst)@.subrange(m, old(dst)@.len() as int)
                } else {
                    &&& final(self).failed
                    &&& final(dst)@ == old(dst)@
                }
            }),
    {
        let n = self.u32() as usize;
        let start = self.pos;
        if self.take(n) {
            let m = if n < dst.len() { n } else { dst.len() };
            let len = self.buf.len();
            let mut i: usize = 0;
            while i < m
                invariant
                    i <= m,
                    m <= n,
                    m <= dst@.len(),
                    start + n <= self.buf@.len(),
                    len == self.buf@.len(),
                    dst@.len() == old(dst)@.len(),
                    forall|j: int| 0 <= j < i ==> dst@[j] == self.buf@[start + j],
                    forall|j: int| i <= j < dst@.len() ==> dst@[j] == old(dst)@[j],
                decreases m - i,
            {
                dst[i] = self.buf[start + i];
                i = i + 1;
            }
            proof {
                let src = self.buf@.subrange(start as int, start + n);
                assert(dst@ =~= src.subrange(0, m as int) + old(dst)@.subrange(m as int, old(dst)@.len() as int));
            }
        }
        proof {
            lemma_ran_intro(*old(self), *self, block_need(old(self).buf@, old(self).pos as int));
        }
    }

    /// Read a length-prefixed byte block as an owned vector.
    pub fn bytes_vec(&mut self) -> (v: Vec<u8>)
        ensures
            final(self).buf@ == old(self).buf@,
            ({
                let n = from_le32(old(self).next_bytes(4)) as int;
                if old(self).has(4) && old(self).has(4 + n) {
                    &&& final(self).pos == old(self).pos + 4 + n
                    &&& final(self).failed == old(self).failed
                    &&& v@ == old(self).buf@.subrange(old(self).pos + 4, old(self).pos + 4 + n)
                } else {
                    &&& final(self).failed
                    &&& v@ == Seq::<u8>::empty()
                }
            }),
    {
        let n = self.u32() as usize;
        let start = self.pos;
        let mut out: Vec<u8> = Vec::new();
        if self.take(n) {
            let len = self.buf.len();
            let mut i: usize = 0;
            while i < n
                invariant
                    i <= n,
                    len == self.buf@.len(),
                    start + n <= self.buf@.len(),
                    out@ == self.buf@.subrange(start as int, start + i),
                decreases n - i,
            {
                out.push(self.buf[start + i]);
                i = i + 1;
                assert(out@ =~= self.buf@.subrange(start as int, start + i));
            }
        }
        out
    }
}


/// Words laid out little-endian one after another.
pub open spec fn words_le(v: Seq<u32>) -> Seq<u8>
    decreases v.len(),
{
    if v.len() == 0 {
        Seq::empty()
    } else {
        words_le(v.drop_last()) + le32(v.last())
    }
}

/// The `n` little-endian words at the start of `s`.
pub open spec fn decode_words(s: Seq<u8>, n: nat) -> Seq<u32> {
    Seq::new(n, |k: int| from_le32(s.subrange(4 * k, 4 * k + 4)))
}

/// Each word of a laid-out sequence sits at four times its index.
pub proof fn lemma_words_le_layout(v: Seq<u32>)
    ensures
        words_le(v).len() == 4 * v.len(),
        forall|k: int| 0 <= k < v.len() ==> #[trigger] words_le(v).subrange(4 * k, 4 * k + 4) == le32(v[k]),
    decreases v.len(),
{
    if v.len() > 0 {
        let p = v.drop_last();
        lemma_words_le_layout(p);
        lemma_le32_roundtrip(v.last());
        let w = words_le(v);
        assert forall|k: int| 0 <= k < v.len() implies #[trigger] w.subrange(4 * k, 4 * k + 4) == le32(v[k]) by {
            if k < p.len() {
                assert(w.subrange(4 * k, 4 * k + 4) =~= words_le(p).subrange(4 * k, 4 * k + 4));
            } else {
                assert(w.subrange(4 * k, 4 * k + 4) =~= le32(v.last()));
            }
        }
    }
}

/// Decoding laid-out words gives them back.
pub proof fn lemma_words_roundtrip(v: Seq<u32>)
    ensures
        decode_words(words_le(v), v.len()) == v,
        words_le(v).len() == 4 * v.len(),
{
    lemma_words_le_layout(v);
    assert forall|k: int| 0 <= k < v.len() implies #[trigger] decode_words(words_le(v), v.len())[k] == v[k] by {
        lemma_le32_roundtrip(v[k]);
    }
    assert(decode_words(words_le(v), v.len()) =~= v);
}

/// Write each word of `v`, little-endian, in order.
pub fn put_words(w: &mut Writer, v: &[u32])
    ensures
        final(w).buf@ == old(w).buf@ + words_le(v@),
{
    let mut i: usize = 0;
    while i < v.len()
        invariant
            i <= v@.len(),
            w.buf@ == old(w).buf@ + words_le(v@.subrange(0, i as int)),
        decreases v@.len() - i,
    {
        w.u32(v[i]);
        assert(v@.subrange(0, i + 1).drop_last() =~= v@.subrange(0, i as int));
        i = i + 1;
    }
    assert(v@.subrange(0, v@.len() as int) =~= v@);
}

/// Fill `out` with little-endian words read in order. When the buffer is
/// short the reader fails.
pub fn get_words(r: &mut Reader, out: &mut [u32])
    ensures
        final(out)@.len() == old(out)@.len(),
        final(r).buf@ == old(r).buf@,
        old(r).has(4 * (old(out)@.len() as int)) ==> {
            &&& final(r).pos == old(r).pos + 4 * (old(out)@.len() as int)
            &&& final(r).failed == old(r).failed
            &&& final(out)@ == decode_words(old(r).next_bytes(4 * (old(out)@.len() as int)), old(out)@.len())
        },
        !old(r).has(4 * (old(out)@.len() as int)) && old(out)@.len() > 0 ==> final(r).failed,
{
    let ghost start = r.pos as int;
    let ghost n = out@.len() as int;
    let ghost whole = old(r).next_bytes(4 * n);
    let mut i: usize = 0;
    while i < out.len()
        invariant
            i <= out@.len(),
            out@.len() == n,
            r.buf@ == old(r).buf@,
            start == old(r).pos,
            whole == old(r).next_bytes(4 * n),
            old(r).has(4 * n) ==> {
                &&& r.pos == start + 4 * i
                &&& r.failed == old(r).failed
                &&& forall|k: int| 0 <= k < i ==> #[trigger] out@[k] == from_le32(whole.subrange(4 * k, 4 * k + 4))
            },
            !old(r).has(4 * n) && n > 0 ==> (r.failed || (r.pos == start + 4 * i && i < n)),
        decreases out@.len() - i,
    {
        let ghost before = *r;
        let v = r.u32();
        proof {
            if old(r).has(4 * n) {
                assert(before.next_bytes(4) =~= whole.subrange(4 * i, 4 * i + 4));
            }
        }
        out[i] = v;
        i = i + 1;
    }
    proof {
        if old(r).has(4 * n) {
            assert(out@ =~= decode_words(whole, n as nat));
        }
    }
}

/// Halfwords laid out little-endian one after another.
pub open spec fn halves_le(v: Seq<u16>) -> Seq<u8>
    decreases v.len(),
{
    if v.len() == 0 {
        Seq::empty()
    } else {
        halves_le(v.drop_last()) + le16(v.last())
    }
}

/// The `n` little-endian halfwords at the start of `s`.
pub open spec fn decode_halves(s: Seq<u8>, n: nat) -> Seq<u16> {
    Seq::new(n, |k: int| from_le16(s.subrange(2 * k, 2 * k + 2)))
}

pub proof fn lemma_halves_le_layout(v: Seq<u16>)
    ensures
        halves_le(v).len() == 2 * v.len(),
        forall|k: int| 0 <= k < v.len() ==> #[trigger] halves_le(v).subrange(2 * k, 2 * k + 2) == le16(v[k]),
    decreases v.len(),
{
    if v.len() > 0 {
        let p = v.drop_last();
        lemma_halves_le_layout(p);
        lemma_le16_roundtrip(v.last());
        let w = halves_le(v);
        assert forall|k: int| 0 <= k < v.len() implies #[trigger] w.subrange(2 * k, 2 * k + 2) == le16(v[k]) by {
            if k < p.len() {
                assert(w.subrange(2 * k, 2 * k + 2) =~= halves_le(p).subrange(2 * k, 2 * k + 2));
            } else {
                assert(w.subrange(2 * k, 2 * k + 2) =~= le16(v.last()));
            }
        }
    }
}

/// Decoding laid-out halfwords gives them back.
pub proof fn lemma_halves_roundtrip(v: Seq<u16>)
    ensures
        decode_halves(halves_le(v), v.len()) == v,
        halves_le(v).len() == 2 * v.len(),
{
    lemma_halves_le_layout(v);
    assert forall|k: int| 0 <= k < v.len() implies #[trigger] decode_halves(halves_le(v), v.len())[k] == v[k] by {
        lemma_le16_roundtrip(v[k]);
    }
    assert(decode_halves(halves_le(v), v.len()) =~= v);
}

/// Write each halfword of `v`, little-endian, in order.
pub fn put_halves(w: &mut Writer, v: &[u16])
    ensures
        final(w).buf@ == old(w).buf@ + halves_le(v@),
{
    let mut i: usize = 0;
    while i < v.len()
        invariant
            i <= v@.len(),
            w.buf@ == old(w).buf@ + halves_le(v@.subrange(0, i as int)),
        decreases v@.len() - i,
    {
        w.u16(v[i]);
        assert(v@.subrange(0, i + 1).drop_last() =~= v@.subrange(0, i as int));
        i = i + 1;
    }
    assert(v@.subrange(0, v@.len() as int) =~= v@);
}

/// Fill `out` with little-endian halfwords read in order.
pub fn get_halves(r: &mut Reader, out: &mut [u16])
    ensures
        final(out)@.len() == old(out)@.len(),
        final(r).buf@ == old(r).buf@,
        old(r).has(2 * (old(out)@.len() as int)) ==> {
            &&& final(r).pos == old(r).pos + 2 * (old(out)@.len() as int)
            &&& final(r).failed == old(r).failed
            &&& final(out)@ == decode_halves(old(r).next_bytes(2 * (old(out)@.len() as int)), old(out)@.len())
        },
        !old(r).has(2 * (old(out)@.len() as int)) && old(out)@.len() > 0 ==> final(r).failed,
        old(out)@.len() > 0 ==> old(r).ran(*final(r), 2 * (old(out)@.len() as int)),
{
    let ghost start = r.pos as int;
    let ghost n = out@.len() as int;
    let ghost whole = old(r).next_bytes(2 * n);
    let mut i: usize = 0;
    while i < out.len()
        invariant
            i <= out@.len(),
            out@.len() == n,
            r.buf@ == old(r).buf@,
            start == old(r).pos,
            whole == old(r).next_bytes(2 * n),
            old(r).has(2 * n) ==> {
                &&& r.pos == start + 2 * i
                &&& r.failed == old(r).failed
                &&& forall|k: int| 0 <= k < i ==> #[trigger] out@[k] == from_le16(whole.subrange(2 * k, 2 * k + 2))
            },
            !old(r).has(2 * n) && n > 0 ==> (r.failed || (r.pos == start + 2 * i && i < n)),
        decreases out@.len() - i,
    {
        let ghost before = *r;
        let v = r.u16();
        proof {
            if old(r).has(2 * n) {
                assert(before.next_bytes(2) =~= whole.subrange(2 * i, 2 * i + 2));
            }
        }
        out[i] = v;
        i = i + 1;
    }
    proof {
        if old(r).has(2 * n) {
            assert(out@ =~= decode_halves(whole, n as nat));
        }
        if n > 0 {
            lemma_ran_intro(*old(r), *r, 2 * n);
        }
    }
}

/// Reading a block written with [`Writer::bytes`] into a buffer of the same
/// length gives the block back.
pub proof fn lemma_block_roundtrip(b: Seq<u8>, rest: Seq<u8>)
    requires
        b.len() <= u32::MAX,
    ensures
        from_le32((block(b) + rest).subrange(0, 4)) == b.len(),
        (block(b) + rest).subrange(4, 4 + b.len() as int) == b,
{
    lemma_le32_roundtrip(b.len() as u32);
    assert((block(b) + rest).subrange(0, 4) =~= le32(b.len() as u32));
    assert((block(b) + rest).subrange(4, 4 + b.len() as int) =~= b);
}

/// A window of `buf` that holds `u + v` holds `u`, then `v`.
pub proof fn lemma_split(buf: Seq<u8>, p: int, u: Seq<u8>, v: Seq<u8>)
    requires
        0 <= p,
        p + u.len() + v.len() <= buf.len(),
        buf.subrange(p, p + u.len() + v.len()) == u + v,
    ensures
        buf.subrange(p, p + u.len()) == u,
        buf.subrange(p + u.len(), p + u.len() + v.len()) == v,
{
    assert forall|k: int| 0 <= k < u.len() + v.len() implies buf[p + k] == #[trigger] (u + v)[k] by {
        assert(buf.subrange(p, p + u.len() + v.len())[k] == buf[p + k]);
    }
    assert(buf.subrange(p, p + u.len()) =~= u);
    assert forall|k: int| 0 <= k < v.len() implies #[trigger] buf.subrange(p + u.len(), p + u.len() + v.len())[k]
        == v[k] by {
        assert((u + v)[u.len() + k] == v[k]);
    }
    assert(buf.subrange(p + u.len(), p + u.len() + v.len()) =~= v);
}

/// A block in a window of `buf`: its length, then its bytes.
pub proof fn lemma_block_at(buf: Seq<u8>, p: int, b: Seq<u8>)
    requires
        0 <= p,
        b.len() <= u32::MAX,
        p + 4 + b.len() <= buf.len(),
        buf.subrange(p, p + 4 + b.len()) == block(b),
    ensures
        from_le32(buf.subrange(p, p + 4)) == b.len(),
        buf.subrange(p + 4, p + 4 + b.len()) == b,
{
    lemma_le32_roundtrip(b.len() as u32);
    lemma_split(buf, p, le32(b.len() as u32), b);
}

} // verus!
