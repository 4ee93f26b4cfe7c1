//! Minimal ZIP extraction and DEFLATE decoding.
//!
//! The news-events feed ships as a single-entry ZIP archive holding a
//! tab-delimited table, either stored uncompressed or DEFLATE-compressed.
//! This module walks the ZIP structures and decodes the entry.  The byte
//! reads and the stored-entry path carry exact contracts; the Huffman
//! decoder is specified by safety and progress, which is what the
//! surrounding loops need.

use vstd::prelude::*;

use crate::model::ArgusError;
use crate::text::{string_from_utf8, sub_bytes};

verus! {

/// What remains to fill: zero once `len` has reached `total`.
pub open spec fn fill_remaining(total: int, len: int) -> int {
    if len <= total {
        total - len
    } else {
        0
    }
}

/// Powers of two, used to bound Huffman code values.
pub open spec fn spec_pow2(n: nat) -> nat
    decreases n,
{
    if n == 0 {
        1
    } else {
        2 * spec_pow2((n - 1) as nat)
    }
}

proof fn lemma_pow2_vals()
    ensures
        spec_pow2(0) == 1,
        spec_pow2(1) == 2,
        spec_pow2(14) == 16384,
        spec_pow2(15) == 32768,
        spec_pow2(16) == 65536,
{
    reveal_with_fuel(spec_pow2, 17);
}

/// The stream's bit at the given bit position.
pub open spec fn spec_bit_at(d: Seq<u8>, pos: int) -> int {
    ((d[pos / 8] >> ((pos % 8) as u8)) & 1) as int
}

/// The value of `count` bits of the stream, least-significant first, from
/// the given bit position.
pub open spec fn spec_bits_at(d: Seq<u8>, pos: int, count: int) -> int
    decreases count,
{
    if count <= 0 {
        0
    } else {
        spec_bit_at(d, pos) + 2 * spec_bits_at(d, pos + 1, count - 1)
    }
}

/// Reading one more bit adds it at the top of the value.
proof fn lemma_bits_at_snoc(d: Seq<u8>, pos: int, count: int)
    requires
        0 <= count,
    ensures
        spec_bits_at(d, pos, count + 1) == spec_bits_at(d, pos, count) + spec_pow2(count as nat)
            * spec_bit_at(d, pos + count),
    decreases count,
{
    if count > 0 {
        lemma_bits_at_snoc(d, pos + 1, count - 1);
        let bitc = spec_bit_at(d, pos + count);
        assert(spec_bit_at(d, pos + 1 + count - 1) == bitc);
        assert(spec_bits_at(d, pos + 1, count) == spec_bits_at(d, pos + 1, count - 1)
            + spec_pow2((count - 1) as nat) * bitc);
        assert(2 * (spec_pow2((count - 1) as nat) * bitc) == (2 * spec_pow2(
            (count - 1) as nat,
        )) * bitc) by (nonlinear_arith);
        assert(spec_pow2(count as nat) == 2 * spec_pow2((count - 1) as nat));
        assert(spec_bits_at(d, pos, count + 1) == spec_bits_at(d, pos, count) + spec_pow2(
            count as nat,
        ) * spec_bit_at(d, pos + count));
    } else {
        assert(count == 0);
        assert(count as nat == 0);
        assert(spec_pow2(count as nat) == 1);
        assert(spec_bits_at(d, pos + 1, 0) == 0);
        assert(spec_bits_at(d, pos, count) == 0);
        assert(spec_bits_at(d, pos, count + 1) == spec_bit_at(d, pos));
        assert(spec_bit_at(d, pos + count) == spec_bit_at(d, pos));
        assert(spec_bits_at(d, pos, count + 1) == spec_bits_at(d, pos, count) + spec_pow2(
            count as nat,
        ) * spec_bit_at(d, pos + count));
    }
}

/// A left shift of one is the matching power of two.
proof fn lemma_shift_is_pow2(n: u8)
    requires
        n < 32,
    ensures
        (1u64 << n) as int == spec_pow2(n as nat),
    decreases n,
{
    if n == 0 {
        assert((1u64 << 0u8) == 1) by (bit_vector);
    } else {
        let m = (n - 1) as u8;
        lemma_shift_is_pow2(m);
        assert(m < 31 ==> (1u64 << ((m + 1) as u8)) == 2 * (1u64 << m)) by (bit_vector);
    }
}

// ── Little-endian reads ────────────────────────────────────────────────────

/// The 16-bit little-endian value at `off`.
pub open spec fn le16(d: Seq<u8>, off: int) -> int {
    d[off] + 256 * d[off + 1]
}

/// The 32-bit little-endian value at `off`.
pub open spec fn le32(d: Seq<u8>, off: int) -> int {
    d[off] + 256 * d[off + 1] + 65536 * d[off + 2] + 16777216 * d[off + 3]
}

pub fn read_u16_le(data: &[u8], offset: usize) -> (r: u16)
    requires
        offset + 2 <= data@.len(),
    ensures
        r == le16(data@, offset as int),
{
    (data[offset] as u16) + 256 * (data[offset + 1] as u16)
}

pub fn read_u32_le(data: &[u8], offset: usize) -> (r: u32)
    requires
        offset + 4 <= data@.len(),
    ensures
        r == le32(data@, offset as int),
{
    (data[offset] as u32) + 256 * (data[offset + 1] as u32) + 65536 * (data[offset + 2] as u32)
        + 16777216 * (data[offset + 3] as u32)
}

// ── Signature search ───────────────────────────────────────────────────────

/// Whether the four signature bytes stand at position `i`.
pub open spec fn sig_at(d: Seq<u8>, sig: Seq<u8>, i: int) -> bool {
    &&& 0 <= i
    &&& i + 4 <= d.len()
    &&& d[i] == sig[0]
    &&& d[i + 1] == sig[1]
    &&& d[i + 2] == sig[2]
    &&& d[i + 3] == sig[3]
}

/// The highest position in `lo..=hi` where the signature stands.
pub open spec fn spec_rfind(d: Seq<u8>, sig: Seq<u8>, hi: int, lo: int) -> Option<int>
    decreases hi - lo + 1,
{
    if hi < lo {
        None
    } else if sig_at(d, sig, hi) {
        Some(hi)
    } else {
        spec_rfind(d, sig, hi - 1, lo)
    }
}

/// The lowest position the end-of-central-directory search looks at: the
/// record must lie within the maximal comment span of the file's tail.
pub open spec fn spec_search_lo(len: int) -> int {
    if len >= 65558 {
        len - 65558
    } else {
        0
    }
}

/// A hit of the backwards search lies in range and carries the signature.
proof fn lemma_rfind_bounds(d: Seq<u8>, sig: Seq<u8>, hi: int, lo: int)
    ensures
        spec_rfind(d, sig, hi, lo) matches Some(i) ==> lo <= i <= hi && sig_at(d, sig, i),
    decreases hi - lo + 1,
{
    if hi >= lo && !sig_at(d, sig, hi) {
        lemma_rfind_bounds(d, sig, hi - 1, lo);
    }
}

/// The end-of-central-directory signature.
pub open spec fn eocd_sig_bytes() -> Seq<u8> {
    seq![0x50u8, 0x4bu8, 0x05u8, 0x06u8]
}

/// Where the archive's first entry lies and how it is compressed —
/// (method, payload start, payload end) — as the central-directory walk
/// finds it; None when any structure check fails.
pub open spec fn spec_zip_entry(d: Seq<u8>) -> Option<(int, int, int)> {
    let len = d.len() as int;
    if len < 4 {
        None
    } else {
        match spec_rfind(d, eocd_sig_bytes(), len - 4, spec_search_lo(len)) {
            None => None,
            Some(e) => if len - e < 22 {
                None
            } else {
                let cd = le32(d, e + 16);
                if cd > len || len - cd < 46 {
                    None
                } else if !(d[cd] == 0x50 && d[cd + 1] == 0x4b && d[cd + 2] == 0x01 && d[cd + 3]
                    == 0x02) {
                    None
                } else {
                    let method = le16(d, cd + 10);
                    let csize = le32(d, cd + 20);
                    let lho = le32(d, cd + 42);
                    if lho > len || len - lho < 30 {
                        None
                    } else if !(d[lho] == 0x50 && d[lho + 1] == 0x4b && d[lho + 2] == 0x03
                        && d[lho + 3] == 0x04) {
                        None
                    } else {
                        let fl = le16(d, lho + 26);
                        let el = le16(d, lho + 28);
                        let rest = len - lho;
                        if fl > rest - 30 || el > rest - 30 - fl {
                            None
                        } else {
                            let start = lho + 30 + fl + el;
                            if csize > len - start {
                                None
                            } else {
                                Some((method, start, start + csize))
                            }
                        }
                    }
                }
            },
        }
    }
}

/// Search backwards from the end for a four-byte signature, looking no
/// further than the maximal end-of-central-directory span.
pub fn find_signature_reverse(data: &[u8], sig: &[u8; 4]) -> (r: Option<usize>)
    ensures
        data@.len() < 4 ==> r is None,
        data@.len() >= 4 ==> r == match spec_rfind(
            data@,
            sig@,
            data@.len() - 4,
            spec_search_lo(data@.len() as int),
        ) {
            Some(i) => Some(i as usize),
            None => None::<usize>,
        },
{
    if data.len() < 4 {
        return None;
    }
    let search_start: usize = if data.len() >= 65558 {
        data.len() - 65558
    } else {
        0
    };
    let mut i: usize = data.len() - 4;
    loop
        invariant
            search_start == spec_search_lo(data@.len() as int),
            search_start <= i <= data@.len() - 4,
            spec_rfind(data@, sig@, data@.len() - 4, search_start as int) == spec_rfind(
                data@,
                sig@,
                i as int,
                search_start as int,
            ),
        decreases i,
    {
        if data[i] == sig[0] && data[i + 1] == sig[1] && data[i + 2] == sig[2] && data[i + 3]
            == sig[3] {
            return Some(i);
        }
        if i == search_start {
            proof {
                reveal_with_fuel(spec_rfind, 2);
            }
            return None;
        }
        i -= 1;
    }
}

// ── Bit reader ─────────────────────────────────────────────────────────────

/// A cursor over a DEFLATE bit stream, least-significant bit first.
pub struct BitReader<'a> {
    data: &'a [u8],
    byte_pos: usize,
    bit_pos: u8,
}

impl<'a> BitReader<'a> {
    /// The cursor stays inside the data and mid-byte positions index a real
    /// byte.
    pub closed spec fn wf(self) -> bool {
        &&& self.bit_pos < 8
        &&& self.byte_pos <= self.data@.len()
        &&& (self.bit_pos > 0 ==> self.byte_pos < self.data@.len())
        &&& self.data@.len() <= usize::MAX
    }

    /// Position in bits from the start of the stream.
    pub closed spec fn pos(self) -> int {
        self.byte_pos * 8 + self.bit_pos
    }

    /// The underlying bytes, for framing contracts.
    pub closed spec fn spec_data(self) -> Seq<u8> {
        self.data@
    }

    /// The byte position after discarding any partly-read byte.
    pub closed spec fn aligned_byte(self) -> int {
        if self.bit_pos > 0 {
            self.byte_pos + 1
        } else {
            self.byte_pos as int
        }
    }

    /// The bit offset within the current byte.
    pub closed spec fn spec_bit_pos(self) -> u8 {
        self.bit_pos
    }

    /// The byte offset of the cursor.
    pub closed spec fn spec_byte_pos(self) -> int {
        self.byte_pos as int
    }

    pub fn new(data: &'a [u8]) -> (r: BitReader<'a>)
        ensures
            r.wf(),
            r.pos() == 0,
            r.spec_data() == data@,
    {
        let n = data.len();
        proof {
            assert(data@.len() == n);
        }
        BitReader { data, byte_pos: 0, bit_pos: 0 }
    }

    /// Read `count` bits, least-significant first: exactly the stream's
    /// bits at the cursor, and never short while bits remain.
    pub fn read_bits(&mut self, count: u8) -> (r: Result<u32, String>)
        requires
            old(self).wf(),
            count <= 31,
        ensures
            final(self).wf(),
            final(self).spec_data() == old(self).spec_data(),
            old(self).pos() <= final(self).pos() <= old(self).pos() + count,
            r matches Ok(v) ==> final(self).pos() == old(self).pos() + count && v < (1u32
                << count),
            r matches Ok(v) ==> v as int == spec_bits_at(
                old(self).spec_data(),
                old(self).pos(),
                count as int,
            ),
            old(self).pos() + count <= 8 * old(self).spec_data().len() ==> r is Ok,
    {
        let mut value: u32 = 0;
        let mut i: u8 = 0;
        proof {
            assert((1u32 << 0u8) == 1) by (bit_vector);
        }
        while i < count
            invariant
                i <= count <= 31,
                self.wf(),
                self.spec_data() == old(self).spec_data(),
                self.pos() == old(self).pos() + i,
                value < (1u32 << i),
                value as int == spec_bits_at(old(self).spec_data(), old(self).pos(), i as int),
            decreases count - i,
        {
            if self.byte_pos >= self.data.len() {
                proof {
                    assert(self.pos() >= 8 * self.spec_data().len());
                }
                return Err(err_text("unexpected end of data"));
            }
            let bit: u8 = (self.data[self.byte_pos] >> self.bit_pos) & 1;
            proof {
                let b = self.data@[self.byte_pos as int];
                let p = self.bit_pos;
                assert((b >> p) & 1 <= 1) by (bit_vector);
            }
            proof {
                let v = value;
                let ii = i;
                let bt = bit;
                assert(v < (1u32 << ii) && bt <= 1 && ii < 31 ==> (v | ((bt as u32) << ii)) < (
                1u32 << ((ii + 1) as u8))) by (bit_vector);
                assert(v < (1u32 << ii) && bt <= 1 && ii < 31 ==> (v | ((bt as u32) << ii)) == v
                    + ((bt as u32) << ii)) by (bit_vector);
                assert(bt == 0 ==> ((bt as u32) << ii) == 0) by (bit_vector);
                assert(bt == 1 && ii < 31 ==> ((bt as u32) << ii) == (1u32 << ii)) by (bit_vector);
                assert(ii < 31 ==> (1u64 << ii) == ((1u32 << ii) as u64)) by (bit_vector);
                lemma_shift_is_pow2(ii);
                let d = old(self).spec_data();
                let op = old(self).pos();
                lemma_bits_at_snoc(d, op, ii as int);
                assert(8 * (self.byte_pos as int) + self.bit_pos == op + ii);
                assert((op + ii) / 8 == self.byte_pos as int && (op + ii) % 8
                    == self.bit_pos as int) by (nonlinear_arith)
                    requires
                        8 * (self.byte_pos as int) + self.bit_pos == op + ii,
                        0 <= self.bit_pos < 8,
                ;
                assert(bit as int == spec_bit_at(d, op + ii));
                assert(((ii as int) as nat) == ii as nat);
                assert(((1u32 << ii) as int) == spec_pow2(ii as nat));
                let vnew = v | ((bt as u32) << ii);
                assert(vnew as int == v as int + ((bt as u32) << ii) as int);
                if bit == 0 {
                    assert(spec_pow2(ii as nat) * spec_bit_at(d, op + ii)
                        == 0) by (nonlinear_arith)
                        requires
                            spec_bit_at(d, op + ii) == 0,
                    ;
                } else {
                    assert(spec_pow2(ii as nat) * spec_bit_at(d, op + ii) == spec_pow2(
                        ii as nat,
                    )) by (nonlinear_arith)
                        requires
                            spec_bit_at(d, op + ii) == 1,
                    ;
                }
                assert(((bt as u32) << ii) as int == spec_pow2(ii as nat) * spec_bit_at(
                    d,
                    op + ii,
                ));
                assert(vnew as int == spec_bits_at(d, op, ii + 1));
            }
            value = value | ((bit as u32) << i);
            self.bit_pos += 1;
            if self.bit_pos == 8 {
                self.bit_pos = 0;
                self.byte_pos += 1;
            }
            i += 1;
        }
        Ok(value)
    }

    /// Read `count` bits, most-significant first, as Huffman codes are
    /// matched.
    pub fn read_bits_msb(&mut self, count: u8) -> (r: Result<u32, String>)
        requires
            old(self).wf(),
            count <= 31,
        ensures
            final(self).wf(),
            final(self).spec_data() == old(self).spec_data(),
            old(self).pos() <= final(self).pos() <= old(self).pos() + count,
            r matches Ok(v) ==> final(self).pos() == old(self).pos() + count && v < (1u32
                << count),
    {
        let mut value: u32 = 0;
        let mut i: u8 = 0;
        proof {
            assert((1u32 << 0u8) == 1) by (bit_vector);
        }
        while i < count
            invariant
                i <= count <= 31,
                self.wf(),
                self.spec_data() == old(self).spec_data(),
                self.pos() == old(self).pos() + i,
                value < (1u32 << i),
            decreases count - i,
        {
            if self.byte_pos >= self.data.len() {
                return Err(err_text("unexpected end of data"));
            }
            let bit: u8 = (self.data[self.byte_pos] >> self.bit_pos) & 1;
            proof {
                let b = self.data@[self.byte_pos as int];
                let p = self.bit_pos;
                assert((b >> p) & 1 <= 1) by (bit_vector);
            }
            proof {
                let v = value;
                let ii = i;
                let bt = bit;
                assert(v < (1u32 << ii) && bt <= 1 && ii < 31 ==> ((v << 1) | (bt as u32)) < (
                1u32 << ((ii + 1) as u8))) by (bit_vector);
            }
            value = (value << 1) | (bit as u32);
            self.bit_pos += 1;
            if self.bit_pos == 8 {
                self.bit_pos = 0;
                self.byte_pos += 1;
            }
            i += 1;
        }
        Ok(value)
    }

    /// Discard any partly-read byte.
    pub fn align_to_byte(&mut self)
        requires
            old(self).wf(),
        ensures
            final(self).wf(),
            final(self).spec_data() == old(self).spec_data(),
            final(self).spec_bit_pos() == 0,
            final(self).spec_byte_pos() == old(self).aligned_byte(),
    {
        if self.bit_pos > 0 {
            self.bit_pos = 0;
            self.byte_pos += 1;
        }
    }

    /// Read `count` whole bytes after aligning.
    pub fn read_bytes(&mut self, count: usize) -> (r: Result<&'a [u8], String>)
        requires
            old(self).wf(),
        ensures
            final(self).wf(),
            final(self).spec_data() == old(self).spec_data(),
            final(self).spec_bit_pos() == 0,
            r matches Ok(s) ==> {
                &&& old(self).aligned_byte() + count <= old(self).spec_data().len()
                &&& s@ == old(self).spec_data().subrange(
                    old(self).aligned_byte(),
                    old(self).aligned_byte() + count,
                )
                &&& final(self).spec_byte_pos() == old(self).aligned_byte() + count
            },
            r is Err ==> final(self).spec_byte_pos() == old(self).aligned_byte(),
            old(self).aligned_byte() + count <= old(self).spec_data().len() ==> r is Ok,
    {
        self.align_to_byte();
        if count > self.data.len() - self.byte_pos {
            return Err(err_text("unexpected end of data reading bytes"));
        }
        let slice = &self.data[self.byte_pos..self.byte_pos + count];
        self.byte_pos += count;
        Ok(slice)
    }
}

/// An owned error message.
fn err_text(m: &str) -> (r: String)
    ensures
        r@ == m@,
{
    m.to_owned()
}

// ── Stored blocks ──────────────────────────────────────────────────────────

/// The payload a stored block at this cursor position holds: its length
/// header stands after alignment, the payload after the four header bytes.
pub open spec fn stored_payload(br: BitReader<'_>) -> Seq<u8> {
    let s = br.aligned_byte();
    let len = le16(br.spec_data(), s);
    br.spec_data().subrange(s + 4, s + 4 + len)
}

/// Decode a stored (uncompressed) block: on success the output grows by
/// exactly the block's payload.
pub fn decode_stored_block(reader: &mut BitReader<'_>, output: &mut Vec<u8>) -> (r: Result<
    (),
    String,
>)
    requires
        old(reader).wf(),
    ensures
        final(reader).wf(),
        final(reader).spec_data() == old(reader).spec_data(),
        final(reader).pos() >= old(reader).pos(),
        r is Ok ==> final(reader).pos() > old(reader).pos(),
        r is Ok ==> final(output)@ == old(output)@ + stored_payload(*old(reader)),
        r is Err ==> final(output)@ == old(output)@,
        ({
            let d = old(reader).spec_data();
            let s = old(reader).aligned_byte();
            (s + 4 <= d.len() && le16(d, s) + le16(d, s + 2) == 65535 && s + 4 + le16(d, s)
                <= d.len()) ==> r is Ok
        }),
{
    let header = match reader.read_bytes(4) {
        Ok(h) => h,
        Err(e) => {
            return Err(e);
        },
    };
    let len: usize = (header[0] as usize) + 256 * (header[1] as usize);
    let nlen: usize = (header[2] as usize) + 256 * (header[3] as usize);
    proof {
        let d = old(reader).spec_data();
        let s = old(reader).aligned_byte();
        assert(len == le16(d, s) && nlen == le16(d, s + 2));
    }
    if len != 65535 - nlen {
        return Err(err_text("stored block length check failed"));
    }
    let data = match reader.read_bytes(len) {
        Ok(d) => d,
        Err(e) => {
            return Err(e);
        },
    };
    output.extend_from_slice(data);
    proof {
        assert(output@ =~= old(output)@ + stored_payload(*old(reader)));
    }
    Ok(())
}

// ── Huffman trees ──────────────────────────────────────────────────────────

/// A canonical Huffman table: one `(code length, code, symbol)` entry per
/// coded symbol.
pub struct HuffmanTree {
    pub entries: Vec<(u8, u64, u16)>,
    pub max_bits: u8,
}

impl HuffmanTree {
    pub closed spec fn wf(self) -> bool {
        self.max_bits <= 15
    }
}

/// Build the canonical codes for the given code lengths, as RFC 1951
/// assigns them: codes of each length are consecutive, ordered by symbol.
pub fn build_huffman_tree(lengths: &[u8]) -> (r: Result<HuffmanTree, String>)
    requires
        lengths@.len() <= 320,
        forall|i: int| 0 <= i < lengths@.len() ==> lengths@[i] <= 15,
    ensures
        r matches Ok(t) ==> t.wf(),
{
    let n = lengths.len();
    let mut max_bits: u8 = 0;
    let mut i: usize = 0;
    while i < n
        invariant
            i <= n,
            n == lengths@.len() <= 320,
            forall|k: int| 0 <= k < n ==> lengths@[k] <= 15,
            max_bits <= 15,
            forall|k: int| 0 <= k < i ==> lengths@[k] <= max_bits,
        decreases n - i,
    {
        if lengths[i] > max_bits {
            max_bits = lengths[i];
        }
        i += 1;
    }
    if max_bits == 0 {
        return Ok(HuffmanTree { entries: Vec::new(), max_bits: 0 });
    }

    // Count codes of each length.
    let mut bl_count: Vec<u64> = vec![0u64; 16];
    let mut i: usize = 0;
    while i < n
        invariant
            i <= n,
            n == lengths@.len() <= 320,
            forall|k: int| 0 <= k < n ==> lengths@[k] <= 15,
            bl_count@.len() == 16,
            forall|k: int| 0 <= k < 16 ==> bl_count@[k] <= i,
        decreases n - i,
    {
        let l = lengths[i] as usize;
        if l > 0 {
            let c = bl_count[l];
            bl_count.set(l, c + 1);
        }
        i += 1;
    }

    // Compute the first code of each length.
    let mut next_code: Vec<u64> = vec![0u64; 16];
    let mut code: u64 = 0;
    let mut bits: usize = 1;
    proof {
        lemma_pow2_vals();
    }
    while bits <= max_bits as usize
        invariant
            1 <= bits <= 16,
            max_bits <= 15,
            next_code@.len() == 16,
            bl_count@.len() == 16,
            forall|k: int| 0 <= k < 16 ==> bl_count@[k] <= 320,
            code <= 700 * (spec_pow2(bits as nat) - 1),
            forall|k: int| 0 <= k < 16 ==> next_code@[k] <= 45875200,
        decreases 16 - bits,
    {
        proof {
            lemma_pow2_vals();
            lemma_pow2_mono(bits as nat, 15);
            lemma_pow2_mono((bits + 1) as nat, 16);
        }
        code = (code + bl_count[bits - 1]) * 2;
        next_code.set(bits, code);
        bits += 1;
    }

    // Assign codes to symbols in order.
    let mut entries: Vec<(u8, u64, u16)> = Vec::new();
    let mut sym: usize = 0;
    while sym < n
        invariant
            sym <= n,
            n == lengths@.len() <= 320,
            forall|k: int| 0 <= k < n ==> lengths@[k] <= 15,
            next_code@.len() == 16,
            forall|k: int| 0 <= k < 16 ==> next_code@[k] <= 45875200 + sym,
        decreases n - sym,
    {
        let len = lengths[sym] as usize;
        if len > 0 {
            let c = next_code[len];
            next_code.set(len, c + 1);
            entries.push((len as u8, c, sym as u16));
        }
        sym += 1;
    }

    Ok(HuffmanTree { entries, max_bits })
}

proof fn lemma_pow2_mono(a: nat, b: nat)
    requires
        a <= b,
    ensures
        spec_pow2(a) <= spec_pow2(b),
    decreases b,
{
    if a < b {
        lemma_pow2_mono(a, (b - 1) as nat);
    }
}

/// Read bits one at a time until they match a code of the table.
pub fn decode_symbol(reader: &mut BitReader<'_>, tree: &HuffmanTree) -> (r: Result<u16, String>)
    requires
        old(reader).wf(),
        tree.wf(),
    ensures
        final(reader).wf(),
        final(reader).spec_data() == old(reader).spec_data(),
        final(reader).pos() >= old(reader).pos(),
        r is Ok ==> final(reader).pos() > old(reader).pos(),
{
    let mut code: u64 = 0;
    let mut bits: u8 = 1;
    while bits <= tree.max_bits
        invariant
            1 <= bits,
            tree.wf(),
            reader.wf(),
            reader.spec_data() == old(reader).spec_data(),
            bits > 1 ==> reader.pos() > old(reader).pos(),
            bits == 1 ==> reader.pos() == old(reader).pos(),
            code <= spec_pow2((bits - 1) as nat) - 1,
        decreases tree.max_bits + 1 - bits,
    {
        let bit = match reader.read_bits_msb(1) {
            Ok(b) => b,
            Err(e) => {
                return Err(e);
            },
        };
        proof {
            lemma_pow2_vals();
            lemma_pow2_mono((bits - 1) as nat, 14);
            assert((1u32 << 1u8) == 2) by (bit_vector);
        }
        code = code * 2 + (bit as u64);

        // Scan the table for a code of this length.
        let m = tree.entries.len();
        let mut k: usize = 0;
        while k < m
            invariant
                k <= m,
                m == tree.entries@.len(),
                reader.wf(),
                reader.spec_data() == old(reader).spec_data(),
                reader.pos() > old(reader).pos(),
            decreases m - k,
        {
            let e = tree.entries[k];
            if e.0 == bits && e.1 == code {
                return Ok(e.2);
            }
            k += 1;
        }
        bits += 1;
    }
    Err(err_text("invalid Huffman code"))
}

// ── Length and distance tables (RFC 1951) ──────────────────────────────────

/// Base match length for length symbols 257 and up.
pub fn length_base(idx: usize) -> (r: u16)
    requires
        idx < 29,
    ensures
        3 <= r <= 258,
{
    match idx {
        0 => 3,
        1 => 4,
        2 => 5,
        3 => 6,
        4 => 7,
        5 => 8,
        6 => 9,
        7 => 10,
        8 => 11,
        9 => 13,
        10 => 15,
        11 => 17,
        12 => 19,
        13 => 23,
        14 => 27,
        15 => 31,
        16 => 35,
        17 => 43,
        18 => 51,
        19 => 59,
        20 => 67,
        21 => 83,
        22 => 99,
        23 => 115,
        24 => 131,
        25 => 163,
        26 => 195,
        27 => 227,
        _ => 258,
    }
}

/// Extra bits carried by each length symbol.
pub fn length_extra(idx: usize) -> (r: u8)
    requires
        idx < 29,
    ensures
        r <= 5,
{
    match idx {
        0 => 0,
        1 => 0,
        2 => 0,
        3 => 0,
        4 => 0,
        5 => 0,
        6 => 0,
        7 => 0,
        8 => 1,
        9 => 1,
        10 => 1,
        11 => 1,
        12 => 2,
        13 => 2,
        14 => 2,
        15 => 2,
        16 => 3,
        17 => 3,
        18 => 3,
        19 => 3,
        20 => 4,
        21 => 4,
        22 => 4,
        23 => 4,
        24 => 5,
        25 => 5,
        26 => 5,
        27 => 5,
        _ => 0,
    }
}

/// Base match distance for each distance symbol.
pub fn dist_base(idx: usize) -> (r: u16)
    requires
        idx < 30,
    ensures
        1 <= r <= 24577,
{
    match idx {
        0 => 1,
        1 => 2,
        2 => 3,
        3 => 4,
        4 => 5,
        5 => 7,
        6 => 9,
        7 => 13,
        8 => 17,
        9 => 25,
        10 => 33,
        11 => 49,
        12 => 65,
        13 => 97,
        14 => 129,
        15 => 193,
        16 => 257,
        17 => 385,
        18 => 513,
        19 => 769,
        20 => 1025,
        21 => 1537,
        22 => 2049,
        23 => 3073,
        24 => 4097,
        25 => 6145,
        26 => 8193,
        27 => 12289,
        28 => 16385,
        _ => 24577,
    }
}

/// Extra bits carried by each distance symbol.
pub fn dist_extra(idx: usize) -> (r: u8)
    requires
        idx < 30,
    ensures
        r <= 13,
{
    match idx {
        0 => 0,
        1 => 0,
        2 => 0,
        3 => 0,
        4 => 1,
        5 => 1,
        6 => 2,
        7 => 2,
        8 => 3,
        9 => 3,
        10 => 4,
        11 => 4,
        12 => 5,
        13 => 5,
        14 => 6,
        15 => 6,
        16 => 7,
        17 => 7,
        18 => 8,
        19 => 8,
        20 => 9,
        21 => 9,
        22 => 10,
        23 => 10,
        24 => 11,
        25 => 11,
        26 => 12,
        27 => 12,
        28 => 13,
        _ => 13,
    }
}

// ── Huffman streams ────────────────────────────────────────────────────────

/// Decode literal/length symbols until the end-of-block marker, copying
/// back-references from the output already written.
pub fn decode_huffman_stream(
    reader: &mut BitReader<'_>,
    output: &mut Vec<u8>,
    lit_tree: &HuffmanTree,
    dist_tree: &HuffmanTree,
) -> (r: Result<(), String>)
    requires
        old(reader).wf(),
        lit_tree.wf(),
        dist_tree.wf(),
    ensures
        final(reader).wf(),
        final(reader).spec_data() == old(reader).spec_data(),
        final(reader).pos() >= old(reader).pos(),
        r is Ok ==> final(reader).pos() > old(reader).pos(),
        old(output)@.is_prefix_of(final(output)@),
{
    loop
        invariant
            reader.wf(),
            lit_tree.wf(),
            dist_tree.wf(),
            reader.spec_data() == old(reader).spec_data(),
            reader.pos() >= old(reader).pos(),
            old(output)@.is_prefix_of(output@),
        ensures
            reader.wf(),
            reader.spec_data() == old(reader).spec_data(),
            reader.pos() > old(reader).pos(),
            old(output)@.is_prefix_of(output@),
        decreases 8 * reader.spec_data().len() - reader.pos(),
    {
        let sym = match decode_symbol(reader, lit_tree) {
            Ok(s) => s,
            Err(e) => {
                return Err(e);
            },
        };
        if sym < 256 {
            output.push(sym as u8);
            proof {
                assert(old(output)@.is_prefix_of(output@));
            }
        } else if sym == 256 {
            // End of block.
            return Ok(());
        } else if sym <= 285 {
            let len_idx = (sym - 257) as usize;
            let lext = length_extra(len_idx);
            let extra = match reader.read_bits(lext) {
                Ok(v) => v,
                Err(e) => {
                    return Err(e);
                },
            };
            proof {
                let c = lext;
                assert(c <= 5 ==> (1u32 << c) <= 32) by (bit_vector);
            }
            let length: usize = length_base(len_idx) as usize + extra as usize;

            let dist_sym = match decode_symbol(reader, dist_tree) {
                Ok(s) => s as usize,
                Err(e) => {
                    return Err(e);
                },
            };
            if dist_sym >= 30 {
                return Err(err_text("invalid distance symbol"));
            }
            let dext = dist_extra(dist_sym);
            let dist_extra_v = match reader.read_bits(dext) {
                Ok(v) => v,
                Err(e) => {
                    return Err(e);
                },
            };
            proof {
                let c = dext;
                assert(c <= 13 ==> (1u32 << c) <= 8192) by (bit_vector);
            }
            let distance: usize = dist_base(dist_sym) as usize + dist_extra_v as usize;

            if distance > output.len() || distance == 0 {
                return Err(err_text("distance reaches before the output start"));
            }

            let start = output.len() - distance;
            let ghost olen = output@.len();
            let mut i: usize = 0;
            while i < length
                invariant
                    start + distance == olen,
                    olen <= usize::MAX,
                    distance >= 1,
                    output@.len() == olen + i,
                    old(output)@.is_prefix_of(output@),
                decreases length - i,
            {
                let byte = output[start + (i % distance)];
                output.push(byte);
                i += 1;
            }
        } else {
            return Err(err_text("invalid literal symbol"));
        }
    }
}

/// Decode one fixed-Huffman block, with the code lengths RFC 1951 fixes.
pub fn decode_fixed_huffman_block(reader: &mut BitReader<'_>, output: &mut Vec<u8>) -> (r: Result<
    (),
    String,
>)
    requires
        old(reader).wf(),
    ensures
        final(reader).wf(),
        final(reader).spec_data() == old(reader).spec_data(),
        final(reader).pos() >= old(reader).pos(),
        r is Ok ==> final(reader).pos() > old(reader).pos(),
        old(output)@.is_prefix_of(final(output)@),
{
    let mut lit_lengths: Vec<u8> = Vec::new();
    let mut i: usize = 0;
    while i < 144
        invariant
            lit_lengths@.len() == i <= 144,
            forall|k: int| 0 <= k < i ==> lit_lengths@[k] <= 15,
        decreases 144 - i,
    {
        lit_lengths.push(8);
        i += 1;
    }
    while i < 256
        invariant
            144 <= i <= 256,
            lit_lengths@.len() == i,
            forall|k: int| 0 <= k < i ==> lit_lengths@[k] <= 15,
        decreases 256 - i,
    {
        lit_lengths.push(9);
        i += 1;
    }
    while i < 280
        invariant
            256 <= i <= 280,
            lit_lengths@.len() == i,
            forall|k: int| 0 <= k < i ==> lit_lengths@[k] <= 15,
        decreases 280 - i,
    {
        lit_lengths.push(7);
        i += 1;
    }
    while i < 288
        invariant
            280 <= i <= 288,
            lit_lengths@.len() == i,
            forall|k: int| 0 <= k < i ==> lit_lengths@[k] <= 15,
        decreases 288 - i,
    {
        lit_lengths.push(8);
        i += 1;
    }
    let lit_tree = match build_huffman_tree(lit_lengths.as_slice()) {
        Ok(t) => t,
        Err(e) => {
            return Err(e);
        },
    };

    let dist_lengths: Vec<u8> = vec![5u8; 32];
    let dist_tree = match build_huffman_tree(dist_lengths.as_slice()) {
        Ok(t) => t,
        Err(e) => {
            return Err(e);
        },
    };

    decode_huffman_stream(reader, output, &lit_tree, &dist_tree)
}

/// The order code-length code lengths are stored in.
pub fn cl_order(i: usize) -> (r: usize)
    requires
        i < 19,
    ensures
        r < 19,
{
    match i {
        0 => 16,
        1 => 17,
        2 => 18,
        3 => 0,
        4 => 8,
        5 => 7,
        6 => 9,
        7 => 6,
        8 => 10,
        9 => 5,
        10 => 11,
        11 => 4,
        12 => 12,
        13 => 3,
        14 => 13,
        15 => 2,
        16 => 14,
        17 => 1,
        _ => 15,
    }
}

/// Decode one dynamic-Huffman block: read the code-length code, decode the
/// literal and distance code lengths, then the stream itself.
pub fn decode_dynamic_huffman_block(reader: &mut BitReader<'_>, output: &mut Vec<u8>) -> (r:
    Result<(), String>)
    requires
        old(reader).wf(),
    ensures
        final(reader).wf(),
        final(reader).spec_data() == old(reader).spec_data(),
        final(reader).pos() >= old(reader).pos(),
        r is Ok ==> final(reader).pos() > old(reader).pos(),
        old(output)@.is_prefix_of(final(output)@),
{
    let hlit_bits = match reader.read_bits(5) {
        Ok(v) => v,
        Err(e) => {
            return Err(e);
        },
    };
    proof {
        assert((1u32 << 5u8) == 32) by (bit_vector);
    }
    let hlit: usize = hlit_bits as usize + 257;
    let hdist_bits = match reader.read_bits(5) {
        Ok(v) => v,
        Err(e) => {
            return Err(e);
        },
    };
    let hdist: usize = hdist_bits as usize + 1;
    let hclen_bits = match reader.read_bits(4) {
        Ok(v) => v,
        Err(e) => {
            return Err(e);
        },
    };
    proof {
        assert((1u32 << 4u8) == 16) by (bit_vector);
    }
    let hclen: usize = hclen_bits as usize + 4;

    let mut cl_lengths: Vec<u8> = vec![0u8; 19];
    let mut i: usize = 0;
    while i < hclen
        invariant
            i <= hclen <= 19,
            cl_lengths@.len() == 19,
            reader.wf(),
            reader.spec_data() == old(reader).spec_data(),
            reader.pos() > old(reader).pos(),
            forall|k: int| 0 <= k < 19 ==> cl_lengths@[k] <= 15,
        decreases hclen - i,
    {
        let v = match reader.read_bits(3) {
            Ok(v) => v,
            Err(e) => {
                return Err(e);
            },
        };
        proof {
            assert((1u32 << 3u8) == 8) by (bit_vector);
        }
        cl_lengths.set(cl_order(i), v as u8);
        i += 1;
    }
    let cl_tree = match build_huffman_tree(cl_lengths.as_slice()) {
        Ok(t) => t,
        Err(e) => {
            return Err(e);
        },
    };

    // Decode the literal/length and distance code lengths together.
    let total: usize = hlit + hdist;
    let mut code_lengths: Vec<u8> = Vec::new();
    while code_lengths.len() < total
        invariant
            total <= 320,
            reader.wf(),
            cl_tree.wf(),
            reader.spec_data() == old(reader).spec_data(),
            reader.pos() > old(reader).pos(),
            forall|k: int| 0 <= k < code_lengths@.len() ==> code_lengths@[k] <= 15,
        decreases fill_remaining(total as int, code_lengths@.len() as int),
    {
        let sym = match decode_symbol(reader, &cl_tree) {
            Ok(s) => s,
            Err(e) => {
                return Err(e);
            },
        };
        if sym <= 15 {
            code_lengths.push(sym as u8);
        } else if sym == 16 {
            let extra = match reader.read_bits(2) {
                Ok(v) => v,
                Err(e) => {
                    return Err(e);
                },
            };
            proof {
                assert((1u32 << 2u8) == 4) by (bit_vector);
            }
            let repeat: usize = extra as usize + 3;
            if code_lengths.len() == 0 {
                return Err(err_text("repeat with no previous code length"));
            }
            let last = code_lengths[code_lengths.len() - 1];
            let ghost len0 = code_lengths@.len();
            let mut j: usize = 0;
            while j < repeat
                invariant
                    j <= repeat <= 6,
                    last <= 15,
                    code_lengths@.len() == len0 + j,
                    len0 <= 320,
                    forall|k: int| 0 <= k < code_lengths@.len() ==> code_lengths@[k] <= 15,
                decreases repeat - j,
            {
                code_lengths.push(last);
                j += 1;
            }
        } else if sym == 17 {
            let extra = match reader.read_bits(3) {
                Ok(v) => v,
                Err(e) => {
                    return Err(e);
                },
            };
            proof {
                assert((1u32 << 3u8) == 8) by (bit_vector);
            }
            let repeat: usize = extra as usize + 3;
            let ghost len0 = code_lengths@.len();
            let mut j: usize = 0;
            while j < repeat
                invariant
                    j <= repeat <= 10,
                    code_lengths@.len() == len0 + j,
                    len0 <= 320,
                    forall|k: int| 0 <= k < code_lengths@.len() ==> code_lengths@[k] <= 15,
                decreases repeat - j,
            {
                code_lengths.push(0);
                j += 1;
            }
        } else if sym == 18 {
            let extra = match reader.read_bits(7) {
                Ok(v) => v,
                Err(e) => {
                    return Err(e);
                },
            };
            proof {
                assert((1u32 << 7u8) == 128) by (bit_vector);
            }
            let repeat: usize = extra as usize + 11;
            let ghost len0 = code_lengths@.len();
            let mut j: usize = 0;
            while j < repeat
                invariant
                    j <= repeat <= 138,
                    code_lengths@.len() == len0 + j,
                    len0 <= 320,
                    forall|k: int| 0 <= k < code_lengths@.len() ==> code_lengths@[k] <= 15,
                decreases repeat - j,
            {
                code_lengths.push(0);
                j += 1;
            }
        } else {
            return Err(err_text("invalid code length symbol"));
        }
    }

    if code_lengths.len() < total {
        return Err(err_text("code lengths incomplete"));
    }
    let lit_lengths = sub_bytes(code_lengths.as_slice(), 0, hlit);
    let dist_lengths = sub_bytes(code_lengths.as_slice(), hlit, total);
    let lit_tree = match build_huffman_tree(lit_lengths.as_slice()) {
        Ok(t) => t,
        Err(e) => {
            return Err(e);
        },
    };
    let dist_tree = match build_huffman_tree(dist_lengths.as_slice()) {
        Ok(t) => t,
        Err(e) => {
            return Err(e);
        },
    };

    decode_huffman_stream(reader, output, &lit_tree, &dist_tree)
}

// ── Whole streams and archives ─────────────────────────────────────────────

/// A stream that is one final stored block: the three header bits say
/// final-and-stored, and the length fields frame a payload inside the
/// data.
pub open spec fn single_stored_stream(d: Seq<u8>) -> bool {
    &&& d.len() >= 5
    &&& d[0] & 7 == 1
    &&& le16(d, 1) + le16(d, 3) == 65535
    &&& 5 + le16(d, 1) <= d.len()
}

/// Decode a raw DEFLATE stream block by block.  A stream that is one
/// final stored block decodes to exactly its framed payload.
pub fn minimal_inflate(input: &[u8], size_hint: usize) -> (r: Result<Vec<u8>, String>)
    ensures
        single_stored_stream(input@) ==> (r matches Ok(v) && v@ == input@.subrange(
            5,
            5 + le16(input@, 1),
        )),
{
    let mut reader = BitReader::new(input);
    let mut output: Vec<u8> = Vec::new();
    if size_hint > 0 {
        // The hint only pre-sizes the buffer.
        output.reserve(size_hint);
    }

    loop
        invariant
            reader.wf(),
            reader.spec_data() == input@,
            single_stored_stream(input@) ==> (reader.pos() == 0 && output@.len() == 0),
        decreases 8 * reader.spec_data().len() - reader.pos(),
    {
        let ghost start = reader;
        let bfinal = match reader.read_bits(1) {
            Ok(v) => v,
            Err(e) => {
                return Err(e);
            },
        };
        let btype = match reader.read_bits(2) {
            Ok(v) => v,
            Err(e) => {
                return Err(e);
            },
        };
        proof {
            if single_stored_stream(input@) {
                let d = input@;
                let b0 = d[0];
                assert(0int / 8 == 0 && 0int % 8 == 0 && 1int / 8 == 0 && 1int % 8 == 1 && 2int
                    / 8 == 0 && 2int % 8 == 1 + 1);
                assert(b0 & 7 == 1 ==> ((b0 >> 0u8) & 1) == 1) by (bit_vector);
                assert(b0 & 7 == 1 ==> ((b0 >> 1u8) & 1) == 0) by (bit_vector);
                assert(b0 & 7 == 1 ==> ((b0 >> 2u8) & 1) == 0) by (bit_vector);
                reveal_with_fuel(spec_bits_at, 4);
                assert(spec_bits_at(d, 0, 1) == spec_bit_at(d, 0));
                assert(spec_bits_at(d, 1, 2) == spec_bit_at(d, 1) + 2 * spec_bit_at(d, 2));
                assert(bfinal == 1);
                assert(btype == 0);
                assert(reader.pos() == 3);
            }
        }
        let step = if btype == 0 {
            proof {
                if single_stored_stream(input@) {
                    assert(reader.spec_byte_pos() == 0 && reader.spec_bit_pos() == 3);
                    assert(reader.aligned_byte() == 1);
                }
            }
            decode_stored_block(&mut reader, &mut output)
        } else if btype == 1 {
            decode_fixed_huffman_block(&mut reader, &mut output)
        } else if btype == 2 {
            decode_dynamic_huffman_block(&mut reader, &mut output)
        } else {
            return Err(err_text("reserved block type"));
        };
        if let Err(e) = step {
            return Err(e);
        }

        if bfinal == 1 {
            proof {
                if single_stored_stream(input@) {
                    assert(output@ =~= input@.subrange(5, 5 + le16(input@, 1)));
                }
            }
            return Ok(output);
        }
    }
}

/// Inflate a raw DEFLATE stream, mapping failures to the agent error.
pub fn inflate_raw(compressed: &[u8], expected_size: usize) -> (r: Result<Vec<u8>, ArgusError>)
    ensures
        single_stored_stream(compressed@) ==> (r matches Ok(v) && v@ == compressed@.subrange(
            5,
            5 + le16(compressed@, 1),
        )),
{
    match minimal_inflate(compressed, expected_size) {
        Ok(bytes) => Ok(bytes),
        Err(msg) => Err(
            ArgusError::Agent {
                agent: "gdelt".to_owned(),
                message: msg,
            },
        ),
    }
}

fn zip_err(m: &str) -> (r: ArgusError) {
    ArgusError::Agent { agent: "gdelt".to_owned(), message: m.to_owned() }
}

/// Extract the first file of a ZIP archive: locate the end-of-central-
/// directory record, follow it to the first central-directory entry and its
/// local header, and decode the entry (stored or DEFLATE).  A structurally
/// broken archive or an unsupported method is refused; a stored entry
/// comes back as exactly the entry's bytes, when they are valid text.
pub fn extract_csv_from_zip(data: &[u8]) -> (r: Result<String, ArgusError>)
    ensures
        r matches Ok(s) ==> vstd::utf8::valid_utf8(crate::text::string_bytes(&s)),
        spec_zip_entry(data@) is None ==> r is Err,
        spec_zip_entry(data@) matches Some(ent) ==> {
            &&& ent.0 != 0 && ent.0 != 8 ==> r is Err
            &&& ent.0 == 0 ==> ((r matches Ok(s) ==> crate::text::string_bytes(&s)
                == data@.subrange(ent.1, ent.2)) && (r is Err ==> !vstd::utf8::valid_utf8(
                data@.subrange(ent.1, ent.2),
            )))
        },
{
    let eocd_sig: [u8; 4] = [0x50, 0x4b, 0x05, 0x06];
    proof {
        assert(eocd_sig@ =~= eocd_sig_bytes());
        if data@.len() >= 4 {
            lemma_rfind_bounds(
                data@,
                eocd_sig_bytes(),
                data@.len() - 4,
                spec_search_lo(data@.len() as int),
            );
        }
    }
    let eocd_pos = match find_signature_reverse(data, &eocd_sig) {
        Some(p) => p,
        None => {
            return Err(zip_err("ZIP: could not find end-of-central-directory"));
        },
    };

    if eocd_pos > data.len() || data.len() - eocd_pos < 22 {
        return Err(zip_err("ZIP: end-of-central-directory record truncated"));
    }

    let cd_offset = read_u32_le(data, eocd_pos + 16) as usize;

    // First central-directory file header.
    if cd_offset > data.len() || data.len() - cd_offset < 46 {
        return Err(zip_err("ZIP: invalid central directory header"));
    }
    if !(data[cd_offset] == 0x50 && data[cd_offset + 1] == 0x4b && data[cd_offset + 2] == 0x01
        && data[cd_offset + 3] == 0x02) {
        return Err(zip_err("ZIP: invalid central directory header"));
    }

    let compression_method = read_u16_le(data, cd_offset + 10);
    let compressed_size = read_u32_le(data, cd_offset + 20) as usize;
    let uncompressed_size = read_u32_le(data, cd_offset + 24) as usize;
    let local_header_offset = read_u32_le(data, cd_offset + 42) as usize;

    // Local file header.
    if local_header_offset > data.len() || data.len() - local_header_offset < 30 {
        return Err(zip_err("ZIP: invalid local file header"));
    }
    if !(data[local_header_offset] == 0x50 && data[local_header_offset + 1] == 0x4b
        && data[local_header_offset + 2] == 0x03 && data[local_header_offset + 3] == 0x04) {
        return Err(zip_err("ZIP: invalid local file header"));
    }

    let filename_len = read_u16_le(data, local_header_offset + 26) as usize;
    let extra_len = read_u16_le(data, local_header_offset + 28) as usize;
    let rest = data.len() - local_header_offset;
    if filename_len > rest - 30 || extra_len > rest - 30 - filename_len {
        return Err(zip_err("ZIP: compressed data extends beyond archive"));
    }
    let data_start = local_header_offset + 30 + filename_len + extra_len;
    if compressed_size > data.len() - data_start {
        return Err(zip_err("ZIP: compressed data extends beyond archive"));
    }
    let data_end = data_start + compressed_size;

    let raw_bytes: Vec<u8> = if compression_method == 0 {
        sub_bytes(data, data_start, data_end)
    } else if compression_method == 8 {
        let compressed = sub_bytes(data, data_start, data_end);
        match inflate_raw(compressed.as_slice(), uncompressed_size) {
            Ok(b) => b,
            Err(e) => {
                return Err(e);
            },
        }
    } else {
        return Err(zip_err("ZIP: unsupported compression method"));
    };

    match string_from_utf8(raw_bytes) {
        Ok(s) => Ok(s),
        Err(_) => Err(zip_err("ZIP: entry text is not valid UTF-8")),
    }
}

} // verus!
