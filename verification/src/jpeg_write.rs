use vstd::prelude::*;
use crate::bytes::{lemma_bit_consts, lemma_u32_parts};
use crate::color_type::ColorType;
use crate::jpeg_read::spec_unzigzag;

verus! {

/// The `size` low bits of `code`, most significant first.
pub open spec fn spec_code_bits(code: u32, size: u32) -> Seq<bool> {
    Seq::new(size as nat, |i: int| (code >> ((size - 1 - i) as u32)) & 1u32 == 1u32)
}

/// The byte whose bits, most significant first, are `b[0..8]`.
pub open spec fn spec_byte_of(b: Seq<bool>) -> u8 {
    ((if b[0] { 128u8 } else { 0u8 }) + (if b[1] { 64u8 } else { 0u8 }) + (if b[2] { 32u8 } else { 0u8 }) + (if b[3] {
        16u8
    } else {
        0u8
    }) + (if b[4] { 8u8 } else { 0u8 }) + (if b[5] { 4u8 } else { 0u8 }) + (if b[6] { 2u8 } else { 0u8 }) + (if b[7] {
        1u8
    } else {
        0u8
    })) as u8
}

/// Groups of eight bits packed into bytes, most significant bit first.
pub open spec fn spec_pack(bits: Seq<bool>) -> Seq<u8>
    decreases bits.len(),
{
    if bits.len() < 8 {
        Seq::empty()
    } else {
        seq![spec_byte_of(bits.subrange(0, 8))] + spec_pack(bits.subrange(8, bits.len() as int))
    }
}

/// Bytes as entropy-coded data stores them: each `FF` followed by a `00`.
pub open spec fn spec_stuff(bytes: Seq<u8>) -> Seq<u8>
    decreases bytes.len(),
{
    if bytes.len() == 0 {
        Seq::empty()
    } else {
        spec_stuff(bytes.drop_last()) + if bytes.last() == 0xFF {
            seq![0xFFu8, 0u8]
        } else {
            seq![bytes.last()]
        }
    }
}

/// Writes entropy-coded bits, most significant first, into bytes.
pub struct JpegBitWriter {
    pub out: Vec<u8>,
    pub bit_buf: u32,
    pub bit_count: u8,
    /// Every bit written so far.
    pub bits: Ghost<Seq<bool>>,
}

/// Bit `i` of the pending bits of a writer: bit `23 - i` of its buffer.
pub open spec fn spec_pending_bit(buf: u32, i: int) -> bool {
    (buf >> ((23 - i) as u32)) & 1u32 == 1u32
}

impl JpegBitWriter {
    /// The writer holds the bits `stream`: complete bytes in `out`, stuffed,
    /// the rest at the top of the 24-bit buffer.
    pub open spec fn holds(&self, stream: Seq<bool>) -> bool {
        let full = stream.len() - self.bit_count;
        &&& self.bit_count < 8
        &&& self.bit_count as int == stream.len() % 8
        &&& self.out@ == spec_stuff(spec_pack(stream.subrange(0, full)))
        &&& forall|i: int| 0 <= i < self.bit_count ==> spec_pending_bit(self.bit_buf, i) == stream[full + i]
        &&& (self.bit_buf << ((8 + self.bit_count) as u32)) == 0u32
    }

    /// The writer holds the bits written so far.
    pub open spec fn wf(&self) -> bool {
        self.holds(self.bits@)
    }

    pub fn new() -> (r: JpegBitWriter)
        ensures
            r.wf(),
            r.bits@ == Seq::<bool>::empty(),
    {
        let r = JpegBitWriter { out: Vec::new(), bit_buf: 0, bit_count: 0, bits: Ghost(Seq::empty()) };
        proof {
            lemma_bit_consts();
        }
        assert(Seq::<bool>::empty().subrange(0, 0) =~= Seq::<bool>::empty());
        r
    }
}

/// Packing eight more bits adds one byte.
proof fn lemma_pack_snoc(s: Seq<bool>, f: int)
    requires
        0 <= f,
        f % 8 == 0,
        f + 8 <= s.len(),
    ensures
        spec_pack(s.subrange(0, f + 8)) == spec_pack(s.subrange(0, f)).push(spec_byte_of(s.subrange(f, f + 8))),
    decreases f,
{
    if f == 0 {
        assert(s.subrange(0, 8).subrange(0, 8) =~= s.subrange(0, 8));
        assert(s.subrange(0, 8).subrange(8, 8) =~= Seq::<bool>::empty());
        assert(spec_pack(Seq::<bool>::empty()) =~= Seq::<u8>::empty());
        assert(s.subrange(0, 0).len() == 0);
        assert(spec_pack(s.subrange(0, 8)) =~= seq![spec_byte_of(s.subrange(0, 8))]);
    } else {
        let t = s.subrange(8, s.len() as int);
        lemma_pack_snoc(t, f - 8);
        assert(s.subrange(0, f + 8).subrange(0, 8) =~= s.subrange(0, 8));
        assert(s.subrange(0, f + 8).subrange(8, f + 8) =~= t.subrange(0, f));
        assert(s.subrange(0, f).subrange(0, 8) =~= s.subrange(0, 8));
        assert(s.subrange(0, f).subrange(8, f) =~= t.subrange(0, f - 8));
        assert(t.subrange(f - 8, f) =~= s.subrange(f, f + 8));
        assert(spec_pack(s.subrange(0, f + 8)) == seq![spec_byte_of(s.subrange(0, 8))] + spec_pack(t.subrange(0, f)));
        assert(spec_pack(s.subrange(0, f)) == seq![spec_byte_of(s.subrange(0, 8))] + spec_pack(t.subrange(0, f - 8)));
        assert(seq![spec_byte_of(s.subrange(0, 8))] + spec_pack(t.subrange(0, f - 8)).push(spec_byte_of(t.subrange(f - 8, f)))
            =~= (seq![spec_byte_of(s.subrange(0, 8))] + spec_pack(t.subrange(0, f - 8))).push(spec_byte_of(t.subrange(f - 8, f))));
    }
}

/// Or-ing a code of `size` bits in below `count` pending bits.
proof fn lemma_or_bit(buf: u32, code: u32, count: u32, size: u32, i: u32)
    by (bit_vector)
    requires
        count + size <= 23,
        code < (1u32 << size),
        (buf << ((8 + count) as u32)) == 0u32,
        i < count + size,
    ensures
        i < count ==> ((buf | (code << ((24 - count - size) as u32))) >> ((23 - i) as u32)) & 1u32 == (buf >> ((23 - i) as u32)) & 1u32,
        i >= count ==> ((buf | (code << ((24 - count - size) as u32))) >> ((23 - i) as u32)) & 1u32 == (code >> ((size - 1 - (i - count)) as u32))
            & 1u32,
{
}

/// The buffer keeps nothing below its pending bits.
proof fn lemma_or_low(buf: u32, code: u32, count: u32, size: u32)
    by (bit_vector)
    requires
        count + size <= 23,
        code < (1u32 << size),
        (buf << ((8 + count) as u32)) == 0u32,
    ensures
        ((buf | (code << ((24 - count - size) as u32))) << ((8 + count + size) as u32)) == 0u32,
{
}

/// The top byte of the 24-bit buffer, bit by bit.
proof fn lemma_top_byte(buf: u32)
    by (bit_vector)
    ensures
        ((buf >> 16u32) & 0xFFu32) == ((buf >> 23u32) & 1u32) * 128 + ((buf >> 22u32) & 1u32) * 64 + ((buf >> 21u32) & 1u32)
            * 32 + ((buf >> 20u32) & 1u32) * 16 + ((buf >> 19u32) & 1u32) * 8 + ((buf >> 18u32) & 1u32) * 4 + ((buf
            >> 17u32) & 1u32) * 2 + ((buf >> 16u32) & 1u32),
        ((buf >> 16u32) & 0xFFu32) < 256,
        (buf >> 23u32) & 1u32 <= 1,
        (buf >> 22u32) & 1u32 <= 1,
        (buf >> 21u32) & 1u32 <= 1,
        (buf >> 20u32) & 1u32 <= 1,
        (buf >> 19u32) & 1u32 <= 1,
        (buf >> 18u32) & 1u32 <= 1,
        (buf >> 17u32) & 1u32 <= 1,
        (buf >> 16u32) & 1u32 <= 1,
{
}

/// Shifting out a byte moves the pending bits up by eight.
proof fn lemma_shift_bit(buf: u32, count: u32, i: u32)
    by (bit_vector)
    requires
        8 <= count <= 23,
        i < count - 8,
    ensures
        ((buf << 8u32) >> ((23 - i) as u32)) & 1u32 == (buf >> ((23 - (i + 8)) as u32)) & 1u32,
{
}

proof fn lemma_shift_low(buf: u32, count: u32)
    by (bit_vector)
    requires
        8 <= count <= 23,
        (buf << ((8 + count) as u32)) == 0u32,
    ensures
        ((buf << 8u32) << ((8 + (count - 8)) as u32)) == 0u32,
{
}

/// After or-ing in a code, the pending bits are the old ones, then the code's.
proof fn lemma_or_pending(buf0: u32, code: u32, count0: u32, size: u32, stream: Seq<bool>, full: int)
    requires
        count0 + size <= 23,
        code < (1u32 << size),
        (buf0 << ((8 + count0) as u32)) == 0u32,
        full >= 0,
        full + count0 == stream.len(),
        forall|i: int| 0 <= i < count0 ==> spec_pending_bit(buf0, i) == stream[full + i],
    ensures
        forall|i: int|
            0 <= i < count0 + size ==> #[trigger] spec_pending_bit(buf0 | (code << ((24 - count0 - size) as u32)), i)
                == (stream + spec_code_bits(code, size))[full + i],
{
    let nb = buf0 | (code << ((24 - count0 - size) as u32));
    let ns = stream + spec_code_bits(code, size);
    assert forall|i: int| 0 <= i < count0 + size implies spec_pending_bit(nb, i) == ns[full + i] by {
        let iu = i as u32;
        lemma_or_bit(buf0, code, count0, size, iu);
        assert((23 - iu) as u32 == (23 - i) as u32);
        assert(spec_pending_bit(nb, i) == ((nb >> ((23 - iu) as u32)) & 1u32 == 1u32));
        if i < count0 {
            assert(ns[full + i] == stream[full + i]);
            assert(spec_pending_bit(buf0, i) == ((buf0 >> ((23 - iu) as u32)) & 1u32 == 1u32));
        } else {
            assert(ns[full + i] == spec_code_bits(code, size)[i - count0]);
            assert((size - 1 - (iu - count0)) as u32 == (size - 1 - (i - count0)) as u32);
            assert(spec_code_bits(code, size)[i - count0] == ((code >> ((size - 1 - (i - count0)) as u32)) & 1u32 == 1u32));
            assert(((nb >> ((23 - iu) as u32)) & 1u32) == ((code >> ((size - 1 - (iu - count0)) as u32)) & 1u32));
        }
    }
}

impl JpegBitWriter {
    /// Appends the `bits[1]` low bits of `bits[0]`, most significant first;
    /// every complete byte goes out, followed by `00` where it is `FF`.
    pub fn write_bits(&mut self, bits: [u16; 2])
        requires
            old(self).wf(),
            bits[1] <= 16,
            (bits[0] as u32) < (1u32 << (bits[1] as u32)),
        ensures
            final(self).wf(),
            final(self).bits@ == old(self).bits@ + spec_code_bits(bits[0] as u32, bits[1] as u32),
    {
        let ghost stream = self.bits@;
        let code = bits[0] as u32;
        let size = bits[1] as u8;
        let ghost ns = stream + spec_code_bits(code, size as u32);
        if size == 0 {
            assert(ns =~= stream);
            self.bits = Ghost(ns);
            return;
        }
        let ghost count0 = self.bit_count as u32;
        let ghost buf0 = self.bit_buf;
        let ghost full = stream.len() - self.bit_count;
        self.bit_count = self.bit_count + size;
        self.bit_buf = self.bit_buf | (code << (24 - self.bit_count as u32));
        proof {
            assert(self.bit_buf == (buf0 | (code << ((24 - count0 - size as u32) as u32))));
            assert(ns.subrange(0, full) =~= stream.subrange(0, full));
            lemma_or_low(buf0, code, count0, size as u32);
            lemma_or_pending(buf0, code, count0, size as u32, stream, full);
            assert(ns.len() == full + self.bit_count);
        }
        while self.bit_count >= 8
            invariant
                self.bit_count <= 23,
                ns.len() >= self.bit_count,
                (ns.len() - self.bit_count) % 8 == 0,
                self.out@ == spec_stuff(spec_pack(ns.subrange(0, ns.len() - self.bit_count))),
                forall|i: int| 0 <= i < self.bit_count ==> spec_pending_bit(self.bit_buf, i) == ns[ns.len() - self.bit_count + i],
                (self.bit_buf << ((8 + self.bit_count) as u32)) == 0u32,
            decreases self.bit_count,
        {
            let ghost f = ns.len() - self.bit_count;
            let ghost b0 = self.bit_buf;
            let ghost c0 = self.bit_count as u32;
            let byte = ((self.bit_buf >> 16) & 0xFF) as u8;
            proof {
                lemma_top_byte(b0);
                lemma_pack_snoc(ns, f);
                let g = ns.subrange(f, f + 8);
                assert(spec_pending_bit(b0, 0) == g[0]);
                assert(spec_pending_bit(b0, 1) == g[1]);
                assert(spec_pending_bit(b0, 2) == g[2]);
                assert(spec_pending_bit(b0, 3) == g[3]);
                assert(spec_pending_bit(b0, 4) == g[4]);
                assert(spec_pending_bit(b0, 5) == g[5]);
                assert(spec_pending_bit(b0, 6) == g[6]);
                assert(spec_pending_bit(b0, 7) == g[7]);
                assert(byte == spec_byte_of(g));
            }
            let ghost packed = spec_pack(ns.subrange(0, f));
            self.out.push(byte);
            if byte == 0xFF {
                self.out.push(0x00);
            }
            proof {
                assert(packed.push(byte).drop_last() =~= packed);
                assert(self.out@ =~= spec_stuff(packed.push(byte)));
            }
            self.bit_buf = self.bit_buf << 8;
            self.bit_count = self.bit_count - 8;
            proof {
                lemma_shift_low(b0, c0);
                assert forall|i: int| 0 <= i < self.bit_count implies spec_pending_bit(self.bit_buf, i)
                    == ns[ns.len() - self.bit_count + i] by {
                    lemma_shift_bit(b0, c0, i as u32);
                    assert(spec_pending_bit(b0, i + 8) == ns[f + i + 8]);
                }
            }
        }
        assert(self.bit_count as int == ns.len() % 8);
        self.bits = Ghost(ns);
    }

    /// Pads the last partial byte with one-bits: writes seven one-bits.
    pub fn finish_entropy_bits(&mut self)
        requires
            old(self).wf(),
        ensures
            final(self).wf(),
            final(self).bits@ == old(self).bits@ + spec_code_bits(0x7F, 7),
    {
        proof {
            lemma_bit_consts();
        }
        self.write_bits([0x7F, 7]);
    }

    /// The bytes written so far.
    pub fn into_inner(self) -> (r: Vec<u8>)
        ensures
            r@ == self.out@,
    {
        self.out
    }
}

/// Number of bits of `n`, at least one.
pub open spec fn spec_bit_len(n: int) -> int
    decreases n,
{
    if n <= 1 {
        1
    } else {
        1 + spec_bit_len(n / 2)
    }
}

/// The magnitude category of a coefficient and its bits: for a negative
/// value, the low bits of the value minus one.
pub open spec fn spec_calc_bits(value: i32) -> [u16; 2] {
    let abs = if value < 0 { -value } else { value as int };
    let size = spec_bit_len(abs);
    let encoded = if value < 0 { (value - 1) as i32 } else { value };
    [(encoded & (((1i32 << (size as u32)) - 1) as i32)) as u16, size as u16]
}

pub(crate) proof fn lemma_bit_len_pos(n: int)
    ensures
        spec_bit_len(n) >= 1,
    decreases n,
{
    if n > 1 {
        lemma_bit_len_pos(n / 2);
    }
}

proof fn lemma_bit_len_bound(n: int)
    requires
        0 <= n < 32768,
    ensures
        1 <= spec_bit_len(n) <= 15,
{
    lemma_bit_len_pos(n);
    vstd::arithmetic::power2::lemma2_to64();
    lemma_bit_len_le(n, 15, 32768);
}

pub(crate) proof fn lemma_bit_len_le(n: int, k: int, p: int)
    requires
        0 <= n < p,
        k >= 1,
        p == vstd::arithmetic::power2::pow2(k as nat),
    ensures
        spec_bit_len(n) <= k,
    decreases k,
{
    vstd::arithmetic::power2::lemma2_to64();
    if n > 1 {
        vstd::arithmetic::power2::lemma_pow2_unfold(k as nat);
        if k == 1 {
            assert(p == 2);
            assert(false);
        } else {
            let q = vstd::arithmetic::power2::pow2((k - 1) as nat) as int;
            assert(p == 2 * q);
            lemma_bit_len_le(n / 2, k - 1, q);
        }
    }
}

/// An entry of a Huffman code table: a code that fits in its length.
pub open spec fn spec_code_ok(c: [u16; 2]) -> bool {
    c[1] <= 16 && (c[0] as u32) < (1u32 << (c[1] as u32))
}

/// The magnitude category and bits of a coefficient.
pub fn calc_bits(value: i32) -> (r: [u16; 2])
    requires
        -32768 < value < 32768,
    ensures
        r == spec_calc_bits(value),
        1 <= r[1] <= 15,
        spec_code_ok(r),
{
    let mut absolute_value = if value < 0 { -value } else { value };
    let encoded_value = if value < 0 { value - 1 } else { value };
    let ghost abs = absolute_value as int;
    let mut bitcount: u16 = 1;
    proof {
        lemma_bit_len_bound(abs);
    }
    loop
        invariant
            0 <= absolute_value < 32768,
            spec_bit_len(absolute_value as int) + bitcount - 1 == spec_bit_len(abs),
            1 <= bitcount,
            spec_bit_len(abs) <= 15,
        ensures
            bitcount == spec_bit_len(abs),
        decreases absolute_value,
    {
        let a0 = absolute_value;
        absolute_value = absolute_value >> 1;
        assert(a0 >= 0 ==> a0 >> 1 == a0 / 2) by (bit_vector);
        proof {
            lemma_bit_len_pos(absolute_value as int);
        }
        if absolute_value == 0 {
            break;
        }
        bitcount = bitcount + 1;
    }
    let b = bitcount as u32;
    assert(1 <= b <= 15 ==> (1i32 << b) >= 2 && (1i32 << b) <= 32768) by (bit_vector);
    let mask = (1i32 << b) - 1;
    let bits = encoded_value & mask;
    assert(1 <= b <= 15 && mask == (1i32 << b) - 1 ==> 0 <= (encoded_value & mask) < (1i32 << b) && (1i32 << b) <= 32768)
        by (bit_vector);
    assert(1 <= b <= 15 && 0 <= bits < (1i32 << b) ==> ((bits as u16) as u32) < (1u32 << b)) by (bit_vector);
    [bits as u16, bitcount]
}

/// The bits of a sequence of codes, one after the other.
pub open spec fn spec_codes_bits(codes: Seq<[u16; 2]>) -> Seq<bool>
    decreases codes.len(),
{
    if codes.len() == 0 {
        Seq::empty()
    } else {
        spec_codes_bits(codes.drop_last()) + spec_code_bits(codes.last()[0] as u32, codes.last()[1] as u32)
    }
}

/// The last position from `e` down to 1 whose coefficient is not zero, or 0.
pub open spec fn spec_last_nonzero(du: Seq<i32>, e: int) -> int
    decreases e,
{
    if e <= 0 {
        0
    } else if du[e] != 0 {
        e
    } else {
        spec_last_nonzero(du, e - 1)
    }
}

/// Number of zero coefficients from position `i` on, up to `end`.
pub open spec fn spec_zero_run(du: Seq<i32>, i: int, end: int) -> int
    decreases end + 1 - i,
{
    if i > end || du[i] != 0 {
        0
    } else {
        1 + spec_zero_run(du, i + 1, end)
    }
}

/// The codes of the AC coefficients from position `i` to `end` (which is
/// not zero): each nonzero coefficient after a run of zeros, the run cut
/// into sixteens coded by `ZRL`, then the run and category symbol and the
/// coefficient's bits.
pub open spec fn spec_ac_codes(du: Seq<i32>, ac: Seq<[u16; 2]>, i: int, end: int) -> Seq<[u16; 2]>
    decreases end - i + 1,
{
    if i > end || i < 1 {
        Seq::empty()
    } else {
        let z = spec_zero_run(du, i, end);
        let k = i + z;
        if z < 0 || k > end {
            Seq::empty()
        } else {
            let bits = spec_calc_bits(du[k]);
            Seq::new((z / 16) as nat, |j: int| ac[0xF0]) + seq![ac[(z % 16) * 16 + bits[1]], bits] + spec_ac_codes(
                du,
                ac,
                k + 1,
                end,
            )
        }
    }
}

/// The codes of a block of quantized coefficients in zigzag order: the DC
/// difference from `prev` (its category, then its bits), then the AC
/// coefficients, ended by `EOB` unless the last one is not zero.
pub open spec fn spec_du_codes(du: Seq<i32>, prev: i32, dc: Seq<[u16; 2]>, ac: Seq<[u16; 2]>) -> Seq<[u16; 2]> {
    let diff = (du[0] - prev) as i32;
    let dc_part = if diff == 0 {
        seq![dc[0]]
    } else {
        seq![dc[spec_calc_bits(diff)[1] as int], spec_calc_bits(diff)]
    };
    let end = spec_last_nonzero(du, 63);
    dc_part + if end == 0 {
        seq![ac[0]]
    } else {
        spec_ac_codes(du, ac, 1, end) + if end != 63 {
            seq![ac[0]]
        } else {
            Seq::empty()
        }
    }
}

/// Every code of the table fits in its length.
pub open spec fn spec_table_ok(t: Seq<[u16; 2]>) -> bool {
    forall|i: int| 0 <= i < t.len() ==> spec_code_ok(#[trigger] t[i])
}

/// Writing one more code.
fn emit(writer: &mut JpegBitWriter, code: [u16; 2], Ghost(stream): Ghost<Seq<bool>>, Ghost(written): Ghost<Seq<[u16; 2]>>)
    requires
        old(writer).wf(),
        old(writer).bits@ == stream + spec_codes_bits(written),
        spec_code_ok(code),
    ensures
        final(writer).wf(),
        final(writer).bits@ == stream + spec_codes_bits(written.push(code)),
{
    writer.write_bits(code);
    assert(written.push(code).drop_last() =~= written);
    assert(stream + spec_codes_bits(written) + spec_code_bits(code[0] as u32, code[1] as u32) =~= stream
        + spec_codes_bits(written.push(code)));
}

/// Huffman-codes a block of quantized coefficients in zigzag order: the DC
/// difference from `dc_coef` (which becomes `du[0]`), then the AC
/// coefficients with run lengths.
pub fn write_data_unit(
    writer: &mut JpegBitWriter,
    du: &[i32; 64],
    dc_coef: &mut i32,
    dc_huff: &[[u16; 2]; 12],
    ac_huff: &[[u16; 2]; 256],
)
    requires
        old(writer).wf(),
        spec_table_ok(dc_huff@),
        spec_table_ok(ac_huff@),
        -2048 < du@[0] - *old(dc_coef) < 2048,
        forall|i: int| 1 <= i < 64 ==> -32768 < #[trigger] du@[i] < 32768,
    ensures
        final(writer).wf(),
        final(writer).bits@ == old(writer).bits@ + spec_codes_bits(spec_du_codes(du@, *old(dc_coef), dc_huff@, ac_huff@)),
        *final(dc_coef) == du@[0],
{
    let ghost stream = writer.bits@;
    let ghost total = spec_du_codes(du@, *old(dc_coef), dc_huff@, ac_huff@);
    let ghost mut written: Seq<[u16; 2]> = Seq::empty();
    assert(stream + spec_codes_bits(written) =~= stream);
    let diff = du[0] - *dc_coef;
    if diff == 0 {
        emit(writer, dc_huff[0], Ghost(stream), Ghost(written));
        proof {
            written = written.push(dc_huff@[0]);
        }
    } else {
        let bits = calc_bits(diff);
        let category = bits[1] as usize;
        proof {
            assert(diff >= 0 ==> diff < 2048);
            vstd::arithmetic::power2::lemma2_to64();
            lemma_bit_len_le(if diff < 0 { -diff } else { diff as int }, 11, 2048);
            lemma_bit_len_pos(if diff < 0 { -diff } else { diff as int });
            assert(bits == spec_calc_bits(diff));
            let ab = if diff < 0 { -diff } else { diff as int };
            assert(spec_bit_len(ab) <= 11);
            assert(spec_calc_bits(diff)[1] == spec_bit_len(ab) as u16);
            assert(bits[1] == spec_calc_bits(diff)[1]);
            assert(spec_bit_len(ab) as u16 <= 11);
            assert(category == bits[1]);
            assert(category <= 11);
        }
        emit(writer, dc_huff[category], Ghost(stream), Ghost(written));
        proof {
            written = written.push(dc_huff@[category as int]);
        }
        emit(writer, bits, Ghost(stream), Ghost(written));
        proof {
            written = written.push(bits);
        }
    }
    *dc_coef = du[0];
    let ghost dc_part = written;
    let eob = ac_huff[0x00];
    let zrl = ac_huff[0xF0];
    let mut end0pos: usize = 63;
    while end0pos > 0 && du[end0pos] == 0
        invariant
            end0pos <= 63,
            spec_last_nonzero(du@, 63) == spec_last_nonzero(du@, end0pos as int),
        decreases end0pos,
    {
        end0pos = end0pos - 1;
    }
    assert(end0pos > 0 ==> du@[end0pos as int] != 0);
    if end0pos == 0 {
        emit(writer, eob, Ghost(stream), Ghost(written));
        proof {
            written = written.push(eob);
            assert(written =~= total);
        }
        return;
    }
    let ghost end = end0pos as int;
    let ghost tail = if end0pos != 63 { seq![eob] } else { Seq::<[u16; 2]>::empty() };
    assert(total =~= dc_part + spec_ac_codes(du@, ac_huff@, 1, end) + tail);
    let mut i: usize = 1;
    while i <= end0pos
        invariant
            1 <= i <= end0pos + 1,
            end0pos == end,
            1 <= end <= 63,
            du@[end] != 0,
            writer.wf(),
                writer.bits@ == stream + spec_codes_bits(written),
            total == written + spec_ac_codes(du@, ac_huff@, i as int, end) + tail,
            spec_table_ok(dc_huff@),
            spec_table_ok(ac_huff@),
            forall|i: int| 1 <= i < 64 ==> -32768 < #[trigger] du@[i] < 32768,
            eob == ac_huff@[0],
            zrl == ac_huff@[0xF0],
        decreases end0pos + 1 - i,
    {
        let start = i;
        while i <= end0pos && du[i] == 0
            invariant
                start <= i <= end0pos,
                end0pos == end,
                end <= 63,
                du@[end] != 0,
                spec_zero_run(du@, start as int, end) == (i - start) + spec_zero_run(du@, i as int, end),
            decreases end0pos - i,
        {
            i = i + 1;
        }
        let ghost z = spec_zero_run(du@, start as int, end);
        assert(z == i - start);
        let mut zero_run = i - start;
        let ghost w0 = written;
        let ghost mut c: int = 0;
        while zero_run >= 16
            invariant
                zero_run == z - 16 * c,
                c >= 0,
                z >= 0,
                written == w0 + Seq::new(c as nat, |j: int| ac_huff@[0xF0]),
                writer.wf(),
                writer.bits@ == stream + spec_codes_bits(written),
                spec_table_ok(ac_huff@),
                zrl == ac_huff@[0xF0],
            decreases zero_run,
        {
            emit(writer, zrl, Ghost(stream), Ghost(written));
            proof {
                written = written.push(zrl);
                assert(written =~= w0 + Seq::new((c + 1) as nat, |j: int| ac_huff@[0xF0]));
                c = c + 1;
            }
            zero_run = zero_run - 16;
        }
        assert(c == z / 16 && zero_run == z % 16);
        let bits = calc_bits(du[i]);
        let category = bits[1] as usize;
        proof {
            let v = du@[i as int];
            lemma_bit_len_bound(if v < 0 { -v } else { v as int });
            assert(bits == spec_calc_bits(du@[i as int]));
            assert(category <= 15);
        }
        assert(zero_run << 4 == zero_run * 16) by (bit_vector) requires zero_run < 16;
        let symbol = (zero_run << 4) + category;
        emit(writer, ac_huff[symbol], Ghost(stream), Ghost(written));
        proof {
            written = written.push(ac_huff@[symbol as int]);
        }
        emit(writer, bits, Ghost(stream), Ghost(written));
        proof {
            written = written.push(bits);
            let k = start + z;
            assert(spec_ac_codes(du@, ac_huff@, start as int, end) == Seq::new((z / 16) as nat, |j: int| ac_huff@[0xF0])
                + seq![ac_huff@[(z % 16) * 16 + bits[1]], bits] + spec_ac_codes(du@, ac_huff@, k + 1, end));
            assert(written =~= w0 + (Seq::new((z / 16) as nat, |j: int| ac_huff@[0xF0]) + seq![ac_huff@[(z % 16) * 16
                + bits[1]], bits]));
        }
        i = i + 1;
    }
    if end0pos != 63 {
        emit(writer, eob, Ghost(stream), Ghost(written));
        proof {
            written = written.push(eob);
        }
    }
    assert(written =~= total);
}

/// Maps a natural row-major position of an 8x8 block to its zigzag position.
pub open spec fn spec_zigzag() -> Seq<usize> {
    seq![
        0usize, 1, 5, 6, 14, 15, 27, 28, 2, 4, 7, 13, 16, 26, 29, 42, 3, 8, 12, 17, 25, 30, 41, 43, 9, 11,
        18, 24, 31, 40, 44, 53, 10, 19, 23, 32, 39, 45, 52, 54, 20, 22, 33, 38, 46, 51, 55, 60, 21, 34, 37,
        47, 50, 56, 59, 61, 35, 36, 48, 49, 57, 58, 62, 63,
    ]
}

/// Maps a natural row-major position of an 8x8 block to its zigzag position.
pub fn zigzag_table() -> (r: [usize; 64])
    ensures
        r@ == spec_zigzag(),
{
    let r: [usize; 64] = [
        0usize, 1, 5, 6, 14, 15, 27, 28, 2, 4, 7, 13, 16, 26, 29, 42, 3, 8, 12, 17, 25, 30, 41, 43, 9, 11,
        18, 24, 31, 40, 44, 53, 10, 19, 23, 32, 39, 45, 52, 54, 20, 22, 33, 38, 46, 51, 55, 60, 21, 34, 37,
        47, 50, 56, 59, 61, 35, 36, 48, 49, 57, 58, 62, 63,
    ];
    assert(r@ =~= spec_zigzag());
    r
}

/// The zigzag order of the encoder undoes that of the decoder: a
/// coefficient stored at zigzag position `zigzag[k]` is read back into
/// natural position `k`.
pub proof fn lemma_zigzag_inverse()
    ensures
        forall|k: int| 0 <= k < 64 ==> #[trigger] spec_unzigzag()[spec_zigzag()[k] as int] == k,
{
    assert(spec_unzigzag()[spec_zigzag()[0] as int] == 0);
    assert(spec_unzigzag()[spec_zigzag()[1] as int] == 1);
    assert(spec_unzigzag()[spec_zigzag()[2] as int] == 2);
    assert(spec_unzigzag()[spec_zigzag()[3] as int] == 3);
    assert(spec_unzigzag()[spec_zigzag()[4] as int] == 4);
    assert(spec_unzigzag()[spec_zigzag()[5] as int] == 5);
    assert(spec_unzigzag()[spec_zigzag()[6] as int] == 6);
    assert(spec_unzigzag()[spec_zigzag()[7] as int] == 7);
    assert(spec_unzigzag()[spec_zigzag()[8] as int] == 8);
    assert(spec_unzigzag()[spec_zigzag()[9] as int] == 9);
    assert(spec_unzigzag()[spec_zigzag()[10] as int] == 10);
    assert(spec_unzigzag()[spec_zigzag()[11] as int] == 11);
    assert(spec_unzigzag()[spec_zigzag()[12] as int] == 12);
    assert(spec_unzigzag()[spec_zigzag()[13] as int] == 13);
    assert(spec_unzigzag()[spec_zigzag()[14] as int] == 14);
    assert(spec_unzigzag()[spec_zigzag()[15] as int] == 15);
    assert(spec_unzigzag()[spec_zigzag()[16] as int] == 16);
    assert(spec_unzigzag()[spec_zigzag()[17] as int] == 17);
    assert(spec_unzigzag()[spec_zigzag()[18] as int] == 18);
    assert(spec_unzigzag()[spec_zigzag()[19] as int] == 19);
    assert(spec_unzigzag()[spec_zigzag()[20] as int] == 20);
    assert(spec_unzigzag()[spec_zigzag()[21] as int] == 21);
    assert(spec_unzigzag()[spec_zigzag()[22] as int] == 22);
    assert(spec_unzigzag()[spec_zigzag()[23] as int] == 23);
    assert(spec_unzigzag()[spec_zigzag()[24] as int] == 24);
    assert(spec_unzigzag()[spec_zigzag()[25] as int] == 25);
    assert(spec_unzigzag()[spec_zigzag()[26] as int] == 26);
    assert(spec_unzigzag()[spec_zigzag()[27] as int] == 27);
    assert(spec_unzigzag()[spec_zigzag()[28] as int] == 28);
    assert(spec_unzigzag()[spec_zigzag()[29] as int] == 29);
    assert(spec_unzigzag()[spec_zigzag()[30] as int] == 30);
    assert(spec_unzigzag()[spec_zigzag()[31] as int] == 31);
    assert(spec_unzigzag()[spec_zigzag()[32] as int] == 32);
    assert(spec_unzigzag()[spec_zigzag()[33] as int] == 33);
    assert(spec_unzigzag()[spec_zigzag()[34] as int] == 34);
    assert(spec_unzigzag()[spec_zigzag()[35] as int] == 35);
    assert(spec_unzigzag()[spec_zigzag()[36] as int] == 36);
    assert(spec_unzigzag()[spec_zigzag()[37] as int] == 37);
    assert(spec_unzigzag()[spec_zigzag()[38] as int] == 38);
    assert(spec_unzigzag()[spec_zigzag()[39] as int] == 39);
    assert(spec_unzigzag()[spec_zigzag()[40] as int] == 40);
    assert(spec_unzigzag()[spec_zigzag()[41] as int] == 41);
    assert(spec_unzigzag()[spec_zigzag()[42] as int] == 42);
    assert(spec_unzigzag()[spec_zigzag()[43] as int] == 43);
    assert(spec_unzigzag()[spec_zigzag()[44] as int] == 44);
    assert(spec_unzigzag()[spec_zigzag()[45] as int] == 45);
    assert(spec_unzigzag()[spec_zigzag()[46] as int] == 46);
    assert(spec_unzigzag()[spec_zigzag()[47] as int] == 47);
    assert(spec_unzigzag()[spec_zigzag()[48] as int] == 48);
    assert(spec_unzigzag()[spec_zigzag()[49] as int] == 49);
    assert(spec_unzigzag()[spec_zigzag()[50] as int] == 50);
    assert(spec_unzigzag()[spec_zigzag()[51] as int] == 51);
    assert(spec_unzigzag()[spec_zigzag()[52] as int] == 52);
    assert(spec_unzigzag()[spec_zigzag()[53] as int] == 53);
    assert(spec_unzigzag()[spec_zigzag()[54] as int] == 54);
    assert(spec_unzigzag()[spec_zigzag()[55] as int] == 55);
    assert(spec_unzigzag()[spec_zigzag()[56] as int] == 56);
    assert(spec_unzigzag()[spec_zigzag()[57] as int] == 57);
    assert(spec_unzigzag()[spec_zigzag()[58] as int] == 58);
    assert(spec_unzigzag()[spec_zigzag()[59] as int] == 59);
    assert(spec_unzigzag()[spec_zigzag()[60] as int] == 60);
    assert(spec_unzigzag()[spec_zigzag()[61] as int] == 61);
    assert(spec_unzigzag()[spec_zigzag()[62] as int] == 62);
    assert(spec_unzigzag()[spec_zigzag()[63] as int] == 63);
}

/// The luminance quantization table of ITU-T T.81 Annex K, in natural order.
pub open spec fn spec_yqt() -> Seq<u32> {
    seq![
        16u32, 11, 10, 16, 24, 40, 51, 61, 12, 12, 14, 19, 26, 58, 60, 55, 14, 13, 16, 24, 40, 57, 69, 56,
        14, 17, 22, 29, 51, 87, 80, 62, 18, 22, 37, 56, 68, 109, 103, 77, 24, 35, 55, 64, 81, 104, 113, 92,
        49, 64, 78, 87, 103, 121, 120, 101, 72, 92, 95, 98, 112, 100, 103, 99,
    ]
}

/// The luminance quantization table of ITU-T T.81 Annex K, in natural order.
pub fn yqt() -> (r: [u32; 64])
    ensures
        r@ == spec_yqt(),
{
    let r: [u32; 64] = [
        16u32, 11, 10, 16, 24, 40, 51, 61, 12, 12, 14, 19, 26, 58, 60, 55, 14, 13, 16, 24, 40, 57, 69, 56,
        14, 17, 22, 29, 51, 87, 80, 62, 18, 22, 37, 56, 68, 109, 103, 77, 24, 35, 55, 64, 81, 104, 113, 92,
        49, 64, 78, 87, 103, 121, 120, 101, 72, 92, 95, 98, 112, 100, 103, 99,
    ];
    assert(r@ =~= spec_yqt());
    r
}

/// The chrominance quantization table of ITU-T T.81 Annex K, in natural order.
pub open spec fn spec_uvqt() -> Seq<u32> {
    seq![
        17u32, 18, 24, 47, 99, 99, 99, 99, 18, 21, 26, 66, 99, 99, 99, 99, 24, 26, 56, 99, 99, 99, 99, 99,
        47, 66, 99, 99, 99, 99, 99, 99, 99, 99, 99, 99, 99, 99, 99, 99, 99, 99, 99, 99, 99, 99, 99, 99, 99,
        99, 99, 99, 99, 99, 99, 99, 99, 99, 99, 99, 99, 99, 99, 99,
    ]
}

/// The chrominance quantization table of ITU-T T.81 Annex K, in natural order.
pub fn uvqt() -> (r: [u32; 64])
    ensures
        r@ == spec_uvqt(),
{
    let r: [u32; 64] = [
        17u32, 18, 24, 47, 99, 99, 99, 99, 18, 21, 26, 66, 99, 99, 99, 99, 24, 26, 56, 99, 99, 99, 99, 99,
        47, 66, 99, 99, 99, 99, 99, 99, 99, 99, 99, 99, 99, 99, 99, 99, 99, 99, 99, 99, 99, 99, 99, 99, 99,
        99, 99, 99, 99, 99, 99, 99, 99, 99, 99, 99, 99, 99, 99, 99,
    ];
    assert(r@ =~= spec_uvqt());
    r
}

/// Number of luminance DC codes of each length (entry 0 unused), ITU-T T.81 Annex K.
pub open spec fn spec_dc_lumin_nrcodes() -> Seq<u8> {
    seq![
        0u8, 0, 1, 5, 1, 1, 1, 1, 1, 1, 0, 0, 0, 0, 0, 0, 0,
    ]
}

/// Number of luminance DC codes of each length (entry 0 unused), ITU-T T.81 Annex K.
pub fn dc_lumin_nrcodes() -> (r: [u8; 17])
    ensures
        r@ == spec_dc_lumin_nrcodes(),
{
    let r: [u8; 17] = [
        0u8, 0, 1, 5, 1, 1, 1, 1, 1, 1, 0, 0, 0, 0, 0, 0, 0,
    ];
    assert(r@ =~= spec_dc_lumin_nrcodes());
    r
}

/// Luminance DC symbols by code length, ITU-T T.81 Annex K.
pub open spec fn spec_dc_lumin_values() -> Seq<u8> {
    seq![
        0u8, 1, 2, 3, 4, 5, 6, 7, 8, 9, 10, 11,
    ]
}

/// Luminance DC symbols by code length, ITU-T T.81 Annex K.
pub fn dc_lumin_values() -> (r: [u8; 12])
    ensures
        r@ == spec_dc_lumin_values(),
{
    let r: [u8; 12] = [
        0u8, 1, 2, 3, 4, 5, 6, 7, 8, 9, 10, 11,
    ];
    assert(r@ =~= spec_dc_lumin_values());
    r
}

/// Number of luminance AC codes of each length (entry 0 unused), ITU-T T.81 Annex K.
pub open spec fn spec_ac_lumin_nrcodes() -> Seq<u8> {
    seq![
        0u8, 0, 2, 1, 3, 3, 2, 4, 3, 5, 5, 4, 4, 0, 0, 1, 125,
    ]
}

/// Number of luminance AC codes of each length (entry 0 unused), ITU-T T.81 Annex K.
pub fn ac_lumin_nrcodes() -> (r: [u8; 17])
    ensures
        r@ == spec_ac_lumin_nrcodes(),
{
    let r: [u8; 17] = [
        0u8, 0, 2, 1, 3, 3, 2, 4, 3, 5, 5, 4, 4, 0, 0, 1, 125,
    ];
    assert(r@ =~= spec_ac_lumin_nrcodes());
    r
}

/// Luminance AC symbols by code length, ITU-T T.81 Annex K.
pub open spec fn spec_ac_lumin_values() -> Seq<u8> {
    seq![
        1u8, 2, 3, 0, 4, 17, 5, 18, 33, 49, 65, 6, 19, 81, 97, 7, 34, 113, 20, 50, 129, 145, 161, 8, 35, 66,
        177, 193, 21, 82, 209, 240, 36, 51, 98, 114, 130, 9, 10, 22, 23, 24, 25, 26, 37, 38, 39, 40, 41, 42,
        52, 53, 54, 55, 56, 57, 58, 67, 68, 69, 70, 71, 72, 73, 74, 83, 84, 85, 86, 87, 88, 89, 90, 99, 100,
        101, 102, 103, 104, 105, 106, 115, 116, 117, 118, 119, 120, 121, 122, 131, 132, 133, 134, 135, 136,
        137, 138, 146, 147, 148, 149, 150, 151, 152, 153, 154, 162, 163, 164, 165, 166, 167, 168, 169, 170,
        178, 179, 180, 181, 182, 183, 184, 185, 186, 194, 195, 196, 197, 198, 199, 200, 201, 202, 210, 211,
        212, 213, 214, 215, 216, 217, 218, 225, 226, 227, 228, 229, 230, 231, 232, 233, 234, 241, 242, 243,
        244, 245, 246, 247, 248, 249, 250,
    ]
}

/// Luminance AC symbols by code length, ITU-T T.81 Annex K.
pub fn ac_lumin_values() -> (r: [u8; 162])
    ensures
        r@ == spec_ac_lumin_values(),
{
    let r: [u8; 162] = [
        1u8, 2, 3, 0, 4, 17, 5, 18, 33, 49, 65, 6, 19, 81, 97, 7, 34, 113, 20, 50, 129, 145, 161, 8, 35, 66,
        177, 193, 21, 82, 209, 240, 36, 51, 98, 114, 130, 9, 10, 22, 23, 24, 25, 26, 37, 38, 39, 40, 41, 42,
        52, 53, 54, 55, 56, 57, 58, 67, 68, 69, 70, 71, 72, 73, 74, 83, 84, 85, 86, 87, 88, 89, 90, 99, 100,
        101, 102, 103, 104, 105, 106, 115, 116, 117, 118, 119, 120, 121, 122, 131, 132, 133, 134, 135, 136,
        137, 138, 146, 147, 148, 149, 150, 151, 152, 153, 154, 162, 163, 164, 165, 166, 167, 168, 169, 170,
        178, 179, 180, 181, 182, 183, 184, 185, 186, 194, 195, 196, 197, 198, 199, 200, 201, 202, 210, 211,
        212, 213, 214, 215, 216, 217, 218, 225, 226, 227, 228, 229, 230, 231, 232, 233, 234, 241, 242, 243,
        244, 245, 246, 247, 248, 249, 250,
    ];
    assert(r@ =~= spec_ac_lumin_values());
    r
}

/// Number of chrominance DC codes of each length (entry 0 unused), ITU-T T.81 Annex K.
pub open spec fn spec_dc_chromin_nrcodes() -> Seq<u8> {
    seq![
        0u8, 0, 3, 1, 1, 1, 1, 1, 1, 1, 1, 1, 0, 0, 0, 0, 0,
    ]
}

/// Number of chrominance DC codes of each length (entry 0 unused), ITU-T T.81 Annex K.
pub fn dc_chromin_nrcodes() -> (r: [u8; 17])
    ensures
        r@ == spec_dc_chromin_nrcodes(),
{
    let r: [u8; 17] = [
        0u8, 0, 3, 1, 1, 1, 1, 1, 1, 1, 1, 1, 0, 0, 0, 0, 0,
    ];
    assert(r@ =~= spec_dc_chromin_nrcodes());
    r
}

/// Chrominance DC symbols by code length, ITU-T T.81 Annex K.
pub open spec fn spec_dc_chromin_values() -> Seq<u8> {
    seq![
        0u8, 1, 2, 3, 4, 5, 6, 7, 8, 9, 10, 11,
    ]
}

/// Chrominance DC symbols by code length, ITU-T T.81 Annex K.
pub fn dc_chromin_values() -> (r: [u8; 12])
    ensures
        r@ == spec_dc_chromin_values(),
{
    let r: [u8; 12] = [
        0u8, 1, 2, 3, 4, 5, 6, 7, 8, 9, 10, 11,
    ];
    assert(r@ =~= spec_dc_chromin_values());
    r
}

/// Number of chrominance AC codes of each length (entry 0 unused), ITU-T T.81 Annex K.
pub open spec fn spec_ac_chromin_nrcodes() -> Seq<u8> {
    seq![
        0u8, 0, 2, 1, 2, 4, 4, 3, 4, 7, 5, 4, 4, 0, 1, 2, 119,
    ]
}

/// Number of chrominance AC codes of each length (entry 0 unused), ITU-T T.81 Annex K.
pub fn ac_chromin_nrcodes() -> (r: [u8; 17])
    ensures
        r@ == spec_ac_chromin_nrcodes(),
{
    let r: [u8; 17] = [
        0u8, 0, 2, 1, 2, 4, 4, 3, 4, 7, 5, 4, 4, 0, 1, 2, 119,
    ];
    assert(r@ =~= spec_ac_chromin_nrcodes());
    r
}

/// Chrominance AC symbols by code length, ITU-T T.81 Annex K.
pub open spec fn spec_ac_chromin_values() -> Seq<u8> {
    seq![
        0u8, 1, 2, 3, 17, 4, 5, 33, 49, 6, 18, 65, 81, 7, 97, 113, 19, 34, 50, 129, 8, 20, 66, 145, 161, 177,
        193, 9, 35, 51, 82, 240, 21, 98, 114, 209, 10, 22, 36, 52, 225, 37, 241, 23, 24, 25, 26, 38, 39, 40,
        41, 42, 53, 54, 55, 56, 57, 58, 67, 68, 69, 70, 71, 72, 73, 74, 83, 84, 85, 86, 87, 88, 89, 90, 99,
        100, 101, 102, 103, 104, 105, 106, 115, 116, 117, 118, 119, 120, 121, 122, 130, 131, 132, 133, 134,
        135, 136, 137, 138, 146, 147, 148, 149, 150, 151, 152, 153, 154, 162, 163, 164, 165, 166, 167, 168,
        169, 170, 178, 179, 180, 181, 182, 183, 184, 185, 186, 194, 195, 196, 197, 198, 199, 200, 201, 202,
        210, 211, 212, 213, 214, 215, 216, 217, 218, 226, 227, 228, 229, 230, 231, 232, 233, 234, 242, 243,
        244, 245, 246, 247, 248, 249, 250,
    ]
}

/// Chrominance AC symbols by code length, ITU-T T.81 Annex K.
pub fn ac_chromin_values() -> (r: [u8; 162])
    ensures
        r@ == spec_ac_chromin_values(),
{
    let r: [u8; 162] = [
        0u8, 1, 2, 3, 17, 4, 5, 33, 49, 6, 18, 65, 81, 7, 97, 113, 19, 34, 50, 129, 8, 20, 66, 145, 161, 177,
        193, 9, 35, 51, 82, 240, 21, 98, 114, 209, 10, 22, 36, 52, 225, 37, 241, 23, 24, 25, 26, 38, 39, 40,
        41, 42, 53, 54, 55, 56, 57, 58, 67, 68, 69, 70, 71, 72, 73, 74, 83, 84, 85, 86, 87, 88, 89, 90, 99,
        100, 101, 102, 103, 104, 105, 106, 115, 116, 117, 118, 119, 120, 121, 122, 130, 131, 132, 133, 134,
        135, 136, 137, 138, 146, 147, 148, 149, 150, 151, 152, 153, 154, 162, 163, 164, 165, 166, 167, 168,
        169, 170, 178, 179, 180, 181, 182, 183, 184, 185, 186, 194, 195, 196, 197, 198, 199, 200, 201, 202,
        210, 211, 212, 213, 214, 215, 216, 217, 218, 226, 227, 228, 229, 230, 231, 232, 233, 234, 242, 243,
        244, 245, 246, 247, 248, 249, 250,
    ];
    assert(r@ =~= spec_ac_chromin_values());
    r
}

/// The number of codes of lengths 1 to `len`.
pub open spec fn spec_codes_upto(nr: Seq<u8>, len: int) -> int
    decreases len,
{
    if len <= 0 {
        0
    } else {
        spec_codes_upto(nr, len - 1) + nr[len]
    }
}

/// The first canonical code of length `len`, in 16 bits: each length
/// starts at twice the code after the last code of the length before.
pub open spec fn spec_first_code(nr: Seq<u8>, len: int) -> int
    decreases len,
{
    if len <= 1 {
        0
    } else {
        ((spec_first_code(nr, len - 1) + nr[len - 1]) * 2) % 65536
    }
}

/// The code length of symbol number `k`, from length `len` on.
pub open spec fn spec_len_from(nr: Seq<u8>, k: int, len: int) -> int
    decreases 16 - len,
{
    if len >= 16 || k < spec_codes_upto(nr, len) {
        len
    } else {
        spec_len_from(nr, k, len + 1)
    }
}

/// The canonical code of symbol number `k` and its length, the code
/// masked to that length.
pub open spec fn spec_code_entry(nr: Seq<u8>, k: int) -> [u16; 2] {
    let len = spec_len_from(nr, k, 1);
    let code = ((spec_first_code(nr, len) + k - spec_codes_upto(nr, len - 1)) % 65536) as u32;
    [(code & (((1u32 << (len as u32)) - 1u32) as u32)) as u16, len as u16]
}

/// The table after giving each of the first `count` symbols of `values`
/// its canonical code, indexed by symbol value; a later symbol of the same
/// value wins, values from `n` on are skipped, and symbols without a code
/// keep `[0, 0]`.
pub open spec fn spec_code_table(nr: Seq<u8>, values: Seq<u8>, n: int, count: int) -> Seq<[u16; 2]>
    decreases count,
{
    if count <= 0 {
        Seq::new(n as nat, |i: int| [0u16, 0u16])
    } else {
        let t = spec_code_table(nr, values, n, count - 1);
        let k = count - 1;
        if k < values.len() && (values[k] as int) < n {
            t.update(values[k] as int, spec_code_entry(nr, k))
        } else {
            t
        }
    }
}

pub(crate) proof fn lemma_codes_upto_mono(nr: Seq<u8>, a: int, b: int)
    requires
        0 <= a <= b,
        b < nr.len(),
    ensures
        spec_codes_upto(nr, a) <= spec_codes_upto(nr, b),
        0 <= spec_codes_upto(nr, b) <= 255 * b,
    decreases b,
{
    if b > 0 {
        lemma_codes_upto_mono(nr, if a < b { a } else { b - 1 }, b - 1);
    }
}

proof fn lemma_len_from(nr: Seq<u8>, k: int, l: int, len: int)
    requires
        nr.len() == 17,
        1 <= l <= len <= 16,
        spec_codes_upto(nr, len - 1) <= k < spec_codes_upto(nr, len),
    ensures
        spec_len_from(nr, k, l) == len,
    decreases len - l,
{
    if l < len {
        lemma_codes_upto_mono(nr, l, len - 1);
        lemma_len_from(nr, k, l + 1, len);
    }
}

/// The Huffman code table, indexed by symbol, that assigns canonical codes
/// (ITU-T T.81 Annex C) to `values` by the code counts `nrcodes[1..=16]`;
/// symbols without a code get `[0, 0]`.
pub fn huffman_code_table(nrcodes: &[u8; 17], values: &[u8], n: usize) -> (r: Vec<[u16; 2]>)
    ensures
        r@ == spec_code_table(nrcodes@, values@, n as int, spec_codes_upto(nrcodes@, 16)),
        spec_table_ok(r@),
{
    let mut table: Vec<[u16; 2]> = Vec::new();
    let mut i: usize = 0;
    while i < n
        invariant
            i <= n,
            table@.len() == i,
            spec_table_ok(table@),
            forall|q: int| 0 <= q < i ==> #[trigger] table@[q] == [0u16, 0u16],
        decreases n - i,
    {
        proof {
            lemma_bit_consts();
        }
        assert(spec_code_ok([0u16, 0u16]));
        table.push([0, 0]);
        i = i + 1;
    }
    assert(table@ =~= spec_code_table(nrcodes@, values@, n as int, 0));
    let mut code: u32 = 0;
    let mut k: usize = 0;
    let mut len: usize = 1;
    while len <= 16
        invariant
            1 <= len <= 17,
            table@.len() == n,
            spec_table_ok(table@),
            code <= 0xFFFF,
            code == spec_first_code(nrcodes@, len as int),
            k == spec_codes_upto(nrcodes@, len - 1),
            table@ == spec_code_table(nrcodes@, values@, n as int, k as int),
        decreases 17 - len,
    {
        let count = nrcodes[len];
        let mut c: u8 = 0;
        proof {
            lemma_codes_upto_mono(nrcodes@, 0, len - 1);
            lemma_codes_upto_mono(nrcodes@, 0, len as int);
            assert(255 * len <= 255 * 16);
        }
        while c < count
            invariant
                c <= count,
                count == nrcodes@[len as int],
                1 <= len <= 16,
                table@.len() == n,
                spec_table_ok(table@),
                code <= 0xFFFF,
                code == (spec_first_code(nrcodes@, len as int) + c) % 65536,
                k == spec_codes_upto(nrcodes@, len - 1) + c,
                k <= 255 * 16,
                spec_codes_upto(nrcodes@, len as int) <= 255 * 16,
                spec_codes_upto(nrcodes@, len as int) == spec_codes_upto(nrcodes@, len - 1) + count,
                table@ == spec_code_table(nrcodes@, values@, n as int, k as int),
            decreases count - c,
        {
            let ghost t0 = table@;
            proof {
                lemma_len_from(nrcodes@, k as int, 1, len as int);
            }
            if k < values.len() && (values[k] as usize) < n {
                let l = len as u32;
                assert(1 <= l <= 16 ==> (1u32 << l) >= 2) by (bit_vector);
                let masked = code & ((1u32 << l) - 1);
                assert(1 <= l <= 16 ==> (code & (((1u32 << l) - 1) as u32)) < (1u32 << l) && (1u32 << l) <= 0x10000) by (bit_vector);
                let entry = [masked as u16, len as u16];
                assert(spec_code_ok(entry));
                assert(entry == spec_code_entry(nrcodes@, k as int));
                table.set(values[k] as usize, entry);
                assert forall|i: int| 0 <= i < table@.len() implies spec_code_ok(#[trigger] table@[i]) by {
                    if i != values[k as int] as int {
                        assert(table@[i] == t0[i]);
                    }
                }
            }
            let t = code + 1;
            proof {
                lemma_u32_parts(t);
            }
            code = t & 0xFFFF;
            k = k + 1;
            c = c + 1;
        }
        proof {
            lemma_u32_parts(code);
        }
        let t = code << 1;
        code = t & 0xFFFF;
        len = len + 1;
    }
    table
}

/// A quantization value scaled by a quality factor, kept in 1..=255.
pub open spec fn spec_scaled_quant(base: u32, quality_factor: u32) -> u8 {
    let v = (base * quality_factor + 50) / 100;
    if v < 1 {
        1
    } else if v > 255 {
        255
    } else {
        v as u8
    }
}

/// The quantization tables written to the DQT segment, in zigzag order.
pub struct QuantTables {
    pub luma_quant: [u8; 64],
    pub chroma_quant: [u8; 64],
}

/// A JPEG encoding job.
pub struct EncodingRequest<'a> {
    pub width: u16,
    pub height: u16,
    pub color_type: ColorType,
    pub subsample: bool,
    pub quality_factor: u32,
    pub vertical_flip: bool,
    pub data: &'a [u8],
}

/// The APP0 (JFIF) segment after the start-of-image marker.
pub open spec fn spec_soi_app0() -> Seq<u8> {
    seq![
        0xFFu8, 0xD8, 0xFF, 0xE0, 0x00, 0x10, 0x4A, 0x46, 0x49, 0x46, 0x00, 0x01, 0x01, 0x00, 0x00, 0x01, 0x00,
        0x01, 0x00, 0x00,
    ]
}

/// The start-of-image marker, the JFIF segment and the DQT segment with
/// both quantization tables.
pub open spec fn spec_soi_and_tables(luma: Seq<u8>, chroma: Seq<u8>) -> Seq<u8> {
    spec_soi_app0() + seq![0xFFu8, 0xDB, 0x00, 0x84, 0x00] + luma + seq![0x01u8] + chroma
}

/// The frame header (SOF0) for three components and the DHT segment with
/// the four standard Huffman tables.
pub open spec fn spec_frame_and_tables(width: u16, height: u16, subsample: bool) -> Seq<u8> {
    seq![0xFFu8, 0xC0, 0x00, 0x11, 0x08, (height >> 8u16) as u8, height as u8, (width >> 8u16) as u8, width as u8, 0x03,
        0x01, if subsample { 0x22u8 } else { 0x11u8 }, 0x00, 0x02, 0x11, 0x01, 0x03, 0x11, 0x01, 0xFF, 0xC4, 0x01, 0xA2,
        0x00] + spec_dc_lumin_nrcodes().subrange(1, 17) + spec_dc_lumin_values() + seq![0x10u8]
        + spec_ac_lumin_nrcodes().subrange(1, 17) + spec_ac_lumin_values() + seq![0x01u8] + spec_dc_chromin_nrcodes().subrange(
        1,
        17,
    ) + spec_dc_chromin_values() + seq![0x11u8] + spec_ac_chromin_nrcodes().subrange(1, 17) + spec_ac_chromin_values()
}

/// The scan header (SOS) for three components.
pub open spec fn spec_scan_header() -> Seq<u8> {
    seq![0xFFu8, 0xDA, 0x00, 0x0C, 0x03, 0x01, 0x00, 0x02, 0x11, 0x03, 0x11, 0x00, 0x3F, 0x00]
}

/// Appends all of `s` to `out`.
fn append(out: &mut Vec<u8>, s: &[u8])
    ensures
        final(out)@ == old(out)@ + s@,
{
    let mut i: usize = 0;
    let ghost o = out@;
    while i < s.len()
        invariant
            i <= s@.len(),
            out@ == o + s@.subrange(0, i as int),
            o == old(out)@,
        decreases s@.len() - i,
    {
        out.push(s[i]);
        i = i + 1;
        assert(out@ =~= o + s@.subrange(0, i as int));
    }
    assert(s@.subrange(0, s@.len() as int) =~= s@);
}

impl<'a> EncodingRequest<'a> {
    /// A request, not flipped.
    pub fn new(
        width: u16,
        height: u16,
        color_type: ColorType,
        subsample: bool,
        quality_factor: u32,
        data: &'a [u8],
    ) -> (r: EncodingRequest<'a>)
        ensures
            r.width == width,
            r.height == height,
            r.color_type == color_type,
            r.subsample == subsample,
            r.quality_factor == quality_factor,
            !r.vertical_flip,
            r.data@ == data@,
    {
        EncodingRequest { width, height, color_type, subsample, quality_factor, vertical_flip: false, data }
    }

    /// The quantization tables for the request's quality factor, in zigzag
    /// order: each standard value scaled and kept in 1..=255.
    pub fn build_quant_tables(&self) -> (r: QuantTables)
        requires
            self.quality_factor <= 5000,
        ensures
            forall|k: int| 0 <= k < 64 ==> #[trigger] r.luma_quant@[spec_zigzag()[k] as int] == spec_scaled_quant(
                spec_yqt()[k],
                self.quality_factor,
            ),
            forall|k: int| 0 <= k < 64 ==> #[trigger] r.chroma_quant@[spec_zigzag()[k] as int] == spec_scaled_quant(
                spec_uvqt()[k],
                self.quality_factor,
            ),
    {
        let zz = zigzag_table();
        let yq = yqt();
        let uvq = uvqt();
        let mut luma_quant_table = [0u8; 64];
        let mut chroma_quant_table = [0u8; 64];
        proof {
            lemma_zigzag_inverse();
            assert forall|k: int| 0 <= k < 64 implies #[trigger] spec_zigzag()[k] < 64 by {
                assert(spec_unzigzag()[spec_zigzag()[k] as int] == k);
            }
            assert forall|k: int| 0 <= k < 64 implies #[trigger] spec_yqt()[k] <= 255 by {
                assert(spec_unzigzag()[spec_zigzag()[k] as int] == k);
            }
            assert forall|k: int| 0 <= k < 64 implies #[trigger] spec_uvqt()[k] <= 255 by {
                assert(spec_unzigzag()[spec_zigzag()[k] as int] == k);
            }
        }
        let mut coeff_idx: usize = 0;
        while coeff_idx < 64
            invariant
                coeff_idx <= 64,
                zz@ == spec_zigzag(),
                yq@ == spec_yqt(),
                uvq@ == spec_uvqt(),
                self.quality_factor <= 5000,
                forall|k: int| 0 <= k < 64 ==> #[trigger] spec_unzigzag()[spec_zigzag()[k] as int] == k,
                forall|k: int| 0 <= k < 64 ==> #[trigger] spec_zigzag()[k] < 64,
                forall|k: int| 0 <= k < 64 ==> #[trigger] spec_yqt()[k] <= 255,
                forall|k: int| 0 <= k < 64 ==> #[trigger] spec_uvqt()[k] <= 255,
                forall|k: int| 0 <= k < coeff_idx ==> #[trigger] luma_quant_table@[spec_zigzag()[k] as int]
                    == spec_scaled_quant(spec_yqt()[k], self.quality_factor),
                forall|k: int| 0 <= k < coeff_idx ==> #[trigger] chroma_quant_table@[spec_zigzag()[k] as int]
                    == spec_scaled_quant(spec_uvqt()[k], self.quality_factor),
            decreases 64 - coeff_idx,
        {
            let at = zz[coeff_idx];
            let yv = yq[coeff_idx];
            let uvv = uvq[coeff_idx];
            assert(spec_yqt()[coeff_idx as int] <= 255);
            assert(spec_uvqt()[coeff_idx as int] <= 255);
            assert(yv * self.quality_factor <= 255 * 5000) by (nonlinear_arith)
                requires yv <= 255, self.quality_factor <= 5000;
            assert(uvv * self.quality_factor <= 255 * 5000) by (nonlinear_arith)
                requires uvv <= 255, self.quality_factor <= 5000;
            let luma_quant = (yq[coeff_idx] * self.quality_factor + 50) / 100;
            let lv: u8 = if luma_quant < 1 {
                1
            } else if luma_quant > 255 {
                255
            } else {
                luma_quant as u8
            };
            let chroma_quant = (uvq[coeff_idx] * self.quality_factor + 50) / 100;
            let cv: u8 = if chroma_quant < 1 {
                1
            } else if chroma_quant > 255 {
                255
            } else {
                chroma_quant as u8
            };
            let ghost l0 = luma_quant_table@;
            let ghost c0 = chroma_quant_table@;
            luma_quant_table[at] = lv;
            chroma_quant_table[at] = cv;
            proof {
                assert forall|k: int| 0 <= k < coeff_idx + 1 implies #[trigger] luma_quant_table@[spec_zigzag()[k] as int]
                    == spec_scaled_quant(spec_yqt()[k], self.quality_factor) by {
                    if k < coeff_idx {
                        assert(spec_unzigzag()[spec_zigzag()[k] as int] == k);
                        assert(spec_unzigzag()[spec_zigzag()[coeff_idx as int] as int] == coeff_idx);
                        assert(spec_zigzag()[k] != at);
                        assert(luma_quant_table@[spec_zigzag()[k] as int] == l0[spec_zigzag()[k] as int]);
                    }
                }
                assert forall|k: int| 0 <= k < coeff_idx + 1 implies #[trigger] chroma_quant_table@[spec_zigzag()[k] as int]
                    == spec_scaled_quant(spec_uvqt()[k], self.quality_factor) by {
                    if k < coeff_idx {
                        assert(spec_unzigzag()[spec_zigzag()[k] as int] == k);
                        assert(spec_unzigzag()[spec_zigzag()[coeff_idx as int] as int] == coeff_idx);
                        assert(spec_zigzag()[k] != at);
                        assert(chroma_quant_table@[spec_zigzag()[k] as int] == c0[spec_zigzag()[k] as int]);
                    }
                }
            }
            coeff_idx = coeff_idx + 1;
        }
        QuantTables { luma_quant: luma_quant_table, chroma_quant: chroma_quant_table }
    }

    /// The start-of-image marker, the JFIF segment and both quantization tables.
    pub fn init_soi_and_tables(&self, tables: &QuantTables) -> (r: Vec<u8>)
        ensures
            r@ == spec_soi_and_tables(tables.luma_quant@, tables.chroma_quant@),
    {
        let mut out: Vec<u8> = Vec::new();
        append(&mut out, &[0xFF, 0xD8, 0xFF, 0xE0, 0x00, 0x10, 0x4A, 0x46, 0x49, 0x46, 0x00, 0x01, 0x01, 0x00, 0x00, 0x01, 0x00, 0x01, 0x00, 0x00]);
        append(&mut out, &[0xFF, 0xDB, 0x00, 0x84, 0x00]);
        append(&mut out, &tables.luma_quant);
        append(&mut out, &[0x01]);
        append(&mut out, &tables.chroma_quant);
        assert(out@ =~= spec_soi_and_tables(tables.luma_quant@, tables.chroma_quant@));
        out
    }

    /// The frame header and the four standard Huffman tables.
    pub fn write_dct_huffman_tables(&self) -> (r: Vec<u8>)
        ensures
            r@ == spec_frame_and_tables(self.width, self.height, self.subsample),
    {
        let mut out: Vec<u8> = Vec::new();
        let xy: u8 = if self.subsample { 0x22 } else { 0x11 };
        let h = self.height;
        let w = self.width;
        append(&mut out, &[0xFF, 0xC0, 0x00, 0x11, 0x08, (h >> 8) as u8, h as u8, (w >> 8) as u8, w as u8, 0x03, 0x01, xy, 0x00, 0x02, 0x11, 0x01, 0x03, 0x11, 0x01, 0xFF, 0xC4, 0x01, 0xA2, 0x00]);
        let t = dc_lumin_nrcodes();
        append(&mut out, &t[1..17]);
        append(&mut out, &dc_lumin_values());
        append(&mut out, &[0x10]);
        let t = ac_lumin_nrcodes();
        append(&mut out, &t[1..17]);
        append(&mut out, &ac_lumin_values());
        append(&mut out, &[0x01]);
        let t = dc_chromin_nrcodes();
        append(&mut out, &t[1..17]);
        append(&mut out, &dc_chromin_values());
        append(&mut out, &[0x11]);
        let t = ac_chromin_nrcodes();
        append(&mut out, &t[1..17]);
        append(&mut out, &ac_chromin_values());
        assert(out@ =~= spec_frame_and_tables(self.width, self.height, self.subsample));
        out
    }

    /// Everything the stream holds before the entropy-coded data: the
    /// start-of-image marker, the JFIF segment, the quantization tables, the
    /// frame header, the Huffman tables and the scan header.
    pub fn write_header(&self, tables: &QuantTables) -> (r: Vec<u8>)
        ensures
            r@ == spec_soi_and_tables(tables.luma_quant@, tables.chroma_quant@) + spec_frame_and_tables(
                self.width,
                self.height,
                self.subsample,
            ) + spec_scan_header(),
    {
        let mut out = self.init_soi_and_tables(tables);
        let frame = self.write_dct_huffman_tables();
        append(&mut out, frame.as_slice());
        let scan = self.finish_header();
        append(&mut out, scan.as_slice());
        out
    }

    /// The scan header for the three components.
    pub fn finish_header(&self) -> (r: Vec<u8>)
        ensures
            r@ == spec_scan_header(),
    {
        let mut out: Vec<u8> = Vec::new();
        append(&mut out, &[0xFF, 0xDA, 0x00, 0x0C, 0x03, 0x01, 0x00, 0x02, 0x11, 0x03, 0x11, 0x00, 0x3F, 0x00]);
        assert(out@ =~= spec_scan_header());
        out
    }
}

impl<'a> EncodingRequest<'a> {
    /// Where the input pixel for block row `row` and column `col` starts:
    /// rows and columns past the image repeat its last row and column, and
    /// rows run bottom-up when the image is flipped.
    pub fn pixel_index(&self, row: usize, col: usize) -> (r: usize)
        requires
            self.width >= 1,
            self.height >= 1,
            self.color_type.spec_comp_per_pix() * self.width * self.height <= usize::MAX,
        ensures
            ({
                let comp = self.color_type.spec_comp_per_pix() as int;
                let cr = if row < self.height { row as int } else { self.height - 1 };
                let base = if self.vertical_flip { self.height - 1 - cr } else { cr };
                let cc = if col < self.width { col as int } else { self.width - 1 };
                r == base * self.width * comp + cc * comp
            }),
            r + self.color_type.spec_comp_per_pix() <= self.color_type.spec_comp_per_pix() * self.width * self.height,
    {
        let comp = self.color_type.comp_per_pix() as usize;
        let width = self.width as usize;
        let height = self.height as usize;
        let clamped_row = if row < height { row } else { height - 1 };
        let base_row = if self.vertical_flip { height - 1 - clamped_row } else { clamped_row };
        let clamped_col = if col < width { col } else { width - 1 };
        proof {
            assert(base_row * width * comp + clamped_col * comp + comp <= comp * width * height) by (nonlinear_arith)
                requires base_row < height, clamped_col < width, comp >= 1;
        }
        base_row * width * comp + clamped_col * comp
    }

    /// The red, green and blue samples of the pixel at `idx`; a gray
    /// sample stands for all three.
    pub fn index_rbd_data(&self, idx: usize) -> (r: (u8, u8, u8))
        requires
            idx + self.color_type.spec_comp_per_pix() <= self.data@.len(),
        ensures
            self.color_type.spec_comp_per_pix() <= 2 ==> r == (self.data@[idx as int], self.data@[idx as int], self.data@[idx as int]),
            self.color_type.spec_comp_per_pix() >= 3 ==> r == (self.data@[idx as int], self.data@[idx + 1], self.data@[idx + 2]),
    {
        let comp = self.color_type.comp_per_pix();
        if comp <= 2 {
            let y = self.data[idx];
            (y, y, y)
        } else {
            (self.data[idx], self.data[idx + 1], self.data[idx + 2])
        }
    }
}

/// Settings of the JPEG encoder.
pub struct JpegBuilder {
    pub width: u16,
    pub height: u16,
    pub color_type: ColorType,
    pub quality: u32,
    pub vertical_flip: bool,
}

/// The quality factor of a quality: halved scale above 50, inverse below.
pub open spec fn spec_quality_factor(quality: u32) -> u32 {
    if quality < 50 {
        (5000int / (quality as int)) as u32
    } else {
        (200 - quality * 2) as u32
    }
}

impl JpegBuilder {
    /// Quality 90, not flipped.
    pub fn new(width: u16, height: u16, color_type: ColorType) -> (r: JpegBuilder)
        ensures
            r == (JpegBuilder { width, height, color_type, quality: 90, vertical_flip: false }),
    {
        JpegBuilder { width, height, color_type, quality: 90, vertical_flip: false }
    }

    /// Sets the quality, kept in 1..=100.
    pub fn quality(&mut self, quality: u32) -> (r: &mut Self)
        ensures
            *r == (JpegBuilder {
                quality: if quality < 1 { 1 } else if quality > 100 { 100 } else { quality },
                ..*old(self)
            }),
            *final(self) == *final(r),
    {
        self.quality = if quality < 1 { 1 } else if quality > 100 { 100 } else { quality };
        self
    }

    pub fn vertical_flip(&mut self, yes: bool) -> (r: &mut Self)
        ensures
            *r == (JpegBuilder { vertical_flip: yes, ..*old(self) }),
            *final(self) == *final(r),
    {
        self.vertical_flip = yes;
        self
    }

    /// A request over `data`: chroma is subsampled at quality 90 and below.
    pub fn create_request<'a>(&self, data: &'a [u8]) -> (r: EncodingRequest<'a>)
        requires
            1 <= self.quality <= 100,
        ensures
            r.width == self.width,
            r.height == self.height,
            r.color_type == self.color_type,
            r.subsample == (self.quality <= 90),
            r.quality_factor == spec_quality_factor(self.quality),
            r.quality_factor <= 5000,
            r.vertical_flip == self.vertical_flip,
            r.data@ == data@,
    {
        let quality_factor = if self.quality < 50 { 5000 / self.quality } else { 200 - self.quality * 2 };
        let subsample = self.quality <= 90;
        EncodingRequest {
            width: self.width,
            height: self.height,
            color_type: self.color_type,
            subsample,
            quality_factor,
            vertical_flip: self.vertical_flip,
            data,
        }
    }
}

} // verus!
