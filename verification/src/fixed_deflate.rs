use vstd::prelude::*;
use crate::bytes::{lemma_bit_consts, lemma_u32_parts};

verus! {

/// The low `n` bits of `v`, least significant first.
pub open spec fn spec_lsb_bits(v: u32, n: nat) -> Seq<bool> {
    Seq::new(n, |i: int| (v >> (i as u32)) & 1u32 == 1u32)
}

/// The low `n` bits of `v`, most significant first.
pub open spec fn spec_msb_bits(v: u32, n: nat) -> Seq<bool> {
    Seq::new(n, |i: int| (v >> ((n - 1 - i) as u32)) & 1u32 == 1u32)
}

/// The byte whose bits, least significant first, are `b[0..8]`.
pub open spec fn spec_byte_lsb(b: Seq<bool>) -> u8 {
    (if b[0] { 1u8 } else { 0u8 }) | (if b[1] { 2u8 } else { 0u8 }) | (if b[2] { 4u8 } else { 0u8 }) | (if b[3] {
        8u8
    } else {
        0u8
    }) | (if b[4] { 16u8 } else { 0u8 }) | (if b[5] { 32u8 } else { 0u8 }) | (if b[6] { 64u8 } else { 0u8 }) | (if b[7] {
        128u8
    } else {
        0u8
    })
}

/// Groups of eight bits packed into bytes, least significant bit first, as
/// deflate packs them.
pub open spec fn spec_pack_lsb(bits: Seq<bool>) -> Seq<u8>
    decreases bits.len(),
{
    if bits.len() < 8 {
        Seq::empty()
    } else {
        seq![spec_byte_lsb(bits.subrange(0, 8))] + spec_pack_lsb(bits.subrange(8, bits.len() as int))
    }
}

/// `bits` followed by zero bits up to a whole number of bytes.
pub open spec fn spec_pad(bits: Seq<bool>) -> Seq<bool> {
    bits + Seq::new(((8 - bits.len() % 8) % 8) as nat, |i: int| false)
}

/// The low `codebits` bits of `code`, reversed.
pub open spec fn spec_bitrev(code: u32, codebits: nat) -> u32
    decreases codebits,
{
    if codebits == 0 {
        0
    } else {
        ((spec_bitrev(code, (codebits - 1) as nat) << 1u32) | ((code >> ((codebits - 1) as u32)) & 1u32)) as u32
    }
}

/// `x + y` modulo 2^32.
pub open spec fn spec_wrap_add(x: u32, y: u32) -> u32 {
    ((x as int + y as int) % 0x1_0000_0000) as u32
}

/// The bucket hash of the three bytes at the start of `data`.
pub open spec fn spec_zhash(data: Seq<u8>) -> u32 {
    let h0 = (data[0] as u32) | ((data[1] as u32) << 8u32) | ((data[2] as u32) << 16u32);
    let h1 = h0 ^ (h0 << 3u32);
    let h2 = spec_wrap_add(h1, h1 >> 5u32);
    let h3 = h2 ^ (h2 << 4u32);
    let h4 = spec_wrap_add(h3, h3 >> 17u32);
    let h5 = h4 ^ (h4 << 25u32);
    spec_wrap_add(h5, h5 >> 6u32)
}

/// A hash of the three bytes at the start of `data`, spreading nearby
/// values apart.
pub fn zhash(data: &[u8]) -> (r: u32)
    requires
        data@.len() >= 3,
    ensures
        r == spec_zhash(data@),
{
    let mut hash: u32 = data[0] as u32 | ((data[1] as u32) << 8) | ((data[2] as u32) << 16);
    hash ^= hash << 3;
    hash = hash.wrapping_add(hash >> 5);
    hash ^= hash << 4;
    hash = hash.wrapping_add(hash >> 17);
    hash ^= hash << 25;
    hash = hash.wrapping_add(hash >> 6);
    hash
}

/// Length of the common prefix of `prev` and `cur`, at most `limit` and 258.
pub fn zlib_count_match(prev: &[u8], cur: &[u8], limit: usize) -> (r: usize)
    ensures
        r <= prev@.len(),
        r <= cur@.len(),
        r <= limit,
        r <= 258,
        forall|k: int| 0 <= k < r ==> prev@[k] == cur@[k],
        r < prev@.len() && r < cur@.len() && r < limit && r < 258 ==> prev@[r as int] != cur@[r as int],
{
    let mut bound = limit;
    if prev.len() < bound {
        bound = prev.len();
    }
    if cur.len() < bound {
        bound = cur.len();
    }
    if 258 < bound {
        bound = 258;
    }
    let mut i: usize = 0;
    while i < bound
        invariant
            i <= bound,
            bound <= prev@.len(),
            bound <= cur@.len(),
            bound <= 258,
            bound <= limit,
            bound == prev@.len() || bound == cur@.len() || bound == limit || bound == 258,
            forall|k: int| 0 <= k < i ==> prev@[k] == cur@[k],
        decreases bound - i,
    {
        if prev[i] != cur[i] {
            return i;
        }
        i = i + 1;
    }
    bound
}

proof fn lemma_bitrev_step(r0: u32, c0: u32, k: u32)
    by (bit_vector)
    requires
        k < 31,
    ensures
        r0 < (1u32 << k) ==> ((r0 << 1u32) | ((c0 >> k) & 1u32)) < (1u32 << ((k + 1) as u32)),
        (c0 >> k) >> 1u32 == c0 >> ((k + 1) as u32),
        ((c0 >> k) & 1u32) <= 1,
        (1u32 << k) <= 0x8000_0000u32,
{
}

/// The low `codebits` bits of `code`, reversed.
pub fn zlib_bitrev(code: u32, codebits: u8) -> (r: u32)
    requires
        codebits <= 31,
    ensures
        r == spec_bitrev(code, codebits as nat),
        r < (1u32 << (codebits as u32)),
{
    let mut code = code;
    let ghost c0 = code;
    let mut res: u32 = 0;
    let mut i: u8 = 0;
    proof {
        lemma_bit_consts();
        lemma_u32_parts(c0);
    }
    while i < codebits
        invariant
            i <= codebits,
            codebits <= 31,
            res == spec_bitrev(c0, i as nat),
            code == c0 >> (i as u32),
            res < (1u32 << (i as u32)),
        decreases codebits - i,
    {
        let ghost r0 = res;
        let ghost k = i;
        assert(((c0 >> (k as u32)) & 1u32) == ((c0 >> ((k + 1 - 1) as u32)) & 1u32));
        proof {
            lemma_bitrev_step(r0, c0, k as u32);
        }
        res = (res << 1) | (code & 1);
        code = code >> 1;
        i = i + 1;
    }
    res
}


/// The two bytes that open every zlib stream written here: deflate with a
/// 32K window, and check bits for the header.
pub open spec fn spec_zlib_header() -> Seq<u8> {
    seq![0x78u8, 0x5eu8]
}

proof fn lemma_pack_append8(a: Seq<bool>, e: Seq<bool>)
    requires
        a.len() % 8 == 0,
        e.len() == 8,
    ensures
        spec_pack_lsb(a + e) == spec_pack_lsb(a).push(spec_byte_lsb(e)),
    decreases a.len(),
{
    if a.len() == 0 {
        assert(a + e =~= e);
        assert(e.subrange(0, 8) =~= e);
        assert(spec_pack_lsb(e.subrange(8, 8)) == Seq::<u8>::empty());
        assert(spec_pack_lsb(a) == Seq::<u8>::empty());
        assert(spec_pack_lsb(a + e) =~= spec_pack_lsb(a).push(spec_byte_lsb(e)));
    } else {
        let s = a + e;
        assert(s.subrange(0, 8) =~= a.subrange(0, 8));
        assert(s.subrange(8, s.len() as int) =~= a.subrange(8, a.len() as int) + e);
        lemma_pack_append8(a.subrange(8, a.len() as int), e);
        assert(spec_pack_lsb(a + e) =~= spec_pack_lsb(a).push(spec_byte_lsb(e)));
    }
}

proof fn lemma_or(buf: u32, code: u32, c: u32, k: u32, i: u32)
    by (bit_vector)
    requires
        c < 8,
        k <= 24,
        buf < (1u32 << c),
    ensures
        1u32 <= (1u32 << k),
        (buf | ((code & (((1u32 << k) - 1u32) as u32)) << c)) < (1u32 << ((c + k) as u32)),
        i < c ==> ((buf | ((code & (((1u32 << k) - 1u32) as u32)) << c)) >> i) & 1u32 == (buf >> i) & 1u32,
        c <= i && i < c + k ==> ((buf | ((code & (((1u32 << k) - 1u32) as u32)) << c)) >> i) & 1u32 == (code >> ((i
            - c) as u32)) & 1u32,
{
}

proof fn lemma_low_byte(buf: u32)
    by (bit_vector)
    ensures
        ((buf & 0xffu32) as u8) == ((if (buf >> 0u32) & 1u32 == 1u32 { 1u8 } else { 0u8 }) | (if (buf >> 1u32) & 1u32
            == 1u32 { 2u8 } else { 0u8 }) | (if (buf >> 2u32) & 1u32 == 1u32 { 4u8 } else { 0u8 }) | (if (buf >> 3u32)
            & 1u32 == 1u32 { 8u8 } else { 0u8 }) | (if (buf >> 4u32) & 1u32 == 1u32 { 16u8 } else { 0u8 }) | (if (buf
            >> 5u32) & 1u32 == 1u32 { 32u8 } else { 0u8 }) | (if (buf >> 6u32) & 1u32 == 1u32 { 64u8 } else { 0u8 })
            | (if (buf >> 7u32) & 1u32 == 1u32 { 128u8 } else { 0u8 })),
{
}

proof fn lemma_shr8(buf: u32, c: u32, i: u32)
    by (bit_vector)
    requires
        8 <= c < 32,
        buf < (1u32 << c),
        i < 24,
    ensures
        ((buf >> 8u32) >> i) & 1u32 == (buf >> ((i + 8u32) as u32)) & 1u32,
        (buf >> 8u32) < (1u32 << ((c - 8u32) as u32)),
{
}

proof fn lemma_shl_or(x: u32, b: u32, k: u32, m: u32)
    by (bit_vector)
    requires
        b <= 1,
        k < 32,
        m < 31,
        x < (1u32 << m),
    ensures
        k == 0 ==> (((x << 1u32) | b) >> k) & 1u32 == b,
        k > 0 ==> (((x << 1u32) | b) >> k) & 1u32 == (x >> ((k - 1u32) as u32)) & 1u32,
        ((x << 1u32) | b) < (1u32 << ((m + 1u32) as u32)),
{
}

/// Reversing `n` bits turns the bit at `k` into the bit at `n - 1 - k`.
proof fn lemma_bitrev(code: u32, n: nat)
    requires
        n <= 31,
    ensures
        spec_bitrev(code, n) < (1u32 << (n as u32)),
        forall|k: int|
            0 <= k < n ==> (#[trigger] (spec_bitrev(code, n) >> (k as u32)) & 1u32) == (code >> ((n - 1 - k) as u32))
                & 1u32,
    decreases n,
{
    if n == 0 {
        lemma_bit_consts();
    } else {
        let m = (n - 1) as nat;
        lemma_bitrev(code, m);
        let x = spec_bitrev(code, m);
        let mu = m as u32;
        let b = (code >> mu) & 1u32;
        lemma_bitrev_step(0, code, mu);
        lemma_shl_or(x, b, 0, mu);
        assert(spec_bitrev(code, n) == ((x << 1u32) | b));
        assert forall|k: int| 0 <= k < n implies (#[trigger] (spec_bitrev(code, n) >> (k as u32)) & 1u32) == (code
            >> ((n - 1 - k) as u32)) & 1u32 by {
            lemma_shl_or(x, b, k as u32, mu);
            if k > 0 {
                assert((x >> ((k - 1) as u32)) & 1u32 == (code >> ((m - 1 - (k - 1)) as u32)) & 1u32);
            }
        }
    }
}

/// A Huffman code of `n` bits as deflate sends it, most significant bit
/// first.
pub open spec fn spec_huff_bits(code: u32, n: nat) -> Seq<bool> {
    spec_msb_bits(code, n)
}

proof fn lemma_huff_bits(code: u32, n: nat)
    requires
        n <= 31,
    ensures
        spec_lsb_bits(spec_bitrev(code, n), n) == spec_huff_bits(code, n),
{
    lemma_bitrev(code, n);
    assert forall|i: int| 0 <= i < n implies #[trigger] spec_lsb_bits(spec_bitrev(code, n), n)[i] == spec_msb_bits(
        code,
        n,
    )[i] by {
        assert((spec_bitrev(code, n) >> (i as u32)) & 1u32 == (code >> ((n - 1 - i) as u32)) & 1u32);
    }
    assert(spec_lsb_bits(spec_bitrev(code, n), n) =~= spec_huff_bits(code, n));
}

/// The fixed Huffman code of a literal/length symbol, as (code, length).
pub open spec fn spec_fixed_code(sym: u32) -> (u32, nat) {
    if sym <= 143 {
        ((0x30 + sym) as u32, 8)
    } else if sym <= 255 {
        ((0x190 + sym - 144) as u32, 9)
    } else if sym <= 279 {
        ((sym - 256) as u32, 7)
    } else {
        ((0xc0 + sym - 280) as u32, 8)
    }
}

/// The bits that send literal/length symbol `sym` in a fixed Huffman block.
pub open spec fn spec_fixed_sym_bits(sym: u32) -> Seq<bool> {
    spec_huff_bits(spec_fixed_code(sym).0, spec_fixed_code(sym).1)
}

/// Deflate output under construction: whole bytes in `out`, the last
/// `bitcount` bits in `bitbuf`, first bit lowest.
struct ZlibBitWriter {
    bitbuf: u32,
    bitcount: u8,
    out: Vec<u8>,
    bits: Ghost<Seq<bool>>,
}

impl ZlibBitWriter {
    /// `out` holds the header and every whole byte of `bits`; the bits after
    /// the last whole byte wait in `bitbuf`.
    spec fn pending_ok(&self) -> bool {
        let n = self.bits@.len() as int;
        let c = self.bitcount as int;
        &&& c <= n
        &&& c < 32
        &&& (n - c) % 8 == 0
        &&& self.bitbuf < (1u32 << (c as u32))
        &&& self.out@ == spec_zlib_header() + spec_pack_lsb(self.bits@.subrange(0, n - c))
        &&& spec_lsb_bits(self.bitbuf, c as nat) == self.bits@.subrange(n - c, n)
    }

    spec fn wf(&self) -> bool {
        self.pending_ok() && self.bitcount < 8
    }

    fn new() -> (w: Self)
        ensures
            w.wf(),
            w.bits@ == Seq::<bool>::empty(),
    {
        let mut out: Vec<u8> = Vec::new();
        out.push(0x78);
        out.push(0x5e);
        let w = ZlibBitWriter { bitbuf: 0, bitcount: 0, out, bits: Ghost(Seq::empty()) };
        proof {
            lemma_bit_consts();
            assert(w.bits@.subrange(0, 0) =~= Seq::<bool>::empty());
            assert(spec_pack_lsb(Seq::<bool>::empty()) == Seq::<u8>::empty());
            assert(w.out@ =~= spec_zlib_header() + spec_pack_lsb(w.bits@.subrange(0, 0)));
            assert(spec_lsb_bits(0u32, 0) =~= w.bits@.subrange(0, 0));
        }
        w
    }

    /// Moves every whole byte of pending bits to `out`.
    fn flush_full_bytes(&mut self)
        requires
            old(self).pending_ok(),
        ensures
            final(self).wf(),
            final(self).bits@ == old(self).bits@,
    {
        while self.bitcount >= 8
            invariant
                self.pending_ok(),
                self.bits@ == old(self).bits@,
            decreases self.bitcount,
        {
            let ghost n = self.bits@.len() as int;
            let ghost c = self.bitcount as int;
            let ghost buf = self.bitbuf;
            let ghost out0 = self.out@;
            let byte = (self.bitbuf & 0xff) as u8;
            self.out.push(byte);
            self.bitbuf = self.bitbuf >> 8;
            self.bitcount = self.bitcount - 8;
            proof {
                let bits = self.bits@;
                let pend = spec_lsb_bits(buf, c as nat);
                let e = bits.subrange(n - c, n - c + 8);
                assert(e =~= pend.subrange(0, 8));
                lemma_low_byte(buf);
                assert(byte == spec_byte_lsb(e));
                lemma_pack_append8(bits.subrange(0, n - c), e);
                assert(bits.subrange(0, n - c) + e =~= bits.subrange(0, n - c + 8));
                assert(self.out@ =~= spec_zlib_header() + spec_pack_lsb(bits.subrange(0, n - (c - 8))));
                lemma_shr8(buf, c as u32, 0);
                assert forall|i: int| 0 <= i < c - 8 implies #[trigger] spec_lsb_bits(self.bitbuf, (c - 8) as nat)[i]
                    == bits.subrange(n - (c - 8), n)[i] by {
                    lemma_shr8(buf, c as u32, i as u32);
                    assert(pend[i + 8] == bits[n - c + i + 8]);
                }
                assert(spec_lsb_bits(self.bitbuf, (c - 8) as nat) =~= bits.subrange(n - (c - 8), n));
            }
        }
    }

    /// Appends the low `codebits` bits of `code`, lowest first.
    fn add_bits(&mut self, code: u32, codebits: u8)
        requires
            old(self).wf(),
            codebits <= 24,
        ensures
            final(self).wf(),
            final(self).bits@ == old(self).bits@ + spec_lsb_bits(code, codebits as nat),
    {
        let mask: u32 = if codebits == 32 {
            u32::MAX
        } else {
            proof {
                lemma_or(self.bitbuf, code, self.bitcount as u32, codebits as u32, 0);
            }
            (1u32 << codebits) - 1
        };
        let ghost n = self.bits@.len() as int;
        let ghost c = self.bitcount as u32;
        let ghost buf = self.bitbuf;
        let ghost k = codebits as u32;
        let ghost old_bits = self.bits@;
        proof {
            assert(mask == (((1u32 << k) - 1u32) as u32));
            lemma_or(buf, code, c, k, 0);
        }
        self.bitbuf = self.bitbuf | ((code & mask) << self.bitcount);
        self.bitcount = self.bitcount + codebits;
        self.bits = Ghost(old_bits + spec_lsb_bits(code, codebits as nat));
        proof {
            let bits = self.bits@;
            let m = bits.len() as int;
            let nc = (c + k) as int;
            assert(m == n + k);
            assert forall|i: int| 0 <= i < nc implies #[trigger] spec_lsb_bits(self.bitbuf, nc as nat)[i]
                == bits.subrange(m - nc, m)[i] by {
                if i < c {
                    lemma_or(buf, code, c, k, i as u32);
                    assert(spec_lsb_bits(buf, c as nat)[i] == old_bits.subrange(n - c, n)[i]);
                } else {
                    lemma_or(buf, code, c, k, i as u32);
                    assert(spec_lsb_bits(code, k as nat)[i - c] == bits[n + i - c]);
                }
            }
            assert(spec_lsb_bits(self.bitbuf, nc as nat) =~= bits.subrange(m - nc, m));
            assert(bits.subrange(0, m - nc) =~= old_bits.subrange(0, n - c));
        }
        self.flush_full_bytes();
    }
    /// Appends a Huffman code, most significant bit first.
    fn add_huff(&mut self, code: u32, codebits: u8)
        requires
            old(self).wf(),
            codebits <= 24,
        ensures
            final(self).wf(),
            final(self).bits@ == old(self).bits@ + spec_huff_bits(code, codebits as nat),
    {
        let reversed = zlib_bitrev(code, codebits);
        proof {
            lemma_huff_bits(code, codebits as nat);
        }
        self.add_bits(reversed, codebits);
    }

    /// Appends literal/length symbol `n` in the fixed Huffman code.
    fn add_fixed_huff(&mut self, n: u32)
        requires
            old(self).wf(),
            n <= 287,
        ensures
            final(self).wf(),
            final(self).bits@ == old(self).bits@ + spec_fixed_sym_bits(n),
    {
        if n <= 143 {
            self.add_huff(0x30 + n, 8);
        } else if n <= 255 {
            self.add_huff(0x190 + n - 144, 9);
        } else if n <= 279 {
            self.add_huff(n - 256, 7);
        } else {
            self.add_huff(0xc0 + n - 280, 8);
        }
    }

    /// Appends a literal byte in the fixed Huffman code.
    fn add_fixed_huff_byte(&mut self, byte: u8)
        requires
            old(self).wf(),
        ensures
            final(self).wf(),
            final(self).bits@ == old(self).bits@ + spec_fixed_sym_bits(byte as u32),
    {
        let n = byte as u32;
        if n <= 143 {
            self.add_huff(0x30 + n, 8);
        } else {
            self.add_huff(0x190 + n - 144, 9);
        }
    }

    /// Opens the one and final block, with fixed Huffman codes.
    fn start_fixed_huffman_block(&mut self)
        requires
            old(self).wf(),
        ensures
            final(self).wf(),
            final(self).bits@ == old(self).bits@ + seq![true, true, false],
    {
        self.add_bits(1, 1);
        self.add_bits(1, 2);
        proof {
            lemma_bit_consts();
            assert(spec_lsb_bits(1u32, 1) =~= seq![true]);
            assert(spec_lsb_bits(1u32, 2) =~= seq![true, false]);
            assert(final(self).bits@ =~= old(self).bits@ + seq![true, true, false]);
        }
    }

    /// Appends zero bits up to the next byte boundary.
    fn pad_to_byte(&mut self)
        requires
            old(self).wf(),
        ensures
            final(self).wf(),
            final(self).bitcount == 0,
            final(self).bits@ == spec_pad(old(self).bits@),
    {
        let ghost b0 = self.bits@;
        while self.bitcount != 0
            invariant
                self.wf(),
                b0.len() <= self.bits@.len(),
                self.bits@.subrange(0, b0.len() as int) == b0,
                forall|i: int| b0.len() <= i < self.bits@.len() ==> !self.bits@[i],
                self.bitcount == 0 ==> self.bits@.len() == spec_pad(b0).len(),
                self.bitcount != 0 ==> self.bits@.len() < spec_pad(b0).len(),
                (spec_pad(b0).len() - self.bits@.len()) % 8 == (8 - self.bitcount) % 8,
            decreases spec_pad(b0).len() - self.bits@.len(),
        {
            self.add_bits(0, 1);
            proof {
                lemma_bit_consts();
            }
        }
        assert(self.bits@ =~= spec_pad(b0));
    }

    /// Appends a whole byte after the bits, which must end on a byte
    /// boundary.
    fn push(&mut self, byte: u8)
        ensures
            final(self).out@ == old(self).out@.push(byte),
            final(self).bitcount == old(self).bitcount,
            final(self).bitbuf == old(self).bitbuf,
    {
        self.out.push(byte);
    }

    /// Starts over with the header alone.
    fn reset(&mut self)
        ensures
            final(self).wf(),
            final(self).bits@ == Seq::<bool>::empty(),
            final(self).out@ == spec_zlib_header(),
    {
        self.bitbuf = 0;
        self.bitcount = 0;
        self.out.clear();
        self.out.push(0x78);
        self.out.push(0x5e);
        self.bits = Ghost(Seq::empty());
        proof {
            lemma_bit_consts();
            assert(self.bits@.subrange(0, 0) =~= Seq::<bool>::empty());
            assert(spec_pack_lsb(Seq::<bool>::empty()) == Seq::<u8>::empty());
            assert(self.out@ =~= spec_zlib_header());
            assert(self.out@ =~= spec_zlib_header() + spec_pack_lsb(self.bits@.subrange(0, 0)));
            assert(spec_lsb_bits(0u32, 0) =~= self.bits@.subrange(0, 0));
        }
    }
}



/// Base length of each length symbol, indexed by symbol minus 257, with one
/// past the last.
pub open spec fn spec_length_base() -> Seq<usize> {
    seq![
        3usize, 4, 5, 6, 7, 8, 9, 10, 11, 13, 15, 17, 19, 23, 27, 31, 35, 43, 51, 59, 67, 83, 99, 115, 131, 163,
        195, 227, 258, 259,
    ]
}

/// Extra bits of each length symbol, indexed by symbol minus 257.
pub open spec fn spec_length_extra() -> Seq<u8> {
    seq![0u8, 0, 0, 0, 0, 0, 0, 0, 1, 1, 1, 1, 2, 2, 2, 2, 3, 3, 3, 3, 4, 4, 4, 4, 5, 5, 5, 5, 0]
}

/// Base distance of each distance code, with one past the last.
pub open spec fn spec_dist_base() -> Seq<usize> {
    seq![
        1usize, 2, 3, 4, 5, 7, 9, 13, 17, 25, 33, 49, 65, 97, 129, 193, 257, 385, 513, 769, 1025, 1537, 2049, 3073,
        4097, 6145, 8193, 12289, 16385, 24577, 32768,
    ]
}

/// Extra bits of each distance code.
pub open spec fn spec_dist_extra() -> Seq<u8> {
    seq![0u8, 0, 0, 0, 1, 1, 2, 2, 3, 3, 4, 4, 5, 5, 6, 6, 7, 7, 8, 8, 9, 9, 10, 10, 11, 11, 12, 12, 13, 13]
}

fn length_base() -> (r: [usize; 30])
    ensures
        r@ == spec_length_base(),
{
    let r: [usize; 30] = [
        3usize, 4, 5, 6, 7, 8, 9, 10, 11, 13, 15, 17, 19, 23, 27, 31, 35, 43, 51, 59, 67, 83, 99, 115, 131, 163,
        195, 227, 258, 259,
    ];
    assert(r@ =~= spec_length_base());
    r
}

fn length_extra() -> (r: [u8; 29])
    ensures
        r@ == spec_length_extra(),
{
    let r: [u8; 29] = [0u8, 0, 0, 0, 0, 0, 0, 0, 1, 1, 1, 1, 2, 2, 2, 2, 3, 3, 3, 3, 4, 4, 4, 4, 5, 5, 5, 5, 0];
    assert(r@ =~= spec_length_extra());
    r
}

fn dist_base() -> (r: [usize; 31])
    ensures
        r@ == spec_dist_base(),
{
    let r: [usize; 31] = [
        1usize, 2, 3, 4, 5, 7, 9, 13, 17, 25, 33, 49, 65, 97, 129, 193, 257, 385, 513, 769, 1025, 1537, 2049, 3073,
        4097, 6145, 8193, 12289, 16385, 24577, 32768,
    ];
    assert(r@ =~= spec_dist_base());
    r
}

fn dist_extra() -> (r: [u8; 30])
    ensures
        r@ == spec_dist_extra(),
{
    let r: [u8; 30] = [0u8, 0, 0, 0, 1, 1, 2, 2, 3, 3, 4, 4, 5, 5, 6, 6, 7, 7, 8, 8, 9, 9, 10, 10, 11, 11, 12, 12, 13, 13];
    assert(r@ =~= spec_dist_extra());
    r
}

/// The first slot, from `j` on, whose next base exceeds `v` (the last slot
/// if none does): in a table of increasing bases, the slot that covers `v`.
pub open spec fn spec_slot_from(table: Seq<usize>, v: int, j: nat) -> nat
    decreases table.len() - j,
{
    if j + 2 >= table.len() || v < table[j + 1 as int] {
        j
    } else {
        spec_slot_from(table, v, j + 1)
    }
}

/// The length symbol (minus 257) that covers match length `len`.
pub open spec fn spec_length_slot(len: int) -> nat {
    spec_slot_from(spec_length_base(), len, 0)
}

/// The distance code that covers distance `dist`.
pub open spec fn spec_dist_slot(dist: int) -> nat {
    spec_slot_from(spec_dist_base(), dist, 0)
}

/// Finds the first slot of `v` in a table of bases: the first whose next
/// base exceeds `v`, where the last base does.
fn find_slot(table: &[usize], v: usize) -> (j: usize)
    requires
        2 <= table@.len() <= 64,
        v < table@[table@.len() - 1],
    ensures
        j == spec_slot_from(table@, v as int, 0),
        j + 1 < table@.len(),
        j > 0 ==> table@[j as int] <= v,
        v < table@[j + 1],
{
    let mut j: usize = 0;
    loop
        invariant
            j + 1 < table@.len(),
            table@.len() <= 64,
            v < table@[table@.len() - 1],
            spec_slot_from(table@, v as int, 0) == spec_slot_from(table@, v as int, j as nat),
            j > 0 ==> table@[j as int] <= v,
        ensures
            j + 1 < table@.len(),
            spec_slot_from(table@, v as int, 0) == j,
            j > 0 ==> table@[j as int] <= v,
            v < table@[j + 1],
        decreases table@.len() - j,
    {
        let next = table[j + 1];
        if v >= next {
            assert(j + 2 < table@.len());
            j = j + 1;
        } else {
            break;
        }
    }
    j
}

/// One step of a deflate stream: a byte, or a copy of `length` bytes from
/// `distance` bytes back.
#[derive(Clone, Copy, Debug, PartialEq, Eq)]
pub enum DeflateToken {
    Literal(u8),
    Match { length: u16, distance: u16 },
}

/// `out` extended by `len` bytes, each the byte `dist` before it.
pub open spec fn spec_copy(out: Seq<u8>, dist: nat, len: nat) -> Seq<u8>
    decreases len,
{
    if len == 0 {
        out
    } else {
        spec_copy(out.push(out[out.len() - dist]), dist, (len - 1) as nat)
    }
}

/// The bytes that a sequence of tokens stands for.
pub open spec fn spec_expand(tokens: Seq<DeflateToken>) -> Seq<u8>
    decreases tokens.len(),
{
    if tokens.len() == 0 {
        Seq::empty()
    } else {
        let prefix = spec_expand(tokens.drop_last());
        match tokens.last() {
            DeflateToken::Literal(b) => prefix.push(b),
            DeflateToken::Match { length, distance } => spec_copy(prefix, distance as nat, length as nat),
        }
    }
}

/// Every match is 3 to 258 bytes long and reaches back 1 to 32767 bytes,
/// no further than the bytes before it.
pub open spec fn spec_tokens_ok(tokens: Seq<DeflateToken>) -> bool
    decreases tokens.len(),
{
    if tokens.len() == 0 {
        true
    } else {
        spec_tokens_ok(tokens.drop_last()) && match tokens.last() {
            DeflateToken::Literal(_) => true,
            DeflateToken::Match { length, distance } => 3 <= length <= 258 && 1 <= distance <= 32767 && distance
                <= spec_expand(tokens.drop_last()).len(),
        }
    }
}

/// The bits of one token in a fixed Huffman block.
pub open spec fn spec_token_bits(t: DeflateToken) -> Seq<bool> {
    match t {
        DeflateToken::Literal(b) => spec_fixed_sym_bits(b as u32),
        DeflateToken::Match { length, distance } => {
            let j = spec_length_slot(length as int);
            let d = spec_dist_slot(distance as int);
            spec_fixed_sym_bits((257 + j) as u32) + spec_lsb_bits(
                (length - spec_length_base()[j as int]) as u32,
                spec_length_extra()[j as int] as nat,
            ) + spec_huff_bits(d as u32, 5) + spec_lsb_bits(
                (distance - spec_dist_base()[d as int]) as u32,
                spec_dist_extra()[d as int] as nat,
            )
        },
    }
}

/// The bits of a sequence of tokens, one after another.
pub open spec fn spec_tokens_bits(tokens: Seq<DeflateToken>) -> Seq<bool>
    decreases tokens.len(),
{
    if tokens.len() == 0 {
        Seq::empty()
    } else {
        spec_tokens_bits(tokens.drop_last()) + spec_token_bits(tokens.last())
    }
}

/// A zlib stream whose single deflate block holds `tokens` under the fixed
/// Huffman code, padded to a whole byte, without the checksum.
pub open spec fn spec_fixed_stream(tokens: Seq<DeflateToken>) -> Seq<u8> {
    spec_zlib_header() + spec_pack_lsb(
        spec_pad(seq![true, true, false] + spec_tokens_bits(tokens) + spec_fixed_sym_bits(256)),
    )
}

/// The four header bytes of a stored block of `n` bytes: final flag, then
/// LEN and NLEN, low byte first.
pub open spec fn spec_stored_header(n: nat, last: bool) -> Seq<u8> {
    seq![
        if last { 1u8 } else { 0u8 },
        (n % 256) as u8,
        ((n / 256) % 256) as u8,
        (255 - n % 256) as u8,
        (255 - (n / 256) % 256) as u8,
    ]
}

/// `data` as stored blocks of at most 32767 bytes each.
pub open spec fn spec_stored_blocks(data: Seq<u8>) -> Seq<u8>
    decreases data.len(),
{
    if data.len() == 0 {
        Seq::empty()
    } else {
        let n: nat = if data.len() > 32767 { 32767 } else { data.len() };
        spec_stored_header(n, n == data.len()) + data.subrange(0, n as int) + spec_stored_blocks(
            data.subrange(n as int, data.len() as int),
        )
    }
}

/// The two Adler-32 sums of `data`: one plus the bytes, and the sum of the
/// first sum after each byte, both modulo 65521.
pub open spec fn spec_adler_sums(data: Seq<u8>) -> (nat, nat)
    decreases data.len(),
{
    if data.len() == 0 {
        (1, 0)
    } else {
        let (a, b) = spec_adler_sums(data.drop_last());
        let a2 = ((a + data.last()) % 65521) as nat;
        (a2, ((b + a2) % 65521) as nat)
    }
}

/// The Adler-32 checksum of `data`, most significant byte first.
pub open spec fn spec_adler_bytes(data: Seq<u8>) -> Seq<u8> {
    let (a, b) = spec_adler_sums(data);
    seq![(b / 256) as u8, (b % 256) as u8, (a / 256) as u8, (a % 256) as u8]
}

/// The largest fixed-Huffman stream that is kept; above it the data is
/// stored.
pub open spec fn spec_stored_limit(n: nat) -> nat {
    n + 2 + 5 * (n / 32767 + if n % 32767 == 0 {
        0nat
    } else {
        1nat
    })
}

/// The output for `data` when the fixed Huffman block holds `tokens`: that
/// block, or stored blocks where it would be longer than they, then the
/// checksum.
pub open spec fn spec_compressed(data: Seq<u8>, tokens: Seq<DeflateToken>) -> Seq<u8> {
    let fixed = spec_fixed_stream(tokens);
    (if fixed.len() > spec_stored_limit(data.len()) {
        spec_zlib_header() + spec_stored_blocks(data)
    } else {
        fixed
    }) + spec_adler_bytes(data)
}

/// The Adler-32 sums of `data`.
fn adler_sums(data: &[u8]) -> (r: (u32, u32))
    ensures
        r.0 == spec_adler_sums(data@).0,
        r.1 == spec_adler_sums(data@).1,
{
    let mut s1: u32 = 1;
    let mut s2: u32 = 0;
    let mut i: usize = 0;
    while i < data.len()
        invariant
            i <= data@.len(),
            s1 == spec_adler_sums(data@.subrange(0, i as int)).0,
            s2 == spec_adler_sums(data@.subrange(0, i as int)).1,
        decreases data@.len() - i,
    {
        proof {
            let t = data@.subrange(0, i as int + 1);
            assert(t.drop_last() =~= data@.subrange(0, i as int));
            assert(t.last() == data@[i as int]);
            let (a, b) = spec_adler_sums(data@.subrange(0, i as int));
            assert(a < 65521 && b < 65521) by {
                if i > 0 {
                    let u = data@.subrange(0, i as int);
                    assert(u.len() > 0);
                }
            }
        }
        s1 = (s1 + data[i] as u32) % 65521;
        s2 = (s2 + s1) % 65521;
        i = i + 1;
    }
    assert(data@.subrange(0, data@.len() as int) =~= data@);
    (s1, s2)
}


/// Copying `len` bytes from `i - p` back, where the bytes at `p` equal those
/// at `i`, rebuilds the data up to `i + len`.
proof fn lemma_copy(data: Seq<u8>, i: int, p: int, len: int, m: int)
    requires
        0 <= p < i,
        0 <= m <= len,
        i + len <= data.len(),
        data.subrange(p, p + len) == data.subrange(i, i + len),
    ensures
        spec_copy(data.subrange(0, i + m), (i - p) as nat, (len - m) as nat) == data.subrange(0, i + len),
    decreases len - m,
{
    if m < len {
        let pre = data.subrange(0, i + m);
        let d = (i - p) as nat;
        assert(pre[pre.len() - d] == data[p + m]);
        let sp = data.subrange(p, p + len);
        let si = data.subrange(i, i + len);
        assert(sp[m] == data[p + m]);
        assert(si[m] == data[i + m]);
        assert(sp[m] == si[m]);
        assert(data[p + m] == data[i + m]);
        assert(pre.push(pre[pre.len() - d]) =~= data.subrange(0, i + m + 1));
        assert(spec_copy(pre, d, (len - m) as nat) == spec_copy(pre.push(pre[pre.len() - d]), d, (len - m - 1) as nat));
        lemma_copy(data, i, p, len, m + 1);
    } else {
        assert(spec_copy(data.subrange(0, i + m), (i - p) as nat, 0) == data.subrange(0, i + m));
    }
}

/// The facts about one more token.
proof fn lemma_push_token(tokens: Seq<DeflateToken>, t: DeflateToken)
    ensures
        spec_tokens_bits(tokens.push(t)) == spec_tokens_bits(tokens) + spec_token_bits(t),
        spec_expand(tokens.push(t)) == match t {
            DeflateToken::Literal(b) => spec_expand(tokens).push(b),
            DeflateToken::Match { length, distance } => spec_copy(
                spec_expand(tokens),
                distance as nat,
                length as nat,
            ),
        },
        spec_tokens_ok(tokens.push(t)) == (spec_tokens_ok(tokens) && match t {
            DeflateToken::Literal(_) => true,
            DeflateToken::Match { length, distance } => 3 <= length <= 258 && 1 <= distance <= 32767 && distance
                <= spec_expand(tokens).len(),
        }),
{
    assert(tokens.push(t).drop_last() =~= tokens);
}

impl ZlibBitWriter {
    /// Appends a match of `length` bytes from `distance` back.
    fn add_match(&mut self, length: usize, distance: usize)
        requires
            old(self).wf(),
            3 <= length <= 258,
            1 <= distance <= 32767,
        ensures
            final(self).wf(),
            final(self).bits@ == old(self).bits@ + spec_token_bits(
                DeflateToken::Match { length: length as u16, distance: distance as u16 },
            ),
    {
        let lb = length_base();
        let le = length_extra();
        let db = dist_base();
        let de = dist_extra();
        let ghost b0 = self.bits@;
        let j = find_slot(&lb, length);
        self.add_fixed_huff((j + 257) as u32);
        let ghost b1 = self.bits@;
        if le[j] != 0 {
            self.add_bits((length - lb[j]) as u32, le[j]);
        } else {
            assert(spec_lsb_bits((length - lb@[j as int]) as u32, 0) =~= Seq::<bool>::empty());
            assert(self.bits@ =~= b1 + spec_lsb_bits((length - lb@[j as int]) as u32, 0));
        }
        let ghost b2 = self.bits@;
        let d = find_slot(&db, distance);
        let rev = zlib_bitrev(d as u32, 5);
        proof {
            lemma_huff_bits(d as u32, 5);
        }
        self.add_bits(rev, 5);
        let ghost b3 = self.bits@;
        if de[d] != 0 {
            self.add_bits((distance - db[d]) as u32, de[d]);
        } else {
            assert(spec_lsb_bits((distance - db@[d as int]) as u32, 0) =~= Seq::<bool>::empty());
            assert(self.bits@ =~= b3 + spec_lsb_bits((distance - db@[d as int]) as u32, 0));
        }
        proof {
            let t = DeflateToken::Match { length: length as u16, distance: distance as u16 };
            assert(spec_length_slot(length as int) == j);
            assert(spec_dist_slot(distance as int) == d);
            assert(self.bits@ =~= b0 + spec_token_bits(t));
        }
    }
}


proof fn lemma_stored_len_bytes(n: usize)
    by (bit_vector)
    requires
        n < 32768,
    ensures
        n & 0xffusize == n % 256,
        (n >> 8usize) & 0xffusize == (n / 256) % 256,
        !n & 0xffusize == 255 - n % 256,
        (!n >> 8usize) & 0xffusize == 255 - (n / 256) % 256,
{
}

impl ZlibBitWriter {
    /// Appends `data` as stored blocks, after a fresh header.
    fn add_stored_blocks(&mut self, data: &[u8])
        requires
            old(self).out@ == spec_zlib_header(),
        ensures
            final(self).out@ == spec_zlib_header() + spec_stored_blocks(data@),
    {
        let mut x: usize = 0;
        assert(data@.subrange(0, data@.len() as int) =~= data@);
        while x < data.len()
            invariant
                x <= data@.len(),
                self.out@ + spec_stored_blocks(data@.subrange(x as int, data@.len() as int)) == spec_zlib_header()
                    + spec_stored_blocks(data@),
            decreases data@.len() - x,
        {
            let ghost out0 = self.out@;
            let ghost rest = data@.subrange(x as int, data@.len() as int);
            let mut block_len = data.len() - x;
            if block_len > 32767 {
                block_len = 32767;
            }
            let last: u8 = if data.len() - x == block_len {
                1
            } else {
                0
            };
            proof {
                lemma_stored_len_bytes(block_len);
            }
            self.push(last);
            self.push((block_len & 0xff) as u8);
            self.push(((block_len >> 8) & 0xff) as u8);
            self.push((!block_len & 0xff) as u8);
            self.push(((!block_len >> 8) & 0xff) as u8);
            let ghost n = block_len as nat;
            assert(self.out@ =~= out0 + spec_stored_header(n, n == rest.len()));
            let ghost out1 = self.out@;
            let mut y: usize = 0;
            while y < block_len
                invariant
                    y <= block_len,
                    x + block_len <= data.len(),
                    self.out@ == out1 + data@.subrange(x as int, x + y),
                decreases block_len - y,
            {
                self.push(data[x + y]);
                y = y + 1;
                assert(self.out@ =~= out1 + data@.subrange(x as int, x + y));
            }
            proof {
                assert(rest.subrange(0, n as int) =~= data@.subrange(x as int, x + n));
                assert(rest.subrange(n as int, rest.len() as int) =~= data@.subrange(x + n, data@.len() as int));
                assert(spec_stored_blocks(rest) == spec_stored_header(n, n == rest.len()) + rest.subrange(0, n as int)
                    + spec_stored_blocks(rest.subrange(n as int, rest.len() as int)));
                assert(self.out@ + spec_stored_blocks(data@.subrange(x + n, data@.len() as int)) =~= out0
                    + spec_stored_blocks(rest));
            }
            x = x + block_len;
        }
    }
}


/// Every hash chain holds only positions up to `i`.
pub open spec fn spec_chains_before(table: Seq<Vec<usize>>, i: int) -> bool {
    forall|a: int, k: int| 0 <= a < table.len() && 0 <= k < table[a]@.len() ==> #[trigger] table[a]@[k] <= i
}

/// A match candidate: `p` lies 1 to 32767 bytes before `i`, and the
/// `len` bytes from `p` equal those from `i`.
pub open spec fn spec_candidate(data: Seq<u8>, i: int, p: int, len: int) -> bool {
    &&& 0 <= p < i
    &&& i - p <= 32767
    &&& 3 <= len <= 258
    &&& i + len <= data.len()
    &&& data.subrange(p, p + len) == data.subrange(i, i + len)
}

/// Length of the common prefix of `a` and `b` within their first `bound` bytes.
pub open spec fn spec_prefix_len(a: Seq<u8>, b: Seq<u8>, bound: nat) -> nat
    decreases bound,
{
    if bound == 0 {
        0
    } else {
        let r = spec_prefix_len(a, b, (bound - 1) as nat);
        if r == bound - 1 && a[bound - 1] == b[bound - 1] {
            bound
        } else {
            r
        }
    }
}

proof fn lemma_prefix_len_full(a: Seq<u8>, b: Seq<u8>, m: nat)
    requires
        forall|k: int| 0 <= k < m ==> a[k] == b[k],
    ensures
        spec_prefix_len(a, b, m) == m,
    decreases m,
{
    if m > 0 {
        lemma_prefix_len_full(a, b, (m - 1) as nat);
    }
}

/// A length that the bytes of `a` and `b` agree on, ended by a difference
/// or by `bound`, is their common prefix length within `bound`.
proof fn lemma_prefix_len_unique(a: Seq<u8>, b: Seq<u8>, bound: nat, r: nat)
    requires
        r <= bound,
        forall|k: int| 0 <= k < r ==> a[k] == b[k],
        r < bound ==> a[r as int] != b[r as int],
    ensures
        spec_prefix_len(a, b, bound) == r,
    decreases bound,
{
    if bound == r {
        lemma_prefix_len_full(a, b, r);
    } else {
        lemma_prefix_len_unique(a, b, (bound - 1) as nat, r);
    }
}

/// The match length the match finder counts between positions `p` and `i`:
/// the common prefix of the bytes from each, at most 258 bytes, not past the
/// end of the data or its last byte's position.
pub open spec fn spec_match_count(data: Seq<u8>, p: int, i: int) -> nat {
    let n = data.len() as int;
    let b1 = if n - p < n - i { n - p } else { n - i };
    let b2 = if b1 < n - 1 { b1 } else { n - 1 };
    let bound = if b2 < 258 { b2 } else { 258 };
    spec_prefix_len(data.subrange(p, n), data.subrange(i, n), bound as nat)
}

/// The longest match for position `i` among the first `k` positions of
/// `chain` within 32767 bytes, the later one on a tie, and its length;
/// `None` with length 3 where none is 3 bytes long.
pub open spec fn spec_longest(chain: Seq<usize>, data: Seq<u8>, i: int, k: nat) -> (int, Option<usize>)
    decreases k,
{
    if k == 0 {
        (3, None)
    } else {
        let (bl, bp) = spec_longest(chain, data, i, (k - 1) as nat);
        let prev = chain[k - 1];
        if i - prev <= 32767 && spec_match_count(data, prev as int, i) >= bl {
            (spec_match_count(data, prev as int, i) as int, Some(prev))
        } else {
            (bl, bp)
        }
    }
}

/// The finder's best length is never below 3.
pub proof fn lemma_longest_at_least_3(chain: Seq<usize>, data: Seq<u8>, i: int, k: nat)
    ensures
        spec_longest(chain, data, i, k).0 >= 3,
    decreases k,
{
    if k > 0 {
        lemma_longest_at_least_3(chain, data, i, (k - 1) as nat);
    }
}

/// Whether some position in `chain` within 32768 bytes matches more than
/// `best_len` bytes at `i + 1`.
pub open spec fn spec_next_longer(chain: Seq<usize>, data: Seq<u8>, i: int, best_len: int) -> bool {
    exists|k: int| 0 <= k < chain.len() && i - #[trigger] chain[k] <= 32768 && spec_longer_match(data, chain[k] as int, i + 1, best_len)
}

/// A chain after position `i` is added: when full, its older half goes first.
pub open spec fn spec_chain_insert(chain: Seq<usize>, i: int, quality: u8) -> Seq<usize> {
    (if chain.len() >= 2 * quality { chain.subrange(quality as int, chain.len() as int) } else { chain }).push(
        i as usize,
    )
}

/// The hash chain that position `i` belongs to.
pub open spec fn spec_bucket(data: Seq<u8>, i: int) -> int {
    (spec_zhash(data.subrange(i, data.len() as int)) & 16383u32) as int
}

/// The hash chains, each as the positions it holds.
pub open spec fn spec_chains(table: Seq<Vec<usize>>) -> Seq<Seq<usize>> {
    Seq::new(table.len(), |a: int| table[a]@)
}

/// The hash chains before the first position: all empty.
pub open spec fn spec_empty_chains() -> Seq<Seq<usize>> {
    Seq::new(16384, |a: int| Seq::<usize>::empty())
}

/// The hash chains after position `i` is added.
pub open spec fn spec_chains_after(data: Seq<u8>, quality: u8, tab: Seq<Seq<usize>>, i: int) -> Seq<Seq<usize>> {
    let h = spec_bucket(data, i);
    tab.update(h, spec_chain_insert(tab[h], i, quality))
}

/// The match the finder takes at position `i`, and its length: the longest
/// one in `i`'s chain, unless a longer one starts at `i + 1` (then a byte).
pub open spec fn spec_choice(data: Seq<u8>, quality: u8, tab: Seq<Seq<usize>>, i: int) -> (int, Option<usize>) {
    let h = spec_bucket(data, i);
    let (bl, bp) = spec_longest(tab[h], data, i, tab[h].len());
    let tab2 = spec_chains_after(data, quality, tab, i);
    if bp is Some && spec_next_longer(tab2[spec_bucket(data, i + 1)], data, i, bl) {
        (3, None)
    } else {
        (bl, bp)
    }
}

/// The tokens the match finder produces from position `i` on, with hash
/// chains `tab`: a match where it finds one, a byte otherwise, and bytes
/// for the last three positions.
pub open spec fn spec_lz_tokens(data: Seq<u8>, quality: u8, tab: Seq<Seq<usize>>, i: int) -> Seq<DeflateToken>
    decreases (if i < data.len() { data.len() - i } else { 0 }),
{
    let n = data.len() as int;
    if i < 0 || i >= n {
        Seq::empty()
    } else if i >= n - 3 {
        seq![DeflateToken::Literal(data[i])] + spec_lz_tokens(data, quality, tab, i + 1)
    } else {
        let (bl, bp) = spec_choice(data, quality, tab, i);
        let tab2 = spec_chains_after(data, quality, tab, i);
        proof {
            lemma_longest_at_least_3(tab[spec_bucket(data, i)], data, i, tab[spec_bucket(data, i)].len());
        }
        match bp {
            Some(p) => {
                seq![DeflateToken::Match { length: bl as u16, distance: (i - p) as u16 }] + spec_lz_tokens(
                    data,
                    quality,
                    tab2,
                    i + bl,
                )
            },
            None => seq![DeflateToken::Literal(data[i])] + spec_lz_tokens(data, quality, tab2, i + 1),
        }
    }
}

/// The tokens of the fixed Huffman block that `compress_fixed` writes.
pub open spec fn spec_fixed_tokens(quality: u8, data: Seq<u8>) -> Seq<DeflateToken> {
    spec_lz_tokens(data, quality, spec_empty_chains(), 0)
}

/// The longest match for position `i` among the positions in `chain`
/// within 32767 bytes, the later one on a tie; `None` with length 3 where
/// none is 3 bytes long.
fn longest_match(chain: &Vec<usize>, data: &[u8], i: usize) -> (r: (usize, Option<usize>))
    requires
        i + 3 <= data@.len(),
        forall|k: int| 0 <= k < chain@.len() ==> #[trigger] chain@[k] < i,
    ensures
        r.1 is None ==> r.0 == 3,
        r.1 matches Some(p) ==> spec_candidate(data@, i as int, p as int, r.0 as int),
        (r.0 as int, r.1) == spec_longest(chain@, data@, i as int, chain@.len()),
{
    let n = data.len();
    let mut best_len: usize = 3;
    let mut best_match_pos: Option<usize> = None;
    let mut k: usize = 0;
    while k < chain.len()
        invariant
            k <= chain@.len(),
            i + 3 <= n,
            n == data@.len(),
            forall|k: int| 0 <= k < chain@.len() ==> #[trigger] chain@[k] < i,
            best_match_pos is None ==> best_len == 3,
            best_match_pos matches Some(p) ==> spec_candidate(data@, i as int, p as int, best_len as int),
            (best_len as int, best_match_pos) == spec_longest(chain@, data@, i as int, k as nat),
        decreases chain@.len() - k,
    {
        let prev = chain[k];
        if i - prev <= 32767 {
            let a = vstd::slice::slice_subrange(data, prev, n);
            let b = vstd::slice::slice_subrange(data, i, n);
            let m = zlib_count_match(a, b, n - 1);
            proof {
                let bound1 = if n - prev < n - i { n - prev } else { n - i };
                let bound2 = if bound1 < n - 1 { bound1 } else { n - 1 };
                let bound = if bound2 < 258 { bound2 } else { 258 };
                lemma_prefix_len_unique(a@, b@, bound as nat, m as nat);
                assert(m == spec_match_count(data@, prev as int, i as int));
            }
            if m >= best_len {
                proof {
                    assert(data@.subrange(prev as int, prev + m) =~= data@.subrange(i as int, i + m));
                }
                best_len = m;
                best_match_pos = Some(prev);
            }
        }
        k = k + 1;
    }
    (best_len, best_match_pos)
}

/// More than `best_len` bytes from `prev` equal those from `cur`, within
/// the longest match counted: at most 258 bytes, and not past the end of
/// the data or its last byte's position.
pub open spec fn spec_longer_match(data: Seq<u8>, prev: int, cur: int, best_len: int) -> bool {
    let n = data.len() as int;
    let b1 = if n - prev < n - cur { n - prev } else { n - cur };
    let b2 = if b1 < n - 1 { b1 } else { n - 1 };
    let bound = if b2 < 258 { b2 } else { 258 };
    &&& best_len < bound
    &&& forall|j: int| 0 <= j <= best_len ==> data[prev + j] == #[trigger] data[cur + j]
}

/// Whether some position in `chain` within 32768 bytes matches more than
/// `best_len` bytes at `i + 1`.
fn longer_match_next(chain: &Vec<usize>, data: &[u8], i: usize, best_len: usize) -> (r: bool)
    requires
        i + 4 <= data@.len(),
        forall|k: int| 0 <= k < chain@.len() ==> #[trigger] chain@[k] <= i,
    ensures
        r == exists|k: int|
            0 <= k < chain@.len() && i - #[trigger] chain@[k] <= 32768 && spec_longer_match(
                data@,
                chain@[k] as int,
                i + 1,
                best_len as int,
            ),
{
    let n = data.len();
    let mut k: usize = 0;
    while k < chain.len()
        invariant
            k <= chain@.len(),
            i + 4 <= n,
            n == data@.len(),
            forall|k: int| 0 <= k < chain@.len() ==> #[trigger] chain@[k] <= i,
            forall|j: int|
                0 <= j < k ==> !(i - #[trigger] chain@[j] <= 32768 && spec_longer_match(
                    data@,
                    chain@[j] as int,
                    i + 1,
                    best_len as int,
                )),
        decreases chain@.len() - k,
    {
        let prev = chain[k];
        if i - prev <= 32768 {
            let a = vstd::slice::slice_subrange(data, prev, n);
            let b = vstd::slice::slice_subrange(data, i + 1, n);
            let m = zlib_count_match(a, b, n - 1);
            proof {
                assert forall|j: int| 0 <= j < a@.len() implies a@[j] == data@[prev + j] by {}
                assert forall|j: int| 0 <= j < b@.len() implies b@[j] == data@[i + 1 + j] by {}
                if spec_longer_match(data@, prev as int, i + 1, best_len as int) {
                    if m <= best_len {
                        assert(data@[prev + m] == data@[i + 1 + m]);
                        assert(a@[m as int] == b@[m as int]);
                    }
                }
                if m > best_len {
                    assert forall|j: int| 0 <= j <= best_len implies data@[prev + j] == #[trigger] data@[i + 1 + j] by {
                        assert(a@[j] == b@[j]);
                    }
                }
            }
            if m > best_len {
                return true;
            }
        }
        k = k + 1;
    }
    false
}

/// Drops the older half of a full chain, then adds position `i`.
fn insert_position(chain: &mut Vec<usize>, i: usize, quality: u8)
    ensures
        final(chain)@ == (if old(chain)@.len() >= 2 * quality {
            old(chain)@.subrange(quality as int, old(chain)@.len() as int)
        } else {
            old(chain)@
        }).push(i),
        forall|k: int| 0 <= k < final(chain)@.len() ==> (#[trigger] final(chain)@[k] == i || old(chain)@.contains(final(chain)@[k])),
{
    if chain.len() >= 2 * quality as usize {
        let rest = chain.split_off(quality as usize);
        *chain = rest;
    }
    chain.push(i);
    proof {
        let kept = if old(chain)@.len() >= 2 * quality {
            old(chain)@.subrange(quality as int, old(chain)@.len() as int)
        } else {
            old(chain)@
        };
        assert forall|k: int| 0 <= k < chain@.len() implies (#[trigger] chain@[k] == i || old(chain)@.contains(chain@[k])) by {
            if k < kept.len() {
                if old(chain)@.len() >= 2 * quality {
                    assert(old(chain)@[quality + k] == chain@[k]);
                } else {
                    assert(old(chain)@[k] == chain@[k]);
                }
            }
        }
    }
}

/// Compresses `data` into a zlib stream with one fixed Huffman block, found
/// by hash chains with a one-byte lazy look-ahead, keeping up to
/// `2 * quality` positions per chain; falls back to stored blocks where
/// those are shorter.
pub fn compress_fixed(quality: u8, data: &[u8]) -> (out: Vec<u8>)
    requires
        3 <= data@.len() <= isize::MAX,
    ensures
        out@ == spec_compressed(data@, spec_fixed_tokens(quality, data@)),
        spec_tokens_ok(spec_fixed_tokens(quality, data@)),
        spec_expand(spec_fixed_tokens(quality, data@)) == data@,
{
    let mut writer = ZlibBitWriter::new();
    writer.start_fixed_huffman_block();
    let mut hash_table: Vec<Vec<usize>> = Vec::new();
    while hash_table.len() < 16384
        invariant
            hash_table@.len() <= 16384,
            spec_chains_before(hash_table@, -1),
            forall|a: int| 0 <= a < hash_table@.len() ==> #[trigger] hash_table@[a]@.len() == 0,
        decreases 16384 - hash_table@.len(),
    {
        let empty: Vec<usize> = Vec::new();
        hash_table.push(empty);
        assert(hash_table@.last()@.len() == 0);
    }
    let n = data.len();
    let len = n - 3;
    let mut i: usize = 0;
    let ghost mut tokens: Seq<DeflateToken> = Seq::empty();
    let ghost all = spec_fixed_tokens(quality, data@);
    assert forall|a: int| 0 <= a < 16384 implies #[trigger] spec_chains(hash_table@)[a] == Seq::<usize>::empty() by {
        assert(hash_table@[a]@.len() == 0);
        assert(hash_table@[a]@ =~= Seq::<usize>::empty());
    }
    assert(spec_chains(hash_table@) =~= spec_empty_chains());
    assert(tokens + spec_lz_tokens(data@, quality, spec_chains(hash_table@), 0) =~= all);
    assert(data@.subrange(0, 0) =~= Seq::<u8>::empty());
    assert(writer.bits@ =~= seq![true, true, false] + spec_tokens_bits(tokens));
    while i < len
        invariant
            n == data@.len(),
            len == n - 3,
            i <= n,
            writer.wf(),
            writer.bits@ == seq![true, true, false] + spec_tokens_bits(tokens),
            spec_tokens_ok(tokens),
            spec_expand(tokens) == data@.subrange(0, i as int),
            hash_table@.len() == 16384,
            spec_chains_before(hash_table@, i - 1),
            all == spec_fixed_tokens(quality, data@),
            tokens + spec_lz_tokens(data@, quality, spec_chains(hash_table@), i as int) == all,
        decreases n - i,
    {
        let ghost tab = spec_chains(hash_table@);
        let hv = zhash(vstd::slice::slice_subrange(data, i, n));
        proof {
            lemma_u32_parts(hv);
        }
        let h = (hv & 16383) as usize;
        assert(forall|k: int| 0 <= k < hash_table@[h as int]@.len() ==> #[trigger] hash_table@[h as int]@[k] < i);
        let (mut best_len, mut best_match_pos) = longest_match(&hash_table[h], data, i);
        let ghost t0 = hash_table@;
        let mut chain = hash_table[h].clone();
        assert(chain@ =~= t0[h as int]@);
        insert_position(&mut chain, i, quality);
        hash_table.set(h, chain);
        let ghost tab2 = spec_chains(hash_table@);
        proof {
            assert(h == spec_bucket(data@, i as int));
            assert(tab2 =~= spec_chains_after(data@, quality, tab, i as int));
        }
        let ghost found = (best_len as int, best_match_pos);
        assert forall|a: int, k: int| 0 <= a < hash_table@.len() && 0 <= k < hash_table@[a]@.len() implies #[trigger] hash_table@[a]@[k] <= i by {
            if a != h {
                assert(hash_table@[a] == t0[a]);
            } else if hash_table@[a]@[k] != i {
                let j = choose|j: int| 0 <= j < t0[a]@.len() && t0[a]@[j] == hash_table@[a]@[k];
                assert(t0[a]@[j] <= i);
            }
        }
        if best_match_pos.is_some() {
            let hv2 = zhash(vstd::slice::slice_subrange(data, i + 1, n));
            proof {
                lemma_u32_parts(hv2);
            }
            let h2 = (hv2 & 16383) as usize;
            assert(h2 == spec_bucket(data@, i + 1));
            let longer = longer_match_next(&hash_table[h2], data, i, best_len);
            assert(longer == spec_next_longer(tab2[h2 as int], data@, i as int, best_len as int));
            if longer {
                best_match_pos = None;
                best_len = 3;
            }
        }
        assert((best_len as int, best_match_pos) == spec_choice(data@, quality, tab, i as int));
        let ghost rest = spec_lz_tokens(data@, quality, tab2, i + (if best_match_pos is Some { best_len as int } else { 1 }));
        match best_match_pos {
            Some(p) => {
                let dist = i - p;
                writer.add_match(best_len, dist);
                let ghost t = DeflateToken::Match { length: best_len as u16, distance: dist as u16 };
                proof {
                    lemma_push_token(tokens, t);
                    lemma_copy(data@, i as int, p as int, best_len as int, 0);
                    assert(data@.subrange(0, i + 0) =~= data@.subrange(0, i as int));
                    assert(spec_lz_tokens(data@, quality, tab, i as int) == seq![t] + rest);
                    assert(tokens.push(t) + rest =~= tokens + (seq![t] + rest));
                    tokens = tokens.push(t);
                }
                i = i + best_len;
            },
            None => {
                writer.add_fixed_huff_byte(data[i]);
                let ghost t = DeflateToken::Literal(data@[i as int]);
                proof {
                    lemma_push_token(tokens, t);
                    assert(data@.subrange(0, i as int).push(data@[i as int]) =~= data@.subrange(0, i + 1));
                    assert(spec_lz_tokens(data@, quality, tab, i as int) == seq![t] + rest);
                    assert(tokens.push(t) + rest =~= tokens + (seq![t] + rest));
                    tokens = tokens.push(t);
                }
                i = i + 1;
            },
        }
        proof {
            assert(writer.bits@ =~= seq![true, true, false] + spec_tokens_bits(tokens));
        }
    }
    let ghost mid_tokens = tokens;
    let ghost tab_end = spec_chains(hash_table@);
    while i < n
        invariant
            n == data@.len(),
            i <= n,
            len == n - 3,
            i >= len,
            tokens + spec_lz_tokens(data@, quality, tab_end, i as int) == all,
            writer.wf(),
            writer.bits@ == seq![true, true, false] + spec_tokens_bits(tokens),
            spec_tokens_ok(tokens),
            spec_expand(tokens) == data@.subrange(0, i as int),
        decreases n - i,
    {
        writer.add_fixed_huff_byte(data[i]);
        let ghost t = DeflateToken::Literal(data@[i as int]);
        proof {
            lemma_push_token(tokens, t);
            assert(data@.subrange(0, i as int).push(data@[i as int]) =~= data@.subrange(0, i + 1));
            let rest = spec_lz_tokens(data@, quality, tab_end, i + 1);
            assert(spec_lz_tokens(data@, quality, tab_end, i as int) == seq![t] + rest);
            assert(tokens.push(t) + rest =~= tokens + (seq![t] + rest));
            tokens = tokens.push(t);
            assert(writer.bits@ =~= seq![true, true, false] + spec_tokens_bits(tokens));
        }
        i = i + 1;
    }
    assert(tokens + Seq::<DeflateToken>::empty() =~= tokens);
    assert(tokens == all);
    finish_compressed(writer, data, Ghost(tokens))
}

/// Ends the block, falls back to stored blocks where those are shorter, and
/// appends the checksum.
fn finish_compressed(writer: ZlibBitWriter, data: &[u8], tokens: Ghost<Seq<DeflateToken>>) -> (out: Vec<u8>)
    requires
        data@.len() <= isize::MAX,
        writer.wf(),
        writer.bits@ == seq![true, true, false] + spec_tokens_bits(tokens@),
    ensures
        out@ == spec_compressed(data@, tokens@),
{
    let mut writer = writer;
    let n = data.len();
    writer.add_fixed_huff(256);
    writer.pad_to_byte();
    proof {
        let b = writer.bits@;
        assert(b.subrange(0, b.len() - 0) =~= b);
        assert(writer.out@ == spec_fixed_stream(tokens@));
    }
    let blocks = n / 32767 + if n % 32767 != 0 {
        1
    } else {
        0
    };
    assert(blocks <= n);
    if writer.out.len() > n + 2 + blocks * 5 {
        writer.reset();
        writer.add_stored_blocks(data);
    }
    let (s1, s2) = adler_sums(data);
    proof {
        lemma_adler_bound(data@);
        lemma_u32_parts(s1);
        lemma_u32_parts(s2);
    }
    let ghost body = writer.out@;
    writer.push(((s2 >> 8) & 0xff) as u8);
    writer.push((s2 & 0xff) as u8);
    writer.push(((s1 >> 8) & 0xff) as u8);
    writer.push((s1 & 0xff) as u8);
    proof {
        assert(writer.out@ =~= body + spec_adler_bytes(data@));
    }
    writer.out
}

proof fn lemma_adler_bound(data: Seq<u8>)
    ensures
        spec_adler_sums(data).0 < 65521,
        spec_adler_sums(data).1 < 65521,
    decreases data.len(),
{
    if data.len() > 0 {
        lemma_adler_bound(data.drop_last());
    }
}

} // verus!
