use vstd::prelude::*;
use crate::error::PictorError;

verus! {

/// The big-endian bytes of a 32-bit value.
pub open spec fn spec_be32(v: u32) -> Seq<u8> {
    seq![(v >> 24u32) as u8, (v >> 16u32) as u8, (v >> 8u32) as u8, v as u8]
}

/// The 32-bit value stored big-endian at `b[at..at + 4]`.
pub open spec fn spec_read_be32(b: Seq<u8>, at: int) -> u32 {
    ((b[at] as u32) << 24u32) | ((b[at + 1] as u32) << 16u32) | ((b[at + 2] as u32) << 8u32) | (b[at + 3] as u32)
}

/// The big-endian bytes of a 16-bit value.
pub open spec fn spec_be16(v: u16) -> Seq<u8> {
    seq![(v >> 8u16) as u8, v as u8]
}

/// The 16-bit value stored big-endian at `b[at..at + 2]`.
pub open spec fn spec_read_be16(b: Seq<u8>, at: int) -> u16 {
    ((b[at] as u16) << 8u16) | (b[at + 1] as u16)
}

proof fn lemma_be32_bits(v: u32)
    ensures
        ((((v >> 24u32) as u8) as u32) << 24u32) | ((((v >> 16u32) as u8) as u32) << 16u32)
            | ((((v >> 8u32) as u8) as u32) << 8u32) | ((v as u8) as u32) == v,
{
    assert(((((v >> 24u32) as u8) as u32) << 24u32) | ((((v >> 16u32) as u8) as u32) << 16u32)
        | ((((v >> 8u32) as u8) as u32) << 8u32) | ((v as u8) as u32) == v) by (bit_vector);
}

/// Reading back the big-endian bytes of a 32-bit value gives the value.
pub proof fn lemma_be32_roundtrip(v: u32)
    ensures
        spec_read_be32(spec_be32(v), 0) == v,
{
    lemma_be32_bits(v);
}

/// Reading back the big-endian bytes of a 16-bit value gives the value.
pub proof fn lemma_be16_roundtrip(v: u16)
    ensures
        spec_read_be16(spec_be16(v), 0) == v,
{
    assert(((((v >> 8u16) as u8) as u16) << 8u16) | ((v as u8) as u16) == v) by (bit_vector);
}

/// Appends the big-endian bytes of `val`.
/// Four bytes at `k` that are the big-endian form of `v` read back as `v`.
pub proof fn lemma_read_be32_at(s: Seq<u8>, k: int, v: u32)
    requires
        0 <= k,
        k + 4 <= s.len(),
        s.subrange(k, k + 4) == spec_be32(v),
    ensures
        spec_read_be32(s, k) == v,
{
    lemma_be32_roundtrip(v);
    assert(s[k] == spec_be32(v)[0]);
    assert(s[k + 1] == spec_be32(v)[1]);
    assert(s[k + 2] == spec_be32(v)[2]);
    assert(s[k + 3] == spec_be32(v)[3]);
}

pub fn write_be32(out: &mut Vec<u8>, val: u32)
    ensures
        final(out)@ == old(out)@ + spec_be32(val),
{
    out.push((val >> 24) as u8);
    out.push((val >> 16) as u8);
    out.push((val >> 8) as u8);
    out.push(val as u8);
    assert(out@ =~= old(out)@ + spec_be32(val));
}

/// Appends the big-endian bytes of `val`.
pub fn write_be16(out: &mut Vec<u8>, val: u16)
    ensures
        final(out)@ == old(out)@ + spec_be16(val),
{
    out.push((val >> 8) as u8);
    out.push(val as u8);
    assert(out@ =~= old(out)@ + spec_be16(val));
}

/// The 32-bit value stored big-endian at `b[at..at + 4]`.
pub fn read_be32(b: &[u8], at: usize) -> (r: u32)
    requires
        at + 4 <= b@.len(),
    ensures
        r == spec_read_be32(b@, at as int),
{
    ((b[at] as u32) << 24) | ((b[at + 1] as u32) << 16) | ((b[at + 2] as u32) << 8) | (b[at + 3] as u32)
}

/// The 16-bit value stored big-endian at `b[at..at + 2]`.
pub fn read_be16(b: &[u8], at: usize) -> (r: u16)
    requires
        at + 2 <= b@.len(),
    ensures
        r == spec_read_be16(b@, at as int),
{
    ((b[at] as u16) << 8) | (b[at + 1] as u16)
}

/// Calls `std::io::Error::from(std::io::ErrorKind::UnexpectedEof)`: the
/// error `read_exact` reports when the input ends early.
#[verifier::external_body]
pub fn unexpected_eof() -> std::io::Error {
    std::io::Error::from(std::io::ErrorKind::UnexpectedEof)
}

/// A position in a byte buffer, from which bytes are read in order.
pub struct ByteCursor<'a> {
    pub data: &'a [u8],
    pub pos: usize,
}

impl<'a> ByteCursor<'a> {
    /// The `n` bytes after the position.
    pub open spec fn ahead(self, n: int) -> Seq<u8> {
        self.data@.subrange(self.pos as int, self.pos + n)
    }

    pub fn new(data: &'a [u8]) -> (r: ByteCursor<'a>)
        ensures
            r.data@ == data@,
            r.pos == 0,
    {
        ByteCursor { data, pos: 0 }
    }

    /// Number of bytes read so far.
    pub fn position(&self) -> (r: usize)
        ensures
            r == self.pos,
    {
        self.pos
    }

    /// The next `n` bytes; an I/O error of kind `UnexpectedEof` when fewer remain.
    pub fn read_exact(&mut self, n: usize) -> (r: Result<&'a [u8], PictorError>)
        requires
            old(self).pos <= old(self).data@.len(),
        ensures
            final(self).data == old(self).data,
            final(self).pos <= final(self).data@.len(),
            old(self).pos + n <= old(self).data@.len() <==> r is Ok,
            r matches Ok(s) ==> s@ == old(self).data@.subrange(old(self).pos as int, old(self).pos + n)
                && final(self).pos == old(self).pos + n,
            r matches Err(e) ==> e is IoError,
    {
        let len = self.data.len();
        if n > len - self.pos {
            self.pos = len;
            return Err(PictorError::IoError { err: unexpected_eof() });
        }
        let s = &self.data[self.pos..self.pos + n];
        self.pos = self.pos + n;
        Ok(s)
    }

    /// The next byte.
    pub fn read_u8(&mut self) -> (r: Result<u8, PictorError>)
        requires
            old(self).pos <= old(self).data@.len(),
        ensures
            final(self).data == old(self).data,
            final(self).pos <= final(self).data@.len(),
            old(self).pos < old(self).data@.len() <==> r is Ok,
            r matches Ok(b) ==> b == old(self).data@[old(self).pos as int] && final(self).pos == old(self).pos + 1,
            r matches Err(e) ==> e is IoError,
    {
        let s = self.read_exact(1)?;
        Ok(s[0])
    }

    /// The next two bytes, as a big-endian value.
    pub fn read_u16_be(&mut self) -> (r: Result<u16, PictorError>)
        requires
            old(self).pos <= old(self).data@.len(),
        ensures
            final(self).data == old(self).data,
            final(self).pos <= final(self).data@.len(),
            old(self).pos + 2 <= old(self).data@.len() <==> r is Ok,
            r matches Ok(v) ==> v == spec_read_be16(old(self).data@, old(self).pos as int) && final(self).pos
                == old(self).pos + 2,
            r matches Err(e) ==> e is IoError,
    {
        let s = self.read_exact(2)?;
        Ok(read_be16(s, 0))
    }
}

/// Shift and mask facts about small 32-bit constants.
pub proof fn lemma_bit_consts()
    by (bit_vector)
    ensures
        0u32 < (1u32 << 0u32),
        (0u32 << 8u32) == 0u32,
        (1u32 >> 0u32) & 1u32 == 1u32,
        (1u32 >> 1u32) & 1u32 == 0u32,
        (0u32 >> 0u32) & 1u32 == 0u32,
        (0x7Fu16 as u32) < (1u32 << (7u16 as u32)),
{
}

/// Masking and splitting facts about a 32-bit value.
pub proof fn lemma_u32_parts(x: u32)
    by (bit_vector)
    ensures
        x >> 0u32 == x,
        (x & 16383u32) < 16384u32,
        x < 65536 ==> (x >> 8u32) & 0xffu32 == x / 256 && x & 0xffu32 == x % 256,
        x <= 65536 ==> x & 0xffffu32 == x % 65536,
        x < 65536 ==> (x << 1u32) & 0xffffu32 == ((x * 2) % 65536) as u32,
{
}

proof fn lemma_be16_bytes(hi: u8, lo: u8)
    by (bit_vector)
    ensures
        ((hi as u16) << 8u16) | (lo as u16) == hi * 256 + lo,
{
}

/// The big-endian value at `at` as arithmetic on its two bytes.
pub proof fn lemma_read_be16_value(b: Seq<u8>, at: int)
    ensures
        spec_read_be16(b, at) == b[at] * 256 + b[at + 1],
{
    lemma_be16_bytes(b[at], b[at + 1]);
}

/// The two halves of a byte.
pub proof fn lemma_nibbles(x: u8)
    by (bit_vector)
    ensures
        x >> 4u8 == x / 16,
        x & 0x0Fu8 == x % 16,
{
}

/// Where `b` holds `s` from `a` on, each byte of that stretch is the byte of
/// `s` at the same offset.
pub proof fn lemma_holds_at(b: Seq<u8>, a: int, s: Seq<u8>)
    requires
        0 <= a,
        a + s.len() <= b.len(),
        b.subrange(a, a + s.len()) == s,
    ensures
        forall|j: int| a <= j < a + s.len() ==> #[trigger] b[j] == s[j - a],
{
    assert forall|j: int| a <= j < a + s.len() implies #[trigger] b[j] == s[j - a] by {
        assert(b.subrange(a, a + s.len())[j - a] == b[j]);
    }
}

} // verus!
