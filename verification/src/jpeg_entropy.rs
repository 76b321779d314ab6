use vstd::prelude::*;
use crate::bytes::lemma_bit_consts;
use crate::bytes::ByteCursor;
use crate::error::{PictorError, PictorResult};
use crate::jpeg_read::{HuffModel, JpegHuffmanTable, spec_unzigzag, unzigzag_table};

verus! {

/// Why reading entropy-coded data stopped.
pub enum EntErr {
    /// The input ended.
    Eof,
    /// The end-of-image marker came before the data did.
    Eoi,
    /// A restart or other marker, or a code or value the decoder does not accept.
    Fmt,
}

/// The error the decoder reports for `e`.
pub open spec fn spec_ent_err(e: EntErr, r: PictorError) -> bool {
    match e {
        EntErr::Eof => r is IoError,
        EntErr::Eoi => r is InvalidArgument,
        EntErr::Fmt => r is InvalidFormat,
    }
}

/// The position in the input, the last byte read and how many of its bits
/// are still unread.
pub struct BitState {
    pub pos: int,
    pub buf: u32,
    pub count: u8,
}

/// The outcome of reading from entropy-coded data: a value and the state after it.
pub enum BitRes<T> {
    Got { val: T, st: BitState },
    Fail { err: EntErr },
}

/// `r` and the state `st` after the call agree with outcome `o`.
pub open spec fn spec_bit_result<T>(o: BitRes<T>, r: PictorResult<T>, st: BitState) -> bool {
    match o {
        BitRes::Got { val, st: s } => r == Ok::<T, PictorError>(val) && st == s,
        BitRes::Fail { err } => r matches Err(e) && spec_ent_err(err, e),
    }
}

/// The next byte of entropy-coded data at `pos`: a stuffed `FF 00` stands
/// for `FF`; any other marker ends the data.
pub open spec fn spec_entropy_byte(d: Seq<u8>, pos: int) -> BitRes<u8> {
    if pos >= d.len() {
        BitRes::Fail { err: EntErr::Eof }
    } else if d[pos] != 0xFF {
        BitRes::Got { val: d[pos], st: BitState { pos: pos + 1, buf: 0, count: 0 } }
    } else if pos + 1 >= d.len() {
        BitRes::Fail { err: EntErr::Eof }
    } else if d[pos + 1] == 0 {
        BitRes::Got { val: 0xFF, st: BitState { pos: pos + 2, buf: 0, count: 0 } }
    } else if d[pos + 1] == 0xD9 {
        BitRes::Fail { err: EntErr::Eoi }
    } else {
        BitRes::Fail { err: EntErr::Fmt }
    }
}

/// The next bit, most significant first.
pub open spec fn spec_read_bit(d: Seq<u8>, st: BitState) -> BitRes<u8> {
    if st.count == 0 {
        match spec_entropy_byte(d, st.pos) {
            BitRes::Got { val: b, st: s } => BitRes::Got {
                val: (((b as u32) >> 7u32) & 1u32) as u8,
                st: BitState { pos: s.pos, buf: b as u32, count: 7 },
            },
            BitRes::Fail { err } => BitRes::Fail { err },
        }
    } else {
        BitRes::Got {
            val: ((st.buf >> ((st.count - 1) as u32)) & 1u32) as u8,
            st: BitState { pos: st.pos, buf: st.buf, count: (st.count - 1) as u8 },
        }
    }
}

/// The next `n` bits as a number, first bit most significant.
pub open spec fn spec_read_bits(d: Seq<u8>, st: BitState, n: nat) -> BitRes<u16>
    decreases n,
{
    if n == 0 {
        BitRes::Got { val: 0, st }
    } else {
        match spec_read_bits(d, st, (n - 1) as nat) {
            BitRes::Got { val: v, st: s1 } => match spec_read_bit(d, s1) {
                BitRes::Got { val: b, st: s2 } => BitRes::Got { val: ((v << 1u16) | (b as u16)) as u16, st: s2 },
                BitRes::Fail { err } => BitRes::Fail { err },
            },
            BitRes::Fail { err } => BitRes::Fail { err },
        }
    }
}

/// Once reading the first `i` bits fails, reading more fails the same way.
proof fn lemma_read_bits_fail(d: Seq<u8>, st: BitState, i: nat, n: nat)
    requires
        i <= n,
        spec_read_bits(d, st, i) is Fail,
    ensures
        spec_read_bits(d, st, n) == spec_read_bits(d, st, i),
    decreases n,
{
    if i < n {
        lemma_read_bits_fail(d, st, i, (n - 1) as nat);
    }
}

/// A coefficient of `size` bits: values below half the range stand for
/// negative numbers.
pub open spec fn spec_receive_extend(d: Seq<u8>, st: BitState, size: u8) -> BitRes<i32> {
    if size == 0 {
        BitRes::Got { val: 0, st }
    } else {
        match spec_read_bits(d, st, size as nat) {
            BitRes::Got { val: bits, st: s } => BitRes::Got {
                val: if (bits as i32) < (1i32 << ((size - 1) as u32)) {
                    ((bits as i32) + 1 - (1i32 << (size as u32))) as i32
                } else {
                    bits as i32
                },
                st: s,
            },
            BitRes::Fail { err } => BitRes::Fail { err },
        }
    }
}

/// The first canonical code of length `len` for code counts `counts`,
/// computed in 16-bit arithmetic.
pub open spec fn spec_first_code(counts: Seq<u8>, len: int) -> u16
    decreases len,
{
    if len <= 1 {
        0
    } else {
        let c = spec_first_code(counts, len - 1);
        (((c + counts[len - 2]) % 65536) * 2 % 65536) as u16
    }
}

/// Decoding a Huffman code whose first `len - 1` bits gave `code`, with
/// `offset` symbols belonging to shorter codes.
pub open spec fn spec_huff_from(d: Seq<u8>, st: BitState, t: HuffModel, len: int, code: u16, offset: int) -> BitRes<u8>
    decreases 17 - len,
{
    if len > 16 || len < 1 {
        BitRes::Fail { err: EntErr::Fmt }
    } else {
        match spec_read_bit(d, st) {
            BitRes::Fail { err } => BitRes::Fail { err },
            BitRes::Got { val: b, st: s1 } => {
                let c = ((code << 1u16) | (b as u16)) as u16;
                let count = t.counts[len - 1] as int;
                let first = spec_first_code(t.counts, len);
                if count == 0 {
                    spec_huff_from(d, s1, t, len + 1, c, offset)
                } else if c >= first && c - first < count {
                    let index = offset + (c - first);
                    if index < t.symbols.len() {
                        BitRes::Got { val: t.symbols[index], st: s1 }
                    } else {
                        BitRes::Fail { err: EntErr::Fmt }
                    }
                } else {
                    spec_huff_from(d, s1, t, len + 1, c, offset + count)
                }
            },
        }
    }
}

/// Decoding the next Huffman-coded symbol with table `t`.
pub open spec fn spec_huff(d: Seq<u8>, st: BitState, t: HuffModel) -> BitRes<u8> {
    spec_huff_from(d, st, t, 1, 0, 0)
}

/// Decoding the AC coefficients of a block from zigzag position `zz` on,
/// with coefficients `c` decoded so far, dequantized by `q`.
pub open spec fn spec_ac(d: Seq<u8>, st: BitState, t: HuffModel, q: Seq<u16>, zz: int, c: Seq<i32>) -> BitRes<Seq<i32>>
    decreases 64 - zz,
{
    if zz >= 64 {
        BitRes::Got { val: c, st }
    } else {
        match spec_huff(d, st, t) {
            BitRes::Fail { err } => BitRes::Fail { err },
            BitRes::Got { val: symbol, st: s1 } => {
                let run = (symbol >> 4u8) as int;
                let size = symbol & 0x0Fu8;
                if size == 0 {
                    if run == 0 {
                        BitRes::Got { val: c, st: s1 }
                    } else if run == 15 {
                        if zz + 16 > 64 {
                            BitRes::Fail { err: EntErr::Fmt }
                        } else {
                            spec_ac(d, s1, t, q, zz + 16, c)
                        }
                    } else {
                        BitRes::Fail { err: EntErr::Fmt }
                    }
                } else if zz + run >= 64 {
                    BitRes::Fail { err: EntErr::Fmt }
                } else if size > 10 {
                    BitRes::Fail { err: EntErr::Fmt }
                } else {
                    match spec_receive_extend(d, s1, size) {
                        BitRes::Fail { err } => BitRes::Fail { err },
                        BitRes::Got { val: v, st: s2 } => {
                            let k = spec_unzigzag()[zz + run] as int;
                            spec_ac(d, s2, t, q, zz + run + 1, c.update(k, (v * q[k]) as i32))
                        },
                    }
                }
            },
        }
    }
}

/// The outcome `o` of decoding coefficients, paired with predictor `p`.
pub open spec fn spec_with_pred(o: BitRes<Seq<i32>>, p: i32) -> BitRes<(Seq<i32>, i32)> {
    match o {
        BitRes::Fail { err } => BitRes::Fail { err },
        BitRes::Got { val: c, st } => BitRes::Got { val: (c, p), st },
    }
}

/// Decoding one 8x8 block: the DC difference, added to the predictor
/// `pred`, then the AC coefficients; all dequantized with `q`, in natural
/// order. The value is the block and the new predictor.
pub open spec fn spec_decode_block(d: Seq<u8>, st: BitState, dc: HuffModel, ac: HuffModel, q: Seq<u16>, pred: i32) -> BitRes<(Seq<i32>, i32)> {
    match spec_huff(d, st, dc) {
        BitRes::Fail { err } => BitRes::Fail { err },
        BitRes::Got { val: dc_size, st: s1 } => if dc_size > 11 {
            BitRes::Fail { err: EntErr::Fmt }
        } else {
            match spec_receive_extend(d, s1, dc_size) {
                BitRes::Fail { err } => BitRes::Fail { err },
                BitRes::Got { val: delta, st: s2 } => if pred + delta > i32::MAX || pred + delta < i32::MIN {
                    BitRes::Fail { err: EntErr::Fmt }
                } else {
                    let p = (pred + delta) as i32;
                    let c0 = Seq::new(64, |i: int| 0i32).update(0, p.wrapping_mul(q[0] as i32));
                    spec_with_pred(spec_ac(d, s2, ac, q, 1, c0), p)
                }
            }
        },
    }
}

/// A bit reader over the entropy-coded data of a scan.
pub struct JpegBitReader<'a> {
    pub reader: ByteCursor<'a>,
    pub bit_buf: u32,
    pub bit_count: u8,
}

impl<'a> JpegBitReader<'a> {
    pub open spec fn state(&self) -> BitState {
        BitState { pos: self.reader.pos as int, buf: self.bit_buf, count: self.bit_count }
    }

    pub open spec fn data(&self) -> Seq<u8> {
        self.reader.data@
    }

    pub open spec fn wf(&self) -> bool {
        &&& self.reader.pos <= self.reader.data@.len()
        &&& self.bit_count <= 8
        &&& self.bit_buf < 256
    }

    /// A reader at position `pos` of `data`, with no bit pending.
    pub fn new(data: &'a [u8], pos: usize) -> (r: JpegBitReader<'a>)
        requires
            pos <= data@.len(),
        ensures
            r.wf(),
            r.data() == data@,
            r.state() == (BitState { pos: pos as int, buf: 0, count: 0 }),
    {
        JpegBitReader { reader: ByteCursor { data, pos }, bit_buf: 0, bit_count: 0 }
    }

    /// The next byte of entropy-coded data.
    pub fn read_entropy_byte(&mut self) -> (r: PictorResult<u8>)
        requires
            old(self).wf(),
        ensures
            final(self).wf(),
            final(self).data() == old(self).data(),
            final(self).bit_buf == old(self).bit_buf,
            final(self).bit_count == old(self).bit_count,
            match spec_entropy_byte(old(self).data(), old(self).reader.pos as int) {
                BitRes::Got { val, st } => r == Ok::<u8, PictorError>(val) && final(self).reader.pos == st.pos,
                BitRes::Fail { err } => r matches Err(e) && spec_ent_err(err, e),
            },
    {
        let byte = self.reader.read_u8()?;
        if byte != 0xFF {
            return Ok(byte);
        }
        let next = self.reader.read_u8()?;
        if next == 0x00 {
            Ok(0xFF)
        } else if next == 0xD9 {
            Err(PictorError::InvalidArgument { msg: "Unexpected EOI" })
        } else if 0xD0 <= next && next <= 0xD7 {
            Err(PictorError::invalid_format("JPEG restart markers are not supported"))
        } else {
            Err(PictorError::invalid_format("unexpected marker in JPEG entropy data"))
        }
    }

    /// Loads the next byte of entropy-coded data.
    fn fill(&mut self) -> (r: PictorResult<()>)
        requires
            old(self).wf(),
        ensures
            final(self).wf(),
            final(self).data() == old(self).data(),
            match spec_entropy_byte(old(self).data(), old(self).reader.pos as int) {
                BitRes::Got { val, st } => r is Ok && final(self).state() == (BitState {
                    pos: st.pos,
                    buf: val as u32,
                    count: 8,
                }),
                BitRes::Fail { err } => r matches Err(e) && spec_ent_err(err, e),
            },
    {
        let b = self.read_entropy_byte()?;
        self.bit_buf = b as u32;
        self.bit_count = 8;
        Ok(())
    }

    /// The next bit, most significant first.
    pub fn read_bit(&mut self) -> (r: PictorResult<u8>)
        requires
            old(self).wf(),
        ensures
            final(self).wf(),
            final(self).data() == old(self).data(),
            spec_bit_result(spec_read_bit(old(self).data(), old(self).state()), r, final(self).state()),
            r matches Ok(b) ==> b <= 1,
    {
        if self.bit_count == 0 {
            self.fill()?;
        }
        self.bit_count = self.bit_count - 1;
        let buf = self.bit_buf;
        let count = self.bit_count;
        assert((buf >> (count as u32)) & 1u32 <= 1) by (bit_vector);
        assert(buf < 256 && count == 7 ==> (buf >> (count as u32)) & 1u32 == ((((buf as u8) as u32) >> 7u32) & 1u32))
            by (bit_vector);
        Ok(((self.bit_buf >> self.bit_count) & 1) as u8)
    }

    /// The next `count` bits as a number, first bit most significant.
    pub fn read_bits(&mut self, count: u8) -> (r: PictorResult<u16>)
        requires
            old(self).wf(),
            count <= 16,
        ensures
            final(self).wf(),
            final(self).data() == old(self).data(),
            spec_bit_result(spec_read_bits(old(self).data(), old(self).state(), count as nat), r, final(self).state()),
            r matches Ok(v) ==> (v as u32) < (1u32 << (count as u32)),
    {
        let mut value: u16 = 0;
        let mut i: u8 = 0;
        proof {
            lemma_bit_consts();
        }
        while i < count
            invariant
                self.wf(),
                self.data() == old(self).data(),
                i <= count,
                count <= 16,
                spec_read_bits(old(self).data(), old(self).state(), i as nat) == (BitRes::Got { val: value, st: self.state() }),
                (value as u32) < (1u32 << (i as u32)),
            decreases count - i,
        {
            let ghost s1 = self.state();
            let rb = self.read_bit();
            proof {
                if rb is Err {
                    lemma_read_bits_fail(old(self).data(), old(self).state(), (i + 1) as nat, count as nat);
                }
            }
            let bit = rb?;
            let ghost v0 = value;
            assert((v0 as u32) < (1u32 << (i as u32)) && bit <= 1 && i < 16 ==> (((v0 << 1u16) | (bit as u16)) as u32)
                < (1u32 << ((i + 1) as u32))) by (bit_vector);
            value = (value << 1) | (bit as u16);
            i = i + 1;
        }
        Ok(value)
    }

    /// A coefficient of `size` bits, sign-extended.
    pub fn receive_extend(&mut self, size: u8) -> (r: PictorResult<i32>)
        requires
            old(self).wf(),
            size <= 11,
        ensures
            final(self).wf(),
            final(self).data() == old(self).data(),
            spec_bit_result(spec_receive_extend(old(self).data(), old(self).state(), size), r, final(self).state()),
            r matches Ok(v) ==> -2048 < v < 2048,
            r matches Ok(v) ==> size <= 10 ==> -1024 < v < 1024,
    {
        if size == 0 {
            return Ok(0);
        }
        let bits = self.read_bits(size)?;
        let b = bits as i32;
        let threshold: i32 = 1i32 << ((size - 1) as u32);
        let full: i32 = 1i32 << (size as u32);
        assert(1 <= size <= 11 && (bits as u32) < (1u32 << (size as u32)) ==> (bits as i32) < 2048 && (1i32 << ((size - 1) as u32)) <= 1024 && (1i32 << (size as u32)) <= 2048 && (1i32 << (size as u32)) >= 2)
            by (bit_vector);
        assert(1 <= size <= 10 && (bits as u32) < (1u32 << (size as u32)) ==> (bits as i32) < 1024 && (1i32 << (size as u32)) <= 1024)
            by (bit_vector);
        if b < threshold {
            Ok(b + 1 - full)
        } else {
            Ok(b)
        }
    }

    /// The first canonical code of length `length`.
    pub fn first_code_for_length(counts: &[u8; 16], length: usize) -> (r: u16)
        requires
            1 <= length <= 16,
        ensures
            r == spec_first_code(counts@, length as int),
    {
        let mut code: u16 = 0;
        let mut current_length: usize = 1;
        while current_length < length
            invariant
                1 <= current_length <= length,
                length <= 16,
                code == spec_first_code(counts@, current_length as int),
            decreases length - current_length,
        {
            let ghost c0 = code;
            let sum = code.wrapping_add(counts[current_length - 1] as u16);
            code = sum << 1;
            assert(sum == (c0 + counts@[current_length - 1]) % 65536);
            assert((sum << 1u16) == (sum * 2) % 65536) by (bit_vector);
            current_length = current_length + 1;
        }
        code
    }

    /// The next Huffman-coded symbol of table `table`.
    pub fn decode_huffman_symbol(&mut self, table: &JpegHuffmanTable) -> (r: PictorResult<u8>)
        requires
            old(self).wf(),
        ensures
            final(self).wf(),
            final(self).data() == old(self).data(),
            spec_bit_result(spec_huff(old(self).data(), old(self).state(), table.model()), r, final(self).state()),
    {
        let mut code: u16 = 0;
        let mut symbol_offset: usize = 0;
        let mut code_length: usize = 1;
        let ghost t = table.model();
        proof {
            lemma_bit_consts();
        }
        while code_length <= 16
            invariant
                self.wf(),
                self.data() == old(self).data(),
                1 <= code_length <= 17,
                (code as u32) < (1u32 << ((code_length - 1) as u32)),
                symbol_offset <= 255 * (code_length - 1),
                t == table.model(),
                spec_huff(old(self).data(), old(self).state(), t) == spec_huff_from(
                    self.data(),
                    self.state(),
                    t,
                    code_length as int,
                    code,
                    symbol_offset as int,
                ),
            decreases 17 - code_length,
        {
            let bit = self.read_bit()?;
            let ghost c0 = code;
            assert((c0 as u32) < (1u32 << ((code_length - 1) as u32)) && bit <= 1 && code_length <= 16 ==> (((c0
                << 1u16) | (bit as u16)) as u32) < (1u32 << (code_length as u32))) by (bit_vector);
            code = (code << 1) | (bit as u16);
            let count = table.code_counts[code_length - 1] as usize;
            if count == 0 {
                code_length = code_length + 1;
                continue;
            }
            let first_code = Self::first_code_for_length(&table.code_counts, code_length);
            if code >= first_code && ((code - first_code) as usize) < count {
                let index = symbol_offset + (code - first_code) as usize;
                if index < table.symbols.len() {
                    return Ok(table.symbols[index]);
                } else {
                    return Err(PictorError::invalid_format("JPEG Huffman symbol index is out of bounds"));
                }
            }
            symbol_offset = symbol_offset + count;
            code_length = code_length + 1;
        }
        Err(PictorError::invalid_format("Invalid JPEG Huffman code"))
    }

    /// Decodes one 8x8 block: the DC difference (added to `previous_dc`,
    /// which becomes the new predictor) and the run-length coded AC
    /// coefficients, dequantized, in natural order.
    pub fn decode_block(
        &mut self,
        dc_table: &JpegHuffmanTable,
        ac_table: &JpegHuffmanTable,
        quantization_table: &[u16; 64],
        previous_dc: &mut i32,
    ) -> (r: PictorResult<[i32; 64]>)
        requires
            old(self).wf(),
        ensures
            final(self).wf(),
            final(self).data() == old(self).data(),
            match spec_decode_block(
                old(self).data(),
                old(self).state(),
                dc_table.model(),
                ac_table.model(),
                quantization_table@,
                *old(previous_dc),
            ) {
                BitRes::Got { val, st } => r matches Ok(b) && b@ == val.0 && *final(previous_dc) == val.1
                    && final(self).state() == st,
                BitRes::Fail { err } => r matches Err(e) && spec_ent_err(err, e),
            },
    {
        let mut coefficients = [0i32; 64];
        let dc_size = self.decode_huffman_symbol(dc_table)?;
        if dc_size > 11 {
            return Err(PictorError::invalid_format("Invalid JPEG DC coefficient size"));
        }
        let dc_delta = self.receive_extend(dc_size)?;
        let p = match previous_dc.checked_add(dc_delta) {
            Some(v) => v,
            None => {
                return Err(PictorError::invalid_format("JPEG DC predictor overflow"));
            },
        };
        *previous_dc = p;
        coefficients[0] = p.wrapping_mul(quantization_table[0] as i32);
        let ghost q = quantization_table@;
        let ghost c0 = Seq::new(64, |i: int| 0i32).update(0, p.wrapping_mul(q[0] as i32));
        assert(coefficients@ =~= c0);
        let ghost target = spec_ac(self.data(), self.state(), ac_table.model(), q, 1, c0);
        let unzigzag = unzigzag_table();
        let mut zigzag_index: usize = 1;
        while zigzag_index < 64
            invariant_except_break
                self.wf(),
                self.data() == old(self).data(),
                1 <= zigzag_index <= 64,
                q == quantization_table@,
                unzigzag@ == spec_unzigzag(),
                forall|i: int| 0 <= i < 64 ==> #[trigger] unzigzag@[i] < 64,
                target == spec_ac(self.data(), self.state(), ac_table.model(), q, zigzag_index as int, coefficients@),
                *previous_dc == p,
                spec_decode_block(old(self).data(), old(self).state(), dc_table.model(), ac_table.model(), q, *old(previous_dc))
                    == spec_with_pred(target, p),
            ensures
                *previous_dc == p,
                spec_decode_block(old(self).data(), old(self).state(), dc_table.model(), ac_table.model(), q, *old(previous_dc))
                    == spec_with_pred(target, p),
                self.wf(),
                self.data() == old(self).data(),
                target == (BitRes::Got { val: coefficients@, st: self.state() }),
            decreases 64 - zigzag_index,
        {
            let symbol = self.decode_huffman_symbol(ac_table)?;
            let run = (symbol >> 4) as usize;
            let size = symbol & 0x0F;
            if size == 0 {
                if run == 0 {
                    break;
                }
                if run == 15 {
                    zigzag_index = zigzag_index + 16;
                    if zigzag_index > 64 {
                        return Err(PictorError::invalid_format("Invalid JPEG AC run length"));
                    }
                    continue;
                }
                return Err(PictorError::invalid_format("Invalid JPEG AC coefficient symbol"));
            }
            zigzag_index = zigzag_index + run;
            if zigzag_index >= 64 {
                return Err(PictorError::invalid_format("JPEG AC coefficient exceeds block boundary"));
            }
            if size > 10 {
                return Err(PictorError::invalid_format("Invalid JPEG AC coefficient size"));
            }
            let value = self.receive_extend(size)?;
            let natural_index = unzigzag[zigzag_index];
            let qv = quantization_table[natural_index] as i32;
            assert(-1024 < value < 1024 && 0 <= qv <= 65535 ==> -67108864 < value * qv < 67108864) by (nonlinear_arith);
            coefficients[natural_index] = value * qv;
            zigzag_index = zigzag_index + 1;
        }
        Ok(coefficients)
    }
}

} // verus!
