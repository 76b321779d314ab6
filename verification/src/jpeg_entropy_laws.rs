use vstd::prelude::*;
use vstd::arithmetic::power2::pow2;
use crate::jpeg_read::HuffModel;
use crate::jpeg_entropy::{BitRes, BitState, spec_entropy_byte, spec_read_bit, spec_read_bits, spec_receive_extend};
use crate::jpeg_read::spec_unzigzag;
use crate::jpeg_write::{
    spec_ac_chromin_nrcodes, spec_ac_chromin_values, spec_ac_lumin_nrcodes, spec_ac_lumin_values, spec_dc_chromin_nrcodes,
    spec_dc_chromin_values, spec_dc_lumin_nrcodes, spec_dc_lumin_values,
};
use crate::jpeg_write::{spec_zigzag, spec_bit_len, spec_byte_of, spec_calc_bits, spec_code_bits, spec_codes_bits, spec_pack, spec_stuff};

verus! {

/// The stuffed bytes of one byte: `FF` is followed by `00`.
pub open spec fn spec_stuffed_byte(b: u8) -> Seq<u8> {
    if b == 0xFF {
        seq![0xFFu8, 0u8]
    } else {
        seq![b]
    }
}

proof fn lemma_stuff_append(a: Seq<u8>, b: Seq<u8>)
    ensures
        spec_stuff(a + b) == spec_stuff(a) + spec_stuff(b),
    decreases b.len(),
{
    if b.len() == 0 {
        assert(a + b =~= a);
        assert(spec_stuff(a) + spec_stuff(b) =~= spec_stuff(a));
    } else {
        lemma_stuff_append(a, b.drop_last());
        assert((a + b).drop_last() =~= a + b.drop_last());
        assert((a + b).last() == b.last());
        assert(spec_stuff(a + b) =~= spec_stuff(a) + spec_stuff(b));
    }
}

/// The stuffed form of `s` holds, right after the stuffed form of its first
/// `k` bytes, the stuffed form of byte `k`.
proof fn lemma_stuff_at(s: Seq<u8>, k: int)
    requires
        0 <= k < s.len(),
    ensures
        spec_stuff(s.subrange(0, k + 1)) == spec_stuff(s.subrange(0, k)) + spec_stuffed_byte(s[k]),
        spec_stuff(s) == spec_stuff(s.subrange(0, k + 1)) + spec_stuff(s.subrange(k + 1, s.len() as int)),
{
    let t = s.subrange(0, k + 1);
    assert(t.drop_last() =~= s.subrange(0, k));
    assert(t.last() == s[k]);
    assert(s =~= t + s.subrange(k + 1, s.len() as int));
    lemma_stuff_append(t, s.subrange(k + 1, s.len() as int));
}

proof fn lemma_pack_index(bits: Seq<bool>, j: int)
    requires
        bits.len() % 8 == 0,
        0 <= j < bits.len() / 8,
    ensures
        spec_pack(bits).len() == bits.len() / 8,
        spec_pack(bits)[j] == spec_byte_of(bits.subrange(8 * j, 8 * j + 8)),
    decreases bits.len(),
{
    let rest = bits.subrange(8, bits.len() as int);
    if j > 0 {
        lemma_pack_index(rest, j - 1);
        assert(rest.subrange(8 * (j - 1), 8 * (j - 1) + 8) =~= bits.subrange(8 * j, 8 * j + 8));
    } else if rest.len() >= 8 {
        lemma_pack_index(rest, 0);
    } else {
        assert(rest.len() == 0);
        assert(spec_pack(rest).len() == 0);
    }
    assert(spec_pack(bits) == seq![spec_byte_of(bits.subrange(0, 8))] + spec_pack(rest));
}

proof fn lemma_byte_bits(x0: bool, x1: bool, x2: bool, x3: bool, x4: bool, x5: bool, x6: bool, x7: bool, b: u8)
    by (bit_vector)
    requires
        b == ((if x0 { 128u8 } else { 0u8 }) + (if x1 { 64u8 } else { 0u8 }) + (if x2 { 32u8 } else { 0u8 }) + (if x3 {
            16u8
        } else {
            0u8
        }) + (if x4 { 8u8 } else { 0u8 }) + (if x5 { 4u8 } else { 0u8 }) + (if x6 { 2u8 } else { 0u8 }) + (if x7 {
            1u8
        } else {
            0u8
        })) as u8,
    ensures
        (((b as u32) >> 7u32) & 1u32 == 1u32) == x0,
        (((b as u32) >> 6u32) & 1u32 == 1u32) == x1,
        (((b as u32) >> 5u32) & 1u32 == 1u32) == x2,
        (((b as u32) >> 4u32) & 1u32 == 1u32) == x3,
        (((b as u32) >> 3u32) & 1u32 == 1u32) == x4,
        (((b as u32) >> 2u32) & 1u32 == 1u32) == x5,
        (((b as u32) >> 1u32) & 1u32 == 1u32) == x6,
        (((b as u32) >> 0u32) & 1u32 == 1u32) == x7,
        ((b as u32) >> 7u32) & 1u32 <= 1,
        ((b as u32) >> 6u32) & 1u32 <= 1,
        ((b as u32) >> 5u32) & 1u32 <= 1,
        ((b as u32) >> 4u32) & 1u32 <= 1,
        ((b as u32) >> 3u32) & 1u32 <= 1,
        ((b as u32) >> 2u32) & 1u32 <= 1,
        ((b as u32) >> 1u32) & 1u32 <= 1,
        ((b as u32) >> 0u32) & 1u32 <= 1,
{
}

/// Bit `i` of a byte packed from eight bits, counted from the most
/// significant end, is the `i`-th of those bits.
proof fn lemma_byte_of_bit(e: Seq<bool>, i: int)
    requires
        e.len() == 8,
        0 <= i < 8,
    ensures
        (((spec_byte_of(e) as u32) >> ((7 - i) as u32)) & 1u32 == 1u32) == e[i],
        ((spec_byte_of(e) as u32) >> ((7 - i) as u32)) & 1u32 <= 1,
{
    lemma_byte_bits(e[0], e[1], e[2], e[3], e[4], e[5], e[6], e[7], spec_byte_of(e));
}

/// The reader's state after the first `n` bits of `bits`, stored packed and
/// stuffed from `p0` on, were read from the state at `p0` with no bits
/// pending and buffer `buf0`.
pub open spec fn spec_state_after(bits: Seq<bool>, p0: int, buf0: u32, n: int) -> BitState {
    if n <= 0 {
        BitState { pos: p0, buf: buf0, count: 0 }
    } else {
        let k = (n + 7) / 8;
        BitState {
            pos: p0 + spec_stuff(spec_pack(bits).subrange(0, k)).len(),
            buf: spec_pack(bits)[k - 1] as u32,
            count: ((8 - n % 8) % 8) as u8,
        }
    }
}

/// Reading the next bit of a packed and stuffed bit sequence gives that bit.
pub proof fn lemma_read_coded_bit(d: Seq<u8>, bits: Seq<bool>, p0: int, buf0: u32, n: int)
    requires
        bits.len() % 8 == 0,
        0 <= n < bits.len(),
        0 <= p0,
        p0 + spec_stuff(spec_pack(bits)).len() <= d.len(),
        d.subrange(p0, p0 + spec_stuff(spec_pack(bits)).len()) == spec_stuff(spec_pack(bits)),
    ensures
        spec_read_bit(d, spec_state_after(bits, p0, buf0, n)) == (BitRes::Got {
            val: if bits[n] { 1u8 } else { 0u8 },
            st: spec_state_after(bits, p0, buf0, n + 1),
        }),
{
    let pk = spec_pack(bits);
    let j = n / 8;
    let r = n % 8;
    lemma_pack_index(bits, j);
    let e = bits.subrange(8 * j, 8 * j + 8);
    lemma_byte_of_bit(e, r);
    assert(e[r] == bits[n]);
    let st = spec_state_after(bits, p0, buf0, n);
    let st1 = spec_state_after(bits, p0, buf0, n + 1);
    if r == 0 {
        lemma_stuff_at(pk, j);
        let pre = spec_stuff(pk.subrange(0, j));
        let one = spec_stuffed_byte(pk[j]);
        let all = spec_stuff(pk);
        assert(all == pre + one + spec_stuff(pk.subrange(j + 1, pk.len() as int)));
        assert(st.pos == p0 + pre.len()) by {
            if n > 0 {
                assert((n + 7) / 8 == j);
            }
        }
        assert(st.count == 0);
        assert(d[p0 + pre.len()] == all[pre.len() as int]);
        assert(all[pre.len() as int] == pk[j]);
        if pk[j] == 0xFF {
            assert(d[p0 + pre.len() + 1] == all[pre.len() + 1int]);
            assert(all[pre.len() + 1int] == 0);
        }
        assert((n + 1 + 7) / 8 == j + 1);
        assert(st1.pos == p0 + (pre + one).len());
        assert(st1.count == 7);
    } else {
        assert((n + 7) / 8 == j + 1);
        assert((n + 8) / 8 == j + 1);
        assert(st.count == 8 - r);
        assert(st.buf == pk[j] as u32);
    }
}


/// The number whose bits, most significant first, are `s`, in 16 bits.
pub open spec fn spec_bits_value(s: Seq<bool>) -> u16
    decreases s.len(),
{
    if s.len() == 0 {
        0
    } else {
        ((spec_bits_value(s.drop_last()) << 1u16) | (if s.last() { 1u16 } else { 0u16 })) as u16
    }
}

/// Reading the next `m` bits of a packed and stuffed bit sequence gives
/// their value.
pub proof fn lemma_read_coded_bits(d: Seq<u8>, bits: Seq<bool>, p0: int, buf0: u32, n: int, m: nat)
    requires
        bits.len() % 8 == 0,
        0 <= n,
        n + m <= bits.len(),
        0 <= p0,
        p0 + spec_stuff(spec_pack(bits)).len() <= d.len(),
        d.subrange(p0, p0 + spec_stuff(spec_pack(bits)).len()) == spec_stuff(spec_pack(bits)),
    ensures
        spec_read_bits(d, spec_state_after(bits, p0, buf0, n), m) == (BitRes::Got {
            val: spec_bits_value(bits.subrange(n, n + m)),
            st: spec_state_after(bits, p0, buf0, n + m),
        }),
    decreases m,
{
    if m == 0 {
        assert(bits.subrange(n, n) =~= Seq::<bool>::empty());
    } else {
        lemma_read_coded_bits(d, bits, p0, buf0, n, (m - 1) as nat);
        lemma_read_coded_bit(d, bits, p0, buf0, n + m - 1);
        assert(bits.subrange(n, n + m).drop_last() =~= bits.subrange(n, n + m - 1));
        assert(bits.subrange(n, n + m).last() == bits[n + m - 1]);
    }
}

proof fn lemma_code_step(code: u32, k: u32, size: u32)
    by (bit_vector)
    requires
        k < 31,
        size <= 16,
    ensures
        (code >> 1u32) >> k == code >> ((k + 1) as u32),
        code < 0x10000u32 ==> ((((code >> 1u32) as u16) << 1u16) | (if (code & 1u32) == 1u32 { 1u16 } else { 0u16 }))
            == code as u16,
        code >> 0u32 == code,
        code < (1u32 << size) ==> code < 0x10000u32,
        size == 0 && code < (1u32 << size) ==> code == 0,
        size >= 1 && code < (1u32 << size) ==> (code >> 1u32) < (1u32 << ((size - 1) as u32)),
{
}

/// The bits of a code of `size` bits read back as the code.
pub proof fn lemma_code_bits_value(code: u32, size: u32)
    requires
        size <= 16,
        code < (1u32 << size),
    ensures
        spec_bits_value(spec_code_bits(code, size)) == code as u16,
    decreases size,
{
    lemma_code_step(code, 0, size);
    if size > 0 {
        let s = spec_code_bits(code, size);
        let c1 = code >> 1u32;
        lemma_code_bits_value(c1, (size - 1) as u32);
        assert(s.drop_last() =~= spec_code_bits(c1, (size - 1) as u32)) by {
            assert forall|i: int| 0 <= i < size - 1 implies s.drop_last()[i] == spec_code_bits(c1, (size - 1) as u32)[i] by {
                lemma_code_step(code, (size - 2 - i) as u32, size);
            }
        }
        assert(s.last() == ((code >> 0u32) & 1u32 == 1u32));
    }
}


proof fn lemma_halve_bounds(n: i32, b: u32)
    by (bit_vector)
    requires
        1 <= b <= 15,
    ensures
        (1i32 << 0u32) == 1,
        (1i32 << 1u32) == 2,
        2 <= n < 32768 && (1i32 << ((b - 1) as u32)) <= n / 2 < (1i32 << b) ==> b <= 14 && (1i32 << b) <= n < (1i32
            << ((b + 1) as u32)),
{
}

/// A coefficient magnitude `n` from 1 on has `spec_bit_len(n)` bits: it lies
/// between the power of two below that length and the one at it.
proof fn lemma_bit_len_range(n: i32)
    requires
        1 <= n < 32768,
    ensures
        1 <= spec_bit_len(n as int) <= 15,
        (1i32 << ((spec_bit_len(n as int) - 1) as u32)) <= n < (1i32 << (spec_bit_len(n as int) as u32)),
    decreases n,
{
    if n == 1 {
        lemma_halve_bounds(n, 1);
    } else {
        let h = (n / 2) as i32;
        lemma_bit_len_range(h);
        assert(spec_bit_len(n as int) == 1 + spec_bit_len(h as int));
        let b = spec_bit_len(h as int) as u32;
        lemma_halve_bounds(n, b);
    }
}


proof fn lemma_extend_bits(v: i32, s: u32)
    by (bit_vector)
    requires
        1 <= s <= 15,
        -32768 < v < 32768,
        (1i32 << ((s - 1) as u32)) <= (if v < 0 { (-v) as i32 } else { v }) < (1i32 << s),
    ensures
        ({
            let enc = if v < 0 { (v - 1) as i32 } else { v };
            let b = (enc & (((1i32 << s) - 1) as i32)) as u16;
            &&& (b as u32) < (1u32 << s)
            &&& (if (b as i32) < (1i32 << ((s - 1) as u32)) {
                ((b as i32) + 1 - (1i32 << s)) as i32
            } else {
                b as i32
            }) == v
        }),
{
}

/// The bits the encoder writes for a nonzero coefficient (its magnitude
/// bits, for a negative value those of the value minus one) read back as
/// the coefficient.
pub proof fn lemma_receive_coded(d: Seq<u8>, bits: Seq<bool>, p0: int, buf0: u32, n: int, v: i32)
    requires
        -32768 < v < 32768,
        v != 0,
        bits.len() % 8 == 0,
        0 <= n,
        n + spec_calc_bits(v)[1] <= bits.len(),
        bits.subrange(n, n + spec_calc_bits(v)[1]) == spec_code_bits(
            spec_calc_bits(v)[0] as u32,
            spec_calc_bits(v)[1] as u32,
        ),
        0 <= p0,
        p0 + spec_stuff(spec_pack(bits)).len() <= d.len(),
        d.subrange(p0, p0 + spec_stuff(spec_pack(bits)).len()) == spec_stuff(spec_pack(bits)),
    ensures
        spec_receive_extend(d, spec_state_after(bits, p0, buf0, n), spec_calc_bits(v)[1] as u8) == (BitRes::Got {
            val: v,
            st: spec_state_after(bits, p0, buf0, n + spec_calc_bits(v)[1]),
        }),
{
    let abs: i32 = if v < 0 { (-v) as i32 } else { v };
    lemma_bit_len_range(abs);
    let size = spec_bit_len(abs as int);
    let c = spec_calc_bits(v);
    assert(c[1] == size);
    lemma_extend_bits(v, size as u32);
    lemma_code_bits_value(c[0] as u32, c[1] as u32);
    lemma_read_coded_bits(d, bits, p0, buf0, n, c[1] as nat);
}


/// The first canonical code of length `len`, without wrapping.
pub open spec fn spec_first_exact(nr: Seq<u8>, len: int) -> int
    decreases len,
{
    if len <= 1 {
        0
    } else {
        (spec_first_exact(nr, len - 1) + nr[len - 1]) * 2
    }
}

/// The code counts `nr[1..=16]` describe a code that fits: at each length
/// the codes given out so far leave room for the codes of that length.
pub open spec fn spec_kraft(nr: Seq<u8>) -> bool {
    &&& nr.len() == 17
    &&& forall|l: int| 1 <= l <= 16 ==> #[trigger] spec_first_exact(nr, l) + nr[l] <= pow2(l as nat)
}

proof fn lemma_first_exact_mono(nr: Seq<u8>, a: int, b: int)
    requires
        nr.len() == 17,
        1 <= a <= b <= 16,
    ensures
        0 <= spec_first_exact(nr, a) <= spec_first_exact(nr, b),
    decreases b - a,
{
    if a < b {
        lemma_first_exact_mono(nr, a, b - 1);
    } else {
        lemma_first_exact_nonneg(nr, a);
    }
}

proof fn lemma_first_exact_nonneg(nr: Seq<u8>, a: int)
    requires
        nr.len() == 17,
        1 <= a <= 16,
    ensures
        0 <= spec_first_exact(nr, a),
    decreases a,
{
    if a > 1 {
        lemma_first_exact_nonneg(nr, a - 1);
    }
}

/// Up to a length that has codes, the 16-bit first codes of the encoder and
/// of the decoder are the exact ones.
proof fn lemma_first_codes_agree(nr: Seq<u8>, l: int, len: int)
    requires
        spec_kraft(nr),
        1 <= l <= len <= 16,
        nr[len] >= 1,
    ensures
        spec_first_exact(nr, l) < 65536,
        crate::jpeg_write::spec_first_code(nr, l) == spec_first_exact(nr, l),
        crate::jpeg_entropy::spec_first_code(nr.subrange(1, 17), l) == spec_first_exact(nr, l),
    decreases l,
{
    vstd::arithmetic::power2::lemma2_to64();
    vstd::arithmetic::power2::lemma_pow2_strictly_increases(len as nat, 17);
    assert(spec_first_exact(nr, len) + nr[len] <= pow2(len as nat));
    lemma_first_exact_mono(nr, l, len);
    if l > 1 {
        lemma_first_codes_agree(nr, l - 1, len);
        lemma_first_exact_nonneg(nr, l - 1);
        assert(nr.subrange(1, 17)[l - 2] == nr[l - 1]);
    }
}

/// The first code of a longer length lies at or above the codes of a
/// shorter length, shifted up to the longer length.
proof fn lemma_first_exact_shift(nr: Seq<u8>, l: int, len: int)
    requires
        nr.len() == 17,
        1 <= l < len <= 16,
    ensures
        spec_first_exact(nr, len) >= (spec_first_exact(nr, l) + nr[l]) * pow2((len - l) as nat),
    decreases len - l,
{
    vstd::arithmetic::power2::lemma_pow2_unfold((len - l) as nat);
    lemma_first_exact_nonneg(nr, l);
    if len == l + 1 {
        vstd::arithmetic::power2::lemma2_to64();
    } else {
        lemma_first_exact_shift(nr, l, len - 1);
        lemma_first_exact_nonneg(nr, len - 1);
        let a = spec_first_exact(nr, l) + nr[l];
        let p = pow2((len - 1 - l) as nat) as int;
        assert(spec_first_exact(nr, len) == (spec_first_exact(nr, len - 1) + nr[len - 1]) * 2);
        assert(spec_first_exact(nr, len - 1) >= a * p);
        assert((spec_first_exact(nr, len - 1) + nr[len - 1]) * 2 >= a * (2 * p)) by (nonlinear_arith)
            requires
                spec_first_exact(nr, len - 1) >= a * p,
                nr[len - 1] >= 0,
        ;
    }
}

/// Symbol number `k` has a code length in 1 to 16, among the codes of
/// which it lies.
proof fn lemma_len_props(nr: Seq<u8>, k: int, l: int)
    requires
        nr.len() == 17,
        1 <= l <= 16,
        crate::jpeg_write::spec_codes_upto(nr, l - 1) <= k < crate::jpeg_write::spec_codes_upto(nr, 16),
    ensures
        l <= crate::jpeg_write::spec_len_from(nr, k, l) <= 16,
        crate::jpeg_write::spec_codes_upto(nr, crate::jpeg_write::spec_len_from(nr, k, l) - 1) <= k
            < crate::jpeg_write::spec_codes_upto(nr, crate::jpeg_write::spec_len_from(nr, k, l)),
    decreases 16 - l,
{
    if l < 16 && k >= crate::jpeg_write::spec_codes_upto(nr, l) {
        lemma_len_props(nr, k, l + 1);
    }
}


/// The first `l` bits of a code of `len` bits are the bits of the code
/// without its last `len - l` bits.
proof fn lemma_code_prefix(code: u32, len: u32, l: int)
    requires
        len <= 16,
        code < (1u32 << len),
        0 <= l <= len,
    ensures
        (code as int / (pow2((len - l) as nat) as int)) < pow2(l as nat),
        ((code as int / (pow2((len - l) as nat) as int)) as u32) < (1u32 << (l as u32)),
        spec_code_bits(code, len).subrange(0, l) == spec_code_bits(
            (code as int / (pow2((len - l) as nat) as int)) as u32,
            l as u32,
        ),
{
    vstd::arithmetic::power2::lemma2_to64();
    vstd::bits::lemma_u32_shl_is_mul(1, len);
    vstd::bits::lemma_u32_shl_is_mul(1, l as u32);
    vstd::arithmetic::power2::lemma_pow2_adds((len - l) as nat, l as nat);
    vstd::arithmetic::power2::lemma_pow2_pos((len - l) as nat);
    let d = pow2((len - l) as nat) as int;
    let p = code as int / d;
    assert((code as int) < d * pow2(l as nat));
    vstd::arithmetic::div_mod::lemma_multiply_divide_lt(code as int, d, pow2(l as nat) as int);
    let pc = p as u32;
    assert forall|i: int| 0 <= i < l implies #[trigger] spec_code_bits(code, len).subrange(0, l)[i] == spec_code_bits(pc, l as u32)[i] by {
        let j = (l - 1 - i) as u32;
        vstd::bits::lemma_u32_shr_is_div(pc, j);
        vstd::bits::lemma_u32_shr_is_div(code, (len - 1 - i) as u32);
        vstd::arithmetic::div_mod::lemma_div_denominator(code as int, d, pow2(j as nat) as int);
        vstd::arithmetic::power2::lemma_pow2_adds((len - l) as nat, j as nat);
        vstd::arithmetic::power2::lemma_pow2_pos(j as nat);
        assert((len - l) as nat + j as nat == (len - 1 - i) as nat);
        assert(pc >> j == code >> ((len - 1 - i) as u32));
    }
    assert(spec_code_bits(code, len).subrange(0, l) =~= spec_code_bits(pc, l as u32));
}


/// The value of the first `l` bits of a code of `len` bits.
proof fn lemma_prefix_value(bits: Seq<bool>, n: int, cw: u32, len: int, l: int)
    requires
        1 <= l <= len <= 16,
        0 <= n,
        n + len <= bits.len(),
        cw < (1u32 << (len as u32)),
        bits.subrange(n, n + len) == spec_code_bits(cw, len as u32),
    ensures
        spec_bits_value(bits.subrange(n, n + l)) == cw as int / (pow2((len - l) as nat) as int),
        spec_bits_value(bits.subrange(n, n + l)) == ((spec_bits_value(bits.subrange(n, n + l - 1)) << 1u16) | (
        if bits[n + l - 1] {
            1u16
        } else {
            0u16
        })) as u16,
{
    let pre = bits.subrange(n, n + l);
    assert(pre.drop_last() =~= bits.subrange(n, n + l - 1));
    assert(pre.last() == bits[n + l - 1]);
    lemma_code_prefix(cw, len as u32, l);
    let p = cw as int / (pow2((len - l) as nat) as int);
    assert(pre =~= bits.subrange(n, n + len).subrange(0, l));
    lemma_code_bits_value(p as u32, l as u32);
    vstd::arithmetic::power2::lemma2_to64();
    vstd::arithmetic::power2::lemma_pow2_strictly_increases(l as nat, 17);
}

/// A code at or above the first code of its length, shifted down to a
/// shorter length, lies past the codes of that shorter length.
proof fn lemma_prefix_past(nr: Seq<u8>, code: int, l: int, len: int)
    requires
        nr.len() == 17,
        1 <= l < len <= 16,
        code >= spec_first_exact(nr, len),
    ensures
        code / (pow2((len - l) as nat) as int) >= spec_first_exact(nr, l) + nr[l],
{
    lemma_first_exact_shift(nr, l, len);
    lemma_first_exact_nonneg(nr, l);
    let a = spec_first_exact(nr, l) + nr[l];
    let dd = pow2((len - l) as nat) as int;
    vstd::arithmetic::power2::lemma_pow2_pos((len - l) as nat);
    vstd::arithmetic::div_mod::lemma_div_is_ordered(a * dd, code, dd);
    vstd::arithmetic::div_mod::lemma_div_by_multiple(a, dd);
}

/// The decoder's table for the code counts `nr[1..=16]` and the symbols
/// `values`.
pub open spec fn spec_huff_model(nr: Seq<u8>, values: Seq<u8>) -> HuffModel {
    HuffModel { counts: nr.subrange(1, 17), symbols: values }
}

/// The canonical code of symbol number `k`, without wrapping.
pub open spec fn spec_code_value(nr: Seq<u8>, k: int) -> int {
    let len = crate::jpeg_write::spec_len_from(nr, k, 1);
    spec_first_exact(nr, len) + k - crate::jpeg_write::spec_codes_upto(nr, len - 1)
}

/// The stretch `d[p0..]` holds `bits` packed and stuffed.
pub open spec fn spec_holds_coded(d: Seq<u8>, bits: Seq<bool>, p0: int) -> bool {
    &&& bits.len() % 8 == 0
    &&& 0 <= p0
    &&& p0 + spec_stuff(spec_pack(bits)).len() <= d.len()
    &&& d.subrange(p0, p0 + spec_stuff(spec_pack(bits)).len()) == spec_stuff(spec_pack(bits))
}

#[verifier::rlimit(40)]
proof fn lemma_huff_from_coded(
    d: Seq<u8>,
    bits: Seq<bool>,
    p0: int,
    buf0: u32,
    n: int,
    nr: Seq<u8>,
    values: Seq<u8>,
    k: int,
    l: int,
)
    requires
        spec_kraft(nr),
        0 <= k < crate::jpeg_write::spec_codes_upto(nr, 16),
        crate::jpeg_write::spec_codes_upto(nr, 16) <= values.len(),
        1 <= l <= crate::jpeg_write::spec_len_from(nr, k, 1),
        spec_holds_coded(d, bits, p0),
        0 <= n,
        n + crate::jpeg_write::spec_len_from(nr, k, 1) <= bits.len(),
        bits.subrange(n, n + crate::jpeg_write::spec_len_from(nr, k, 1)) == spec_code_bits(
            spec_code_value(nr, k) as u32,
            crate::jpeg_write::spec_len_from(nr, k, 1) as u32,
        ),
    ensures
        crate::jpeg_entropy::spec_huff_from(
            d,
            spec_state_after(bits, p0, buf0, n + l - 1),
            spec_huff_model(nr, values),
            l,
            spec_bits_value(bits.subrange(n, n + l - 1)),
            crate::jpeg_write::spec_codes_upto(nr, l - 1),
        ) == (BitRes::Got {
            val: values[k],
            st: spec_state_after(bits, p0, buf0, n + crate::jpeg_write::spec_len_from(nr, k, 1)),
        }),
    decreases crate::jpeg_write::spec_len_from(nr, k, 1) - l,
{
    let len = crate::jpeg_write::spec_len_from(nr, k, 1);
    lemma_len_props(nr, k, 1);
    let cu = crate::jpeg_write::spec_codes_upto(nr, len - 1);
    assert(nr[len] >= 1);
    lemma_first_codes_agree(nr, l, len);
    lemma_first_codes_agree(nr, len, len);
    assert(spec_first_exact(nr, len) + nr[len] <= pow2(len as nat));
    let code = spec_code_value(nr, k);
    vstd::arithmetic::power2::lemma2_to64();
    vstd::arithmetic::power2::lemma_pow2_strictly_increases(len as nat, 17);
    vstd::bits::lemma_u32_shl_is_mul(1, len as u32);
    lemma_first_exact_nonneg(nr, len);
    assert(0 <= code < pow2(len as nat));
    let cw = code as u32;
    assert(cw < (1u32 << (len as u32)));
    lemma_read_coded_bit(d, bits, p0, buf0, n + l - 1);
    lemma_prefix_value(bits, n, cw, len, l);
    let p = cw as int / (pow2((len - l) as nat) as int);
    assert(cw as int == code);
    let t = spec_huff_model(nr, values);
    assert(t.counts[l - 1] == nr[l]);
    assert(crate::jpeg_write::spec_codes_upto(nr, l) == crate::jpeg_write::spec_codes_upto(nr, l - 1) + nr[l]);
    if l < len {
        if nr[l] > 0 {
            lemma_prefix_past(nr, code, l, len);
        }
        lemma_huff_from_coded(d, bits, p0, buf0, n, nr, values, k, l + 1);
    } else {
        assert((len - l) as nat == 0nat);
        assert(pow2(0nat) == 1);
        assert(cw as int / 1 == cw as int);
        assert(p == code);
    }
}

/// Decoding the canonical code of symbol number `k`, as the encoder's code
/// table gives it, yields that symbol and moves past the code: the
/// decoder's Huffman tables read back what the encoder's tables write, for
/// code counts that fit.
pub proof fn lemma_huff_coded(
    d: Seq<u8>,
    bits: Seq<bool>,
    p0: int,
    buf0: u32,
    n: int,
    nr: Seq<u8>,
    values: Seq<u8>,
    k: int,
)
    requires
        spec_kraft(nr),
        0 <= k < crate::jpeg_write::spec_codes_upto(nr, 16),
        crate::jpeg_write::spec_codes_upto(nr, 16) <= values.len(),
        spec_holds_coded(d, bits, p0),
        0 <= n,
        n + crate::jpeg_write::spec_code_entry(nr, k)[1] <= bits.len(),
        bits.subrange(n, n + crate::jpeg_write::spec_code_entry(nr, k)[1]) == spec_code_bits(
            crate::jpeg_write::spec_code_entry(nr, k)[0] as u32,
            crate::jpeg_write::spec_code_entry(nr, k)[1] as u32,
        ),
    ensures
        crate::jpeg_entropy::spec_huff(d, spec_state_after(bits, p0, buf0, n), spec_huff_model(nr, values))
            == (BitRes::Got {
            val: values[k],
            st: spec_state_after(bits, p0, buf0, n + crate::jpeg_write::spec_code_entry(nr, k)[1]),
        }),
{
    let len = crate::jpeg_write::spec_len_from(nr, k, 1);
    lemma_len_props(nr, k, 1);
    assert(nr[len] >= 1);
    lemma_first_codes_agree(nr, len, len);
    let code = spec_code_value(nr, k);
    vstd::arithmetic::power2::lemma2_to64();
    vstd::arithmetic::power2::lemma_pow2_strictly_increases(len as nat, 17);
    lemma_first_exact_nonneg(nr, len);
    assert(0 <= code < pow2(len as nat));
    let cw = code as u32;
    vstd::bits::lemma_u32_shl_is_mul(1, len as u32);
    vstd::bits::lemma_u32_low_bits_mask_is_mod(cw, len as nat);
    vstd::bits::lemma_low_bits_mask_values();
    assert(vstd::bits::low_bits_mask(len as nat) == pow2(len as nat) - 1) by {
        vstd::bits::lemma_low_bits_mask_unfold(len as nat);
    }
    assert(((1u32 << (len as u32)) - 1u32) as u32 == vstd::bits::low_bits_mask(len as nat) as u32);
    assert(pow2(len as nat) <= 65536);
    vstd::arithmetic::div_mod::lemma_small_mod(cw as nat, pow2(len as nat));
    assert(cw % (pow2(len as nat) as u32) == cw);
    assert((cw & (((1u32 << (len as u32)) - 1u32) as u32)) == cw);
    assert(crate::jpeg_write::spec_code_entry(nr, k)[0] == cw as u16);
    assert(crate::jpeg_write::spec_code_entry(nr, k)[1] == len);
    assert(bits.subrange(n, n + 0) =~= Seq::<bool>::empty());
    lemma_huff_from_coded(d, bits, p0, buf0, n, nr, values, k, 1);
}


/// The last position before `count` where `values` holds `s`, or -1.
pub open spec fn spec_last_index(values: Seq<u8>, s: int, count: int) -> int
    decreases count,
{
    if count <= 0 {
        -1
    } else if count - 1 < values.len() && values[count - 1] as int == s {
        count - 1
    } else {
        spec_last_index(values, s, count - 1)
    }
}

proof fn lemma_table_entry(nr: Seq<u8>, values: Seq<u8>, n: int, count: int, s: int)
    requires
        0 <= s < n,
        0 <= count <= values.len(),
        spec_last_index(values, s, count) >= 0,
    ensures
        crate::jpeg_write::spec_code_table(nr, values, n, count).len() == n,
        0 <= spec_last_index(values, s, count) < count,
        values[spec_last_index(values, s, count)] == s,
        crate::jpeg_write::spec_code_table(nr, values, n, count)[s] == crate::jpeg_write::spec_code_entry(
            nr,
            spec_last_index(values, s, count),
        ),
    decreases count,
{
    lemma_table_len(nr, values, n, count);
    lemma_table_len(nr, values, n, count - 1);
    if values[count - 1] as int != s {
        lemma_table_entry(nr, values, n, count - 1, s);
    }
}

proof fn lemma_table_len(nr: Seq<u8>, values: Seq<u8>, n: int, count: int)
    requires
        0 <= n,
    ensures
        crate::jpeg_write::spec_code_table(nr, values, n, count).len() == n,
    decreases count,
{
    if count > 0 {
        lemma_table_len(nr, values, n, count - 1);
    }
}

/// The encoder's code table for code counts `nr` and symbols `values`,
/// indexed by symbol, for symbols below `n`.
pub open spec fn spec_encoder_table(nr: Seq<u8>, values: Seq<u8>, n: int) -> Seq<[u16; 2]> {
    crate::jpeg_write::spec_code_table(nr, values, n, crate::jpeg_write::spec_codes_upto(nr, 16))
}

/// The code counts and symbols describe a code that fits, and symbol `s`
/// has a code.
pub open spec fn spec_has_code(nr: Seq<u8>, values: Seq<u8>, s: int) -> bool {
    &&& spec_kraft(nr)
    &&& crate::jpeg_write::spec_codes_upto(nr, 16) <= values.len()
    &&& spec_last_index(values, s, crate::jpeg_write::spec_codes_upto(nr, 16)) >= 0
}

/// Decoding the code that the encoder's table gives symbol `s` yields `s`.
pub proof fn lemma_symbol_coded(
    d: Seq<u8>,
    bits: Seq<bool>,
    p0: int,
    buf0: u32,
    n: int,
    nr: Seq<u8>,
    values: Seq<u8>,
    size: int,
    s: int,
)
    requires
        0 <= s < size,
        spec_has_code(nr, values, s),
        spec_holds_coded(d, bits, p0),
        0 <= n,
        n + spec_encoder_table(nr, values, size)[s][1] <= bits.len(),
        bits.subrange(n, n + spec_encoder_table(nr, values, size)[s][1]) == spec_code_bits(
            spec_encoder_table(nr, values, size)[s][0] as u32,
            spec_encoder_table(nr, values, size)[s][1] as u32,
        ),
    ensures
        spec_encoder_table(nr, values, size).len() == size,
        crate::jpeg_entropy::spec_huff(d, spec_state_after(bits, p0, buf0, n), spec_huff_model(nr, values))
            == (BitRes::Got {
            val: s as u8,
            st: spec_state_after(bits, p0, buf0, n + spec_encoder_table(nr, values, size)[s][1]),
        }),
{
    let total = crate::jpeg_write::spec_codes_upto(nr, 16);
    crate::jpeg_write::lemma_codes_upto_mono(nr, 0, 16);
    lemma_table_entry(nr, values, size, total, s);
    let k = spec_last_index(values, s, total);
    lemma_huff_coded(d, bits, p0, buf0, n, nr, values, k);
}


proof fn lemma_codes_bits_append(a: Seq<[u16; 2]>, b: Seq<[u16; 2]>)
    ensures
        spec_codes_bits(a + b) == spec_codes_bits(a) + spec_codes_bits(b),
    decreases b.len(),
{
    if b.len() == 0 {
        assert(a + b =~= a);
        assert(spec_codes_bits(a) + spec_codes_bits(b) =~= spec_codes_bits(a));
    } else {
        lemma_codes_bits_append(a, b.drop_last());
        assert((a + b).drop_last() =~= a + b.drop_last());
        assert((a + b).last() == b.last());
        assert(spec_codes_bits(a + b) =~= spec_codes_bits(a) + spec_codes_bits(b));
    }
}

/// Where the bits from `n` on are the codes `a` then `b`, those of `a`
/// come first and those of `b` right after them.
proof fn lemma_split_codes(bits: Seq<bool>, n: int, a: Seq<[u16; 2]>, b: Seq<[u16; 2]>)
    requires
        0 <= n,
        n + spec_codes_bits(a + b).len() <= bits.len(),
        bits.subrange(n, n + spec_codes_bits(a + b).len()) == spec_codes_bits(a + b),
    ensures
        spec_codes_bits(a + b).len() == spec_codes_bits(a).len() + spec_codes_bits(b).len(),
        bits.subrange(n, n + spec_codes_bits(a).len()) == spec_codes_bits(a),
        bits.subrange(n + spec_codes_bits(a).len(), n + spec_codes_bits(a + b).len()) == spec_codes_bits(b),
{
    lemma_codes_bits_append(a, b);
    let la = spec_codes_bits(a).len() as int;
    let lab = spec_codes_bits(a + b).len() as int;
    assert(bits.subrange(n, n + la) =~= spec_codes_bits(a + b).subrange(0, la));
    assert(bits.subrange(n + la, n + lab) =~= spec_codes_bits(a + b).subrange(la, lab));
}

proof fn lemma_one_code(c: [u16; 2])
    ensures
        spec_codes_bits(seq![c]) == spec_code_bits(c[0] as u32, c[1] as u32),
{
    assert(seq![c].drop_last() =~= Seq::<[u16; 2]>::empty());
    assert(seq![c].last() == c);
    assert(spec_codes_bits(Seq::<[u16; 2]>::empty()) == Seq::<bool>::empty());
    assert(spec_codes_bits(seq![c]) == spec_codes_bits(seq![c].drop_last()) + spec_code_bits(seq![c].last()[0] as u32, seq![c].last()[1] as u32));
    assert(Seq::<bool>::empty() + spec_code_bits(c[0] as u32, c[1] as u32) =~= spec_code_bits(c[0] as u32, c[1] as u32));
}


/// Decoding `m` zero-run codes skips `16 * m` coefficients.
proof fn lemma_zero_runs(
    d: Seq<u8>,
    bits: Seq<bool>,
    p0: int,
    buf0: u32,
    n: int,
    nr: Seq<u8>,
    vals: Seq<u8>,
    q: Seq<u16>,
    zz: int,
    c: Seq<i32>,
    m: nat,
)
    requires
        spec_has_code(nr, vals, 0xF0),
        spec_holds_coded(d, bits, p0),
        0 <= n,
        0 <= zz,
        zz + 16 * m <= 63,
        n + spec_codes_bits(Seq::new(m, |j: int| spec_encoder_table(nr, vals, 256)[0xF0])).len() <= bits.len(),
        bits.subrange(n, n + spec_codes_bits(Seq::new(m, |j: int| spec_encoder_table(nr, vals, 256)[0xF0])).len())
            == spec_codes_bits(Seq::new(m, |j: int| spec_encoder_table(nr, vals, 256)[0xF0])),
    ensures
        spec_codes_bits(Seq::new(m, |j: int| spec_encoder_table(nr, vals, 256)[0xF0])).len() == m
            * spec_encoder_table(nr, vals, 256)[0xF0][1],
        crate::jpeg_entropy::spec_ac(d, spec_state_after(bits, p0, buf0, n), spec_huff_model(nr, vals), q, zz, c)
            == crate::jpeg_entropy::spec_ac(
            d,
            spec_state_after(bits, p0, buf0, n + m * spec_encoder_table(nr, vals, 256)[0xF0][1]),
            spec_huff_model(nr, vals),
            q,
            zz + 16 * m,
            c,
        ),
    decreases m,
{
    let z = spec_encoder_table(nr, vals, 256)[0xF0];
    let zs = Seq::new(m, |j: int| z);
    if m == 0 {
        assert(zs =~= Seq::<[u16; 2]>::empty());
        assert(spec_codes_bits(zs).len() == 0);
        assert(m * z[1] == 0) by (nonlinear_arith)
            requires
                m == 0,
        ;
    } else {
        let rest = Seq::new((m - 1) as nat, |j: int| z);
        assert(zs =~= seq![z] + rest);
        lemma_split_codes(bits, n, seq![z], rest);
        lemma_one_code(z);
        lemma_symbol_coded(d, bits, p0, buf0, n, nr, vals, 256, 0xF0);
        crate::bytes::lemma_nibbles(0xF0u8);
        assert(spec_encoder_table(nr, vals, 256).len() == 256);
        assert(spec_codes_bits(seq![z]).len() == z[1]);
        let s1 = spec_state_after(bits, p0, buf0, n + z[1]);
        assert(crate::jpeg_entropy::spec_huff(d, spec_state_after(bits, p0, buf0, n), spec_huff_model(nr, vals))
            == (BitRes::Got { val: 0xF0u8, st: s1 }));
        assert(crate::jpeg_entropy::spec_ac(d, spec_state_after(bits, p0, buf0, n), spec_huff_model(nr, vals), q, zz, c)
            == crate::jpeg_entropy::spec_ac(d, s1, spec_huff_model(nr, vals), q, zz + 16, c));
        lemma_zero_runs(d, bits, p0, buf0, n + z[1], nr, vals, q, zz + 16, c, (m - 1) as nat);
        assert(n + z[1] + (m - 1) * z[1] == n + m * z[1]) by (nonlinear_arith);
        assert(spec_codes_bits(rest).len() + z[1] == m * z[1]) by (nonlinear_arith)
            requires
                spec_codes_bits(rest).len() == (m - 1) * z[1],
        ;
    }
}


/// The decoder's order undoes the encoder's: the coefficient at zigzag
/// position `k` comes from natural position `unzigzag[k]`, whose zigzag
/// position is `k` again.
pub(crate) proof fn lemma_unzigzag_inverse()
    ensures
        forall|k: int| 0 <= k < 64 ==> #[trigger] spec_zigzag()[spec_unzigzag()[k] as int] == k,
        forall|k: int| 0 <= k < 64 ==> #[trigger] spec_unzigzag()[spec_zigzag()[k] as int] == k,
        forall|k: int| 0 <= k < 64 ==> #[trigger] spec_zigzag()[k] < 64,
        forall|k: int| 0 <= k < 64 ==> #[trigger] spec_unzigzag()[k] < 64,
{
    crate::jpeg_write::lemma_zigzag_inverse();
    assert(spec_zigzag()[spec_unzigzag()[0] as int] == 0);
    assert(spec_zigzag()[spec_unzigzag()[1] as int] == 1);
    assert(spec_zigzag()[spec_unzigzag()[2] as int] == 2);
    assert(spec_zigzag()[spec_unzigzag()[3] as int] == 3);
    assert(spec_zigzag()[spec_unzigzag()[4] as int] == 4);
    assert(spec_zigzag()[spec_unzigzag()[5] as int] == 5);
    assert(spec_zigzag()[spec_unzigzag()[6] as int] == 6);
    assert(spec_zigzag()[spec_unzigzag()[7] as int] == 7);
    assert(spec_zigzag()[spec_unzigzag()[8] as int] == 8);
    assert(spec_zigzag()[spec_unzigzag()[9] as int] == 9);
    assert(spec_zigzag()[spec_unzigzag()[10] as int] == 10);
    assert(spec_zigzag()[spec_unzigzag()[11] as int] == 11);
    assert(spec_zigzag()[spec_unzigzag()[12] as int] == 12);
    assert(spec_zigzag()[spec_unzigzag()[13] as int] == 13);
    assert(spec_zigzag()[spec_unzigzag()[14] as int] == 14);
    assert(spec_zigzag()[spec_unzigzag()[15] as int] == 15);
    assert(spec_zigzag()[spec_unzigzag()[16] as int] == 16);
    assert(spec_zigzag()[spec_unzigzag()[17] as int] == 17);
    assert(spec_zigzag()[spec_unzigzag()[18] as int] == 18);
    assert(spec_zigzag()[spec_unzigzag()[19] as int] == 19);
    assert(spec_zigzag()[spec_unzigzag()[20] as int] == 20);
    assert(spec_zigzag()[spec_unzigzag()[21] as int] == 21);
    assert(spec_zigzag()[spec_unzigzag()[22] as int] == 22);
    assert(spec_zigzag()[spec_unzigzag()[23] as int] == 23);
    assert(spec_zigzag()[spec_unzigzag()[24] as int] == 24);
    assert(spec_zigzag()[spec_unzigzag()[25] as int] == 25);
    assert(spec_zigzag()[spec_unzigzag()[26] as int] == 26);
    assert(spec_zigzag()[spec_unzigzag()[27] as int] == 27);
    assert(spec_zigzag()[spec_unzigzag()[28] as int] == 28);
    assert(spec_zigzag()[spec_unzigzag()[29] as int] == 29);
    assert(spec_zigzag()[spec_unzigzag()[30] as int] == 30);
    assert(spec_zigzag()[spec_unzigzag()[31] as int] == 31);
    assert(spec_zigzag()[spec_unzigzag()[32] as int] == 32);
    assert(spec_zigzag()[spec_unzigzag()[33] as int] == 33);
    assert(spec_zigzag()[spec_unzigzag()[34] as int] == 34);
    assert(spec_zigzag()[spec_unzigzag()[35] as int] == 35);
    assert(spec_zigzag()[spec_unzigzag()[36] as int] == 36);
    assert(spec_zigzag()[spec_unzigzag()[37] as int] == 37);
    assert(spec_zigzag()[spec_unzigzag()[38] as int] == 38);
    assert(spec_zigzag()[spec_unzigzag()[39] as int] == 39);
    assert(spec_zigzag()[spec_unzigzag()[40] as int] == 40);
    assert(spec_zigzag()[spec_unzigzag()[41] as int] == 41);
    assert(spec_zigzag()[spec_unzigzag()[42] as int] == 42);
    assert(spec_zigzag()[spec_unzigzag()[43] as int] == 43);
    assert(spec_zigzag()[spec_unzigzag()[44] as int] == 44);
    assert(spec_zigzag()[spec_unzigzag()[45] as int] == 45);
    assert(spec_zigzag()[spec_unzigzag()[46] as int] == 46);
    assert(spec_zigzag()[spec_unzigzag()[47] as int] == 47);
    assert(spec_zigzag()[spec_unzigzag()[48] as int] == 48);
    assert(spec_zigzag()[spec_unzigzag()[49] as int] == 49);
    assert(spec_zigzag()[spec_unzigzag()[50] as int] == 50);
    assert(spec_zigzag()[spec_unzigzag()[51] as int] == 51);
    assert(spec_zigzag()[spec_unzigzag()[52] as int] == 52);
    assert(spec_zigzag()[spec_unzigzag()[53] as int] == 53);
    assert(spec_zigzag()[spec_unzigzag()[54] as int] == 54);
    assert(spec_zigzag()[spec_unzigzag()[55] as int] == 55);
    assert(spec_zigzag()[spec_unzigzag()[56] as int] == 56);
    assert(spec_zigzag()[spec_unzigzag()[57] as int] == 57);
    assert(spec_zigzag()[spec_unzigzag()[58] as int] == 58);
    assert(spec_zigzag()[spec_unzigzag()[59] as int] == 59);
    assert(spec_zigzag()[spec_unzigzag()[60] as int] == 60);
    assert(spec_zigzag()[spec_unzigzag()[61] as int] == 61);
    assert(spec_zigzag()[spec_unzigzag()[62] as int] == 62);
    assert(spec_zigzag()[spec_unzigzag()[63] as int] == 63);
    assert forall|k: int| 0 <= k < 64 implies #[trigger] spec_zigzag()[k] < 64 by {
        assert(spec_unzigzag()[spec_zigzag()[k] as int] == k);
    }
    assert forall|k: int| 0 <= k < 64 implies #[trigger] spec_unzigzag()[k] < 64 by {
        assert(spec_zigzag()[spec_unzigzag()[k] as int] == k);
    }
}


/// The dequantized block in natural order with the coefficients of zigzag
/// positions 1 to `i - 1` of `du` placed, and `dc` at the start.
pub open spec fn spec_partial_block(du: Seq<i32>, q: Seq<u16>, dc: i32, i: int) -> Seq<i32> {
    Seq::new(
        64,
        |x: int|
            if x == 0 {
                dc
            } else if 1 <= spec_zigzag()[x] < i {
                (du[spec_zigzag()[x] as int] * q[x]) as i32
            } else {
                0i32
            },
    )
}

/// From `i` on, the zero run ends at a nonzero coefficient no later than
/// `end`.
proof fn lemma_zero_run_props(du: Seq<i32>, i: int, end: int)
    requires
        1 <= i <= end < du.len(),
        du[end] != 0,
    ensures
        0 <= crate::jpeg_write::spec_zero_run(du, i, end),
        i + crate::jpeg_write::spec_zero_run(du, i, end) <= end,
        du[i + crate::jpeg_write::spec_zero_run(du, i, end)] != 0,
        forall|j: int| i <= j < i + crate::jpeg_write::spec_zero_run(du, i, end) ==> du[j] == 0,
    decreases end - i,
{
    if du[i] != 0 {
    } else {
        lemma_zero_run_props(du, i + 1, end);
    }
}

/// Placing the coefficient of zigzag position `k`, after a run of zeros
/// from `i`, extends the placed block to position `k`.
proof fn lemma_place_next(du: Seq<i32>, q: Seq<u16>, dc: i32, i: int, k: int)
    requires
        du.len() == 64,
        q.len() == 64,
        1 <= i <= k < 64,
        forall|j: int| i <= j < k ==> du[j] == 0,
    ensures
        spec_partial_block(du, q, dc, i).update(
            spec_unzigzag()[k] as int,
            (du[k] * q[spec_unzigzag()[k] as int]) as i32,
        ) == spec_partial_block(du, q, dc, k + 1),
{
    lemma_unzigzag_inverse();
    let u = spec_unzigzag()[k] as int;
    assert(spec_zigzag()[u] == k);
    let before = spec_partial_block(du, q, dc, i).update(u, (du[k] * q[u]) as i32);
    let after = spec_partial_block(du, q, dc, k + 1);
    assert forall|x: int| 0 <= x < 64 implies #[trigger] before[x] == after[x] by {
        if x != u {
            let zx = spec_zigzag()[x] as int;
            assert(spec_unzigzag()[zx] == x);
            if zx == k {
                assert(false);
            }
            if x != 0 && i <= zx < k {
                assert(du[zx] == 0);
            }
        }
        if x == 0 {
            assert(spec_zigzag()[0] == 0);
        }
    }
    assert(spec_partial_block(du, q, dc, i).update(u, (du[k] * q[u]) as i32) =~= spec_partial_block(du, q, dc, k + 1));
}


/// Every symbol that AC coefficients below 1024 in magnitude use has a
/// code: end of block, a run of sixteen zeros, and each run of up to 15
/// zeros with each size from 1 to 10.
pub open spec fn spec_ac_symbols_coded(nr: Seq<u8>, vals: Seq<u8>) -> bool {
    &&& spec_has_code(nr, vals, 0x00)
    &&& spec_has_code(nr, vals, 0xF0)
    &&& forall|r: int, sz: int| 0 <= r < 16 && 1 <= sz <= 10 ==> #[trigger] spec_has_code(nr, vals, r * 16 + sz)
}

/// The size of a coefficient of magnitude below `2^k` is at most `k`.
proof fn lemma_size_bound(v: i32, k: nat)
    requires
        1 <= k <= 15,
        v != 0,
        -(pow2(k) as int) < v < pow2(k) as int,
    ensures
        1 <= spec_calc_bits(v)[1] <= k,
        spec_calc_bits(v)[1] == spec_bit_len(if v < 0 { -v } else { v as int }),
{
    let abs: i32 = if v < 0 { (-v) as i32 } else { v };
    vstd::arithmetic::power2::lemma2_to64();
    if k < 15 {
        vstd::arithmetic::power2::lemma_pow2_strictly_increases(k, 15);
    }
    lemma_bit_len_range(abs);
    crate::jpeg_write::lemma_bit_len_le(abs as int, k as int, pow2(k) as int);
}

#[verifier::rlimit(60)]
proof fn lemma_ac_coded(
    d: Seq<u8>,
    bits: Seq<bool>,
    p0: int,
    buf0: u32,
    n: int,
    nr: Seq<u8>,
    vals: Seq<u8>,
    q: Seq<u16>,
    du: Seq<i32>,
    dc: i32,
    i: int,
    end: int,
)
    requires
        spec_ac_symbols_coded(nr, vals),
        spec_holds_coded(d, bits, p0),
        du.len() == 64,
        q.len() == 64,
        1 <= i <= end <= 63,
        du[end] != 0,
        forall|j: int| 1 <= j < 64 ==> -1024 < #[trigger] du[j] < 1024,
        0 <= n,
        n + spec_codes_bits(crate::jpeg_write::spec_ac_codes(du, spec_encoder_table(nr, vals, 256), i, end)).len()
            <= bits.len(),
        bits.subrange(
            n,
            n + spec_codes_bits(crate::jpeg_write::spec_ac_codes(du, spec_encoder_table(nr, vals, 256), i, end)).len(),
        ) == spec_codes_bits(crate::jpeg_write::spec_ac_codes(du, spec_encoder_table(nr, vals, 256), i, end)),
    ensures
        crate::jpeg_entropy::spec_ac(
            d,
            spec_state_after(bits, p0, buf0, n),
            spec_huff_model(nr, vals),
            q,
            i,
            spec_partial_block(du, q, dc, i),
        ) == crate::jpeg_entropy::spec_ac(
            d,
            spec_state_after(
                bits,
                p0,
                buf0,
                n + spec_codes_bits(crate::jpeg_write::spec_ac_codes(du, spec_encoder_table(nr, vals, 256), i, end)).len(),
            ),
            spec_huff_model(nr, vals),
            q,
            end + 1,
            spec_partial_block(du, q, dc, end + 1),
        ),
    decreases end - i,
{
    let act = spec_encoder_table(nr, vals, 256);
    let t = spec_huff_model(nr, vals);
    lemma_zero_run_props(du, i, end);
    let z = crate::jpeg_write::spec_zero_run(du, i, end);
    let k = i + z;
    let v = du[k];
    vstd::arithmetic::power2::lemma2_to64();
    lemma_size_bound(v, 10);
    let cb = spec_calc_bits(v);
    let size = cb[1] as int;
    let sym = (z % 16) * 16 + size;
    assert(spec_has_code(nr, vals, sym));
    let zrls = Seq::new((z / 16) as nat, |j: int| act[0xF0]);
    let rest = crate::jpeg_write::spec_ac_codes(du, act, k + 1, end);
    let all = crate::jpeg_write::spec_ac_codes(du, act, i, end);
    assert(all == zrls + seq![act[sym], cb] + rest);
    assert(zrls + seq![act[sym], cb] + rest =~= zrls + (seq![act[sym]] + (seq![cb] + rest)));
    lemma_split_codes(bits, n, zrls, seq![act[sym]] + (seq![cb] + rest));
    let n1 = n + spec_codes_bits(zrls).len();
    lemma_split_codes(bits, n1, seq![act[sym]], seq![cb] + rest);
    lemma_one_code(act[sym]);
    let n2 = n1 + spec_codes_bits(seq![act[sym]]).len();
    lemma_split_codes(bits, n2, seq![cb], rest);
    lemma_one_code(cb);
    let n3 = n2 + spec_codes_bits(seq![cb]).len();
    assert(16 * (z / 16) + z % 16 == z);
    lemma_zero_runs(d, bits, p0, buf0, n, nr, vals, q, i, spec_partial_block(du, q, dc, i), (z / 16) as nat);
    let zz = i + 16 * (z / 16);
    lemma_symbol_coded(d, bits, p0, buf0, n1, nr, vals, 256, sym);
    crate::bytes::lemma_nibbles(sym as u8);
    assert((sym as u8) >> 4u8 == z % 16);
    assert((sym as u8) & 0x0Fu8 == size);
    lemma_receive_coded(d, bits, p0, buf0, n2, v);
    lemma_place_next(du, q, dc, i, k);
    lemma_unzigzag_inverse();
    if k < end {
        lemma_ac_coded(d, bits, p0, buf0, n3, nr, vals, q, du, dc, k + 1, end);
    } else {
        assert(rest == Seq::<[u16; 2]>::empty());
        assert(spec_codes_bits(rest).len() == 0);
    }
}


proof fn lemma_last_nonzero_props(du: Seq<i32>, e: int)
    requires
        0 <= e < du.len(),
    ensures
        0 <= crate::jpeg_write::spec_last_nonzero(du, e) <= e,
        crate::jpeg_write::spec_last_nonzero(du, e) > 0 ==> du[crate::jpeg_write::spec_last_nonzero(du, e)] != 0,
        forall|j: int| crate::jpeg_write::spec_last_nonzero(du, e) < j <= e && j >= 1 ==> du[j] == 0,
    decreases e,
{
    if e > 0 && du[e] == 0 {
        lemma_last_nonzero_props(du, e - 1);
    }
}

/// Past the last nonzero coefficient, placing nothing more changes nothing.
proof fn lemma_partial_done(du: Seq<i32>, q: Seq<u16>, dc: i32, i: int)
    requires
        du.len() == 64,
        q.len() == 64,
        1 <= i <= 64,
        forall|j: int| i <= j < 64 ==> du[j] == 0,
    ensures
        spec_partial_block(du, q, dc, i) == spec_partial_block(du, q, dc, 64),
{
    lemma_unzigzag_inverse();
    let a = spec_partial_block(du, q, dc, i);
    let b = spec_partial_block(du, q, dc, 64);
    assert forall|x: int| 0 <= x < 64 implies #[trigger] a[x] == b[x] by {
        let zx = spec_zigzag()[x] as int;
        if x != 0 && i <= zx < 64 {
            assert(du[zx] == 0);
        }
    }
    assert(a =~= b);
}

/// The block that decoding gives for quantized coefficients `du` in zigzag
/// order: each multiplied by its quantization value in `q`, in natural
/// order.
pub open spec fn spec_dequantized(du: Seq<i32>, q: Seq<u16>) -> Seq<i32> {
    spec_partial_block(du, q, du[0].wrapping_mul(q[0] as i32), 64)
}

/// Every DC size category from 0 to 11 has a code.
pub open spec fn spec_dc_symbols_coded(nr: Seq<u8>, vals: Seq<u8>) -> bool {
    forall|s: int| 0 <= s <= 11 ==> #[trigger] spec_has_code(nr, vals, s)
}

/// Decoding the bits the encoder writes for a block of quantized
/// coefficients gives back the block, dequantized in natural order, and
/// its DC coefficient as the new predictor, for DC differences below 2048
/// and AC coefficients below 1024 in magnitude, and Huffman tables whose
/// code counts fit and which give a code to every symbol used; the bits may
/// start at any position of the stuffed stream.
#[verifier::rlimit(60)]
pub proof fn lemma_block_roundtrip(
    d: Seq<u8>,
    bits: Seq<bool>,
    p0: int,
    buf0: u32,
    n: int,
    dc_nr: Seq<u8>,
    dc_vals: Seq<u8>,
    ac_nr: Seq<u8>,
    ac_vals: Seq<u8>,
    q: Seq<u16>,
    du: Seq<i32>,
    prev: i32,
)
    requires
        du.len() == 64,
        q.len() == 64,
        -2048 < du[0] - prev < 2048,
        forall|j: int| 1 <= j < 64 ==> -1024 < #[trigger] du[j] < 1024,
        spec_dc_symbols_coded(dc_nr, dc_vals),
        spec_ac_symbols_coded(ac_nr, ac_vals),
        spec_holds_coded(d, bits, p0),
        0 <= n,
        n + spec_codes_bits(
            crate::jpeg_write::spec_du_codes(
                du,
                prev,
                spec_encoder_table(dc_nr, dc_vals, 12),
                spec_encoder_table(ac_nr, ac_vals, 256),
            ),
        ).len() <= bits.len(),
        bits.subrange(
            n,
            n + spec_codes_bits(
                crate::jpeg_write::spec_du_codes(
                    du,
                    prev,
                    spec_encoder_table(dc_nr, dc_vals, 12),
                    spec_encoder_table(ac_nr, ac_vals, 256),
                ),
            ).len(),
        ) == spec_codes_bits(
            crate::jpeg_write::spec_du_codes(
                du,
                prev,
                spec_encoder_table(dc_nr, dc_vals, 12),
                spec_encoder_table(ac_nr, ac_vals, 256),
            ),
        ),
    ensures
        crate::jpeg_entropy::spec_decode_block(
            d,
            spec_state_after(bits, p0, buf0, n),
            spec_huff_model(dc_nr, dc_vals),
            spec_huff_model(ac_nr, ac_vals),
            q,
            prev,
        ) == (BitRes::Got {
            val: (spec_dequantized(du, q), du[0]),
            st: spec_state_after(
                bits,
                p0,
                buf0,
                n + spec_codes_bits(
                    crate::jpeg_write::spec_du_codes(
                        du,
                        prev,
                        spec_encoder_table(dc_nr, dc_vals, 12),
                        spec_encoder_table(ac_nr, ac_vals, 256),
                    ),
                ).len(),
            ),
        }),
{
    let dct = spec_encoder_table(dc_nr, dc_vals, 12);
    let act = spec_encoder_table(ac_nr, ac_vals, 256);
    let codes = crate::jpeg_write::spec_du_codes(du, prev, dct, act);
    let diff = (du[0] - prev) as i32;
    vstd::arithmetic::power2::lemma2_to64();
    let dc_part = if diff == 0 {
        seq![dct[0]]
    } else {
        seq![dct[spec_calc_bits(diff)[1] as int], spec_calc_bits(diff)]
    };
    let end = crate::jpeg_write::spec_last_nonzero(du, 63);
    lemma_last_nonzero_props(du, 63);
    let ac_part = if end == 0 {
        seq![act[0]]
    } else {
        crate::jpeg_write::spec_ac_codes(du, act, 1, end) + if end != 63 {
            seq![act[0]]
        } else {
            Seq::empty()
        }
    };
    assert(codes == dc_part + ac_part);
    lemma_split_codes(bits, n, dc_part, ac_part);
    let na = n + spec_codes_bits(dc_part).len();
    let dcv = du[0].wrapping_mul(q[0] as i32);
    // The DC difference.
    let st2 = spec_state_after(bits, p0, buf0, na);
    if diff == 0 {
        lemma_one_code(dct[0]);
        lemma_symbol_coded(d, bits, p0, buf0, n, dc_nr, dc_vals, 12, 0);
    } else {
        lemma_size_bound(diff, 11);
        let cb = spec_calc_bits(diff);
        assert(seq![dct[cb[1] as int], cb] == seq![dct[cb[1] as int]] + seq![cb]);
        lemma_split_codes(bits, n, seq![dct[cb[1] as int]], seq![cb]);
        lemma_one_code(dct[cb[1] as int]);
        lemma_one_code(cb);
        lemma_symbol_coded(d, bits, p0, buf0, n, dc_nr, dc_vals, 12, cb[1] as int);
        lemma_receive_coded(d, bits, p0, buf0, n + dct[cb[1] as int][1], diff);
    }
    // The AC coefficients.
    let c0 = Seq::new(64, |i: int| 0i32).update(0, dcv);
    lemma_unzigzag_inverse();
    assert(c0 =~= spec_partial_block(du, q, dcv, 1)) by {
        assert forall|x: int| 0 <= x < 64 implies #[trigger] c0[x] == spec_partial_block(du, q, dcv, 1)[x] by {
            if x == 0 {
            }
        }
    }
    if end == 0 {
        lemma_one_code(act[0]);
        lemma_symbol_coded(d, bits, p0, buf0, na, ac_nr, ac_vals, 256, 0);
        crate::bytes::lemma_nibbles(0u8);
        lemma_partial_done(du, q, dcv, 1);
    } else {
        let tail: Seq<[u16; 2]> = if end != 63 { seq![act[0]] } else { Seq::empty() };
        let acc = crate::jpeg_write::spec_ac_codes(du, act, 1, end);
        lemma_split_codes(bits, na, acc, tail);
        lemma_ac_coded(d, bits, p0, buf0, na, ac_nr, ac_vals, q, du, dcv, 1, end);
        let nb = na + spec_codes_bits(acc).len();
        lemma_partial_done(du, q, dcv, end + 1);
        if end != 63 {
            lemma_one_code(act[0]);
            lemma_symbol_coded(d, bits, p0, buf0, nb, ac_nr, ac_vals, 256, 0);
            crate::bytes::lemma_nibbles(0u8);
        } else {
            assert(spec_codes_bits(tail).len() == 0);
        }
    }
}


proof fn lemma_last_index_at(values: Seq<u8>, s: int, count: int, k: int)
    requires
        0 <= k < count <= values.len(),
        values[k] == s,
    ensures
        spec_last_index(values, s, count) >= k,
    decreases count,
{
    if !(values[count - 1] as int == s) {
        lemma_last_index_at(values, s, count - 1, k);
    }
}

proof fn lemma_kraft_dc_lumin()
    ensures
        spec_kraft(spec_dc_lumin_nrcodes()),
        crate::jpeg_write::spec_codes_upto(spec_dc_lumin_nrcodes(), 16) == 12,
{
    let nr = spec_dc_lumin_nrcodes();
    vstd::arithmetic::power2::lemma2_to64();
    assert(crate::jpeg_write::spec_codes_upto(nr, 0) == 0);
    assert(spec_first_exact(nr, 1) == 0);
    assert(crate::jpeg_write::spec_codes_upto(nr, 1) == 0);
    assert(spec_first_exact(nr, 2) == 0);
    assert(crate::jpeg_write::spec_codes_upto(nr, 2) == 1);
    assert(spec_first_exact(nr, 3) == 2);
    assert(crate::jpeg_write::spec_codes_upto(nr, 3) == 6);
    assert(spec_first_exact(nr, 4) == 14);
    assert(crate::jpeg_write::spec_codes_upto(nr, 4) == 7);
    assert(spec_first_exact(nr, 5) == 30);
    assert(crate::jpeg_write::spec_codes_upto(nr, 5) == 8);
    assert(spec_first_exact(nr, 6) == 62);
    assert(crate::jpeg_write::spec_codes_upto(nr, 6) == 9);
    assert(spec_first_exact(nr, 7) == 126);
    assert(crate::jpeg_write::spec_codes_upto(nr, 7) == 10);
    assert(spec_first_exact(nr, 8) == 254);
    assert(crate::jpeg_write::spec_codes_upto(nr, 8) == 11);
    assert(spec_first_exact(nr, 9) == 510);
    assert(crate::jpeg_write::spec_codes_upto(nr, 9) == 12);
    assert(spec_first_exact(nr, 10) == 1022);
    assert(crate::jpeg_write::spec_codes_upto(nr, 10) == 12);
    assert(spec_first_exact(nr, 11) == 2044);
    assert(crate::jpeg_write::spec_codes_upto(nr, 11) == 12);
    assert(spec_first_exact(nr, 12) == 4088);
    assert(crate::jpeg_write::spec_codes_upto(nr, 12) == 12);
    assert(spec_first_exact(nr, 13) == 8176);
    assert(crate::jpeg_write::spec_codes_upto(nr, 13) == 12);
    assert(spec_first_exact(nr, 14) == 16352);
    assert(crate::jpeg_write::spec_codes_upto(nr, 14) == 12);
    assert(spec_first_exact(nr, 15) == 32704);
    assert(crate::jpeg_write::spec_codes_upto(nr, 15) == 12);
    assert(spec_first_exact(nr, 16) == 65408);
    assert(crate::jpeg_write::spec_codes_upto(nr, 16) == 12);
    assert forall|l: int| 1 <= l <= 16 implies #[trigger] spec_first_exact(nr, l) + nr[l] <= pow2(l as nat) by {
        if l == 1 {
            assert(spec_first_exact(nr, 1) + nr[1] <= pow2(1));
        }
        if l == 2 {
            assert(spec_first_exact(nr, 2) + nr[2] <= pow2(2));
        }
        if l == 3 {
            assert(spec_first_exact(nr, 3) + nr[3] <= pow2(3));
        }
        if l == 4 {
            assert(spec_first_exact(nr, 4) + nr[4] <= pow2(4));
        }
        if l == 5 {
            assert(spec_first_exact(nr, 5) + nr[5] <= pow2(5));
        }
        if l == 6 {
            assert(spec_first_exact(nr, 6) + nr[6] <= pow2(6));
        }
        if l == 7 {
            assert(spec_first_exact(nr, 7) + nr[7] <= pow2(7));
        }
        if l == 8 {
            assert(spec_first_exact(nr, 8) + nr[8] <= pow2(8));
        }
        if l == 9 {
            assert(spec_first_exact(nr, 9) + nr[9] <= pow2(9));
        }
        if l == 10 {
            assert(spec_first_exact(nr, 10) + nr[10] <= pow2(10));
        }
        if l == 11 {
            assert(spec_first_exact(nr, 11) + nr[11] <= pow2(11));
        }
        if l == 12 {
            assert(spec_first_exact(nr, 12) + nr[12] <= pow2(12));
        }
        if l == 13 {
            assert(spec_first_exact(nr, 13) + nr[13] <= pow2(13));
        }
        if l == 14 {
            assert(spec_first_exact(nr, 14) + nr[14] <= pow2(14));
        }
        if l == 15 {
            assert(spec_first_exact(nr, 15) + nr[15] <= pow2(15));
        }
        if l == 16 {
            assert(spec_first_exact(nr, 16) + nr[16] <= pow2(16));
        }
    }
}

proof fn lemma_kraft_ac_lumin()
    ensures
        spec_kraft(spec_ac_lumin_nrcodes()),
        crate::jpeg_write::spec_codes_upto(spec_ac_lumin_nrcodes(), 16) == 162,
{
    let nr = spec_ac_lumin_nrcodes();
    vstd::arithmetic::power2::lemma2_to64();
    assert(crate::jpeg_write::spec_codes_upto(nr, 0) == 0);
    assert(spec_first_exact(nr, 1) == 0);
    assert(crate::jpeg_write::spec_codes_upto(nr, 1) == 0);
    assert(spec_first_exact(nr, 2) == 0);
    assert(crate::jpeg_write::spec_codes_upto(nr, 2) == 2);
    assert(spec_first_exact(nr, 3) == 4);
    assert(crate::jpeg_write::spec_codes_upto(nr, 3) == 3);
    assert(spec_first_exact(nr, 4) == 10);
    assert(crate::jpeg_write::spec_codes_upto(nr, 4) == 6);
    assert(spec_first_exact(nr, 5) == 26);
    assert(crate::jpeg_write::spec_codes_upto(nr, 5) == 9);
    assert(spec_first_exact(nr, 6) == 58);
    assert(crate::jpeg_write::spec_codes_upto(nr, 6) == 11);
    assert(spec_first_exact(nr, 7) == 120);
    assert(crate::jpeg_write::spec_codes_upto(nr, 7) == 15);
    assert(spec_first_exact(nr, 8) == 248);
    assert(crate::jpeg_write::spec_codes_upto(nr, 8) == 18);
    assert(spec_first_exact(nr, 9) == 502);
    assert(crate::jpeg_write::spec_codes_upto(nr, 9) == 23);
    assert(spec_first_exact(nr, 10) == 1014);
    assert(crate::jpeg_write::spec_codes_upto(nr, 10) == 28);
    assert(spec_first_exact(nr, 11) == 2038);
    assert(crate::jpeg_write::spec_codes_upto(nr, 11) == 32);
    assert(spec_first_exact(nr, 12) == 4084);
    assert(crate::jpeg_write::spec_codes_upto(nr, 12) == 36);
    assert(spec_first_exact(nr, 13) == 8176);
    assert(crate::jpeg_write::spec_codes_upto(nr, 13) == 36);
    assert(spec_first_exact(nr, 14) == 16352);
    assert(crate::jpeg_write::spec_codes_upto(nr, 14) == 36);
    assert(spec_first_exact(nr, 15) == 32704);
    assert(crate::jpeg_write::spec_codes_upto(nr, 15) == 37);
    assert(spec_first_exact(nr, 16) == 65410);
    assert(crate::jpeg_write::spec_codes_upto(nr, 16) == 162);
    assert forall|l: int| 1 <= l <= 16 implies #[trigger] spec_first_exact(nr, l) + nr[l] <= pow2(l as nat) by {
        if l == 1 {
            assert(spec_first_exact(nr, 1) + nr[1] <= pow2(1));
        }
        if l == 2 {
            assert(spec_first_exact(nr, 2) + nr[2] <= pow2(2));
        }
        if l == 3 {
            assert(spec_first_exact(nr, 3) + nr[3] <= pow2(3));
        }
        if l == 4 {
            assert(spec_first_exact(nr, 4) + nr[4] <= pow2(4));
        }
        if l == 5 {
            assert(spec_first_exact(nr, 5) + nr[5] <= pow2(5));
        }
        if l == 6 {
            assert(spec_first_exact(nr, 6) + nr[6] <= pow2(6));
        }
        if l == 7 {
            assert(spec_first_exact(nr, 7) + nr[7] <= pow2(7));
        }
        if l == 8 {
            assert(spec_first_exact(nr, 8) + nr[8] <= pow2(8));
        }
        if l == 9 {
            assert(spec_first_exact(nr, 9) + nr[9] <= pow2(9));
        }
        if l == 10 {
            assert(spec_first_exact(nr, 10) + nr[10] <= pow2(10));
        }
        if l == 11 {
            assert(spec_first_exact(nr, 11) + nr[11] <= pow2(11));
        }
        if l == 12 {
            assert(spec_first_exact(nr, 12) + nr[12] <= pow2(12));
        }
        if l == 13 {
            assert(spec_first_exact(nr, 13) + nr[13] <= pow2(13));
        }
        if l == 14 {
            assert(spec_first_exact(nr, 14) + nr[14] <= pow2(14));
        }
        if l == 15 {
            assert(spec_first_exact(nr, 15) + nr[15] <= pow2(15));
        }
        if l == 16 {
            assert(spec_first_exact(nr, 16) + nr[16] <= pow2(16));
        }
    }
}

proof fn lemma_kraft_dc_chromin()
    ensures
        spec_kraft(spec_dc_chromin_nrcodes()),
        crate::jpeg_write::spec_codes_upto(spec_dc_chromin_nrcodes(), 16) == 12,
{
    let nr = spec_dc_chromin_nrcodes();
    vstd::arithmetic::power2::lemma2_to64();
    assert(crate::jpeg_write::spec_codes_upto(nr, 0) == 0);
    assert(spec_first_exact(nr, 1) == 0);
    assert(crate::jpeg_write::spec_codes_upto(nr, 1) == 0);
    assert(spec_first_exact(nr, 2) == 0);
    assert(crate::jpeg_write::spec_codes_upto(nr, 2) == 3);
    assert(spec_first_exact(nr, 3) == 6);
    assert(crate::jpeg_write::spec_codes_upto(nr, 3) == 4);
    assert(spec_first_exact(nr, 4) == 14);
    assert(crate::jpeg_write::spec_codes_upto(nr, 4) == 5);
    assert(spec_first_exact(nr, 5) == 30);
    assert(crate::jpeg_write::spec_codes_upto(nr, 5) == 6);
    assert(spec_first_exact(nr, 6) == 62);
    assert(crate::jpeg_write::spec_codes_upto(nr, 6) == 7);
    assert(spec_first_exact(nr, 7) == 126);
    assert(crate::jpeg_write::spec_codes_upto(nr, 7) == 8);
    assert(spec_first_exact(nr, 8) == 254);
    assert(crate::jpeg_write::spec_codes_upto(nr, 8) == 9);
    assert(spec_first_exact(nr, 9) == 510);
    assert(crate::jpeg_write::spec_codes_upto(nr, 9) == 10);
    assert(spec_first_exact(nr, 10) == 1022);
    assert(crate::jpeg_write::spec_codes_upto(nr, 10) == 11);
    assert(spec_first_exact(nr, 11) == 2046);
    assert(crate::jpeg_write::spec_codes_upto(nr, 11) == 12);
    assert(spec_first_exact(nr, 12) == 4094);
    assert(crate::jpeg_write::spec_codes_upto(nr, 12) == 12);
    assert(spec_first_exact(nr, 13) == 8188);
    assert(crate::jpeg_write::spec_codes_upto(nr, 13) == 12);
    assert(spec_first_exact(nr, 14) == 16376);
    assert(crate::jpeg_write::spec_codes_upto(nr, 14) == 12);
    assert(spec_first_exact(nr, 15) == 32752);
    assert(crate::jpeg_write::spec_codes_upto(nr, 15) == 12);
    assert(spec_first_exact(nr, 16) == 65504);
    assert(crate::jpeg_write::spec_codes_upto(nr, 16) == 12);
    assert forall|l: int| 1 <= l <= 16 implies #[trigger] spec_first_exact(nr, l) + nr[l] <= pow2(l as nat) by {
        if l == 1 {
            assert(spec_first_exact(nr, 1) + nr[1] <= pow2(1));
        }
        if l == 2 {
            assert(spec_first_exact(nr, 2) + nr[2] <= pow2(2));
        }
        if l == 3 {
            assert(spec_first_exact(nr, 3) + nr[3] <= pow2(3));
        }
        if l == 4 {
            assert(spec_first_exact(nr, 4) + nr[4] <= pow2(4));
        }
        if l == 5 {
            assert(spec_first_exact(nr, 5) + nr[5] <= pow2(5));
        }
        if l == 6 {
            assert(spec_first_exact(nr, 6) + nr[6] <= pow2(6));
        }
        if l == 7 {
            assert(spec_first_exact(nr, 7) + nr[7] <= pow2(7));
        }
        if l == 8 {
            assert(spec_first_exact(nr, 8) + nr[8] <= pow2(8));
        }
        if l == 9 {
            assert(spec_first_exact(nr, 9) + nr[9] <= pow2(9));
        }
        if l == 10 {
            assert(spec_first_exact(nr, 10) + nr[10] <= pow2(10));
        }
        if l == 11 {
            assert(spec_first_exact(nr, 11) + nr[11] <= pow2(11));
        }
        if l == 12 {
            assert(spec_first_exact(nr, 12) + nr[12] <= pow2(12));
        }
        if l == 13 {
            assert(spec_first_exact(nr, 13) + nr[13] <= pow2(13));
        }
        if l == 14 {
            assert(spec_first_exact(nr, 14) + nr[14] <= pow2(14));
        }
        if l == 15 {
            assert(spec_first_exact(nr, 15) + nr[15] <= pow2(15));
        }
        if l == 16 {
            assert(spec_first_exact(nr, 16) + nr[16] <= pow2(16));
        }
    }
}

proof fn lemma_kraft_ac_chromin()
    ensures
        spec_kraft(spec_ac_chromin_nrcodes()),
        crate::jpeg_write::spec_codes_upto(spec_ac_chromin_nrcodes(), 16) == 162,
{
    let nr = spec_ac_chromin_nrcodes();
    vstd::arithmetic::power2::lemma2_to64();
    assert(crate::jpeg_write::spec_codes_upto(nr, 0) == 0);
    assert(spec_first_exact(nr, 1) == 0);
    assert(crate::jpeg_write::spec_codes_upto(nr, 1) == 0);
    assert(spec_first_exact(nr, 2) == 0);
    assert(crate::jpeg_write::spec_codes_upto(nr, 2) == 2);
    assert(spec_first_exact(nr, 3) == 4);
    assert(crate::jpeg_write::spec_codes_upto(nr, 3) == 3);
    assert(spec_first_exact(nr, 4) == 10);
    assert(crate::jpeg_write::spec_codes_upto(nr, 4) == 5);
    assert(spec_first_exact(nr, 5) == 24);
    assert(crate::jpeg_write::spec_codes_upto(nr, 5) == 9);
    assert(spec_first_exact(nr, 6) == 56);
    assert(crate::jpeg_write::spec_codes_upto(nr, 6) == 13);
    assert(spec_first_exact(nr, 7) == 120);
    assert(crate::jpeg_write::spec_codes_upto(nr, 7) == 16);
    assert(spec_first_exact(nr, 8) == 246);
    assert(crate::jpeg_write::spec_codes_upto(nr, 8) == 20);
    assert(spec_first_exact(nr, 9) == 500);
    assert(crate::jpeg_write::spec_codes_upto(nr, 9) == 27);
    assert(spec_first_exact(nr, 10) == 1014);
    assert(crate::jpeg_write::spec_codes_upto(nr, 10) == 32);
    assert(spec_first_exact(nr, 11) == 2038);
    assert(crate::jpeg_write::spec_codes_upto(nr, 11) == 36);
    assert(spec_first_exact(nr, 12) == 4084);
    assert(crate::jpeg_write::spec_codes_upto(nr, 12) == 40);
    assert(spec_first_exact(nr, 13) == 8176);
    assert(crate::jpeg_write::spec_codes_upto(nr, 13) == 40);
    assert(spec_first_exact(nr, 14) == 16352);
    assert(crate::jpeg_write::spec_codes_upto(nr, 14) == 41);
    assert(spec_first_exact(nr, 15) == 32706);
    assert(crate::jpeg_write::spec_codes_upto(nr, 15) == 43);
    assert(spec_first_exact(nr, 16) == 65416);
    assert(crate::jpeg_write::spec_codes_upto(nr, 16) == 162);
    assert forall|l: int| 1 <= l <= 16 implies #[trigger] spec_first_exact(nr, l) + nr[l] <= pow2(l as nat) by {
        if l == 1 {
            assert(spec_first_exact(nr, 1) + nr[1] <= pow2(1));
        }
        if l == 2 {
            assert(spec_first_exact(nr, 2) + nr[2] <= pow2(2));
        }
        if l == 3 {
            assert(spec_first_exact(nr, 3) + nr[3] <= pow2(3));
        }
        if l == 4 {
            assert(spec_first_exact(nr, 4) + nr[4] <= pow2(4));
        }
        if l == 5 {
            assert(spec_first_exact(nr, 5) + nr[5] <= pow2(5));
        }
        if l == 6 {
            assert(spec_first_exact(nr, 6) + nr[6] <= pow2(6));
        }
        if l == 7 {
            assert(spec_first_exact(nr, 7) + nr[7] <= pow2(7));
        }
        if l == 8 {
            assert(spec_first_exact(nr, 8) + nr[8] <= pow2(8));
        }
        if l == 9 {
            assert(spec_first_exact(nr, 9) + nr[9] <= pow2(9));
        }
        if l == 10 {
            assert(spec_first_exact(nr, 10) + nr[10] <= pow2(10));
        }
        if l == 11 {
            assert(spec_first_exact(nr, 11) + nr[11] <= pow2(11));
        }
        if l == 12 {
            assert(spec_first_exact(nr, 12) + nr[12] <= pow2(12));
        }
        if l == 13 {
            assert(spec_first_exact(nr, 13) + nr[13] <= pow2(13));
        }
        if l == 14 {
            assert(spec_first_exact(nr, 14) + nr[14] <= pow2(14));
        }
        if l == 15 {
            assert(spec_first_exact(nr, 15) + nr[15] <= pow2(15));
        }
        if l == 16 {
            assert(spec_first_exact(nr, 16) + nr[16] <= pow2(16));
        }
    }
}

proof fn lemma_dc_lumin_coded()
    ensures
        spec_dc_symbols_coded(spec_dc_lumin_nrcodes(), spec_dc_lumin_values()),
{
    let nr = spec_dc_lumin_nrcodes();
    let vals = spec_dc_lumin_values();
    lemma_kraft_dc_lumin();
    assert forall|s: int| 0 <= s <= 11 implies #[trigger] spec_has_code(nr, vals, s) by {
        if s == 0 {
            lemma_last_index_at(vals, 0, 12, 0);
        }
        if s == 1 {
            lemma_last_index_at(vals, 1, 12, 1);
        }
        if s == 2 {
            lemma_last_index_at(vals, 2, 12, 2);
        }
        if s == 3 {
            lemma_last_index_at(vals, 3, 12, 3);
        }
        if s == 4 {
            lemma_last_index_at(vals, 4, 12, 4);
        }
        if s == 5 {
            lemma_last_index_at(vals, 5, 12, 5);
        }
        if s == 6 {
            lemma_last_index_at(vals, 6, 12, 6);
        }
        if s == 7 {
            lemma_last_index_at(vals, 7, 12, 7);
        }
        if s == 8 {
            lemma_last_index_at(vals, 8, 12, 8);
        }
        if s == 9 {
            lemma_last_index_at(vals, 9, 12, 9);
        }
        if s == 10 {
            lemma_last_index_at(vals, 10, 12, 10);
        }
        if s == 11 {
            lemma_last_index_at(vals, 11, 12, 11);
        }
    }
}

proof fn lemma_dc_chromin_coded()
    ensures
        spec_dc_symbols_coded(spec_dc_chromin_nrcodes(), spec_dc_chromin_values()),
{
    let nr = spec_dc_chromin_nrcodes();
    let vals = spec_dc_chromin_values();
    lemma_kraft_dc_chromin();
    assert forall|s: int| 0 <= s <= 11 implies #[trigger] spec_has_code(nr, vals, s) by {
        if s == 0 {
            lemma_last_index_at(vals, 0, 12, 0);
        }
        if s == 1 {
            lemma_last_index_at(vals, 1, 12, 1);
        }
        if s == 2 {
            lemma_last_index_at(vals, 2, 12, 2);
        }
        if s == 3 {
            lemma_last_index_at(vals, 3, 12, 3);
        }
        if s == 4 {
            lemma_last_index_at(vals, 4, 12, 4);
        }
        if s == 5 {
            lemma_last_index_at(vals, 5, 12, 5);
        }
        if s == 6 {
            lemma_last_index_at(vals, 6, 12, 6);
        }
        if s == 7 {
            lemma_last_index_at(vals, 7, 12, 7);
        }
        if s == 8 {
            lemma_last_index_at(vals, 8, 12, 8);
        }
        if s == 9 {
            lemma_last_index_at(vals, 9, 12, 9);
        }
        if s == 10 {
            lemma_last_index_at(vals, 10, 12, 10);
        }
        if s == 11 {
            lemma_last_index_at(vals, 11, 12, 11);
        }
    }
}

#[verifier::rlimit(80)]
proof fn lemma_ac_lumin_coded()
    ensures
        spec_ac_symbols_coded(spec_ac_lumin_nrcodes(), spec_ac_lumin_values()),
{
    let nr = spec_ac_lumin_nrcodes();
    let vals = spec_ac_lumin_values();
    lemma_kraft_ac_lumin();
    assert(vals.len() == 162);
    lemma_last_index_at(vals, 0, 162, 3);
    lemma_last_index_at(vals, 0xF0, 162, 31);
    assert forall|r: int, sz: int| 0 <= r < 16 && 1 <= sz <= 10 implies #[trigger] spec_has_code(nr, vals, r * 16 + sz) by {
        if r == 0 {
            if sz == 1 {
                lemma_last_index_at(vals, 1, 162, 0);
            }
            if sz == 2 {
                lemma_last_index_at(vals, 2, 162, 1);
            }
            if sz == 3 {
                lemma_last_index_at(vals, 3, 162, 2);
            }
            if sz == 4 {
                lemma_last_index_at(vals, 4, 162, 4);
            }
            if sz == 5 {
                lemma_last_index_at(vals, 5, 162, 6);
            }
            if sz == 6 {
                lemma_last_index_at(vals, 6, 162, 11);
            }
            if sz == 7 {
                lemma_last_index_at(vals, 7, 162, 15);
            }
            if sz == 8 {
                lemma_last_index_at(vals, 8, 162, 23);
            }
            if sz == 9 {
                lemma_last_index_at(vals, 9, 162, 37);
            }
            if sz == 10 {
                lemma_last_index_at(vals, 10, 162, 38);
            }
        }
        if r == 1 {
            if sz == 1 {
                lemma_last_index_at(vals, 17, 162, 5);
            }
            if sz == 2 {
                lemma_last_index_at(vals, 18, 162, 7);
            }
            if sz == 3 {
                lemma_last_index_at(vals, 19, 162, 12);
            }
            if sz == 4 {
                lemma_last_index_at(vals, 20, 162, 18);
            }
            if sz == 5 {
                lemma_last_index_at(vals, 21, 162, 28);
            }
            if sz == 6 {
                lemma_last_index_at(vals, 22, 162, 39);
            }
            if sz == 7 {
                lemma_last_index_at(vals, 23, 162, 40);
            }
            if sz == 8 {
                lemma_last_index_at(vals, 24, 162, 41);
            }
            if sz == 9 {
                lemma_last_index_at(vals, 25, 162, 42);
            }
            if sz == 10 {
                lemma_last_index_at(vals, 26, 162, 43);
            }
        }
        if r == 2 {
            if sz == 1 {
                lemma_last_index_at(vals, 33, 162, 8);
            }
            if sz == 2 {
                lemma_last_index_at(vals, 34, 162, 16);
            }
            if sz == 3 {
                lemma_last_index_at(vals, 35, 162, 24);
            }
            if sz == 4 {
                lemma_last_index_at(vals, 36, 162, 32);
            }
            if sz == 5 {
                lemma_last_index_at(vals, 37, 162, 44);
            }
            if sz == 6 {
                lemma_last_index_at(vals, 38, 162, 45);
            }
            if sz == 7 {
                lemma_last_index_at(vals, 39, 162, 46);
            }
            if sz == 8 {
                lemma_last_index_at(vals, 40, 162, 47);
            }
            if sz == 9 {
                lemma_last_index_at(vals, 41, 162, 48);
            }
            if sz == 10 {
                lemma_last_index_at(vals, 42, 162, 49);
            }
        }
        if r == 3 {
            if sz == 1 {
                lemma_last_index_at(vals, 49, 162, 9);
            }
            if sz == 2 {
                lemma_last_index_at(vals, 50, 162, 19);
            }
            if sz == 3 {
                lemma_last_index_at(vals, 51, 162, 33);
            }
            if sz == 4 {
                lemma_last_index_at(vals, 52, 162, 50);
            }
            if sz == 5 {
                lemma_last_index_at(vals, 53, 162, 51);
            }
            if sz == 6 {
                lemma_last_index_at(vals, 54, 162, 52);
            }
            if sz == 7 {
                lemma_last_index_at(vals, 55, 162, 53);
            }
            if sz == 8 {
                lemma_last_index_at(vals, 56, 162, 54);
            }
            if sz == 9 {
                lemma_last_index_at(vals, 57, 162, 55);
            }
            if sz == 10 {
                lemma_last_index_at(vals, 58, 162, 56);
            }
        }
        if r == 4 {
            if sz == 1 {
                lemma_last_index_at(vals, 65, 162, 10);
            }
            if sz == 2 {
                lemma_last_index_at(vals, 66, 162, 25);
            }
            if sz == 3 {
                lemma_last_index_at(vals, 67, 162, 57);
            }
            if sz == 4 {
                lemma_last_index_at(vals, 68, 162, 58);
            }
            if sz == 5 {
                lemma_last_index_at(vals, 69, 162, 59);
            }
            if sz == 6 {
                lemma_last_index_at(vals, 70, 162, 60);
            }
            if sz == 7 {
                lemma_last_index_at(vals, 71, 162, 61);
            }
            if sz == 8 {
                lemma_last_index_at(vals, 72, 162, 62);
            }
            if sz == 9 {
                lemma_last_index_at(vals, 73, 162, 63);
            }
            if sz == 10 {
                lemma_last_index_at(vals, 74, 162, 64);
            }
        }
        if r == 5 {
            if sz == 1 {
                lemma_last_index_at(vals, 81, 162, 13);
            }
            if sz == 2 {
                lemma_last_index_at(vals, 82, 162, 29);
            }
            if sz == 3 {
                lemma_last_index_at(vals, 83, 162, 65);
            }
            if sz == 4 {
                lemma_last_index_at(vals, 84, 162, 66);
            }
            if sz == 5 {
                lemma_last_index_at(vals, 85, 162, 67);
            }
            if sz == 6 {
                lemma_last_index_at(vals, 86, 162, 68);
            }
            if sz == 7 {
                lemma_last_index_at(vals, 87, 162, 69);
            }
            if sz == 8 {
                lemma_last_index_at(vals, 88, 162, 70);
            }
            if sz == 9 {
                lemma_last_index_at(vals, 89, 162, 71);
            }
            if sz == 10 {
                lemma_last_index_at(vals, 90, 162, 72);
            }
        }
        if r == 6 {
            if sz == 1 {
                lemma_last_index_at(vals, 97, 162, 14);
            }
            if sz == 2 {
                lemma_last_index_at(vals, 98, 162, 34);
            }
            if sz == 3 {
                lemma_last_index_at(vals, 99, 162, 73);
            }
            if sz == 4 {
                lemma_last_index_at(vals, 100, 162, 74);
            }
            if sz == 5 {
                lemma_last_index_at(vals, 101, 162, 75);
            }
            if sz == 6 {
                lemma_last_index_at(vals, 102, 162, 76);
            }
            if sz == 7 {
                lemma_last_index_at(vals, 103, 162, 77);
            }
            if sz == 8 {
                lemma_last_index_at(vals, 104, 162, 78);
            }
            if sz == 9 {
                lemma_last_index_at(vals, 105, 162, 79);
            }
            if sz == 10 {
                lemma_last_index_at(vals, 106, 162, 80);
            }
        }
        if r == 7 {
            if sz == 1 {
                lemma_last_index_at(vals, 113, 162, 17);
            }
            if sz == 2 {
                lemma_last_index_at(vals, 114, 162, 35);
            }
            if sz == 3 {
                lemma_last_index_at(vals, 115, 162, 81);
            }
            if sz == 4 {
                lemma_last_index_at(vals, 116, 162, 82);
            }
            if sz == 5 {
                lemma_last_index_at(vals, 117, 162, 83);
            }
            if sz == 6 {
                lemma_last_index_at(vals, 118, 162, 84);
            }
            if sz == 7 {
                lemma_last_index_at(vals, 119, 162, 85);
            }
            if sz == 8 {
                lemma_last_index_at(vals, 120, 162, 86);
            }
            if sz == 9 {
                lemma_last_index_at(vals, 121, 162, 87);
            }
            if sz == 10 {
                lemma_last_index_at(vals, 122, 162, 88);
            }
        }
        if r == 8 {
            if sz == 1 {
                lemma_last_index_at(vals, 129, 162, 20);
            }
            if sz == 2 {
                lemma_last_index_at(vals, 130, 162, 36);
            }
            if sz == 3 {
                lemma_last_index_at(vals, 131, 162, 89);
            }
            if sz == 4 {
                lemma_last_index_at(vals, 132, 162, 90);
            }
            if sz == 5 {
                lemma_last_index_at(vals, 133, 162, 91);
            }
            if sz == 6 {
                lemma_last_index_at(vals, 134, 162, 92);
            }
            if sz == 7 {
                lemma_last_index_at(vals, 135, 162, 93);
            }
            if sz == 8 {
                lemma_last_index_at(vals, 136, 162, 94);
            }
            if sz == 9 {
                lemma_last_index_at(vals, 137, 162, 95);
            }
            if sz == 10 {
                lemma_last_index_at(vals, 138, 162, 96);
            }
        }
        if r == 9 {
            if sz == 1 {
                lemma_last_index_at(vals, 145, 162, 21);
            }
            if sz == 2 {
                lemma_last_index_at(vals, 146, 162, 97);
            }
            if sz == 3 {
                lemma_last_index_at(vals, 147, 162, 98);
            }
            if sz == 4 {
                lemma_last_index_at(vals, 148, 162, 99);
            }
            if sz == 5 {
                lemma_last_index_at(vals, 149, 162, 100);
            }
            if sz == 6 {
                lemma_last_index_at(vals, 150, 162, 101);
            }
            if sz == 7 {
                lemma_last_index_at(vals, 151, 162, 102);
            }
            if sz == 8 {
                lemma_last_index_at(vals, 152, 162, 103);
            }
            if sz == 9 {
                lemma_last_index_at(vals, 153, 162, 104);
            }
            if sz == 10 {
                lemma_last_index_at(vals, 154, 162, 105);
            }
        }
        if r == 10 {
            if sz == 1 {
                lemma_last_index_at(vals, 161, 162, 22);
            }
            if sz == 2 {
                lemma_last_index_at(vals, 162, 162, 106);
            }
            if sz == 3 {
                lemma_last_index_at(vals, 163, 162, 107);
            }
            if sz == 4 {
                lemma_last_index_at(vals, 164, 162, 108);
            }
            if sz == 5 {
                lemma_last_index_at(vals, 165, 162, 109);
            }
            if sz == 6 {
                lemma_last_index_at(vals, 166, 162, 110);
            }
            if sz == 7 {
                lemma_last_index_at(vals, 167, 162, 111);
            }
            if sz == 8 {
                lemma_last_index_at(vals, 168, 162, 112);
            }
            if sz == 9 {
                lemma_last_index_at(vals, 169, 162, 113);
            }
            if sz == 10 {
                lemma_last_index_at(vals, 170, 162, 114);
            }
        }
        if r == 11 {
            if sz == 1 {
                lemma_last_index_at(vals, 177, 162, 26);
            }
            if sz == 2 {
                lemma_last_index_at(vals, 178, 162, 115);
            }
            if sz == 3 {
                lemma_last_index_at(vals, 179, 162, 116);
            }
            if sz == 4 {
                lemma_last_index_at(vals, 180, 162, 117);
            }
            if sz == 5 {
                lemma_last_index_at(vals, 181, 162, 118);
            }
            if sz == 6 {
                lemma_last_index_at(vals, 182, 162, 119);
            }
            if sz == 7 {
                lemma_last_index_at(vals, 183, 162, 120);
            }
            if sz == 8 {
                lemma_last_index_at(vals, 184, 162, 121);
            }
            if sz == 9 {
                lemma_last_index_at(vals, 185, 162, 122);
            }
            if sz == 10 {
                lemma_last_index_at(vals, 186, 162, 123);
            }
        }
        if r == 12 {
            if sz == 1 {
                lemma_last_index_at(vals, 193, 162, 27);
            }
            if sz == 2 {
                lemma_last_index_at(vals, 194, 162, 124);
            }
            if sz == 3 {
                lemma_last_index_at(vals, 195, 162, 125);
            }
            if sz == 4 {
                lemma_last_index_at(vals, 196, 162, 126);
            }
            if sz == 5 {
                lemma_last_index_at(vals, 197, 162, 127);
            }
            if sz == 6 {
                lemma_last_index_at(vals, 198, 162, 128);
            }
            if sz == 7 {
                lemma_last_index_at(vals, 199, 162, 129);
            }
            if sz == 8 {
                lemma_last_index_at(vals, 200, 162, 130);
            }
            if sz == 9 {
                lemma_last_index_at(vals, 201, 162, 131);
            }
            if sz == 10 {
                lemma_last_index_at(vals, 202, 162, 132);
            }
        }
        if r == 13 {
            if sz == 1 {
                lemma_last_index_at(vals, 209, 162, 30);
            }
            if sz == 2 {
                lemma_last_index_at(vals, 210, 162, 133);
            }
            if sz == 3 {
                lemma_last_index_at(vals, 211, 162, 134);
            }
            if sz == 4 {
                lemma_last_index_at(vals, 212, 162, 135);
            }
            if sz == 5 {
                lemma_last_index_at(vals, 213, 162, 136);
            }
            if sz == 6 {
                lemma_last_index_at(vals, 214, 162, 137);
            }
            if sz == 7 {
                lemma_last_index_at(vals, 215, 162, 138);
            }
            if sz == 8 {
                lemma_last_index_at(vals, 216, 162, 139);
            }
            if sz == 9 {
                lemma_last_index_at(vals, 217, 162, 140);
            }
            if sz == 10 {
                lemma_last_index_at(vals, 218, 162, 141);
            }
        }
        if r == 14 {
            if sz == 1 {
                lemma_last_index_at(vals, 225, 162, 142);
            }
            if sz == 2 {
                lemma_last_index_at(vals, 226, 162, 143);
            }
            if sz == 3 {
                lemma_last_index_at(vals, 227, 162, 144);
            }
            if sz == 4 {
                lemma_last_index_at(vals, 228, 162, 145);
            }
            if sz == 5 {
                lemma_last_index_at(vals, 229, 162, 146);
            }
            if sz == 6 {
                lemma_last_index_at(vals, 230, 162, 147);
            }
            if sz == 7 {
                lemma_last_index_at(vals, 231, 162, 148);
            }
            if sz == 8 {
                lemma_last_index_at(vals, 232, 162, 149);
            }
            if sz == 9 {
                lemma_last_index_at(vals, 233, 162, 150);
            }
            if sz == 10 {
                lemma_last_index_at(vals, 234, 162, 151);
            }
        }
        if r == 15 {
            if sz == 1 {
                lemma_last_index_at(vals, 241, 162, 152);
            }
            if sz == 2 {
                lemma_last_index_at(vals, 242, 162, 153);
            }
            if sz == 3 {
                lemma_last_index_at(vals, 243, 162, 154);
            }
            if sz == 4 {
                lemma_last_index_at(vals, 244, 162, 155);
            }
            if sz == 5 {
                lemma_last_index_at(vals, 245, 162, 156);
            }
            if sz == 6 {
                lemma_last_index_at(vals, 246, 162, 157);
            }
            if sz == 7 {
                lemma_last_index_at(vals, 247, 162, 158);
            }
            if sz == 8 {
                lemma_last_index_at(vals, 248, 162, 159);
            }
            if sz == 9 {
                lemma_last_index_at(vals, 249, 162, 160);
            }
            if sz == 10 {
                lemma_last_index_at(vals, 250, 162, 161);
            }
        }
    }
}

#[verifier::rlimit(80)]
proof fn lemma_ac_chromin_coded()
    ensures
        spec_ac_symbols_coded(spec_ac_chromin_nrcodes(), spec_ac_chromin_values()),
{
    let nr = spec_ac_chromin_nrcodes();
    let vals = spec_ac_chromin_values();
    lemma_kraft_ac_chromin();
    assert(vals.len() == 162);
    lemma_last_index_at(vals, 0, 162, 0);
    lemma_last_index_at(vals, 0xF0, 162, 31);
    assert forall|r: int, sz: int| 0 <= r < 16 && 1 <= sz <= 10 implies #[trigger] spec_has_code(nr, vals, r * 16 + sz) by {
        if r == 0 {
            if sz == 1 {
                lemma_last_index_at(vals, 1, 162, 1);
            }
            if sz == 2 {
                lemma_last_index_at(vals, 2, 162, 2);
            }
            if sz == 3 {
                lemma_last_index_at(vals, 3, 162, 3);
            }
            if sz == 4 {
                lemma_last_index_at(vals, 4, 162, 5);
            }
            if sz == 5 {
                lemma_last_index_at(vals, 5, 162, 6);
            }
            if sz == 6 {
                lemma_last_index_at(vals, 6, 162, 9);
            }
            if sz == 7 {
                lemma_last_index_at(vals, 7, 162, 13);
            }
            if sz == 8 {
                lemma_last_index_at(vals, 8, 162, 20);
            }
            if sz == 9 {
                lemma_last_index_at(vals, 9, 162, 27);
            }
            if sz == 10 {
                lemma_last_index_at(vals, 10, 162, 36);
            }
        }
        if r == 1 {
            if sz == 1 {
                lemma_last_index_at(vals, 17, 162, 4);
            }
            if sz == 2 {
                lemma_last_index_at(vals, 18, 162, 10);
            }
            if sz == 3 {
                lemma_last_index_at(vals, 19, 162, 16);
            }
            if sz == 4 {
                lemma_last_index_at(vals, 20, 162, 21);
            }
            if sz == 5 {
                lemma_last_index_at(vals, 21, 162, 32);
            }
            if sz == 6 {
                lemma_last_index_at(vals, 22, 162, 37);
            }
            if sz == 7 {
                lemma_last_index_at(vals, 23, 162, 43);
            }
            if sz == 8 {
                lemma_last_index_at(vals, 24, 162, 44);
            }
            if sz == 9 {
                lemma_last_index_at(vals, 25, 162, 45);
            }
            if sz == 10 {
                lemma_last_index_at(vals, 26, 162, 46);
            }
        }
        if r == 2 {
            if sz == 1 {
                lemma_last_index_at(vals, 33, 162, 7);
            }
            if sz == 2 {
                lemma_last_index_at(vals, 34, 162, 17);
            }
            if sz == 3 {
                lemma_last_index_at(vals, 35, 162, 28);
            }
            if sz == 4 {
                lemma_last_index_at(vals, 36, 162, 38);
            }
            if sz == 5 {
                lemma_last_index_at(vals, 37, 162, 41);
            }
            if sz == 6 {
                lemma_last_index_at(vals, 38, 162, 47);
            }
            if sz == 7 {
                lemma_last_index_at(vals, 39, 162, 48);
            }
            if sz == 8 {
                lemma_last_index_at(vals, 40, 162, 49);
            }
            if sz == 9 {
                lemma_last_index_at(vals, 41, 162, 50);
            }
            if sz == 10 {
                lemma_last_index_at(vals, 42, 162, 51);
            }
        }
        if r == 3 {
            if sz == 1 {
                lemma_last_index_at(vals, 49, 162, 8);
            }
            if sz == 2 {
                lemma_last_index_at(vals, 50, 162, 18);
            }
            if sz == 3 {
                lemma_last_index_at(vals, 51, 162, 29);
            }
            if sz == 4 {
                lemma_last_index_at(vals, 52, 162, 39);
            }
            if sz == 5 {
                lemma_last_index_at(vals, 53, 162, 52);
            }
            if sz == 6 {
                lemma_last_index_at(vals, 54, 162, 53);
            }
            if sz == 7 {
                lemma_last_index_at(vals, 55, 162, 54);
            }
            if sz == 8 {
                lemma_last_index_at(vals, 56, 162, 55);
            }
            if sz == 9 {
                lemma_last_index_at(vals, 57, 162, 56);
            }
            if sz == 10 {
                lemma_last_index_at(vals, 58, 162, 57);
            }
        }
        if r == 4 {
            if sz == 1 {
                lemma_last_index_at(vals, 65, 162, 11);
            }
            if sz == 2 {
                lemma_last_index_at(vals, 66, 162, 22);
            }
            if sz == 3 {
                lemma_last_index_at(vals, 67, 162, 58);
            }
            if sz == 4 {
                lemma_last_index_at(vals, 68, 162, 59);
            }
            if sz == 5 {
                lemma_last_index_at(vals, 69, 162, 60);
            }
            if sz == 6 {
                lemma_last_index_at(vals, 70, 162, 61);
            }
            if sz == 7 {
                lemma_last_index_at(vals, 71, 162, 62);
            }
            if sz == 8 {
                lemma_last_index_at(vals, 72, 162, 63);
            }
            if sz == 9 {
                lemma_last_index_at(vals, 73, 162, 64);
            }
            if sz == 10 {
                lemma_last_index_at(vals, 74, 162, 65);
            }
        }
        if r == 5 {
            if sz == 1 {
                lemma_last_index_at(vals, 81, 162, 12);
            }
            if sz == 2 {
                lemma_last_index_at(vals, 82, 162, 30);
            }
            if sz == 3 {
                lemma_last_index_at(vals, 83, 162, 66);
            }
            if sz == 4 {
                lemma_last_index_at(vals, 84, 162, 67);
            }
            if sz == 5 {
                lemma_last_index_at(vals, 85, 162, 68);
            }
            if sz == 6 {
                lemma_last_index_at(vals, 86, 162, 69);
            }
            if sz == 7 {
                lemma_last_index_at(vals, 87, 162, 70);
            }
            if sz == 8 {
                lemma_last_index_at(vals, 88, 162, 71);
            }
            if sz == 9 {
                lemma_last_index_at(vals, 89, 162, 72);
            }
            if sz == 10 {
                lemma_last_index_at(vals, 90, 162, 73);
            }
        }
        if r == 6 {
            if sz == 1 {
                lemma_last_index_at(vals, 97, 162, 14);
            }
            if sz == 2 {
                lemma_last_index_at(vals, 98, 162, 33);
            }
            if sz == 3 {
                lemma_last_index_at(vals, 99, 162, 74);
            }
            if sz == 4 {
                lemma_last_index_at(vals, 100, 162, 75);
            }
            if sz == 5 {
                lemma_last_index_at(vals, 101, 162, 76);
            }
            if sz == 6 {
                lemma_last_index_at(vals, 102, 162, 77);
            }
            if sz == 7 {
                lemma_last_index_at(vals, 103, 162, 78);
            }
            if sz == 8 {
                lemma_last_index_at(vals, 104, 162, 79);
            }
            if sz == 9 {
                lemma_last_index_at(vals, 105, 162, 80);
            }
            if sz == 10 {
                lemma_last_index_at(vals, 106, 162, 81);
            }
        }
        if r == 7 {
            if sz == 1 {
                lemma_last_index_at(vals, 113, 162, 15);
            }
            if sz == 2 {
                lemma_last_index_at(vals, 114, 162, 34);
            }
            if sz == 3 {
                lemma_last_index_at(vals, 115, 162, 82);
            }
            if sz == 4 {
                lemma_last_index_at(vals, 116, 162, 83);
            }
            if sz == 5 {
                lemma_last_index_at(vals, 117, 162, 84);
            }
            if sz == 6 {
                lemma_last_index_at(vals, 118, 162, 85);
            }
            if sz == 7 {
                lemma_last_index_at(vals, 119, 162, 86);
            }
            if sz == 8 {
                lemma_last_index_at(vals, 120, 162, 87);
            }
            if sz == 9 {
                lemma_last_index_at(vals, 121, 162, 88);
            }
            if sz == 10 {
                lemma_last_index_at(vals, 122, 162, 89);
            }
        }
        if r == 8 {
            if sz == 1 {
                lemma_last_index_at(vals, 129, 162, 19);
            }
            if sz == 2 {
                lemma_last_index_at(vals, 130, 162, 90);
            }
            if sz == 3 {
                lemma_last_index_at(vals, 131, 162, 91);
            }
            if sz == 4 {
                lemma_last_index_at(vals, 132, 162, 92);
            }
            if sz == 5 {
                lemma_last_index_at(vals, 133, 162, 93);
            }
            if sz == 6 {
                lemma_last_index_at(vals, 134, 162, 94);
            }
            if sz == 7 {
                lemma_last_index_at(vals, 135, 162, 95);
            }
            if sz == 8 {
                lemma_last_index_at(vals, 136, 162, 96);
            }
            if sz == 9 {
                lemma_last_index_at(vals, 137, 162, 97);
            }
            if sz == 10 {
                lemma_last_index_at(vals, 138, 162, 98);
            }
        }
        if r == 9 {
            if sz == 1 {
                lemma_last_index_at(vals, 145, 162, 23);
            }
            if sz == 2 {
                lemma_last_index_at(vals, 146, 162, 99);
            }
            if sz == 3 {
                lemma_last_index_at(vals, 147, 162, 100);
            }
            if sz == 4 {
                lemma_last_index_at(vals, 148, 162, 101);
            }
            if sz == 5 {
                lemma_last_index_at(vals, 149, 162, 102);
            }
            if sz == 6 {
                lemma_last_index_at(vals, 150, 162, 103);
            }
            if sz == 7 {
                lemma_last_index_at(vals, 151, 162, 104);
            }
            if sz == 8 {
                lemma_last_index_at(vals, 152, 162, 105);
            }
            if sz == 9 {
                lemma_last_index_at(vals, 153, 162, 106);
            }
            if sz == 10 {
                lemma_last_index_at(vals, 154, 162, 107);
            }
        }
        if r == 10 {
            if sz == 1 {
                lemma_last_index_at(vals, 161, 162, 24);
            }
            if sz == 2 {
                lemma_last_index_at(vals, 162, 162, 108);
            }
            if sz == 3 {
                lemma_last_index_at(vals, 163, 162, 109);
            }
            if sz == 4 {
                lemma_last_index_at(vals, 164, 162, 110);
            }
            if sz == 5 {
                lemma_last_index_at(vals, 165, 162, 111);
            }
            if sz == 6 {
                lemma_last_index_at(vals, 166, 162, 112);
            }
            if sz == 7 {
                lemma_last_index_at(vals, 167, 162, 113);
            }
            if sz == 8 {
                lemma_last_index_at(vals, 168, 162, 114);
            }
            if sz == 9 {
                lemma_last_index_at(vals, 169, 162, 115);
            }
            if sz == 10 {
                lemma_last_index_at(vals, 170, 162, 116);
            }
        }
        if r == 11 {
            if sz == 1 {
                lemma_last_index_at(vals, 177, 162, 25);
            }
            if sz == 2 {
                lemma_last_index_at(vals, 178, 162, 117);
            }
            if sz == 3 {
                lemma_last_index_at(vals, 179, 162, 118);
            }
            if sz == 4 {
                lemma_last_index_at(vals, 180, 162, 119);
            }
            if sz == 5 {
                lemma_last_index_at(vals, 181, 162, 120);
            }
            if sz == 6 {
                lemma_last_index_at(vals, 182, 162, 121);
            }
            if sz == 7 {
                lemma_last_index_at(vals, 183, 162, 122);
            }
            if sz == 8 {
                lemma_last_index_at(vals, 184, 162, 123);
            }
            if sz == 9 {
                lemma_last_index_at(vals, 185, 162, 124);
            }
            if sz == 10 {
                lemma_last_index_at(vals, 186, 162, 125);
            }
        }
        if r == 12 {
            if sz == 1 {
                lemma_last_index_at(vals, 193, 162, 26);
            }
            if sz == 2 {
                lemma_last_index_at(vals, 194, 162, 126);
            }
            if sz == 3 {
                lemma_last_index_at(vals, 195, 162, 127);
            }
            if sz == 4 {
                lemma_last_index_at(vals, 196, 162, 128);
            }
            if sz == 5 {
                lemma_last_index_at(vals, 197, 162, 129);
            }
            if sz == 6 {
                lemma_last_index_at(vals, 198, 162, 130);
            }
            if sz == 7 {
                lemma_last_index_at(vals, 199, 162, 131);
            }
            if sz == 8 {
                lemma_last_index_at(vals, 200, 162, 132);
            }
            if sz == 9 {
                lemma_last_index_at(vals, 201, 162, 133);
            }
            if sz == 10 {
                lemma_last_index_at(vals, 202, 162, 134);
            }
        }
        if r == 13 {
            if sz == 1 {
                lemma_last_index_at(vals, 209, 162, 35);
            }
            if sz == 2 {
                lemma_last_index_at(vals, 210, 162, 135);
            }
            if sz == 3 {
                lemma_last_index_at(vals, 211, 162, 136);
            }
            if sz == 4 {
                lemma_last_index_at(vals, 212, 162, 137);
            }
            if sz == 5 {
                lemma_last_index_at(vals, 213, 162, 138);
            }
            if sz == 6 {
                lemma_last_index_at(vals, 214, 162, 139);
            }
            if sz == 7 {
                lemma_last_index_at(vals, 215, 162, 140);
            }
            if sz == 8 {
                lemma_last_index_at(vals, 216, 162, 141);
            }
            if sz == 9 {
                lemma_last_index_at(vals, 217, 162, 142);
            }
            if sz == 10 {
                lemma_last_index_at(vals, 218, 162, 143);
            }
        }
        if r == 14 {
            if sz == 1 {
                lemma_last_index_at(vals, 225, 162, 40);
            }
            if sz == 2 {
                lemma_last_index_at(vals, 226, 162, 144);
            }
            if sz == 3 {
                lemma_last_index_at(vals, 227, 162, 145);
            }
            if sz == 4 {
                lemma_last_index_at(vals, 228, 162, 146);
            }
            if sz == 5 {
                lemma_last_index_at(vals, 229, 162, 147);
            }
            if sz == 6 {
                lemma_last_index_at(vals, 230, 162, 148);
            }
            if sz == 7 {
                lemma_last_index_at(vals, 231, 162, 149);
            }
            if sz == 8 {
                lemma_last_index_at(vals, 232, 162, 150);
            }
            if sz == 9 {
                lemma_last_index_at(vals, 233, 162, 151);
            }
            if sz == 10 {
                lemma_last_index_at(vals, 234, 162, 152);
            }
        }
        if r == 15 {
            if sz == 1 {
                lemma_last_index_at(vals, 241, 162, 42);
            }
            if sz == 2 {
                lemma_last_index_at(vals, 242, 162, 153);
            }
            if sz == 3 {
                lemma_last_index_at(vals, 243, 162, 154);
            }
            if sz == 4 {
                lemma_last_index_at(vals, 244, 162, 155);
            }
            if sz == 5 {
                lemma_last_index_at(vals, 245, 162, 156);
            }
            if sz == 6 {
                lemma_last_index_at(vals, 246, 162, 157);
            }
            if sz == 7 {
                lemma_last_index_at(vals, 247, 162, 158);
            }
            if sz == 8 {
                lemma_last_index_at(vals, 248, 162, 159);
            }
            if sz == 9 {
                lemma_last_index_at(vals, 249, 162, 160);
            }
            if sz == 10 {
                lemma_last_index_at(vals, 250, 162, 161);
            }
        }
    }
}

/// The four Huffman tables of ITU-T T.81 Annex K, which the encoder uses,
/// describe codes that fit and give a code to every DC size category and
/// every AC symbol that coefficients below 1024 in magnitude use.
pub proof fn lemma_standard_tables_coded()
    ensures
        spec_dc_symbols_coded(spec_dc_lumin_nrcodes(), spec_dc_lumin_values()),
        spec_dc_symbols_coded(spec_dc_chromin_nrcodes(), spec_dc_chromin_values()),
        spec_ac_symbols_coded(spec_ac_lumin_nrcodes(), spec_ac_lumin_values()),
        spec_ac_symbols_coded(spec_ac_chromin_nrcodes(), spec_ac_chromin_values()),
{
    lemma_dc_lumin_coded();
    lemma_dc_chromin_coded();
    lemma_ac_lumin_coded();
    lemma_ac_chromin_coded();
}

} // verus!
