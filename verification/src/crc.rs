use vstd::prelude::*;

verus! {

/// The PNG file signature.
pub open spec fn spec_png_sig() -> Seq<u8> {
    seq![137u8, 80u8, 78u8, 71u8, 13u8, 10u8, 26u8, 10u8]
}

/// The PNG file signature.
pub fn png_sig() -> (r: [u8; 8])
    ensures
        r@ == spec_png_sig(),
{
    [137, 80, 78, 71, 13, 10, 26, 10]
}

/// One bit step of the reflected CRC-32 register (polynomial 0xEDB88320).
pub open spec fn spec_crc_step(c: u32) -> u32 {
    if c & 1 == 1 {
        (c >> 1) ^ 0xEDB8_8320u32
    } else {
        c >> 1
    }
}

/// `k` bit steps of the CRC-32 register.
pub open spec fn spec_crc_steps(c: u32, k: nat) -> u32
    decreases k,
{
    if k == 0 {
        c
    } else {
        spec_crc_step(spec_crc_steps(c, (k - 1) as nat))
    }
}

/// The CRC-32 register after taking in the bytes of `s`, from `init`.
pub open spec fn spec_crc_update(init: u32, s: Seq<u8>) -> u32
    decreases s.len(),
{
    if s.len() == 0 {
        init
    } else {
        spec_crc_steps(spec_crc_update(init, s.drop_last()) ^ (s.last() as u32), 8)
    }
}

/// The CRC-32 (ISO-HDLC, as used by PNG) of `s`.
pub open spec fn spec_crc32(s: Seq<u8>) -> u32 {
    spec_crc_update(0xFFFF_FFFFu32, s) ^ 0xFFFF_FFFFu32
}

/// The CRC-32 of the last `len + 4` bytes of `data`: a chunk's type and its
/// `len` bytes of payload, when the chunk ends `data`.
pub fn generate_crc(data: &[u8], len: usize) -> (r: u32)
    requires
        len + 4 <= data@.len(),
    ensures
        r == spec_crc32(data@.subrange(data@.len() - len - 4, data@.len() as int)),
{
    let n = data.len();
    let start = n - len - 4;
    let mut c: u32 = 0xFFFF_FFFF;
    let mut i = start;
    while i < n
        invariant
            start <= i <= n,
            n == data@.len(),
            c == spec_crc_update(0xFFFF_FFFFu32, data@.subrange(start as int, i as int)),
        decreases n - i,
    {
        let ghost before = c;
        c = c ^ (data[i] as u32);
        let mut k: usize = 0;
        while k < 8
            invariant
                k <= 8,
                c == spec_crc_steps(before ^ (data@[i as int] as u32), k as nat),
            decreases 8 - k,
        {
            c = if c & 1 == 1 {
                (c >> 1) ^ 0xEDB8_8320u32
            } else {
                c >> 1
            };
            k = k + 1;
        }
        assert(data@.subrange(start as int, i + 1).drop_last() =~= data@.subrange(start as int, i as int));
        i = i + 1;
    }
    c ^ 0xFFFF_FFFF
}

} // verus!
