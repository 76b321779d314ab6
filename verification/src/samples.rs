use vstd::prelude::*;
use crate::sealed::Sealed;

verus! {

/// Sample data that is either borrowed from the caller or owned.
pub enum SampleStorage<'a, S> {
    Borrow { data: &'a [S] },
    Owned { data: Vec<S> },
}

impl<'a, S> View for SampleStorage<'a, S> {
    type V = Seq<S>;

    open spec fn view(&self) -> Seq<S> {
        match self {
            SampleStorage::Borrow { data } => data@,
            SampleStorage::Owned { data } => data@,
        }
    }
}

impl<'a, S: Copy> SampleStorage<'a, S> {
    pub fn get_data(&self) -> (r: &[S])
        ensures
            r@ == self@,
    {
        match self {
            SampleStorage::Owned { data } => data.as_slice(),
            SampleStorage::Borrow { data } => data,
        }
    }

    /// Length of the underlying storage (not the number of pixels).
    pub fn len(&self) -> (r: usize)
        ensures
            r == self@.len(),
    {
        match self {
            SampleStorage::Owned { data } => data.len(),
            SampleStorage::Borrow { data } => data.len(),
        }
    }

    pub fn is_empty(&self) -> (r: bool)
        ensures
            r == (self@.len() == 0),
    {
        match self {
            SampleStorage::Owned { data } => data.len() == 0,
            SampleStorage::Borrow { data } => data.len() == 0,
        }
    }

    pub fn is_owned(&self) -> (r: bool)
        ensures
            r == (self is Owned),
    {
        match self {
            SampleStorage::Owned { .. } => true,
            SampleStorage::Borrow { .. } => false,
        }
    }

    pub fn is_borrowed(&self) -> (r: bool)
        ensures
            r == (self is Borrow),
    {
        match self {
            SampleStorage::Owned { .. } => false,
            SampleStorage::Borrow { .. } => true,
        }
    }

    /// A borrowed view of the same samples, without consuming `self`.
    pub fn as_borrowed(&self) -> (r: SampleStorage<'_, S>)
        ensures
            r is Borrow,
            r@ == self@,
    {
        SampleStorage::Borrow { data: self.get_data() }
    }

    /// The samples as an owned vector; copies when borrowed.
    pub fn into_vec(self) -> (r: Vec<S>)
        ensures
            r@ == self@,
    {
        match self {
            SampleStorage::Owned { data } => data,
            SampleStorage::Borrow { data } => vstd::slice::slice_to_vec(data),
        }
    }

    /// The owned vector, or `None` when the samples are borrowed.
    pub fn try_into_vec(self) -> (r: Option<Vec<S>>)
        ensures
            self is Owned ==> (r matches Some(v) && v@ == self@),
            self is Borrow ==> r is None,
    {
        match self {
            SampleStorage::Owned { data } => Some(data),
            SampleStorage::Borrow { .. } => None,
        }
    }
}

/// The 8-bit sample nearest to a 16-bit sample on the 0..=255 scale.
pub open spec fn spec_downsample_u16(sample: u16) -> u8 {
    ((sample as int * 255 + 32767) / 65535) as u8
}

/// Big-endian byte `k` (0 or 1) of a 16-bit sample.
pub open spec fn spec_u16_be_byte(sample: u16, k: int) -> u8 {
    if k == 0 {
        (sample / 256) as u8
    } else {
        (sample % 256) as u8
    }
}

/// A sample type (`u8` or `u16`).
pub trait Sample: Copy + Sized + Sealed {
    /// Bytes taken by one sample.
    spec fn spec_bytes_per_sample() -> usize;

    /// The big-endian byte encoding of a run of samples.
    spec fn spec_be_bytes(samples: Seq<Self>) -> Seq<u8>;

    /// Samples read back from their big-endian encoding.
    spec fn spec_from_be_bytes(bytes: Seq<u8>) -> Seq<Self>;

    /// The 8-bit version of each sample.
    spec fn spec_to_u8(sample: Self) -> u8;

    fn bytes_per_sample() -> (r: usize)
        ensures
            r == Self::spec_bytes_per_sample(),
            r == 1 || r == 2,
    ;

    fn bit_depth() -> (r: u8)
        ensures
            r == 8 * Self::spec_bytes_per_sample(),
    ;

    /// Used by formats that store samples as big-endian bytes, such as PNG.
    fn into_be_bytes<'a>(buffer: SampleStorage<'a, Self>) -> (r: SampleStorage<'a, u8>)
        requires
            buffer@.len() * Self::spec_bytes_per_sample() <= usize::MAX,
        ensures
            r@ == Self::spec_be_bytes(buffer@),
            r@.len() == buffer@.len() * Self::spec_bytes_per_sample(),
            Self::spec_bytes_per_sample() == 1 ==> (r is Borrow <==> buffer is Borrow),
            Self::spec_bytes_per_sample() == 2 ==> r is Owned,
    ;

    /// Used by formats that store samples as big-endian bytes, such as PNG.
    fn from_be_bytes<'a>(bytes: &'a [u8]) -> (r: SampleStorage<'a, Self>)
        ensures
            r@ == Self::spec_from_be_bytes(bytes@),
    ;

    fn downsample_to_u8_samples<'a>(input: SampleStorage<'a, Self>) -> (r: SampleStorage<'a, u8>)
        ensures
            r@.len() == input@.len(),
            forall|i: int| 0 <= i < input@.len() ==> r@[i] == #[trigger] Self::spec_to_u8(input@[i]),
    ;

    fn downsample_u16_to_u8(sample: u16) -> (r: u8)
        ensures
            r == spec_downsample_u16(sample),
    {
        assert(sample as u32 * 255 + 32767 <= 65535 * 255 + 32767) by (nonlinear_arith);
        assert((sample as u32 * 255 + 32767) / 65535 <= 255) by (nonlinear_arith)
            requires sample as u32 * 255 + 32767 <= 65535 * 255 + 32767;
        ((sample as u32 * 255 + 32767) / 65535) as u8
    }
}

impl Sample for u8 {
    open spec fn spec_bytes_per_sample() -> usize {
        1
    }

    open spec fn spec_be_bytes(samples: Seq<u8>) -> Seq<u8> {
        samples
    }

    open spec fn spec_from_be_bytes(bytes: Seq<u8>) -> Seq<u8> {
        bytes
    }

    open spec fn spec_to_u8(sample: u8) -> u8 {
        sample
    }

    fn bytes_per_sample() -> (r: usize) {
        1
    }

    fn bit_depth() -> (r: u8) {
        8
    }

    fn into_be_bytes<'a>(buffer: SampleStorage<'a, u8>) -> (r: SampleStorage<'a, u8>) {
        buffer
    }

    fn from_be_bytes<'a>(bytes: &'a [u8]) -> (r: SampleStorage<'a, u8>) {
        SampleStorage::Borrow { data: bytes }
    }

    fn downsample_to_u8_samples<'a>(input: SampleStorage<'a, u8>) -> (r: SampleStorage<'a, u8>) {
        input
    }
}

impl Sample for u16 {
    open spec fn spec_bytes_per_sample() -> usize {
        2
    }

    open spec fn spec_be_bytes(samples: Seq<u16>) -> Seq<u8> {
        Seq::new(2 * samples.len(), |i: int| spec_u16_be_byte(samples[i / 2], i % 2))
    }

    open spec fn spec_from_be_bytes(bytes: Seq<u8>) -> Seq<u16> {
        Seq::new(bytes.len() / 2, |i: int| (bytes[2 * i] as int * 256 + bytes[2 * i + 1] as int) as u16)
    }

    open spec fn spec_to_u8(sample: u16) -> u8 {
        spec_downsample_u16(sample)
    }

    fn bytes_per_sample() -> (r: usize) {
        2
    }

    fn bit_depth() -> (r: u8) {
        16
    }

    fn into_be_bytes<'a>(buffer: SampleStorage<'a, u16>) -> (r: SampleStorage<'a, u8>) {
        let data = buffer.get_data();
        let mut out: Vec<u8> = Vec::with_capacity(data.len() * 2);
        let mut i: usize = 0;
        while i < data.len()
            invariant
                data@ == buffer@,
                i <= data.len(),
                data.len() * 2 <= usize::MAX,
                out@.len() == 2 * i,
                forall|k: int| 0 <= k < 2 * i ==> out@[k] == spec_u16_be_byte(data@[k / 2], k % 2),
            decreases data.len() - i,
        {
            let item = data[i];
            out.push((item >> 8) as u8);
            out.push((item & 0xff) as u8);
            proof {
                assert((item >> 8) as u8 == (item / 256) as u8) by (bit_vector);
                assert((item & 0xff) as u8 == (item % 256) as u8) by (bit_vector);
                assert forall|k: int| 0 <= k < 2 * (i + 1) implies out@[k] == spec_u16_be_byte(
                    data@[k / 2],
                    k % 2,
                ) by {
                    if k >= 2 * i {
                        assert(k / 2 == i as int);
                    }
                }
            }
            i = i + 1;
        }
        let r = SampleStorage::Owned { data: out };
        assert(r@ =~= Self::spec_be_bytes(buffer@));
        r
    }

    fn from_be_bytes<'a>(bytes: &'a [u8]) -> (r: SampleStorage<'a, u16>) {
        let n = bytes.len() / 2;
        let mut out: Vec<u16> = Vec::with_capacity(n);
        let mut i: usize = 0;
        while i < n
            invariant
                n == bytes@.len() / 2,
                i <= n,
                out@.len() == i,
                forall|k: int| 0 <= k < i ==> out@[k] == (bytes@[2 * k] as int * 256 + bytes@[2 * k + 1] as int) as u16,
            decreases n - i,
        {
            let hi = bytes[2 * i];
            let lo = bytes[2 * i + 1];
            out.push(hi as u16 * 256 + lo as u16);
            i = i + 1;
        }
        let r = SampleStorage::Owned { data: out };
        assert(r@ =~= Self::spec_from_be_bytes(bytes@));
        r
    }

    fn downsample_to_u8_samples<'a>(input: SampleStorage<'a, u16>) -> (r: SampleStorage<'a, u8>) {
        let data = input.get_data();
        let mut out: Vec<u8> = Vec::with_capacity(data.len());
        let mut i: usize = 0;
        while i < data.len()
            invariant
                data@ == input@,
                i <= data.len(),
                out@.len() == i,
                forall|k: int| 0 <= k < i ==> out@[k] == spec_downsample_u16(data@[k]),
            decreases data.len() - i,
        {
            out.push(Self::downsample_u16_to_u8(data[i]));
            i = i + 1;
        }
        SampleStorage::Owned { data: out }
    }
}

/// The sample formats.
pub enum SampleFormat {
    U8,
    U16,
}

} // verus!
