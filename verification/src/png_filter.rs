use vstd::prelude::*;

verus! {

/// The PNG scanline filters. `AverageFirstRow` and `PaethFirstRow` are the
/// `Average` and `Paeth` filters specialised to a row without a row above it.
#[derive(Clone, Copy, Debug, PartialEq, Eq, Structural)]
pub enum PngFilter {
    NoFilter,
    Sub,
    Up,
    Average,
    Paeth,
    AverageFirstRow,
    PaethFirstRow,
}

/// The filter type byte that stands for `f` in a PNG stream.
pub open spec fn spec_filter_id(f: PngFilter) -> u8 {
    match f {
        PngFilter::NoFilter => 0,
        PngFilter::Sub => 1,
        PngFilter::Up => 2,
        PngFilter::Average => 3,
        PngFilter::Paeth => 4,
        PngFilter::AverageFirstRow => 3,
        PngFilter::PaethFirstRow => 4,
    }
}

/// The filter that a filter type byte `id` (0..=4) stands for, on the first
/// row of an image or on any other row.
pub open spec fn spec_filter_map(first_row: bool, id: int) -> PngFilter {
    if id == 0 {
        PngFilter::NoFilter
    } else if id == 1 {
        PngFilter::Sub
    } else if id == 2 {
        if first_row { PngFilter::NoFilter } else { PngFilter::Up }
    } else if id == 3 {
        if first_row { PngFilter::AverageFirstRow } else { PngFilter::Average }
    } else {
        if first_row { PngFilter::PaethFirstRow } else { PngFilter::Paeth }
    }
}

/// Whether a filter reads the row above the current one.
pub open spec fn spec_reads_row_above(f: PngFilter) -> bool {
    f is Up || f is Average || f is Paeth
}

/// The Paeth predictor of the PNG specification, computed over the integers.
pub open spec fn spec_paeth(a: u8, b: u8, c: u8) -> u8 {
    let p = a as int + b as int - c as int;
    let pa = if p >= a { p - a } else { a - p };
    let pb = if p >= b { p - b } else { b - p };
    let pc = if p >= c { p - c } else { c - p };
    if pa <= pb && pa <= pc {
        a
    } else if pb <= pc {
        b
    } else {
        c
    }
}

/// The Paeth predictor picks, of the byte to the left `a`, the byte above
/// `b` and the byte above and left `c`, the one nearest to `a + b - c`;
/// on a tie `a` goes before `b`, and `b` before `c`.
pub proof fn lemma_paeth_nearest(a: u8, b: u8, c: u8)
    ensures
        ({
            let p = a + b - c;
            let pa = if p >= a { p - a } else { a - p };
            let pb = if p >= b { p - b } else { b - p };
            let pc = if p >= c { p - c } else { c - p };
            &&& pa <= pb && pa <= pc ==> spec_paeth(a, b, c) == a
            &&& pb < pa && pb <= pc ==> spec_paeth(a, b, c) == b
            &&& pc < pa && pc < pb ==> spec_paeth(a, b, c) == c
        }),
{
}



impl PngFilter {
    /// The five filters indexed by filter type byte, for rows below the first.
    pub fn mapping() -> (r: [PngFilter; 5])
        ensures
            forall|i: int| 0 <= i < 5 ==> r@[i] == #[trigger] spec_filter_map(false, i),
    {
        [PngFilter::NoFilter, PngFilter::Sub, PngFilter::Up, PngFilter::Average, PngFilter::Paeth]
    }

    /// The five filters indexed by filter type byte, for the first row.
    pub fn mapping_first_row() -> (r: [PngFilter; 5])
        ensures
            forall|i: int| 0 <= i < 5 ==> r@[i] == #[trigger] spec_filter_map(true, i),
    {
        [
            PngFilter::NoFilter,
            PngFilter::Sub,
            PngFilter::NoFilter,
            PngFilter::AverageFirstRow,
            PngFilter::PaethFirstRow,
        ]
    }

    /// The filter type byte written for this filter.
    pub fn id(&self) -> (r: u8)
        ensures
            r == spec_filter_id(*self),
            r <= 4,
    {
        match self {
            PngFilter::NoFilter => 0,
            PngFilter::Sub => 1,
            PngFilter::Up => 2,
            PngFilter::Average => 3,
            PngFilter::Paeth => 4,
            PngFilter::AverageFirstRow => 3,
            PngFilter::PaethFirstRow => 4,
        }
    }

    /// The Paeth predictor: `a` is the byte to the left, `b` the byte above
    /// and `c` the byte above and to the left of the current byte.
    pub fn paeth_predictor(a: u8, b: u8, c: u8) -> (r: u8)
        ensures
            r == spec_paeth(a, b, c),
    {
        let a = a as i32;
        let b = b as i32;
        let c = c as i32;

        let p = a.wrapping_add(b).wrapping_sub(c);

        let da = p - a;
        let db = p - b;
        let dc = p - c;
        let pa = if da < 0 { -da } else { da };
        let pb = if db < 0 { -db } else { db };
        let pc = if dc < 0 { -dc } else { dc };

        if pa <= pb && pa <= pc {
            a as u8
        } else if pb <= pc {
            b as u8
        } else {
            c as u8
        }
    }
}

/// Looking a filter's type byte up in the mapping of its row gives the
/// filter back, for every filter that the mapping of that row holds.
pub proof fn lemma_filter_id_map(first_row: bool, i: int)
    requires
        0 <= i < 5,
    ensures
        spec_filter_map(first_row, spec_filter_id(spec_filter_map(first_row, i)) as int)
            == spec_filter_map(first_row, i),
{
}

} // verus!
