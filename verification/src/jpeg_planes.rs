use vstd::prelude::*;
use crate::bytes::ByteCursor;
use crate::color_type::{BitDepth, ColorType};
use crate::error::{PictorError, PictorResult};
use crate::jpeg_entropy::{
    BitRes, BitState, EntErr, JpegBitReader, spec_decode_block, spec_ent_err,
};
use crate::jpeg_read::{HuffModel, JpegComponent, JpegDecodeRequest, JpegHeader, JpegScanComponent};
use crate::samples::SampleStorage;

verus! {

/// One component's samples, row after row, `width` per row.
pub struct ComponentPlane {
    pub width: usize,
    pub height: usize,
    pub samples: Vec<u8>,
}

/// The planes of all components and the layout of minimum coded units.
pub struct ComponentPlanes {
    pub planes: Vec<ComponentPlane>,
    pub max_h: u8,
    pub max_v: u8,
    pub mcu_columns: usize,
    pub mcu_rows: usize,
}

/// `a / b` rounded up.
pub open spec fn spec_div_ceil(a: int, b: int) -> int {
    (a + b - 1) / b
}

/// The largest horizontal sampling factor of the components.
pub open spec fn spec_max_h(c: Seq<JpegComponent>) -> u8
    decreases c.len(),
{
    if c.len() == 0 {
        0
    } else {
        let m = spec_max_h(c.drop_last());
        if c.last().horizontal_sampling > m { c.last().horizontal_sampling } else { m }
    }
}

/// The largest vertical sampling factor of the components.
pub open spec fn spec_max_v(c: Seq<JpegComponent>) -> u8
    decreases c.len(),
{
    if c.len() == 0 {
        0
    } else {
        let m = spec_max_v(c.drop_last());
        if c.last().vertical_sampling > m { c.last().vertical_sampling } else { m }
    }
}

/// The samples `samples` of a plane `width` wide after writing the 8x8
/// `block` at block column `bx` and block row `by`; what falls outside the
/// plane is dropped.
pub open spec fn spec_block_written(samples: Seq<u8>, width: int, bx: int, by: int, block: Seq<u8>) -> Seq<u8> {
    Seq::new(
        samples.len(),
        |i: int|
            {
                let x = i % width;
                let y = i / width;
                if bx * 8 <= x < bx * 8 + 8 && by * 8 <= y < by * 8 + 8 {
                    block[(y - by * 8) * 8 + (x - bx * 8)]
                } else {
                    samples[i]
                }
            },
    )
}

impl ComponentPlane {
    /// The plane holds `width * height` samples.
    pub open spec fn wf(&self) -> bool {
        self.samples@.len() == self.width * self.height
    }

    /// The plane after writing the 8x8 `block` at block column `bx` and
    /// block row `by`, clipped to the plane.
    pub open spec fn spec_write_block(&self, bx: int, by: int, block: Seq<u8>) -> Seq<u8> {
        spec_block_written(self.samples@, self.width as int, bx, by, block)
    }

    /// Writes an 8x8 block of samples at block column `block_x` and block
    /// row `block_y`; the part outside the plane is dropped.
    pub fn write_block(&mut self, block_x: usize, block_y: usize, samples: &[u8; 64])
        requires
            old(self).wf(),
            block_x * 8 + 8 <= usize::MAX,
            block_y * 8 + 8 <= usize::MAX,
        ensures
            final(self).wf(),
            final(self).width == old(self).width,
            final(self).height == old(self).height,
            final(self).samples@ == old(self).spec_write_block(block_x as int, block_y as int, samples@),
    {
        let origin_x = block_x * 8;
        let origin_y = block_y * 8;
        let ghost old_samples = self.samples@;
        let ghost w = self.width as int;
        let mut y: usize = 0;
        while y < 8
            invariant
                y <= 8,
                self.wf(),
                self.width == old(self).width,
                self.height == old(self).height,
                old_samples == old(self).samples@,
                w == self.width,
                origin_x == block_x * 8,
                origin_y == block_y * 8,
                origin_x + 8 <= usize::MAX,
                origin_y + 8 <= usize::MAX,
                forall|i: int|
                    0 <= i < self.samples@.len() ==> #[trigger] self.samples@[i] == ({
                        let x = i % w;
                        let yy = i / w;
                        if origin_x <= x < origin_x + 8 && origin_y <= yy < origin_y + y {
                            samples@[(yy - origin_y) * 8 + (x - origin_x)]
                        } else {
                            old_samples[i]
                        }
                    }),
            decreases 8 - y,
        {
            let mut x: usize = 0;
            while x < 8
                invariant
                    x <= 8,
                    y < 8,
                    self.wf(),
                    self.width == old(self).width,
                    self.height == old(self).height,
                    old_samples == old(self).samples@,
                    w == self.width,
                    origin_x == block_x * 8,
                    origin_y == block_y * 8,
                    origin_x + 8 <= usize::MAX,
                    origin_y + 8 <= usize::MAX,
                    forall|i: int|
                        0 <= i < self.samples@.len() ==> #[trigger] self.samples@[i] == ({
                            let xx = i % w;
                            let yy = i / w;
                            if origin_x <= xx < origin_x + 8 && (origin_y <= yy < origin_y + y || (yy == origin_y + y
                                && xx < origin_x + x)) {
                                samples@[(yy - origin_y) * 8 + (xx - origin_x)]
                            } else {
                                old_samples[i]
                            }
                        }),
                decreases 8 - x,
            {
                let dst_x = origin_x + x;
                let dst_y = origin_y + y;
                if dst_x < self.width && dst_y < self.height {
                    proof {
                        assert(dst_y * w + dst_x < w * self.height) by (nonlinear_arith)
                            requires dst_x < w, dst_y < self.height;
                    }
                    let _len = self.samples.len();
                    let idx = dst_y * self.width + dst_x;
                    let ghost before = self.samples@;
                    self.samples.set(idx, samples[y * 8 + x]);
                    proof {
                        assert((idx as int) % w == dst_x && (idx as int) / w == dst_y) by (nonlinear_arith)
                            requires idx == dst_y * w + dst_x, 0 <= dst_x < w;
                        assert forall|i: int| 0 <= i < self.samples@.len() implies #[trigger] self.samples@[i] == ({
                            let xx = i % w;
                            let yy = i / w;
                            if origin_x <= xx < origin_x + 8 && (origin_y <= yy < origin_y + y || (yy == origin_y + y
                                && xx < origin_x + x + 1)) {
                                samples@[(yy - origin_y) * 8 + (xx - origin_x)]
                            } else {
                                old_samples[i]
                            }
                        }) by {
                            if i != idx {
                                assert(self.samples@[i] == before[i]);
                                if i % w == dst_x && i / w == dst_y {
                                    assert(i == (i / w) * w + i % w) by (nonlinear_arith) requires w > 0;
                                }
                            }
                        }
                    }
                } else {
                    proof {
                        assert forall|i: int| 0 <= i < self.samples@.len() implies #[trigger] self.samples@[i] == ({
                            let xx = i % w;
                            let yy = i / w;
                            if origin_x <= xx < origin_x + 8 && (origin_y <= yy < origin_y + y || (yy == origin_y + y
                                && xx < origin_x + x + 1)) {
                                samples@[(yy - origin_y) * 8 + (xx - origin_x)]
                            } else {
                                old_samples[i]
                            }
                        }) by {
                            if i % w == dst_x && i / w == dst_y {
                                assert(i / w < self.height) by (nonlinear_arith)
                                    requires 0 <= i < w * self.height, w > 0;
                                assert(i % w < w) by (nonlinear_arith) requires w > 0;
                            }
                        }
                    }
                }
                x = x + 1;
            }
            y = y + 1;
        }
        assert(self.samples@ =~= old(self).spec_write_block(block_x as int, block_y as int, samples@));
    }
}

/// The sample of a plane that covers pixel (`x`, `y`) of the image, for a
/// component sampled `h` by `v` out of `max_h` by `max_v`; clamped to the plane.
pub open spec fn spec_sample_index(p: &ComponentPlane, x: int, y: int, h: int, v: int, max_h: int, max_v: int) -> int {
    let sx = if x * h > usize::MAX { usize::MAX as int } else { x * h } / max_h;
    let sy = if y * v > usize::MAX { usize::MAX as int } else { y * v } / max_v;
    let cx = if sx < p.width - 1 { sx } else { p.width - 1 };
    let cy = if sy < p.height - 1 { sy } else { p.height - 1 };
    cy * p.width + cx
}

/// The sample a pixel takes lies in the plane's column `x * h / max_h` and
/// row `y * v / max_v`, the last column or row where those lie past the
/// plane: the column follows `x` alone and the row `y` alone.
pub proof fn lemma_sample_position(p: &ComponentPlane, x: int, y: int, h: int, v: int, max_h: int, max_v: int)
    requires
        0 <= x,
        0 <= y,
        0 <= h,
        0 <= v,
        1 <= max_h,
        1 <= max_v,
        x * h <= usize::MAX,
        y * v <= usize::MAX,
        p.width >= 1,
    ensures
        ({
            let col = if x * h / max_h < p.width { x * h / max_h } else { p.width - 1 };
            let row = if y * v / max_v < p.height { y * v / max_v } else { p.height - 1 };
            spec_sample_index(p, x, y, h, v, max_h, max_v) == row * p.width + col
        }),
{
}

/// `a * b`, or `usize::MAX` where the product does not fit.
fn saturating_mul(a: usize, b: usize) -> (r: usize)
    ensures
        r == if a * b > usize::MAX { usize::MAX as int } else { a * b },
{
    match a.checked_mul(b) {
        Some(v) => v,
        None => usize::MAX,
    }
}

/// Number of samples of component `i`'s plane, sized for whole minimum
/// coded units of the request.
pub open spec fn spec_plane_size(request: &JpegDecodeRequest, i: int) -> int {
    let c = request.components@;
    let cols = spec_div_ceil(request.width as int, 8 * spec_max_h(c));
    let rows = spec_div_ceil(request.height as int, 8 * spec_max_v(c));
    (cols * 8 * c[i].horizontal_sampling) * (rows * 8 * c[i].vertical_sampling)
}

/// Some component's plane has more samples than `usize` can count.
pub open spec fn spec_planes_overflow(request: &JpegDecodeRequest) -> bool {
    let c = request.components@;
    c.len() > 0 && exists|i: int| 0 <= i < c.len() && #[trigger] spec_plane_size(request, i) > usize::MAX
}

/// `p` has one plane per component of `request`, sized for whole minimum
/// coded units, with the request's largest sampling factors.
pub open spec fn spec_planes_for(p: &ComponentPlanes, request: &JpegDecodeRequest) -> bool {
    let c = request.components@;
    &&& c.len() > 0
    &&& p.max_h == spec_max_h(c)
    &&& p.max_v == spec_max_v(c)
    &&& p.max_h >= 1
    &&& p.max_v >= 1
    &&& p.mcu_columns == spec_div_ceil(request.width as int, 8 * p.max_h)
    &&& p.mcu_rows == spec_div_ceil(request.height as int, 8 * p.max_v)
    &&& p.mcu_columns <= 0x2000
    &&& p.mcu_rows <= 0x2000
    &&& p.planes@.len() == c.len()
    &&& forall|i: int|
        0 <= i < c.len() ==> {
            let pl = #[trigger] p.planes@[i];
            &&& pl.wf()
            &&& pl.width == p.mcu_columns * 8 * c[i].horizontal_sampling
            &&& pl.height == p.mcu_rows * 8 * c[i].vertical_sampling
        }
}

impl ComponentPlanes {
    /// Planes for the components of `request`, large enough for whole
    /// minimum coded units, all samples zero.
    pub fn new(request: &JpegDecodeRequest) -> (r: PictorResult<ComponentPlanes>)
        requires
            request.wf(),
        ensures
            request.components@.len() == 0 ==> (r matches Err(PictorError::InvalidFormat { .. })),
            r matches Err(e) ==> (e is InvalidFormat && request.components@.len() == 0) || e is MulOverflow,
            spec_planes_overflow(request) <==> (r matches Err(PictorError::MulOverflow { .. })),
            r matches Ok(p) ==> spec_planes_for(&p, request) && forall|i: int|
                0 <= i < p.planes@.len() ==> forall|k: int|
                    0 <= k < (#[trigger] p.planes@[i]).samples@.len() ==> p.planes@[i].samples@[k] == 0,
            request.components@.len() > 0 && usize::MAX >= 0xFFFF_FFFF_FFFF_FFFF ==> r is Ok,
    {
        let n = request.components.len();
        if n == 0 {
            return Err(PictorError::invalid_format("JPEG contains no components"));
        }
        let ghost c = request.components@;
        let mut max_h: u8 = 0;
        let mut max_v: u8 = 0;
        let mut i: usize = 0;
        while i < n
            invariant
                i <= n,
                n == c.len(),
                c == request.components@,
                max_h == spec_max_h(c.subrange(0, i as int)),
                max_v == spec_max_v(c.subrange(0, i as int)),
                forall|k: int| 0 <= k < i ==> (#[trigger] c[k]).horizontal_sampling <= max_h,
                forall|k: int| 0 <= k < i ==> (#[trigger] c[k]).vertical_sampling <= max_v,
                i > 0 ==> max_h >= 1 && max_v >= 1,
                request.wf(),
            decreases n - i,
        {
            assert(c.subrange(0, i + 1).drop_last() =~= c.subrange(0, i as int));
            let comp = request.components[i];
            if comp.horizontal_sampling > max_h {
                max_h = comp.horizontal_sampling;
            }
            if comp.vertical_sampling > max_v {
                max_v = comp.vertical_sampling;
            }
            i = i + 1;
        }
        assert(c.subrange(0, n as int) =~= c);
        let mcu_width = 8 * (max_h as usize);
        let mcu_height = 8 * (max_v as usize);
        let image_width = request.width as usize;
        let image_height = request.height as usize;
        let mcu_columns = (image_width + mcu_width - 1) / mcu_width;
        let mcu_rows = (image_height + mcu_height - 1) / mcu_height;
        proof {
            assert(mcu_columns * mcu_width <= image_width + mcu_width) by (nonlinear_arith)
                requires mcu_columns == (image_width + mcu_width - 1) / (mcu_width as int), mcu_width > 0;
            assert(mcu_rows * mcu_height <= image_height + mcu_height) by (nonlinear_arith)
                requires mcu_rows == (image_height + mcu_height - 1) / (mcu_height as int), mcu_height > 0;
        }
        proof {
            assert(mcu_columns <= 0x2000) by (nonlinear_arith)
                requires mcu_columns == (image_width + mcu_width - 1) / (mcu_width as int), mcu_width >= 8, image_width <= 0xFFFF;
            assert(mcu_rows <= 0x2000) by (nonlinear_arith)
                requires mcu_rows == (image_height + mcu_height - 1) / (mcu_height as int), mcu_height >= 8, image_height <= 0xFFFF;
        }
        let mut planes: Vec<ComponentPlane> = Vec::new();
        let mut j: usize = 0;
        while j < n
            invariant
                j <= n,
                n == c.len(),
                c == request.components@,
                request.wf(),
                forall|k: int| 0 <= k < n ==> (#[trigger] c[k]).horizontal_sampling <= max_h,
                forall|k: int| 0 <= k < n ==> (#[trigger] c[k]).vertical_sampling <= max_v,
                max_h >= 1 && max_v >= 1,
                mcu_width == 8 * max_h,
                mcu_height == 8 * max_v,
                mcu_columns * mcu_width <= image_width + mcu_width,
                mcu_rows * mcu_height <= image_height + mcu_height,
                image_width <= 0xFFFF,
                image_height <= 0xFFFF,
                planes@.len() == j,
                forall|i: int|
                    0 <= i < j ==> {
                        let pl = #[trigger] planes@[i];
                        &&& pl.wf()
                        &&& pl.width == mcu_columns * 8 * c[i].horizontal_sampling
                        &&& pl.height == mcu_rows * 8 * c[i].vertical_sampling
                        &&& forall|k: int| 0 <= k < pl.samples@.len() ==> pl.samples@[k] == 0
                    },
                max_h == spec_max_h(c),
                max_v == spec_max_v(c),
                mcu_columns == spec_div_ceil(image_width as int, mcu_width as int),
                mcu_rows == spec_div_ceil(image_height as int, mcu_height as int),
                image_width == request.width,
                image_height == request.height,
                forall|k: int| 0 <= k < j ==> !(#[trigger] spec_plane_size(request, k) > usize::MAX),
            decreases n - j,
        {
            let comp = request.components[j];
            let h = comp.horizontal_sampling as usize;
            let v = comp.vertical_sampling as usize;
            proof {
                assert(mcu_columns * 8 * h <= mcu_columns * mcu_width) by (nonlinear_arith)
                    requires h <= max_h, mcu_width == 8 * max_h;
                assert(mcu_rows * 8 * v <= mcu_rows * mcu_height) by (nonlinear_arith)
                    requires v <= max_v, mcu_height == 8 * max_v;
                assert(mcu_columns * 8 <= mcu_columns * mcu_width) by (nonlinear_arith)
                    requires mcu_width >= 8;
                assert(mcu_rows * 8 <= mcu_rows * mcu_height) by (nonlinear_arith)
                    requires mcu_height >= 8;
            }
            let width = mcu_columns * 8 * h;
            let height = mcu_rows * 8 * v;
            let size = match width.checked_mul(height) {
                Some(s) => s,
                None => {
                    proof {
                        assert(width * height <= 0x10000 * 0x10000 + 0x10000 * 0x1000 * 2 + 0x1000 * 0x1000)
                            by (nonlinear_arith)
                            requires width <= 0xFFFF + 0x800, height <= 0xFFFF + 0x800;
                    }
                    assert(spec_plane_size(request, j as int) > usize::MAX);
                    return Err(PictorError::MulOverflow { op: "JPEG component plane size exceeds usize." });
                },
            };
            assert(spec_plane_size(request, j as int) == size);
            let samples: Vec<u8> = vec![0u8; size];
            planes.push(ComponentPlane { width, height, samples });
            j = j + 1;
        }
        assert(!spec_planes_overflow(request));
        Ok(ComponentPlanes { planes, max_h, max_v, mcu_columns, mcu_rows })
    }
}

/// The sample of `plane` that pixel (`x`, `y`) of the image takes, for a
/// component sampled `h` by `v` out of `max_h` by `max_v`.
pub fn sample_component(plane: &ComponentPlane, x: usize, y: usize, h: u8, v: u8, max_h: u8, max_v: u8) -> (r: u8)
    requires
        plane.wf(),
        plane.width >= 1,
        plane.height >= 1,
        max_h >= 1,
        max_v >= 1,
    ensures
        r == plane.samples@[spec_sample_index(plane, x as int, y as int, h as int, v as int, max_h as int, max_v as int)],
{
    let source_x = saturating_mul(x, h as usize) / max_h as usize;
    let source_y = saturating_mul(y, v as usize) / max_v as usize;
    let wm1 = plane.width - 1;
    let hm1 = plane.height - 1;
    let source_x = if source_x < wm1 { source_x } else { wm1 };
    let source_y = if source_y < hm1 { source_y } else { hm1 };
    proof {
        assert(source_y * plane.width + source_x < plane.width * plane.height) by (nonlinear_arith)
            requires source_x < plane.width, source_y < plane.height;
    }
    let _len = plane.samples.len();
    plane.samples[source_y * plane.width + source_x]
}

/// The first component from index `k` on with identifier `id`.
pub open spec fn spec_find(c: Seq<JpegComponent>, id: u8, k: int) -> Option<int>
    decreases c.len() - k,
{
    if k < 0 || k >= c.len() {
        None
    } else if c[k].id == id {
        Some(k)
    } else {
        spec_find(c, id, k + 1)
    }
}

/// Number of MCU columns of a header.
pub open spec fn spec_mcu_columns(h: JpegHeader) -> int {
    spec_div_ceil(h.width as int, 8 * spec_max_h(h.components))
}

/// Number of MCU rows of a header.
pub open spec fn spec_mcu_rows(h: JpegHeader) -> int {
    spec_div_ceil(h.height as int, 8 * spec_max_v(h.components))
}

/// Blocks `pre`, then those of outcome `o`.
pub open spec fn spec_prepend(pre: Seq<Seq<i32>>, o: BitRes<Seq<Seq<i32>>>) -> BitRes<Seq<Seq<i32>>> {
    match o {
        BitRes::Got { val, st } => BitRes::Got { val: pre + val, st },
        BitRes::Fail { err } => BitRes::Fail { err },
    }
}

/// Decoding the blocks of the scan from block `b` of scan component `j` of
/// MCU `m` on, out of `total` MCUs, with DC predictors `preds` (one per
/// frame component). Each MCU holds, for each scan component in turn, the
/// component's horizontal times vertical sampling factor blocks.
pub open spec fn spec_blocks(
    d: Seq<u8>,
    st: BitState,
    h: JpegHeader,
    preds: Seq<i32>,
    m: int,
    j: int,
    b: int,
    total: int,
) -> BitRes<Seq<Seq<i32>>>
    decreases total - m, h.scan.len() - j, 65536 - b,
{
    if m >= total || j < 0 || b < 0 {
        BitRes::Got { val: Seq::empty(), st }
    } else if j >= h.scan.len() {
        spec_blocks(d, st, h, preds, m + 1, 0, 0, total)
    } else {
        let sc = h.scan[j];
        match spec_find(h.components, sc.component_id, 0) {
            None => BitRes::Fail { err: EntErr::Fmt },
            Some(ci) => {
                let comp = h.components[ci];
                if sc.dc_table_id >= 4 || h.dc[sc.dc_table_id as int] is None {
                    BitRes::Fail { err: EntErr::Fmt }
                } else if sc.ac_table_id >= 4 || h.ac[sc.ac_table_id as int] is None {
                    BitRes::Fail { err: EntErr::Fmt }
                } else if comp.quantization_table_id >= 4 || h.quant[comp.quantization_table_id as int] is None {
                    BitRes::Fail { err: EntErr::Fmt }
                } else if b >= comp.horizontal_sampling * comp.vertical_sampling {
                    spec_blocks(d, st, h, preds, m, j + 1, 0, total)
                } else {
                    proof {
                        assert(comp.horizontal_sampling * comp.vertical_sampling <= 255 * 255) by (nonlinear_arith);
                    }
                    match spec_decode_block(
                        d,
                        st,
                        h.dc[sc.dc_table_id as int]->0,
                        h.ac[sc.ac_table_id as int]->0,
                        h.quant[comp.quantization_table_id as int]->0,
                        preds[ci],
                    ) {
                        BitRes::Fail { err } => BitRes::Fail { err },
                        BitRes::Got { val: (c, p), st: s } => spec_prepend(
                            seq![c],
                            spec_blocks(d, s, h, preds.update(ci, p), m, j, b + 1, total),
                        ),
                    }
                }
            },
        }
    }
}

/// `r` agrees with the outcome `o` of decoding the blocks.
pub open spec fn spec_blocks_result(o: BitRes<Seq<Seq<i32>>>, r: PictorResult<(ComponentPlanes, Vec<[i32; 64]>)>) -> bool {
    match o {
        BitRes::Got { val, .. } => r matches Ok(x) && x.1@.len() == val.len() && forall|i: int|
            0 <= i < val.len() ==> (#[trigger] x.1@[i])@ == val[i],
        BitRes::Fail { err } => r matches Err(e) && spec_ent_err(err, e),
    }
}

/// The index of the first component with identifier `id`.
fn find_component(c: &Vec<JpegComponent>, id: u8) -> (r: Option<usize>)
    ensures
        r matches Some(k) ==> k < c@.len() && spec_find(c@, id, 0) == Some(k as int),
        r is None <==> spec_find(c@, id, 0) is None,
{
    let mut i: usize = 0;
    while i < c.len()
        invariant
            i <= c@.len(),
            spec_find(c@, id, 0) == spec_find(c@, id, i as int),
        decreases c@.len() - i,
    {
        if c[i].id == id {
            return Some(i);
        }
        i = i + 1;
    }
    None
}

proof fn lemma_prepend_push(pre: Seq<Seq<i32>>, c: Seq<i32>, o: BitRes<Seq<Seq<i32>>>)
    ensures
        spec_prepend(pre, spec_prepend(seq![c], o)) == spec_prepend(pre.push(c), o),
{
    match o {
        BitRes::Got { val, st } => {
            assert(pre + (seq![c] + val) =~= pre.push(c) + val);
        },
        BitRes::Fail { .. } => {},
    }
}

impl JpegDecodeRequest {
    /// Entropy-decodes every block of the scan that starts at the reader's
    /// position, MCU after MCU, with the planes the image will be drawn into.
    pub fn decode_blocks(&self, reader: &ByteCursor) -> (r: PictorResult<(ComponentPlanes, Vec<[i32; 64]>)>)
        requires
            self.wf(),
            reader.pos <= reader.data@.len(),
        ensures
            self.components@.len() == 0 ==> (r matches Err(PictorError::InvalidFormat { .. })),
            spec_planes_overflow(self) <==> (r matches Err(PictorError::MulOverflow { .. })),
            self.components@.len() > 0 && !(r matches Err(PictorError::MulOverflow { .. })) ==> spec_blocks_result(
                spec_blocks(
                    reader.data@,
                    BitState { pos: reader.pos as int, buf: 0, count: 0 },
                    self.model(),
                    Seq::new(self.components@.len(), |i: int| 0i32),
                    0,
                    0,
                    0,
                    spec_mcu_rows(self.model()) * spec_mcu_columns(self.model()),
                ),
                r,
            ),
            r matches Ok(x) ==> x.0.mcu_columns == spec_mcu_columns(self.model()) && x.0.mcu_rows == spec_mcu_rows(
                self.model(),
            ) && spec_planes_for(&x.0, self) && x.0.wf(),
    {
        let planes = ComponentPlanes::new(self)?;
        let ghost h = self.model();
        let mut bit_reader = JpegBitReader::new(reader.data, reader.pos);
        let n = self.components.len();
        let mut preds: Vec<i32> = vec![0i32; n];
        let ghost d = reader.data@;
        let ghost st0 = bit_reader.state();
        proof {
            let mw = 8 * planes.max_h;
            let mh = 8 * planes.max_v;
            assert(planes.mcu_columns <= 0x2000) by (nonlinear_arith)
                requires planes.mcu_columns == (self.width + mw - 1) / mw, mw >= 8, self.width <= 0xFFFF;
            assert(planes.mcu_rows <= 0x2000) by (nonlinear_arith)
                requires planes.mcu_rows == (self.height + mh - 1) / mh, mh >= 8, self.height <= 0xFFFF;
            assert(planes.mcu_rows * planes.mcu_columns <= 0x2000 * 0x2000) by (nonlinear_arith)
                requires planes.mcu_rows <= 0x2000, planes.mcu_columns <= 0x2000;
        }
        let total = planes.mcu_rows * planes.mcu_columns;
        let ghost target = spec_blocks(d, st0, h, preds@, 0, 0, 0, total as int);
        assert(preds@ =~= Seq::new(self.components@.len(), |i: int| 0i32));
        assert(total == spec_mcu_rows(self.model()) * spec_mcu_columns(self.model()));
        let mut blocks: Vec<[i32; 64]> = Vec::new();
        assert(blocks@.map_values(|b: [i32; 64]| b@) =~= Seq::<Seq<i32>>::empty());
        let mut m: usize = 0;
        while m < total
            invariant
                self.wf(),
                !spec_planes_overflow(self),
                h == self.model(),
                bit_reader.wf(),
                bit_reader.data() == d,
                preds@.len() == n,
                n == self.components@.len(),
                m <= total,
                target == spec_prepend(
                    blocks@.map_values(|b: [i32; 64]| b@),
                    spec_blocks(d, bit_reader.state(), h, preds@, m as int, 0, 0, total as int),
                ),
                target == spec_blocks(
                    reader.data@,
                    BitState { pos: reader.pos as int, buf: 0, count: 0 },
                    self.model(),
                    Seq::new(self.components@.len(), |i: int| 0i32),
                    0,
                    0,
                    0,
                    spec_mcu_rows(self.model()) * spec_mcu_columns(self.model()),
                ),
                d == reader.data@,
            decreases total - m,
        {
            let mut j: usize = 0;
            while j < self.scan_components.len()
                invariant
                    self.wf(),
                    !spec_planes_overflow(self),
                    h == self.model(),
                    bit_reader.wf(),
                    bit_reader.data() == d,
                    preds@.len() == n,
                    n == self.components@.len(),
                    m < total,
                    j <= self.scan_components@.len(),
                    target == spec_prepend(
                        blocks@.map_values(|b: [i32; 64]| b@),
                        spec_blocks(d, bit_reader.state(), h, preds@, m as int, j as int, 0, total as int),
                    ),
                    target == spec_blocks(
                        reader.data@,
                        BitState { pos: reader.pos as int, buf: 0, count: 0 },
                        self.model(),
                        Seq::new(self.components@.len(), |i: int| 0i32),
                        0,
                        0,
                        0,
                        spec_mcu_rows(self.model()) * spec_mcu_columns(self.model()),
                    ),
                    d == reader.data@,
                decreases self.scan_components@.len() - j,
            {
                let scan = self.scan_components[j];
                let ci = match find_component(&self.components, scan.component_id) {
                    Some(k) => k,
                    None => {
                        return Err(PictorError::invalid_format("SOS references an unknown JPEG component"));
                    },
                };
                let component = self.components[ci];
                let dc_id = scan.dc_table_id as usize;
                let ac_id = scan.ac_table_id as usize;
                let q_id = component.quantization_table_id as usize;
                if dc_id >= 4 {
                    return Err(PictorError::invalid_format("Missing JPEG DC Huffman table"));
                }
                let dc_table = match &self.dc_huffman_tables[dc_id] {
                    Some(t) => t,
                    None => {
                        return Err(PictorError::invalid_format("Missing JPEG DC Huffman table"));
                    },
                };
                assert(h.dc[dc_id as int] == Some(dc_table.model()));
                if ac_id >= 4 {
                    return Err(PictorError::invalid_format("Missing JPEG AC Huffman table"));
                }
                let ac_table = match &self.ac_huffman_tables[ac_id] {
                    Some(t) => t,
                    None => {
                        return Err(PictorError::invalid_format("Missing JPEG AC Huffman table"));
                    },
                };
                assert(h.ac[ac_id as int] == Some(ac_table.model()));
                if q_id >= 4 {
                    return Err(PictorError::invalid_format("Missing JPEG quantization table"));
                }
                let quantization_table = match &self.quantization_tables[q_id] {
                    Some(t) => t,
                    None => {
                        return Err(PictorError::invalid_format("Missing JPEG quantization table"));
                    },
                };
                assert(h.dc[dc_id as int] == Some(dc_table.model()));
                assert(h.ac[ac_id as int] == Some(ac_table.model()));
                assert(h.quant[q_id as int] == Some(quantization_table@));
                let hs = component.horizontal_sampling as usize;
                let vs = component.vertical_sampling as usize;
                assert(hs * vs <= 255 * 255) by (nonlinear_arith) requires hs <= 255, vs <= 255;
                let nb = hs * vs;
                let mut b: usize = 0;
                while b < nb
                    invariant
                        !spec_planes_overflow(self),
                        self.wf(),
                        h == self.model(),
                        bit_reader.wf(),
                        bit_reader.data() == d,
                        preds@.len() == n,
                        n == self.components@.len(),
                        m < total,
                        j < self.scan_components@.len(),
                        scan == self.scan_components@[j as int],
                        spec_find(h.components, scan.component_id, 0) == Some(ci as int),
                        ci < n,
                        component == self.components@[ci as int],
                        dc_id == scan.dc_table_id,
                        ac_id == scan.ac_table_id,
                        q_id == component.quantization_table_id,
                        dc_id < 4 && ac_id < 4 && q_id < 4,
                        h.dc[dc_id as int] == Some(dc_table.model()),
                        h.ac[ac_id as int] == Some(ac_table.model()),
                        h.quant[q_id as int] == Some(quantization_table@),
                        nb == component.horizontal_sampling * component.vertical_sampling,
                        b <= nb,
                        target == spec_prepend(
                            blocks@.map_values(|b: [i32; 64]| b@),
                            spec_blocks(d, bit_reader.state(), h, preds@, m as int, j as int, b as int, total as int),
                        ),
                        target == spec_blocks(
                            reader.data@,
                            BitState { pos: reader.pos as int, buf: 0, count: 0 },
                            self.model(),
                            Seq::new(self.components@.len(), |i: int| 0i32),
                            0,
                            0,
                            0,
                            spec_mcu_rows(self.model()) * spec_mcu_columns(self.model()),
                        ),
                        d == reader.data@,
                    decreases nb - b,
                {
                    let ghost s0 = bit_reader.state();
                    let ghost p0 = preds@;
                    let mut pred = preds[ci];
                    let block = bit_reader.decode_block(dc_table, ac_table, quantization_table, &mut pred)?;
                    preds.set(ci, pred);
                    let ghost pre = blocks@.map_values(|b: [i32; 64]| b@);
                    proof {
                        lemma_prepend_push(
                            pre,
                            block@,
                            spec_blocks(d, bit_reader.state(), h, preds@, m as int, j as int, b + 1, total as int),
                        );
                    }
                    blocks.push(block);
                    assert(blocks@.map_values(|b: [i32; 64]| b@) =~= pre.push(block@));
                    b = b + 1;
                }
                j = j + 1;
            }
            m = m + 1;
        }
        assert(blocks@.map_values(|b: [i32; 64]| b@).len() == blocks@.len());
        Ok((planes, blocks))
    }
}

/// The planes keep their number and sizes.
pub open spec fn spec_same_shape(a: Seq<ComponentPlane>, b: Seq<ComponentPlane>) -> bool {
    &&& a.len() == b.len()
    &&& forall|i: int|
        0 <= i < a.len() ==> (#[trigger] b[i]).wf() && b[i].width == a[i].width && b[i].height == a[i].height
}

impl ComponentPlanes {
    /// Every plane holds `width * height` samples.
    pub open spec fn wf(&self) -> bool {
        forall|i: int| 0 <= i < self.planes@.len() ==> (#[trigger] self.planes@[i]).wf()
    }

    /// Draws 8x8 sample blocks, in the order the scan codes them, at their
    /// places in the planes: MCU after MCU, for each scan component its
    /// horizontal times vertical sampling factor blocks, row by row.
    pub fn place_blocks(&mut self, request: &JpegDecodeRequest, samples: &Vec<[u8; 64]>) -> (r: PictorResult<()>)
        requires
            old(self).wf(),
            old(self).planes@.len() == request.components@.len(),
            old(self).mcu_columns <= 0x2000,
            old(self).mcu_rows <= 0x2000,
        ensures
            final(self).wf(),
            spec_same_shape(old(self).planes@, final(self).planes@),
            final(self).mcu_columns == old(self).mcu_columns,
            final(self).mcu_rows == old(self).mcu_rows,
            final(self).max_h == old(self).max_h,
            final(self).max_v == old(self).max_v,
            r is Ok <==> spec_placed(*old(self), request, samples@) is Some,
            r is Ok ==> spec_plane_samples(final(self).planes@) == spec_placed(*old(self), request, samples@)->0,
            r matches Err(e) ==> e is InvalidFormat,
    {
        let ghost p0 = self.planes@;
        let ghost widths = spec_plane_widths(p0);
        let ghost blocks = samples@.map_values(|s: [u8; 64]| s@);
        let ghost comps = request.components@;
        let ghost scan = request.scan_components@;
        let ghost cols = self.mcu_columns as int;
        let ghost total = self.mcu_rows * self.mcu_columns;
        let ghost goal = spec_placed(*old(self), request, samples@);
        let mut k: usize = 0;
        let mut mcu_y: usize = 0;
        while mcu_y < self.mcu_rows
            invariant
                self.wf(),
                spec_same_shape(p0, self.planes@),
                p0 == old(self).planes@,
                self.planes@.len() == request.components@.len(),
                self.mcu_columns == old(self).mcu_columns,
                self.mcu_rows == old(self).mcu_rows,
                self.max_h == old(self).max_h,
                self.max_v == old(self).max_v,
                self.mcu_columns <= 0x2000,
                self.mcu_rows <= 0x2000,
                mcu_y <= self.mcu_rows,
                widths == spec_plane_widths(p0),
                blocks == samples@.map_values(|s: [u8; 64]| s@),
                comps == request.components@,
                scan == request.scan_components@,
                cols == self.mcu_columns,
                total == self.mcu_rows * self.mcu_columns,
                goal == spec_placed(*old(self), request, samples@),
                goal == spec_place(spec_plane_samples(self.planes@), widths, comps, scan, blocks, cols, total, mcu_y * cols, 0, 0, k as int),
            decreases self.mcu_rows - mcu_y,
        {
            let mut mcu_x: usize = 0;
            while mcu_x < self.mcu_columns
                invariant
                    self.wf(),
                    spec_same_shape(p0, self.planes@),
                    p0 == old(self).planes@,
                    self.planes@.len() == request.components@.len(),
                    self.mcu_columns == old(self).mcu_columns,
                    self.mcu_rows == old(self).mcu_rows,
                    self.max_h == old(self).max_h,
                    self.max_v == old(self).max_v,
                    self.mcu_columns <= 0x2000,
                    self.mcu_rows <= 0x2000,
                    mcu_y < self.mcu_rows,
                    mcu_x <= self.mcu_columns,
                    widths == spec_plane_widths(p0),
                    blocks == samples@.map_values(|s: [u8; 64]| s@),
                    comps == request.components@,
                    scan == request.scan_components@,
                    cols == self.mcu_columns,
                    total == self.mcu_rows * self.mcu_columns,
                    goal == spec_place(spec_plane_samples(self.planes@), widths, comps, scan, blocks, cols, total, mcu_y * cols + mcu_x, 0, 0, k as int),
                    goal == spec_placed(*old(self), request, samples@),
                decreases self.mcu_columns - mcu_x,
            {
                let ghost m = mcu_y * cols + mcu_x;
                proof {
                    assert(m < total) by (nonlinear_arith)
                        requires m == mcu_y * cols + mcu_x, mcu_x < cols, mcu_y < self.mcu_rows, total == self.mcu_rows * cols;
                    vstd::arithmetic::div_mod::lemma_fundamental_div_mod_converse(m, cols, mcu_y as int, mcu_x as int);
                }
                let mut j: usize = 0;
                while j < request.scan_components.len()
                    invariant
                        self.wf(),
                        spec_same_shape(p0, self.planes@),
                        p0 == old(self).planes@,
                        self.planes@.len() == request.components@.len(),
                        self.mcu_columns == old(self).mcu_columns,
                        self.mcu_rows == old(self).mcu_rows,
                        self.max_h == old(self).max_h,
                        self.max_v == old(self).max_v,
                        self.mcu_columns <= 0x2000,
                        self.mcu_rows <= 0x2000,
                        mcu_y < self.mcu_rows,
                        mcu_x < self.mcu_columns,
                        j <= request.scan_components@.len(),
                        widths == spec_plane_widths(p0),
                        blocks == samples@.map_values(|s: [u8; 64]| s@),
                        comps == request.components@,
                        scan == request.scan_components@,
                        cols == self.mcu_columns,
                        total == self.mcu_rows * self.mcu_columns,
                        m == mcu_y * cols + mcu_x,
                        0 <= m < total,
                        m % cols == mcu_x,
                        m / cols == mcu_y,
                        goal == spec_place(spec_plane_samples(self.planes@), widths, comps, scan, blocks, cols, total, m, j as int, 0, k as int),
                        goal == spec_placed(*old(self), request, samples@),
                    decreases request.scan_components@.len() - j,
                {
                    let scan_c = request.scan_components[j];
                    let ci = match find_component(&request.components, scan_c.component_id) {
                        Some(c) => c,
                        None => {
                            proof {
                                assert(scan[j as int] == scan_c);
                                assert(spec_place(spec_plane_samples(self.planes@), widths, comps, scan, blocks, cols, total, m, j as int, 0, k as int) is None);
                            }
                            return Err(PictorError::invalid_format("SOS references an unknown JPEG component"));
                        },
                    };
                    let h = request.components[ci].horizontal_sampling as usize;
                    let v = request.components[ci].vertical_sampling as usize;
                    let mut block_y: usize = 0;
                    while block_y < v
                        invariant
                            self.wf(),
                            spec_same_shape(p0, self.planes@),
                            p0 == old(self).planes@,
                            self.planes@.len() == request.components@.len(),
                            self.mcu_columns == old(self).mcu_columns,
                            self.mcu_rows == old(self).mcu_rows,
                            self.max_h == old(self).max_h,
                            self.max_v == old(self).max_v,
                            self.mcu_columns <= 0x2000,
                            self.mcu_rows <= 0x2000,
                            mcu_y < self.mcu_rows,
                            mcu_x < self.mcu_columns,
                            j < request.scan_components@.len(),
                            ci < self.planes@.len(),
                            spec_find(comps, scan[j as int].component_id, 0) == Some(ci as int),
                            h == comps[ci as int].horizontal_sampling,
                            v == comps[ci as int].vertical_sampling,
                            h <= 255,
                            v <= 255,
                            block_y <= v,
                            widths == spec_plane_widths(p0),
                            blocks == samples@.map_values(|s: [u8; 64]| s@),
                            comps == request.components@,
                            scan == request.scan_components@,
                            cols == self.mcu_columns,
                            total == self.mcu_rows * self.mcu_columns,
                            m == mcu_y * cols + mcu_x,
                            0 <= m < total,
                            m % cols == mcu_x,
                            m / cols == mcu_y,
                            goal == spec_place(spec_plane_samples(self.planes@), widths, comps, scan, blocks, cols, total, m, j as int, block_y * h, k as int),
                            goal == spec_placed(*old(self), request, samples@),
                        decreases v - block_y,
                    {
                        let mut block_x: usize = 0;
                        while block_x < h
                            invariant
                                self.wf(),
                                spec_same_shape(p0, self.planes@),
                                p0 == old(self).planes@,
                                self.planes@.len() == request.components@.len(),
                                self.mcu_columns == old(self).mcu_columns,
                                self.mcu_rows == old(self).mcu_rows,
                                self.max_h == old(self).max_h,
                                self.max_v == old(self).max_v,
                                self.mcu_columns <= 0x2000,
                                self.mcu_rows <= 0x2000,
                                mcu_y < self.mcu_rows,
                                mcu_x < self.mcu_columns,
                                j < request.scan_components@.len(),
                                ci < self.planes@.len(),
                                spec_find(comps, scan[j as int].component_id, 0) == Some(ci as int),
                                h == comps[ci as int].horizontal_sampling,
                                v == comps[ci as int].vertical_sampling,
                                h <= 255,
                                v <= 255,
                                block_y < v,
                                block_x <= h,
                                widths == spec_plane_widths(p0),
                                blocks == samples@.map_values(|s: [u8; 64]| s@),
                                comps == request.components@,
                                scan == request.scan_components@,
                                cols == self.mcu_columns,
                                total == self.mcu_rows * self.mcu_columns,
                                m == mcu_y * cols + mcu_x,
                                0 <= m < total,
                                m % cols == mcu_x,
                                m / cols == mcu_y,
                                goal == spec_place(spec_plane_samples(self.planes@), widths, comps, scan, blocks, cols, total, m, j as int, block_y * h + block_x, k as int),
                                goal == spec_placed(*old(self), request, samples@),
                            decreases h - block_x,
                        {
                            let ghost b = block_y * h + block_x;
                            proof {
                                assert(b < h * v) by (nonlinear_arith)
                                    requires b == block_y * h + block_x, block_x < h, block_y < v;
                                vstd::arithmetic::div_mod::lemma_fundamental_div_mod_converse(b, h as int, block_y as int, block_x as int);
                                assert(h * v <= 255 * 255) by (nonlinear_arith) requires h <= 255, v <= 255;
                            }
                            if k >= samples.len() {
                                proof {
                                    assert(blocks.len() == samples@.len());
                                    assert(spec_place(spec_plane_samples(self.planes@), widths, comps, scan, blocks, cols, total, m, j as int, b, k as int) is None);
                                }
                                return Err(PictorError::invalid_format("Fewer JPEG sample blocks than the scan codes"));
                            }
                            proof {
                                assert(mcu_x * h + block_x <= 0x2000 * 255 + 255) by (nonlinear_arith)
                                    requires mcu_x < 0x2000, h <= 255, block_x < h;
                                assert(mcu_y * v + block_y <= 0x2000 * 255 + 255) by (nonlinear_arith)
                                    requires mcu_y < 0x2000, v <= 255, block_y < v;
                            }
                            let destination_x = mcu_x * h + block_x;
                            let destination_y = mcu_y * v + block_y;
                            let ghost views0 = spec_plane_samples(self.planes@);
                            let mut plane = self.planes.remove(ci);
                            let ghost before = self.planes@;
                            assert(plane.wf()) by {
                                assert(old(self).planes@.len() > 0);
                            }
                            plane.write_block(destination_x, destination_y, &samples[k]);
                            self.planes.insert(ci, plane);
                            proof {
                                assert forall|i: int| 0 <= i < p0.len() implies (#[trigger] self.planes@[i]).wf()
                                    && self.planes@[i].width == p0[i].width && self.planes@[i].height == p0[i].height by {
                                    if i < ci {
                                        assert(self.planes@[i] == before[i]);
                                    } else if i > ci {
                                        assert(self.planes@[i] == before[i - 1]);
                                    }
                                }
                                assert(widths[ci as int] == p0[ci as int].width);
                                assert(blocks[k as int] == samples@[k as int]@);
                                assert(spec_plane_samples(self.planes@) =~= views0.update(
                                    ci as int,
                                    spec_block_written(views0[ci as int], widths[ci as int], destination_x as int, destination_y as int, blocks[k as int]),
                                )) by {
                                    assert forall|i: int| 0 <= i < self.planes@.len() implies spec_plane_samples(self.planes@)[i]
                                        == views0.update(
                                        ci as int,
                                        spec_block_written(views0[ci as int], widths[ci as int], destination_x as int, destination_y as int, blocks[k as int]),
                                    )[i] by {
                                        if i < ci {
                                            assert(self.planes@[i] == before[i]);
                                        } else if i > ci {
                                            assert(self.planes@[i] == before[i - 1]);
                                        }
                                    }
                                }
                                assert((block_y * h + block_x) + 1 == block_y * h + (block_x + 1));
                            }
                            k = k + 1;
                            block_x = block_x + 1;
                        }
                        proof {
                            assert(block_y * h + h == (block_y + 1) * h) by (nonlinear_arith);
                        }
                        block_y = block_y + 1;
                    }
                    proof {
                        assert(v * h == h * v) by (nonlinear_arith);
                    }
                    j = j + 1;
                }
                mcu_x = mcu_x + 1;
            }
            proof {
                assert(mcu_y * cols + cols == (mcu_y + 1) * cols) by (nonlinear_arith);
            }
            mcu_y = mcu_y + 1;
        }
        proof {
            assert(mcu_y * cols == total) by (nonlinear_arith)
                requires mcu_y == self.mcu_rows, total == self.mcu_rows * cols;
        }
        Ok(())
    }
}

/// The samples of each plane.
pub open spec fn spec_plane_samples(planes: Seq<ComponentPlane>) -> Seq<Seq<u8>> {
    Seq::new(planes.len(), |i: int| planes[i].samples@)
}

/// The width of each plane.
pub open spec fn spec_plane_widths(planes: Seq<ComponentPlane>) -> Seq<int> {
    Seq::new(planes.len(), |i: int| planes[i].width as int)
}

/// The plane samples `s` (planes `widths` wide) after drawing the blocks
/// from block `b` of scan component `j` of MCU `m` on, out of `total` MCUs
/// `cols` to a row, taking sample blocks from `k` on; `None` where a scan
/// component is unknown or the blocks run out.
pub open spec fn spec_place(
    s: Seq<Seq<u8>>,
    widths: Seq<int>,
    comps: Seq<JpegComponent>,
    scan: Seq<JpegScanComponent>,
    blocks: Seq<Seq<u8>>,
    cols: int,
    total: int,
    m: int,
    j: int,
    b: int,
    k: int,
) -> Option<Seq<Seq<u8>>>
    decreases total - m, scan.len() - j, 65536 - b,
{
    if m >= total || j < 0 || b < 0 || k < 0 {
        Some(s)
    } else if j >= scan.len() {
        spec_place(s, widths, comps, scan, blocks, cols, total, m + 1, 0, 0, k)
    } else {
        match spec_find(comps, scan[j].component_id, 0) {
            None => None,
            Some(ci) => {
                let h = comps[ci].horizontal_sampling as int;
                let v = comps[ci].vertical_sampling as int;
                if b >= h * v {
                    spec_place(s, widths, comps, scan, blocks, cols, total, m, j + 1, 0, k)
                } else if k >= blocks.len() {
                    None
                } else {
                    proof {
                        assert(h * v <= 255 * 255) by (nonlinear_arith)
                            requires
                                0 <= h <= 255,
                                0 <= v <= 255,
                        ;
                    }
                    let bx = (m % cols) * h + b % h;
                    let by = (m / cols) * v + b / h;
                    spec_place(
                        s.update(ci, spec_block_written(s[ci], widths[ci], bx, by, blocks[k])),
                        widths,
                        comps,
                        scan,
                        blocks,
                        cols,
                        total,
                        m,
                        j,
                        b + 1,
                        k + 1,
                    )
                }
            },
        }
    }
}

/// The plane samples after drawing all sample blocks `blocks` of the scan of
/// `request` into `planes`.
pub open spec fn spec_placed(planes: ComponentPlanes, request: &JpegDecodeRequest, blocks: Seq<[u8; 64]>) -> Option<
    Seq<Seq<u8>>,
> {
    spec_place(
        spec_plane_samples(planes.planes@),
        spec_plane_widths(planes.planes@),
        request.components@,
        request.scan_components@,
        blocks.map_values(|s: [u8; 64]| s@),
        planes.mcu_columns as int,
        planes.mcu_rows * planes.mcu_columns,
        0,
        0,
        0,
        0,
    )
}

impl JpegDecodeRequest {
    /// The samples of the first component, cropped to the image, row by row.
    pub fn gray_output(&self, planes: &ComponentPlanes) -> (r: Vec<u8>)
        requires
            planes.planes@.len() >= 1,
            planes.planes@[0].wf(),
            planes.planes@[0].width >= self.width,
            planes.planes@[0].height >= self.height,
        ensures
            r@.len() == self.width * self.height,
            forall|i: int|
                0 <= i < self.width * self.height ==> #[trigger] r@[i] == planes.planes@[0].samples@[(i / (self.width as int))
                    * planes.planes@[0].width + i % (self.width as int)],
    {
        let plane = &planes.planes[0];
        let width = self.width as usize;
        let height = self.height as usize;
        assert(width * height <= 0xFFFF * 0xFFFF) by (nonlinear_arith) requires width <= 0xFFFF, height <= 0xFFFF;
        let total = width * height;
        let mut output: Vec<u8> = Vec::new();
        let mut i: usize = 0;
        while i < total
            invariant
                i <= total,
                total == width * height,
                width == self.width,
                height == self.height,
                plane == planes.planes@[0],
                plane.wf(),
                plane.width >= width,
                plane.height >= height,
                output@.len() == i,
                forall|k: int| 0 <= k < i ==> #[trigger] output@[k] == plane.samples@[(k / (width as int)) * plane.width + k % (width as int)],
            decreases total - i,
        {
            proof {
                assert(width > 0) by (nonlinear_arith) requires i < width * height;
                assert(i / width < height && i % width < width) by (nonlinear_arith)
                    requires i < width * height, width > 0;
                assert((i / width) * plane.width + i % width < plane.width * plane.height) by (nonlinear_arith)
                    requires i / width < height, i % width < width, width <= plane.width, height <= plane.height;
            }
            let _len = plane.samples.len();
            let y = i / width;
            let x = i % width;
            output.push(plane.samples[y * plane.width + x]);
            i = i + 1;
        }
        output
    }

    /// The luma and two chroma samples of each pixel, row by row, each
    /// taken from its plane at the place that covers the pixel.
    pub fn ycc_samples(&self, planes: &ComponentPlanes) -> (r: Vec<u8>)
        requires
            self.components@.len() >= 3,
            planes.planes@.len() >= 3,
            forall|c: int| 0 <= c < 3 ==> (#[trigger] planes.planes@[c]).wf() && planes.planes@[c].width >= 1
                && planes.planes@[c].height >= 1,
            planes.max_h >= 1,
            planes.max_v >= 1,
        ensures
            r@.len() == self.width * self.height * 3,
            forall|i: int, c: int|
                0 <= i < self.width * self.height && 0 <= c < 3 ==> #[trigger] r@[i * 3 + c] == planes.planes@[c].samples@[
                spec_sample_index(
                    &planes.planes@[c],
                    i % (self.width as int),
                    i / (self.width as int),
                    self.components@[c].horizontal_sampling as int,
                    self.components@[c].vertical_sampling as int,
                    planes.max_h as int,
                    planes.max_v as int,
                )],
    {
        let width = self.width as usize;
        let height = self.height as usize;
        assert(width * height <= 0xFFFF * 0xFFFF) by (nonlinear_arith) requires width <= 0xFFFF, height <= 0xFFFF;
        let total = width * height;
        let mut output: Vec<u8> = Vec::new();
        let mut i: usize = 0;
        while i < total
            invariant
                i <= total,
                total == width * height,
                width == self.width,
                height == self.height,
                self.components@.len() >= 3,
                planes.planes@.len() >= 3,
                forall|c: int| 0 <= c < 3 ==> (#[trigger] planes.planes@[c]).wf() && planes.planes@[c].width >= 1
                    && planes.planes@[c].height >= 1,
                planes.max_h >= 1,
                planes.max_v >= 1,
                output@.len() == i * 3,
                forall|k: int, c: int|
                    0 <= k < i && 0 <= c < 3 ==> #[trigger] output@[k * 3 + c] == planes.planes@[c].samples@[
                    spec_sample_index(
                        &planes.planes@[c],
                        k % (width as int),
                        k / (width as int),
                        self.components@[c].horizontal_sampling as int,
                        self.components@[c].vertical_sampling as int,
                        planes.max_h as int,
                        planes.max_v as int,
                    )],
            decreases total - i,
        {
            assert(width > 0) by (nonlinear_arith) requires i < width * height;
            let x = i % width;
            let y = i / width;
            let ghost before = output@;
            let mut c: usize = 0;
            while c < 3
                invariant
                    c <= 3,
                    i < total,
                    total == width * height,
                    width == self.width,
                    x == i % width,
                    y == i / width,
                    self.components@.len() >= 3,
                    planes.planes@.len() >= 3,
                    forall|c: int| 0 <= c < 3 ==> (#[trigger] planes.planes@[c]).wf() && planes.planes@[c].width >= 1
                        && planes.planes@[c].height >= 1,
                    planes.max_h >= 1,
                    planes.max_v >= 1,
                    output@.len() == i * 3 + c,
                    forall|k: int| 0 <= k < i * 3 ==> output@[k] == before[k],
                    forall|cc: int|
                        0 <= cc < c ==> #[trigger] output@[i * 3 + cc] == planes.planes@[cc].samples@[spec_sample_index(
                            &planes.planes@[cc],
                            x as int,
                            y as int,
                            self.components@[cc].horizontal_sampling as int,
                            self.components@[cc].vertical_sampling as int,
                            planes.max_h as int,
                            planes.max_v as int,
                        )],
                decreases 3 - c,
            {
                let comp = self.components[c];
                let v = sample_component(
                    &planes.planes[c],
                    x,
                    y,
                    comp.horizontal_sampling,
                    comp.vertical_sampling,
                    planes.max_h,
                    planes.max_v,
                );
                output.push(v);
                c = c + 1;
            }
            proof {
                assert forall|k: int, c: int| 0 <= k < i + 1 && 0 <= c < 3 implies #[trigger] output@[k * 3 + c]
                    == planes.planes@[c].samples@[spec_sample_index(
                    &planes.planes@[c],
                    k % (width as int),
                    k / (width as int),
                    self.components@[c].horizontal_sampling as int,
                    self.components@[c].vertical_sampling as int,
                    planes.max_h as int,
                    planes.max_v as int,
                )] by {
                    if k < i {
                        assert(k * 3 + c < i * 3) by (nonlinear_arith) requires k < i, c < 3;
                        assert(output@[k * 3 + c] == before[k * 3 + c]);
                    }
                }
            }
            i = i + 1;
        }
        output
    }
}

/// A decoded JPEG image: 8-bit gray or RGB samples.
pub struct DecodedJpeg<'a> {
    pub width: u32,
    pub height: u32,
    pub color_type: ColorType,
    pub bit_depth: BitDepth,
    pub data: SampleStorage<'a, u8>,
}

impl<'a> DecodedJpeg<'a> {
    #[inline]
    pub fn width(&self) -> (r: u32)
        ensures
            r == self.width,
    {
        self.width
    }

    #[inline]
    pub fn height(&self) -> (r: u32)
        ensures
            r == self.height,
    {
        self.height
    }

    #[inline]
    pub fn color_type(&self) -> (r: ColorType)
        ensures
            r == self.color_type,
    {
        self.color_type
    }

    /// Always 8 bits: baseline JPEG stores 8-bit samples.
    #[inline]
    pub fn bit_depth(&self) -> (r: BitDepth)
        ensures
            r == BitDepth::U8,
    {
        BitDepth::U8
    }
}

} // verus!
