use vstd::prelude::*;
use crate::output::{Output, Rect, LOGICAL_LIMIT};
use crate::snap::{all_wf, rects_of, small_rect};

verus! {

/// Logical width assumed for the first output of an empty arrangement.
pub const DEFAULT_FIRST_WIDTH: i64 = 1920;

/// Height used for vertical centering when there is no output.
pub const DEFAULT_MAX_HEIGHT: i64 = 1080;

/// Cap on the summed logical width.
pub const WIDTH_SUM_CAP: i64 = 0x100_0000_0000;

/// Lower bounds of the world span, in half pixels (4000 and 3000).
pub const SPAN_X_FLOOR2: u64 = 8000;
pub const SPAN_Y_FLOOR2: u64 = 6000;

/// Fits the arrangement into a drawing surface. The canvas scale factor is
/// the exact fraction `num / den`; the output drawn first is centered
/// horizontally and the tallest extent vertically.
#[derive(Clone, Copy, Debug, PartialEq, Eq, Structural)]
pub struct Projection {
    pub num: u64,
    pub den: u64,
    pub surface_w: u32,
    pub surface_h: u32,
    pub first_w: i64,
    pub max_h: i64,
}

/// Sum of the widths of the first `n` rectangles.
pub open spec fn sum_w(rects: Seq<Rect>, n: int) -> int
    decreases n,
{
    if n <= 0 {
        0
    } else {
        sum_w(rects, n - 1) + rects[n - 1].w
    }
}

/// Largest height of the first `n` rectangles (0 for none).
pub open spec fn tallest(rects: Seq<Rect>, n: int) -> int
    decreases n,
{
    if n <= 0 {
        0
    } else {
        let m = tallest(rects, n - 1);
        if rects[n - 1].h > m {
            rects[n - 1].h as int
        } else {
            m
        }
    }
}

/// The tallest logical height, or the default for an empty arrangement.
pub open spec fn height_extent(rects: Seq<Rect>) -> int {
    if rects.len() == 0 {
        DEFAULT_MAX_HEIGHT as int
    } else {
        tallest(rects, rects.len() as int)
    }
}

pub open spec fn min(a: int, b: int) -> int {
    if a < b {
        a
    } else {
        b
    }
}

pub open spec fn max(a: int, b: int) -> int {
    if a > b {
        a
    } else {
        b
    }
}

/// Twice the horizontal world span: `max(1.5 * total width, 4000)`.
pub open spec fn span_x2(rects: Seq<Rect>) -> int {
    max(3 * min(sum_w(rects, rects.len() as int), WIDTH_SUM_CAP as int), SPAN_X_FLOOR2 as int)
}

/// Twice the vertical world span: `max(2.5 * tallest height, 3000)`.
pub open spec fn span_y2(rects: Seq<Rect>) -> int {
    max(5 * height_extent(rects), SPAN_Y_FLOOR2 as int)
}

/// The horizontal ratio `w / span_x` is the smaller one.
pub open spec fn fits_by_width(rects: Seq<Rect>, w: int, h: int) -> bool {
    w * span_y2(rects) <= h * span_x2(rects)
}

/// Numerator of the scale factor: `min(w / span_x, h / span_y)`.
pub open spec fn scale_num(rects: Seq<Rect>, w: int, h: int) -> int {
    if fits_by_width(rects, w, h) {
        2 * w
    } else {
        2 * h
    }
}

/// Denominator of the scale factor.
pub open spec fn scale_den(rects: Seq<Rect>, w: int, h: int) -> int {
    if fits_by_width(rects, w, h) {
        span_x2(rects)
    } else {
        span_y2(rects)
    }
}

pub open spec fn first_width(rects: Seq<Rect>) -> int {
    if rects.len() > 0 {
        rects[0].w as int
    } else {
        DEFAULT_FIRST_WIDTH as int
    }
}

/// The projection of an arrangement onto a `w` x `h` surface.
pub open spec fn projection_of(rects: Seq<Rect>, w: u32, h: u32) -> Projection {
    Projection {
        num: scale_num(rects, w as int, h as int) as u64,
        den: scale_den(rects, w as int, h as int) as u64,
        surface_w: w,
        surface_h: h,
        first_w: first_width(rects) as i64,
        max_h: height_extent(rects) as i64,
    }
}

impl Projection {
    pub open spec fn wf(&self) -> bool {
        &&& self.num <= 0x2_0000_0000
        &&& 0 < self.den <= 0x800_0000_0000
        &&& 0 <= self.first_w < LOGICAL_LIMIT
        &&& 0 <= self.max_h < LOGICAL_LIMIT
    }

    /// Common denominator of every surface coordinate: `2 * den`.
    pub open spec fn unit(&self) -> int {
        2 * self.den
    }

    /// Left edge of a rectangle on the surface, times `unit()`.
    pub open spec fn left_of(&self, r: Rect) -> int {
        2 * r.x * self.num + self.surface_w * self.den - self.first_w * self.num
    }

    /// Top edge of a rectangle on the surface, times `unit()`.
    pub open spec fn top_of(&self, r: Rect) -> int {
        2 * r.y * self.num + self.surface_h * self.den - self.max_h * self.num
    }

    /// The surface point `(px, py)` lies in the projected rectangle (left and
    /// top edges included, right and bottom excluded).
    pub open spec fn contains_spec(&self, r: Rect, px: int, py: int) -> bool {
        &&& self.left_of(r) <= px * self.unit() < self.left_of(r) + 2 * r.w * self.num
        &&& self.top_of(r) <= py * self.unit() < self.top_of(r) + 2 * r.h * self.num
    }
}

/// Index of the last rectangle among the first `n` that holds the point.
pub open spec fn last_hit(p: Projection, rects: Seq<Rect>, px: int, py: int, n: int) -> Option<usize>
    decreases n,
{
    if n <= 0 {
        None
    } else if p.contains_spec(rects[n - 1], px, py) {
        Some((n - 1) as usize)
    } else {
        last_hit(p, rects, px, py, n - 1)
    }
}

/// An empty arrangement never yields a zero denominator, and on a non-empty
/// surface its scale factor is positive.
pub proof fn lemma_empty_layout_positive(w: u32, h: u32)
    ensures
        projection_of(Seq::<Rect>::empty(), w, h).den > 0,
        w > 0 && h > 0 ==> projection_of(Seq::<Rect>::empty(), w, h).num > 0,
{
    let rects = Seq::<Rect>::empty();
    assert(sum_w(rects, 0) == 0);
}

proof fn lemma_mul_bound(a: int, b: int, ab: int, bb: int)
    requires
        -ab <= a <= ab,
        0 <= b <= bb,
    ensures
        -(ab * bb) <= a * b <= ab * bb,
{
    assert(-(ab * bb) <= a * b <= ab * bb) by (nonlinear_arith)
        requires
            -ab <= a <= ab,
            0 <= b <= bb,
    ;
}

/// Computes the scale factor and centering of an arrangement on a surface of
/// `width` x `height` pixels. The denominator is never zero, and on a
/// non-empty surface the scale factor is positive.
pub fn calculate_layout(outputs: &Vec<Output>, width: u32, height: u32) -> (p: Projection)
    requires
        all_wf(outputs@),
    ensures
        p == projection_of(rects_of(outputs@), width, height),
        p.wf(),
        p.den > 0,
        width > 0 && height > 0 ==> p.num > 0,
{
    let ghost rects = rects_of(outputs@);
    let mut total: i64 = 0;
    let mut tall: i64 = 0;
    let mut i: usize = 0;
    while i < outputs.len()
        invariant
            all_wf(outputs@),
            rects == rects_of(outputs@),
            0 <= i <= outputs.len(),
            total == min(sum_w(rects, i as int), WIDTH_SUM_CAP as int),
            tall == tallest(rects, i as int),
            0 <= total <= WIDTH_SUM_CAP,
            0 <= tall < LOGICAL_LIMIT,
            forall|j: int| 0 <= j < i ==> rects[j].w >= 0,
        decreases outputs.len() - i,
    {
        let r = outputs[i].rect();
        assert(r == rects[i as int]);
        proof {
            assert(sum_w(rects, i as int) >= 0) by {
                lemma_sum_non_negative(rects, i as int);
            }
        }
        total = if total + r.w > WIDTH_SUM_CAP { WIDTH_SUM_CAP } else { total + r.w };
        if r.h > tall {
            tall = r.h;
        }
        i = i + 1;
    }
    let extent: i64 = if outputs.len() == 0 { DEFAULT_MAX_HEIGHT } else { tall };
    let sx2: u64 = if 3 * (total as u64) > SPAN_X_FLOOR2 { 3 * (total as u64) } else { SPAN_X_FLOOR2 };
    let sy2: u64 = if 5 * (extent as u64) > SPAN_Y_FLOOR2 { 5 * (extent as u64) } else { SPAN_Y_FLOOR2 };
    proof {
        lemma_mul_bound(width as int, sy2 as int, 0x1_0000_0000, 0x400_0000_0000);
        lemma_mul_bound(height as int, sx2 as int, 0x1_0000_0000, 0x400_0000_0000);
    }
    let by_width = (width as u128) * (sy2 as u128) <= (height as u128) * (sx2 as u128);
    let (num, den) = if by_width {
        (2 * (width as u64), sx2)
    } else {
        (2 * (height as u64), sy2)
    };
    let first_w = if outputs.len() > 0 {
        outputs[0].rect().w
    } else {
        DEFAULT_FIRST_WIDTH
    };
    Projection { num, den, surface_w: width, surface_h: height, first_w, max_h: extent }
}

proof fn lemma_sum_non_negative(rects: Seq<Rect>, n: int)
    requires
        0 <= n <= rects.len(),
        forall|j: int| 0 <= j < n ==> rects[j].w >= 0,
    ensures
        sum_w(rects, n) >= 0,
    decreases n,
{
    if n > 0 {
        lemma_sum_non_negative(rects, n - 1);
    }
}

/// A projected rectangle on the surface; every field is a multiple of
/// `1 / unit` surface pixels.
#[derive(Clone, Copy, Debug, PartialEq, Eq, Structural)]
pub struct Scaled {
    pub left: i128,
    pub top: i128,
    pub width: i128,
    pub height: i128,
    pub unit: i128,
}

/// Where the logical rectangle `r` lands on the surface.
pub fn project(p: &Projection, r: Rect) -> (s: Scaled)
    requires
        p.wf(),
        small_rect(r),
    ensures
        s.left == p.left_of(r),
        s.top == p.top_of(r),
        s.width == 2 * r.w * p.num,
        s.height == 2 * r.h * p.num,
        s.unit == p.unit(),
        -0x4000_0000_0000_0000_0000 <= s.left <= 0x4000_0000_0000_0000_0000,
        -0x4000_0000_0000_0000_0000 <= s.top <= 0x4000_0000_0000_0000_0000,
        0 <= s.width <= 0x4000_0000_0000_0000_0000,
        0 <= s.height <= 0x4000_0000_0000_0000_0000,
        0 < s.unit <= 0x1000_0000_0000,
{
    let num = p.num as i128;
    let den = p.den as i128;
    proof {
        lemma_mul_bound(r.x as int, num as int, 0x8000_0000, 0x2_0000_0000);
        lemma_mul_bound(r.y as int, num as int, 0x8000_0000, 0x2_0000_0000);
        lemma_mul_bound(p.surface_w as int, den as int, 0x1_0000_0000, 0x800_0000_0000);
        lemma_mul_bound(p.surface_h as int, den as int, 0x1_0000_0000, 0x800_0000_0000);
        lemma_mul_bound(p.first_w as int, num as int, LOGICAL_LIMIT as int, 0x2_0000_0000);
        lemma_mul_bound(p.max_h as int, num as int, LOGICAL_LIMIT as int, 0x2_0000_0000);
        lemma_mul_bound(r.w as int, num as int, LOGICAL_LIMIT as int, 0x2_0000_0000);
        lemma_mul_bound(r.h as int, num as int, LOGICAL_LIMIT as int, 0x2_0000_0000);
    }
    let left = 2 * ((r.x as i128) * num) + (p.surface_w as i128) * den - (p.first_w as i128) * num;
    let top = 2 * ((r.y as i128) * num) + (p.surface_h as i128) * den - (p.max_h as i128) * num;
    let width = 2 * ((r.w as i128) * num);
    let height = 2 * ((r.h as i128) * num);
    proof {
        assert(left == p.left_of(r)) by (nonlinear_arith)
            requires
                left == 2 * (r.x * num) + p.surface_w * den - p.first_w * num,
                num == p.num,
                den == p.den,
        ;
        assert(top == p.top_of(r)) by (nonlinear_arith)
            requires
                top == 2 * (r.y * num) + p.surface_h * den - p.max_h * num,
                num == p.num,
                den == p.den,
        ;
        assert(width == 2 * r.w * p.num) by (nonlinear_arith)
            requires
                width == 2 * (r.w * num),
                num == p.num,
        ;
        assert(height == 2 * r.h * p.num) by (nonlinear_arith)
            requires
                height == 2 * (r.h * num),
                num == p.num,
        ;
    }
    Scaled { left, top, width, height, unit: 2 * den }
}

/// Whether the surface point `(px, py)` lies in the projection of `r`.
pub fn contains(p: &Projection, r: Rect, px: i32, py: i32) -> (b: bool)
    requires
        p.wf(),
        small_rect(r),
    ensures
        b == p.contains_spec(r, px as int, py as int),
{
    let s = project(p, r);
    proof {
        lemma_mul_bound(px as int, s.unit as int, 0x8000_0000, 0x1000_0000_0000);
        lemma_mul_bound(py as int, s.unit as int, 0x8000_0000, 0x1000_0000_0000);
    }
    let qx = (px as i128) * s.unit;
    let qy = (py as i128) * s.unit;
    s.left <= qx && qx < s.left + s.width && s.top <= qy && qy < s.top + s.height
}

/// The output under the surface point `(px, py)`; where rectangles overlap,
/// the one that comes last in the arrangement.
pub fn output_at(outputs: &Vec<Output>, p: &Projection, px: i32, py: i32) -> (r: Option<usize>)
    requires
        all_wf(outputs@),
        p.wf(),
    ensures
        r == last_hit(*p, rects_of(outputs@), px as int, py as int, outputs@.len() as int),
        r matches Some(i) ==> i < outputs@.len(),
{
    let ghost rects = rects_of(outputs@);
    let mut found: Option<usize> = None;
    let mut i: usize = 0;
    while i < outputs.len()
        invariant
            all_wf(outputs@),
            p.wf(),
            rects == rects_of(outputs@),
            0 <= i <= outputs.len(),
            found == last_hit(*p, rects, px as int, py as int, i as int),
            found matches Some(k) ==> k < i,
        decreases outputs.len() - i,
    {
        let r = outputs[i].rect();
        assert(r == rects[i as int]);
        if contains(p, r, px, py) {
            found = Some(i);
        }
        i = i + 1;
    }
    found
}

} // verus!
