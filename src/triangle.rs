use vstd::prelude::*;

verus! {

/// Screen coordinates are fixed-point: this many units per pixel. The centre
/// of pixel `p` lies at `SUBPIXEL * p + SUBPIXEL / 2`.
pub const SUBPIXEL: i64 = 16;

/// A vertex after the viewport transform: its position in sub-pixel units
/// and its depth key (smaller is nearer).
#[derive(Clone, Copy, Debug, PartialEq, Eq, Structural)]
pub struct ScreenVertex {
    pub x: i32,
    pub y: i32,
    pub depth: u32,
}

/// A covered pixel with its interpolated depth and its barycentric weights.
/// The weights are non-negative and sum to `area`; the attribute of vertex
/// `i` contributes `w_i / area`.
#[derive(Clone, Copy, Debug, PartialEq, Eq, Structural)]
pub struct Fragment {
    pub x: usize,
    pub y: usize,
    pub depth: u32,
    pub w0: i128,
    pub w1: i128,
    pub w2: i128,
    pub area: i128,
}

/// Twice the signed area of (a, b, p): positive when p lies to the left of a->b
/// in a y-up frame.
pub open spec fn edge(ax: int, ay: int, bx: int, by: int, px: int, py: int) -> int {
    (bx - ax) * (py - ay) - (by - ay) * (px - ax)
}

pub open spec fn center(p: int) -> int {
    16 * p + 8
}

pub open spec fn signed_area(v0: ScreenVertex, v1: ScreenVertex, v2: ScreenVertex) -> int {
    edge(v0.x as int, v0.y as int, v1.x as int, v1.y as int, v2.x as int, v2.y as int)
}

pub open spec fn weight0(v0: ScreenVertex, v1: ScreenVertex, v2: ScreenVertex, px: int, py: int) -> int {
    edge(v1.x as int, v1.y as int, v2.x as int, v2.y as int, center(px), center(py))
}

pub open spec fn weight1(v0: ScreenVertex, v1: ScreenVertex, v2: ScreenVertex, px: int, py: int) -> int {
    edge(v2.x as int, v2.y as int, v0.x as int, v0.y as int, center(px), center(py))
}

pub open spec fn weight2(v0: ScreenVertex, v1: ScreenVertex, v2: ScreenVertex, px: int, py: int) -> int {
    edge(v0.x as int, v0.y as int, v1.x as int, v1.y as int, center(px), center(py))
}

/// The inside test: the triangle is not degenerate and the three weights of
/// the pixel centre share a sign (zero counts as either).
pub open spec fn covers(v0: ScreenVertex, v1: ScreenVertex, v2: ScreenVertex, px: int, py: int) -> bool {
    let w0 = weight0(v0, v1, v2, px, py);
    let w1 = weight1(v0, v1, v2, px, py);
    let w2 = weight2(v0, v1, v2, px, py);
    &&& signed_area(v0, v1, v2) != 0
    &&& ((w0 >= 0 && w1 >= 0 && w2 >= 0) || (w0 <= 0 && w1 <= 0 && w2 <= 0))
}

pub open spec fn orientation(v0: ScreenVertex, v1: ScreenVertex, v2: ScreenVertex) -> int {
    if signed_area(v0, v1, v2) >= 0 {
        1
    } else {
        -1
    }
}

/// The fragment of a covered pixel: weights turned to the triangle's
/// orientation, depth interpolated linearly in screen space.
pub open spec fn fragment_at(v0: ScreenVertex, v1: ScreenVertex, v2: ScreenVertex, px: int, py: int) -> Fragment {
    let s = orientation(v0, v1, v2);
    let n0 = s * weight0(v0, v1, v2, px, py);
    let n1 = s * weight1(v0, v1, v2, px, py);
    let n2 = s * weight2(v0, v1, v2, px, py);
    let a = s * signed_area(v0, v1, v2);
    Fragment {
        x: px as usize,
        y: py as usize,
        depth: ((n0 * v0.depth + n1 * v1.depth + n2 * v2.depth) / a) as u32,
        w0: n0 as i128,
        w1: n1 as i128,
        w2: n2 as i128,
        area: a as i128,
    }
}

/// Row-major scan order of pixels.
pub open spec fn scan_before(ax: int, ay: int, bx: int, by: int) -> bool {
    ay < by || (ay == by && ax < bx)
}

pub open spec fn has_pixel(s: Seq<Fragment>, px: int, py: int) -> bool {
    exists|k: int| 0 <= k < s.len() && s[k].x == px && s[k].y == py
}

/// What the rasterizer emits: each fragment a covered pixel of the
/// `width` x `height` framebuffer, in scan order, and every such pixel once.
pub open spec fn rasterized(
    v0: ScreenVertex,
    v1: ScreenVertex,
    v2: ScreenVertex,
    width: nat,
    height: nat,
    s: Seq<Fragment>,
) -> bool {
    &&& forall|k: int|
        0 <= k < s.len() ==> {
            &&& s[k].x < width
            &&& s[k].y < height
            &&& covers(v0, v1, v2, s[k].x as int, s[k].y as int)
            &&& s[k] == fragment_at(v0, v1, v2, s[k].x as int, s[k].y as int)
        }
    &&& forall|i: int, j: int|
        0 <= i < j < s.len() ==> scan_before(s[i].x as int, s[i].y as int, s[j].x as int, s[j].y as int)
    &&& forall|px: int, py: int|
        0 <= px < width && 0 <= py < height && covers(v0, v1, v2, px, py) ==> has_pixel(s, px, py)
}

proof fn lemma_mul_bound(a: int, b: int, ka: int, kb: int)
    requires
        -ka <= a <= ka,
        -kb <= b <= kb,
    ensures
        -(ka * kb) <= a * b <= ka * kb,
{
    assert(-(ka * kb) <= a * b <= ka * kb) by (nonlinear_arith)
        requires
            -ka <= a <= ka,
            -kb <= b <= kb,
    ;
}

/// The three weights sum to the signed area.
proof fn lemma_weights_sum(v0: ScreenVertex, v1: ScreenVertex, v2: ScreenVertex, px: int, py: int)
    ensures
        weight0(v0, v1, v2, px, py) + weight1(v0, v1, v2, px, py) + weight2(v0, v1, v2, px, py)
            == signed_area(v0, v1, v2),
{
    let (cx, cy) = (center(px), center(py));
    let (a0, b0) = (v0.x - cx, v0.y - cy);
    let (a1, b1) = (v1.x - cx, v1.y - cy);
    let (a2, b2) = (v2.x - cx, v2.y - cy);
    lemma_edge_relative(v1.x as int, v1.y as int, v2.x as int, v2.y as int, cx, cy);
    lemma_edge_relative(v2.x as int, v2.y as int, v0.x as int, v0.y as int, cx, cy);
    lemma_edge_relative(v0.x as int, v0.y as int, v1.x as int, v1.y as int, cx, cy);
    let area = signed_area(v0, v1, v2);
    assert(area == (a1 - a0) * (b2 - b0) - (b1 - b0) * (a2 - a0));
    assert((a1 * b2 - a2 * b1) + (a2 * b0 - a0 * b2) + (a0 * b1 - a1 * b0) == (a1 - a0) * (b2 - b0) - (b1 - b0) * (
    a2 - a0)) by (nonlinear_arith);
}

/// The weighted vertices give back the pixel centre, scaled by the area.
proof fn lemma_weights_reproduce(v0: ScreenVertex, v1: ScreenVertex, v2: ScreenVertex, px: int, py: int)
    ensures
        weight0(v0, v1, v2, px, py) * v0.x + weight1(v0, v1, v2, px, py) * v1.x + weight2(v0, v1, v2, px, py) * v2.x
            == signed_area(v0, v1, v2) * center(px),
        weight0(v0, v1, v2, px, py) * v0.y + weight1(v0, v1, v2, px, py) * v1.y + weight2(v0, v1, v2, px, py) * v2.y
            == signed_area(v0, v1, v2) * center(py),
{
    lemma_weights_sum(v0, v1, v2, px, py);
    let (cx, cy) = (center(px), center(py));
    let (a0, b0) = (v0.x - cx, v0.y - cy);
    let (a1, b1) = (v1.x - cx, v1.y - cy);
    let (a2, b2) = (v2.x - cx, v2.y - cy);
    let w0 = weight0(v0, v1, v2, px, py);
    let w1 = weight1(v0, v1, v2, px, py);
    let w2 = weight2(v0, v1, v2, px, py);
    lemma_edge_relative(v1.x as int, v1.y as int, v2.x as int, v2.y as int, cx, cy);
    lemma_edge_relative(v2.x as int, v2.y as int, v0.x as int, v0.y as int, cx, cy);
    lemma_edge_relative(v0.x as int, v0.y as int, v1.x as int, v1.y as int, cx, cy);
    assert(w0 * a0 + w1 * a1 + w2 * a2 == 0) by (nonlinear_arith)
        requires
            w0 == a1 * b2 - a2 * b1,
            w1 == a2 * b0 - a0 * b2,
            w2 == a0 * b1 - a1 * b0,
    ;
    assert(w0 * b0 + w1 * b1 + w2 * b2 == 0) by (nonlinear_arith)
        requires
            w0 == a1 * b2 - a2 * b1,
            w1 == a2 * b0 - a0 * b2,
            w2 == a0 * b1 - a1 * b0,
    ;
    lemma_shifted_sum(w0, w1, w2, v0.x as int, v1.x as int, v2.x as int, a0, a1, a2, cx);
    lemma_shifted_sum(w0, w1, w2, v0.y as int, v1.y as int, v2.y as int, b0, b1, b2, cy);
}

proof fn lemma_shifted_sum(w0: int, w1: int, w2: int, x0: int, x1: int, x2: int, a0: int, a1: int, a2: int, c: int)
    requires
        x0 == a0 + c,
        x1 == a1 + c,
        x2 == a2 + c,
        w0 * a0 + w1 * a1 + w2 * a2 == 0,
    ensures
        w0 * x0 + w1 * x1 + w2 * x2 == (w0 + w1 + w2) * c,
{
    vstd::arithmetic::mul::lemma_mul_is_distributive_add(w0, a0, c);
    vstd::arithmetic::mul::lemma_mul_is_distributive_add(w1, a1, c);
    vstd::arithmetic::mul::lemma_mul_is_distributive_add(w2, a2, c);
    vstd::arithmetic::mul::lemma_mul_is_distributive_add_other_way(c, w0, w1);
    vstd::arithmetic::mul::lemma_mul_is_distributive_add_other_way(c, w0 + w1, w2);
}

/// An edge function seen from the point itself: the cross product of the
/// two vertices taken relative to it.
proof fn lemma_edge_relative(ax: int, ay: int, bx: int, by: int, px: int, py: int)
    ensures
        edge(ax, ay, bx, by, px, py) == (ax - px) * (by - py) - (bx - px) * (ay - py),
{
    assert(edge(ax, ay, bx, by, px, py) == (ax - px) * (by - py) - (bx - px) * (ay - py)) by (nonlinear_arith);
}

/// A weighted average with non-negative weights lies between the smallest
/// and the largest value.
proof fn lemma_convex(n0: int, n1: int, n2: int, a: int, z0: int, z1: int, z2: int, lo: int, hi: int)
    requires
        n0 >= 0,
        n1 >= 0,
        n2 >= 0,
        n0 + n1 + n2 == a,
        lo <= z0 <= hi,
        lo <= z1 <= hi,
        lo <= z2 <= hi,
    ensures
        a * lo <= n0 * z0 + n1 * z1 + n2 * z2 <= a * hi,
{
    assert(a * lo <= n0 * z0 + n1 * z1 + n2 * z2 <= a * hi) by (nonlinear_arith)
        requires
            n0 >= 0,
            n1 >= 0,
            n2 >= 0,
            n0 + n1 + n2 == a,
            lo <= z0 <= hi,
            lo <= z1 <= hi,
            lo <= z2 <= hi,
    ;
}

pub open spec fn min3(a: int, b: int, c: int) -> int {
    if a <= b && a <= c {
        a
    } else if b <= c {
        b
    } else {
        c
    }
}

pub open spec fn max3(a: int, b: int, c: int) -> int {
    if a >= b && a >= c {
        a
    } else if b >= c {
        b
    } else {
        c
    }
}

/// A covered pixel's centre lies in the bounding box of the vertices.
proof fn lemma_covered_in_box(v0: ScreenVertex, v1: ScreenVertex, v2: ScreenVertex, px: int, py: int)
    requires
        covers(v0, v1, v2, px, py),
    ensures
        min3(v0.x as int, v1.x as int, v2.x as int) <= center(px) <= max3(v0.x as int, v1.x as int, v2.x as int),
        min3(v0.y as int, v1.y as int, v2.y as int) <= center(py) <= max3(v0.y as int, v1.y as int, v2.y as int),
{
    lemma_weights_sum(v0, v1, v2, px, py);
    lemma_weights_reproduce(v0, v1, v2, px, py);
    lemma_orientation_weights(v0, v1, v2, px, py);
    let w0 = weight0(v0, v1, v2, px, py);
    let w1 = weight1(v0, v1, v2, px, py);
    let w2 = weight2(v0, v1, v2, px, py);
    let a = signed_area(v0, v1, v2);
    if a > 0 {
        lemma_box_1d(w0, w1, w2, a, v0.x as int, v1.x as int, v2.x as int, center(px));
        lemma_box_1d(w0, w1, w2, a, v0.y as int, v1.y as int, v2.y as int, center(py));
    } else {
        lemma_negated_sum(w0, w1, w2, a, v0.x as int, v1.x as int, v2.x as int, center(px));
        lemma_negated_sum(w0, w1, w2, a, v0.y as int, v1.y as int, v2.y as int, center(py));
        lemma_box_1d(-w0, -w1, -w2, -a, v0.x as int, v1.x as int, v2.x as int, center(px));
        lemma_box_1d(-w0, -w1, -w2, -a, v0.y as int, v1.y as int, v2.y as int, center(py));
    }
}

proof fn lemma_negated_sum(w0: int, w1: int, w2: int, a: int, x0: int, x1: int, x2: int, c: int)
    requires
        w0 * x0 + w1 * x1 + w2 * x2 == a * c,
    ensures
        (-w0) * x0 + (-w1) * x1 + (-w2) * x2 == (-a) * c,
{
    vstd::arithmetic::mul::lemma_mul_unary_negation(w0, x0);
    vstd::arithmetic::mul::lemma_mul_unary_negation(w1, x1);
    vstd::arithmetic::mul::lemma_mul_unary_negation(w2, x2);
    vstd::arithmetic::mul::lemma_mul_unary_negation(a, c);
}

/// A point reproduced by non-negative weights lies between the extremes.
proof fn lemma_box_1d(n0: int, n1: int, n2: int, a: int, x0: int, x1: int, x2: int, c: int)
    requires
        n0 >= 0,
        n1 >= 0,
        n2 >= 0,
        n0 + n1 + n2 == a,
        a > 0,
        n0 * x0 + n1 * x1 + n2 * x2 == a * c,
    ensures
        min3(x0, x1, x2) <= c <= max3(x0, x1, x2),
{
    let lo = min3(x0, x1, x2);
    let hi = max3(x0, x1, x2);
    lemma_convex(n0, n1, n2, a, x0, x1, x2, lo, hi);
    assert(lo <= c <= hi) by (nonlinear_arith)
        requires
            a > 0,
            a * lo <= a * c <= a * hi,
    ;
}

/// Turned to the triangle's orientation, the weights of a covered pixel are
/// non-negative and sum to a positive area.
proof fn lemma_orientation_weights(v0: ScreenVertex, v1: ScreenVertex, v2: ScreenVertex, px: int, py: int)
    requires
        covers(v0, v1, v2, px, py),
    ensures
        orientation(v0, v1, v2) * weight0(v0, v1, v2, px, py) >= 0,
        orientation(v0, v1, v2) * weight1(v0, v1, v2, px, py) >= 0,
        orientation(v0, v1, v2) * weight2(v0, v1, v2, px, py) >= 0,
        orientation(v0, v1, v2) * signed_area(v0, v1, v2) > 0,
        orientation(v0, v1, v2) * weight0(v0, v1, v2, px, py) + orientation(v0, v1, v2) * weight1(
            v0,
            v1,
            v2,
            px,
            py,
        ) + orientation(v0, v1, v2) * weight2(v0, v1, v2, px, py) == orientation(v0, v1, v2) * signed_area(
            v0,
            v1,
            v2,
        ),
{
    lemma_weights_sum(v0, v1, v2, px, py);
}

const COORD_BOUND: i64 = 0x2_0000_0000;

fn edge_fn(ax: i64, ay: i64, bx: i64, by: i64, px: i64, py: i64) -> (e: i128)
    requires
        -COORD_BOUND <= ax <= COORD_BOUND,
        -COORD_BOUND <= ay <= COORD_BOUND,
        -COORD_BOUND <= bx <= COORD_BOUND,
        -COORD_BOUND <= by <= COORD_BOUND,
        -COORD_BOUND <= px <= COORD_BOUND,
        -COORD_BOUND <= py <= COORD_BOUND,
    ensures
        e == edge(ax as int, ay as int, bx as int, by as int, px as int, py as int),
        -0x40_0000_0000_0000_0000 <= e <= 0x40_0000_0000_0000_0000,
{
    let dxb = (bx - ax) as i128;
    let dyp = (py - ay) as i128;
    let dyb = (by - ay) as i128;
    let dxp = (px - ax) as i128;
    proof {
        lemma_mul_bound(dxb as int, dyp as int, 0x4_0000_0000, 0x4_0000_0000);
        lemma_mul_bound(dyb as int, dxp as int, 0x4_0000_0000, 0x4_0000_0000);
    }
    dxb * dyp - dyb * dxp
}

fn min3_i32(a: i32, b: i32, c: i32) -> (m: i32)
    ensures
        m == min3(a as int, b as int, c as int),
{
    if a <= b && a <= c {
        a
    } else if b <= c {
        b
    } else {
        c
    }
}

fn max3_i32(a: i32, b: i32, c: i32) -> (m: i32)
    ensures
        m == max3(a as int, b as int, c as int),
{
    if a >= b && a >= c {
        a
    } else if b >= c {
        b
    } else {
        c
    }
}

/// The pixels whose centres may fall in [lo, hi], cut to [0, limit).
fn pixel_span(lo: i32, hi: i32, limit: usize) -> (r: (usize, usize))
    requires
        lo <= hi,
    ensures
        r.1 <= limit,
        forall|p: int| 0 <= p < limit && lo <= #[trigger] center(p) <= hi ==> r.0 <= p < r.1,
        forall|p: int| r.0 <= p < r.1 ==> lo - 8 <= #[trigger] center(p) <= hi + 8,
{
    let first: usize = if lo <= 0 {
        0
    } else {
        (lo as i64 / SUBPIXEL) as usize
    };
    let end: usize = if hi < 0 {
        0
    } else {
        let e = (hi as i64 / SUBPIXEL) as usize + 1;
        if e < limit {
            e
        } else {
            limit
        }
    };
    (first, end)
}

/// The fragment of a covered pixel.
fn make_fragment(v0: &ScreenVertex, v1: &ScreenVertex, v2: &ScreenVertex, px: usize, py: usize, w0: i128, w1: i128, w2: i128, a: i128) -> (f: Fragment)
    requires
        covers(*v0, *v1, *v2, px as int, py as int),
        w0 == weight0(*v0, *v1, *v2, px as int, py as int),
        w1 == weight1(*v0, *v1, *v2, px as int, py as int),
        w2 == weight2(*v0, *v1, *v2, px as int, py as int),
        a == signed_area(*v0, *v1, *v2),
        -0x40_0000_0000_0000_0000 <= w0 <= 0x40_0000_0000_0000_0000,
        -0x40_0000_0000_0000_0000 <= w1 <= 0x40_0000_0000_0000_0000,
        -0x40_0000_0000_0000_0000 <= w2 <= 0x40_0000_0000_0000_0000,
        -0x40_0000_0000_0000_0000 <= a <= 0x40_0000_0000_0000_0000,
    ensures
        f == fragment_at(*v0, *v1, *v2, px as int, py as int),
{
    proof {
        lemma_orientation_weights(*v0, *v1, *v2, px as int, py as int);
    }
    let (n0, n1, n2, na) = if a >= 0 {
        (w0, w1, w2, a)
    } else {
        (-w0, -w1, -w2, -a)
    };
    let z0 = v0.depth as i128;
    let z1 = v1.depth as i128;
    let z2 = v2.depth as i128;
    proof {
        lemma_convex(n0 as int, n1 as int, n2 as int, na as int, z0 as int, z1 as int, z2 as int, 0, 0xffff_ffff);
        lemma_mul_bound(n0 as int, z0 as int, 0x40_0000_0000_0000_0000, 0x1_0000_0000);
        lemma_mul_bound(n1 as int, z1 as int, 0x40_0000_0000_0000_0000, 0x1_0000_0000);
        lemma_mul_bound(n2 as int, z2 as int, 0x40_0000_0000_0000_0000, 0x1_0000_0000);
    }
    let num = n0 * z0 + n1 * z1 + n2 * z2;
    let q = num / na;
    proof {
        assert(0 <= num / na <= 0xffff_ffff) by (nonlinear_arith)
            requires
                na > 0,
                0 <= num <= na * 0xffff_ffff,
        ;
    }
    Fragment { x: px, y: py, depth: q as u32, w0: n0, w1: n1, w2: n2, area: na }
}

proof fn lemma_push_keeps_pixel(s: Seq<Fragment>, f: Fragment, px: int, py: int)
    requires
        has_pixel(s, px, py),
    ensures
        has_pixel(s.push(f), px, py),
{
    let k = choose|k: int| 0 <= k < s.len() && s[k].x == px && s[k].y == py;
    assert(s.push(f)[k] == s[k]);
}

/// Appends the fragments of row `py`, columns `x_lo..x_hi`, in order.
fn scan_row(
    v0: &ScreenVertex,
    v1: &ScreenVertex,
    v2: &ScreenVertex,
    a: i128,
    py: usize,
    x_lo: usize,
    x_hi: usize,
    width: usize,
    height: usize,
    out: &mut Vec<Fragment>,
)
    requires
        a == signed_area(*v0, *v1, *v2),
        a != 0,
        -0x40_0000_0000_0000_0000 <= a <= 0x40_0000_0000_0000_0000,
        py < height,
        x_hi <= width,
        forall|p: int| x_lo <= p < x_hi ==> -COORD_BOUND <= #[trigger] center(p) <= COORD_BOUND,
        -COORD_BOUND <= center(py as int) <= COORD_BOUND,
        forall|k: int|
            0 <= k < old(out)@.len() ==> {
                &&& old(out)@[k].x < width
                &&& old(out)@[k].y < py
                &&& covers(*v0, *v1, *v2, old(out)@[k].x as int, old(out)@[k].y as int)
                &&& old(out)@[k] == fragment_at(*v0, *v1, *v2, old(out)@[k].x as int, old(out)@[k].y as int)
            },
        forall|i: int, j: int|
            0 <= i < j < old(out)@.len() ==> scan_before(
                old(out)@[i].x as int,
                old(out)@[i].y as int,
                old(out)@[j].x as int,
                old(out)@[j].y as int,
            ),
    ensures
        forall|k: int|
            0 <= k < final(out)@.len() ==> {
                &&& final(out)@[k].x < width
                &&& final(out)@[k].y <= py
                &&& covers(*v0, *v1, *v2, final(out)@[k].x as int, final(out)@[k].y as int)
                &&& final(out)@[k] == fragment_at(*v0, *v1, *v2, final(out)@[k].x as int, final(out)@[k].y as int)
            },
        forall|i: int, j: int|
            0 <= i < j < final(out)@.len() ==> scan_before(
                final(out)@[i].x as int,
                final(out)@[i].y as int,
                final(out)@[j].x as int,
                final(out)@[j].y as int,
            ),
        forall|qx: int, qy: int| has_pixel(old(out)@, qx, qy) ==> has_pixel(final(out)@, qx, qy),
        forall|qx: int| x_lo <= qx < x_hi && covers(*v0, *v1, *v2, qx, py as int) ==> has_pixel(final(out)@, qx, py as int),
{
    let ghost start = out@;
    let mut px: usize = x_lo;
    while px < x_hi
        invariant
            x_lo <= px || x_hi <= x_lo,
            a == signed_area(*v0, *v1, *v2),
            a != 0,
            -0x40_0000_0000_0000_0000 <= a <= 0x40_0000_0000_0000_0000,
            py < height,
            x_hi <= width,
            forall|p: int| x_lo <= p < x_hi ==> -COORD_BOUND <= #[trigger] center(p) <= COORD_BOUND,
            -COORD_BOUND <= center(py as int) <= COORD_BOUND,
            px >= x_lo,
            forall|k: int|
                0 <= k < out@.len() ==> {
                    &&& out@[k].x < width
                    &&& out@[k].y <= py
                    &&& scan_before(out@[k].x as int, out@[k].y as int, px as int, py as int)
                    &&& covers(*v0, *v1, *v2, out@[k].x as int, out@[k].y as int)
                    &&& out@[k] == fragment_at(*v0, *v1, *v2, out@[k].x as int, out@[k].y as int)
                },
            forall|i: int, j: int|
                0 <= i < j < out@.len() ==> scan_before(
                    out@[i].x as int,
                    out@[i].y as int,
                    out@[j].x as int,
                    out@[j].y as int,
                ),
            forall|qx: int, qy: int| has_pixel(start, qx, qy) ==> has_pixel(out@, qx, qy),
            forall|qx: int| x_lo <= qx < px && covers(*v0, *v1, *v2, qx, py as int) ==> has_pixel(out@, qx, py as int),
        decreases x_hi - px,
    {
        proof {
            assert(-COORD_BOUND <= center(px as int) <= COORD_BOUND);
        }
        let cx: i64 = SUBPIXEL * (px as i64) + SUBPIXEL / 2;
        let cy: i64 = SUBPIXEL * (py as i64) + SUBPIXEL / 2;
        let w0 = edge_fn(v1.x as i64, v1.y as i64, v2.x as i64, v2.y as i64, cx, cy);
        let w1 = edge_fn(v2.x as i64, v2.y as i64, v0.x as i64, v0.y as i64, cx, cy);
        let w2 = edge_fn(v0.x as i64, v0.y as i64, v1.x as i64, v1.y as i64, cx, cy);
        if (w0 >= 0 && w1 >= 0 && w2 >= 0) || (w0 <= 0 && w1 <= 0 && w2 <= 0) {
            let f = make_fragment(v0, v1, v2, px, py, w0, w1, w2, a);
            let ghost before = out@;
            out.push(f);
            proof {
                assert forall|qx: int, qy: int| has_pixel(start, qx, qy) implies has_pixel(out@, qx, qy) by {
                    lemma_push_keeps_pixel(before, f, qx, qy);
                }
                assert forall|qx: int| x_lo <= qx < px + 1 && covers(*v0, *v1, *v2, qx, py as int) implies has_pixel(
                    out@,
                    qx,
                    py as int,
                ) by {
                    if qx < px {
                        lemma_push_keeps_pixel(before, f, qx, py as int);
                    } else {
                        assert(out@[before.len() as int] == f);
                    }
                }
            }
        }
        px = px + 1;
    }
}

/// Rasterizes a triangle given in sub-pixel screen coordinates into the
/// fragments of the covered pixels of a `width` x `height` framebuffer, in
/// row-major order. A degenerate triangle gives none.
pub fn triangle(v0: &ScreenVertex, v1: &ScreenVertex, v2: &ScreenVertex, width: usize, height: usize) -> (r: Vec<
    Fragment,
>)
    ensures
        rasterized(*v0, *v1, *v2, width as nat, height as nat, r@),
        signed_area(*v0, *v1, *v2) == 0 ==> r@.len() == 0,
{
    let mut out: Vec<Fragment> = Vec::new();
    let a = edge_fn(v0.x as i64, v0.y as i64, v1.x as i64, v1.y as i64, v2.x as i64, v2.y as i64);
    if a == 0 {
        return out;
    }
    let (x_lo, x_hi) = pixel_span(min3_i32(v0.x, v1.x, v2.x), max3_i32(v0.x, v1.x, v2.x), width);
    let (y_lo, y_hi) = pixel_span(min3_i32(v0.y, v1.y, v2.y), max3_i32(v0.y, v1.y, v2.y), height);
    proof {
        assert forall|qx: int, qy: int|
            0 <= qx < width && 0 <= qy < y_lo && qy < height && covers(*v0, *v1, *v2, qx, qy) implies has_pixel(out@, qx, qy) by {
            lemma_covered_in_box(*v0, *v1, *v2, qx, qy);
        }
    }
    let mut py: usize = y_lo;
    while py < y_hi
        invariant
            out@.len() > 0 ==> py <= y_hi,
            a == signed_area(*v0, *v1, *v2),
            a != 0,
            -0x40_0000_0000_0000_0000 <= a <= 0x40_0000_0000_0000_0000,
            y_hi <= height,
            x_hi <= width,
            py >= y_lo,
            forall|p: int| x_lo <= p < x_hi ==> -COORD_BOUND <= #[trigger] center(p) <= COORD_BOUND,
            forall|p: int| y_lo <= p < y_hi ==> -COORD_BOUND <= #[trigger] center(p) <= COORD_BOUND,
            forall|p: int|
                0 <= p < width && min3(v0.x as int, v1.x as int, v2.x as int) <= #[trigger] center(p) <= max3(
                    v0.x as int,
                    v1.x as int,
                    v2.x as int,
                ) ==> x_lo <= p < x_hi,
            forall|p: int|
                0 <= p < height && min3(v0.y as int, v1.y as int, v2.y as int) <= #[trigger] center(p) <= max3(
                    v0.y as int,
                    v1.y as int,
                    v2.y as int,
                ) ==> y_lo <= p < y_hi,
            forall|k: int|
                0 <= k < out@.len() ==> {
                    &&& out@[k].x < width
                    &&& out@[k].y < py
                    &&& covers(*v0, *v1, *v2, out@[k].x as int, out@[k].y as int)
                    &&& out@[k] == fragment_at(*v0, *v1, *v2, out@[k].x as int, out@[k].y as int)
                },
            forall|i: int, j: int|
                0 <= i < j < out@.len() ==> scan_before(
                    out@[i].x as int,
                    out@[i].y as int,
                    out@[j].x as int,
                    out@[j].y as int,
                ),
            forall|qx: int, qy: int|
                0 <= qx < width && 0 <= qy < py && qy < height && covers(*v0, *v1, *v2, qx, qy) ==> has_pixel(out@, qx, qy),
        decreases y_hi - py,
    {
        let ghost before = out@;
        scan_row(v0, v1, v2, a, py, x_lo, x_hi, width, height, &mut out);
        proof {
            assert forall|qx: int, qy: int|
                0 <= qx < width && 0 <= qy < py + 1 && qy < height && covers(*v0, *v1, *v2, qx, qy) implies has_pixel(
                out@,
                qx,
                qy,
            ) by {
                if qy < py {
                    assert(has_pixel(before, qx, qy));
                } else {
                    lemma_covered_in_box(*v0, *v1, *v2, qx, qy);
                }
            }
        }
        py = py + 1;
    }
    proof {
        assert forall|px: int, py2: int|
            0 <= px < width && 0 <= py2 < height && covers(*v0, *v1, *v2, px, py2) implies has_pixel(
            out@,
            px,
            py2,
        ) by {
            lemma_covered_in_box(*v0, *v1, *v2, px, py2);
        }
    }
    out
}

/// The triangle moved by whole pixels.
pub open spec fn shifted(v: ScreenVertex, dx: int, dy: int) -> ScreenVertex {
    ScreenVertex { x: (v.x + 16 * dx) as i32, y: (v.y + 16 * dy) as i32, depth: v.depth }
}

pub open spec fn fits_i32(v: int) -> bool {
    i32::MIN <= v <= i32::MAX
}

/// The covered pixels of a `w` x `h` window whose corner pixel is (x0, y0),
/// each numbered row-major from the window's corner.
pub open spec fn window_coverage(
    v0: ScreenVertex,
    v1: ScreenVertex,
    v2: ScreenVertex,
    x0: int,
    y0: int,
    w: nat,
    h: nat,
) -> Set<int> {
    Set::new(|i: int| 0 <= i < w * h && covers(v0, v1, v2, x0 + i % (w as int), y0 + i / (w as int)))
}

/// Row-major numbers of the pixels that a fragment sequence covers.
pub open spec fn pixel_indices(s: Seq<Fragment>, w: nat) -> Seq<int> {
    s.map_values(|f: Fragment| f.y as int * w + f.x as int)
}

/// Moving a triangle and a pixel by the same whole number of pixels keeps
/// the inside test.
pub proof fn lemma_covers_shift(v0: ScreenVertex, v1: ScreenVertex, v2: ScreenVertex, px: int, py: int, dx: int, dy: int)
    requires
        fits_i32(v0.x + 16 * dx),
        fits_i32(v1.x + 16 * dx),
        fits_i32(v2.x + 16 * dx),
        fits_i32(v0.y + 16 * dy),
        fits_i32(v1.y + 16 * dy),
        fits_i32(v2.y + 16 * dy),
    ensures
        covers(shifted(v0, dx, dy), shifted(v1, dx, dy), shifted(v2, dx, dy), px + dx, py + dy) == covers(
            v0,
            v1,
            v2,
            px,
            py,
        ),
        signed_area(shifted(v0, dx, dy), shifted(v1, dx, dy), shifted(v2, dx, dy)) == signed_area(v0, v1, v2),
{
    assert(center(px + dx) == center(px) + 16 * dx);
    assert(center(py + dy) == center(py) + 16 * dy);
}

/// Moving a triangle and the window that it is drawn in by the same whole
/// number of pixels leaves the covered pixels, and so their number, as they
/// were.
pub proof fn lemma_coverage_shift(
    v0: ScreenVertex,
    v1: ScreenVertex,
    v2: ScreenVertex,
    x0: int,
    y0: int,
    w: nat,
    h: nat,
    dx: int,
    dy: int,
)
    requires
        fits_i32(v0.x + 16 * dx),
        fits_i32(v1.x + 16 * dx),
        fits_i32(v2.x + 16 * dx),
        fits_i32(v0.y + 16 * dy),
        fits_i32(v1.y + 16 * dy),
        fits_i32(v2.y + 16 * dy),
    ensures
        window_coverage(shifted(v0, dx, dy), shifted(v1, dx, dy), shifted(v2, dx, dy), x0 + dx, y0 + dy, w, h)
            == window_coverage(v0, v1, v2, x0, y0, w, h),
        window_coverage(shifted(v0, dx, dy), shifted(v1, dx, dy), shifted(v2, dx, dy), x0 + dx, y0 + dy, w, h).len()
            == window_coverage(v0, v1, v2, x0, y0, w, h).len(),
{
    let a = window_coverage(shifted(v0, dx, dy), shifted(v1, dx, dy), shifted(v2, dx, dy), x0 + dx, y0 + dy, w, h);
    let b = window_coverage(v0, v1, v2, x0, y0, w, h);
    assert forall|i: int| a.contains(i) == b.contains(i) by {
        lemma_covers_shift(v0, v1, v2, x0 + i % (w as int), y0 + i / (w as int), dx, dy);
        assert(x0 + dx + i % (w as int) == x0 + i % (w as int) + dx);
        assert(y0 + dy + i / (w as int) == y0 + i / (w as int) + dy);
    }
    assert(a =~= b);
}

/// A degenerate (zero-area) triangle covers no pixel, so the rasterizer
/// emits nothing for it.
pub proof fn lemma_degenerate_is_empty(
    v0: ScreenVertex,
    v1: ScreenVertex,
    v2: ScreenVertex,
    width: nat,
    height: nat,
    s: Seq<Fragment>,
)
    requires
        signed_area(v0, v1, v2) == 0,
        rasterized(v0, v1, v2, width, height, s),
    ensures
        s.len() == 0,
        forall|px: int, py: int| !covers(v0, v1, v2, px, py),
{
    if s.len() > 0 {
        assert(covers(v0, v1, v2, s[0].x as int, s[0].y as int));
    }
}

proof fn lemma_row_major(x: int, y: int, w: int)
    requires
        0 <= x < w,
        0 <= y,
    ensures
        (y * w + x) % w == x,
        (y * w + x) / w == y,
        0 <= y * w + x,
{
    vstd::arithmetic::div_mod::lemma_fundamental_div_mod_converse(y * w + x, w, y, x);
    assert(0 <= y * w) by (nonlinear_arith)
        requires
            0 <= y,
            0 <= w,
    ;
}

proof fn lemma_row_major_order(x1: int, y1: int, x2: int, y2: int, w: int)
    requires
        0 <= x1 < w,
        0 <= x2 < w,
        scan_before(x1, y1, x2, y2),
    ensures
        y1 * w + x1 < y2 * w + x2,
{
    if y1 < y2 {
        assert(y1 * w + w <= y2 * w) by (nonlinear_arith)
            requires
                y1 < y2,
                w >= 0,
        ;
    }
}

/// The rasterizer emits exactly one fragment for each pixel centre of the
/// framebuffer that passes the inside test.
pub proof fn lemma_fragment_count(
    v0: ScreenVertex,
    v1: ScreenVertex,
    v2: ScreenVertex,
    width: nat,
    height: nat,
    s: Seq<Fragment>,
)
    requires
        rasterized(v0, v1, v2, width, height, s),
    ensures
        pixel_indices(s, width).to_set() == window_coverage(v0, v1, v2, 0, 0, width, height),
        s.len() == window_coverage(v0, v1, v2, 0, 0, width, height).len(),
{
    let idx = pixel_indices(s, width);
    let cov = window_coverage(v0, v1, v2, 0, 0, width, height);
    let w = width as int;
    assert forall|k: int| 0 <= k < s.len() implies 0 <= #[trigger] idx[k] < w * height && idx[k] % w == s[k].x
        && idx[k] / w == s[k].y by {
        lemma_row_major(s[k].x as int, s[k].y as int, w);
        assert(s[k].y as int * w + s[k].x < w * height) by (nonlinear_arith)
            requires
                s[k].x < w,
                s[k].y < height,
        ;
    }
    assert forall|i: int| idx.to_set().contains(i) == cov.contains(i) by {
        if idx.to_set().contains(i) {
            let k = choose|k: int| 0 <= k < idx.len() && idx[k] == i;
            assert(covers(v0, v1, v2, s[k].x as int, s[k].y as int));
        }
        if cov.contains(i) {
            let px = i % w;
            let py = i / w;
            assert(w > 0) by (nonlinear_arith)
                requires
                    0 <= i < w * height,
                    w >= 0,
            ;
            vstd::arithmetic::div_mod::lemma_fundamental_div_mod(i, w);
            vstd::arithmetic::div_mod::lemma_mod_bound(i, w);
            assert(0 <= py < height) by (nonlinear_arith)
                requires
                    i == w * py + px,
                    0 <= px < w,
                    0 <= i < w * height,
                    w > 0,
            ;
            assert(has_pixel(s, px, py));
            let k = choose|k: int| 0 <= k < s.len() && s[k].x == px && s[k].y == py;
            vstd::arithmetic::div_mod::lemma_fundamental_div_mod(i, w);
            assert(idx[k] == i);
            assert(idx.to_set().contains(i));
        }
    }
    assert(idx.to_set() =~= cov);
    assert forall|i: int, j: int| 0 <= i < idx.len() && 0 <= j < idx.len() && i != j implies idx[i] != idx[j] by {
        if i < j {
            lemma_row_major_order(s[i].x as int, s[i].y as int, s[j].x as int, s[j].y as int, w);
        } else {
            lemma_row_major_order(s[j].x as int, s[j].y as int, s[i].x as int, s[i].y as int, w);
        }
    }
    assert(idx.no_duplicates());
    idx.unique_seq_to_set();
}

} // verus!
