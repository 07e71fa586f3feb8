use vstd::prelude::*;
use crate::color::Color;
use crate::framebuffer::{FrameModel, Framebuffer};

verus! {

/// One pixel of a rasterized segment, with its interpolated depth and colour.
#[derive(Clone, Copy, Debug, PartialEq, Eq, Structural)]
pub struct LinePoint {
    pub x: i64,
    pub y: i64,
    pub depth: u32,
    pub color: Color,
}

/// An end of a segment in whole-pixel screen coordinates.
#[derive(Clone, Copy, Debug, PartialEq, Eq, Structural)]
pub struct LineEnd {
    pub x: i32,
    pub y: i32,
    pub depth: u32,
    pub color: Color,
}

pub open spec fn abs(v: int) -> int {
    if v < 0 {
        -v
    } else {
        v
    }
}

pub open spec fn sign(v: int) -> int {
    if v < 0 {
        -1
    } else {
        1
    }
}

/// The number of steps along the major axis.
pub open spec fn line_steps(a: LineEnd, b: LineEnd) -> int {
    let adx = abs(b.x - a.x);
    let ady = abs(b.y - a.y);
    if adx >= ady {
        adx
    } else {
        ady
    }
}

/// The minor-axis offset at step `i`: `i * minor / major` rounded to nearest,
/// halves rounded up.
pub open spec fn minor_offset(i: int, minor: int, major: int) -> int {
    (2 * i * minor + major) / (2 * major)
}

/// `z0` moved toward `z1` by `i / n` of the way, truncated toward `z0`.
pub open spec fn interpolate(z0: int, z1: int, i: int, n: int) -> int {
    if n == 0 {
        z0
    } else if z1 >= z0 {
        z0 + (z1 - z0) * i / n
    } else {
        z0 - (z0 - z1) * i / n
    }
}

/// The pixel at step `i` of the segment from `a` to `b`.
pub open spec fn line_point(a: LineEnd, b: LineEnd, i: int) -> LinePoint {
    let dx = b.x - a.x;
    let dy = b.y - a.y;
    let n = line_steps(a, b);
    let t = if n == 0 { 0 } else { i * 10000 / n };
    LinePoint {
        x: if n == 0 {
            a.x as i64
        } else if abs(dx) >= abs(dy) {
            (a.x + sign(dx) * i) as i64
        } else {
            (a.x + sign(dx) * minor_offset(i, abs(dx), n)) as i64
        },
        y: if n == 0 {
            a.y as i64
        } else if abs(dx) >= abs(dy) {
            (a.y + sign(dy) * minor_offset(i, abs(dy), n)) as i64
        } else {
            (a.y + sign(dy) * i) as i64
        },
        depth: interpolate(a.depth as int, b.depth as int, i, n) as u32,
        color: a.color.blended(b.color, t as nat),
    }
}

/// All pixels of the segment, from `a` to `b`.
pub open spec fn line_points(a: LineEnd, b: LineEnd) -> Seq<LinePoint> {
    Seq::new((line_steps(a, b) + 1) as nat, |i: int| line_point(a, b, i))
}

proof fn lemma_interpolate_bounds(z0: int, z1: int, i: int, n: int)
    requires
        0 <= i <= n,
        0 <= z0,
        0 <= z1,
    ensures
        z0 <= z1 ==> z0 <= interpolate(z0, z1, i, n) <= z1,
        z1 < z0 ==> z1 <= interpolate(z0, z1, i, n) <= z0,
{
    if n > 0 {
        let d = if z1 >= z0 { z1 - z0 } else { z0 - z1 };
        assert(0 <= d * i / n <= d) by (nonlinear_arith)
            requires
                0 <= i <= n,
                n > 0,
                d >= 0,
        ;
    }
}

fn interpolate_u32(z0: u32, z1: u32, i: u64, n: u64) -> (z: u32)
    requires
        i <= n,
        n <= 0x2_0000_0000,
    ensures
        z == interpolate(z0 as int, z1 as int, i as int, n as int),
{
    proof {
        lemma_interpolate_bounds(z0 as int, z1 as int, i as int, n as int);
    }
    if n == 0 {
        z0
    } else if z1 >= z0 {
        let d = (z1 - z0) as u128;
        assert(d * (i as u128) <= 0xffff_ffff * 0x2_0000_0000) by (nonlinear_arith)
            requires
                d <= 0xffff_ffff,
                i <= 0x2_0000_0000,
        ;
        (z0 as u128 + d * (i as u128) / (n as u128)) as u32
    } else {
        let d = (z0 - z1) as u128;
        assert(d * (i as u128) <= 0xffff_ffff * 0x2_0000_0000) by (nonlinear_arith)
            requires
                d <= 0xffff_ffff,
                i <= 0x2_0000_0000,
        ;
        (z0 as u128 - d * (i as u128) / (n as u128)) as u32
    }
}

/// Rasterizes the segment from `a` to `b` with the incremental error
/// (Bresenham) method: one pixel per step along the major axis, both ends
/// included, the minor axis rounded to the nearest pixel, depth and colour
/// interpolated linearly.
pub fn rasterize_line(a: &LineEnd, b: &LineEnd) -> (r: Vec<LinePoint>)
    ensures
        r@ == line_points(*a, *b),
{
    let dx: i64 = b.x as i64 - a.x as i64;
    let dy: i64 = b.y as i64 - a.y as i64;
    let adx: i64 = if dx < 0 { -dx } else { dx };
    let ady: i64 = if dy < 0 { -dy } else { dy };
    let sx: i64 = if dx < 0 { -1 } else { 1 };
    let sy: i64 = if dy < 0 { -1 } else { 1 };
    let x_major = adx >= ady;
    let major: i64 = if x_major { adx } else { ady };
    let minor: i64 = if x_major { ady } else { adx };
    let mut out: Vec<LinePoint> = Vec::new();
    if major == 0 {
        out.push(LinePoint { x: a.x as i64, y: a.y as i64, depth: a.depth, color: a.color });
        proof {
            assert(out@ =~= line_points(*a, *b));
        }
        return out;
    }
    let mut i: i64 = 0;
    let mut j: i64 = 0;
    let mut err: i64 = major;
    assert(2 * i * minor == 0) by (nonlinear_arith)
        requires
            i == 0,
    ;
    while i <= major
        invariant
            0 < major <= 0x1_0000_0000,
            0 <= minor <= major,
            major == line_steps(*a, *b),
            x_major == (abs(dx as int) >= abs(dy as int)),
            major == (if x_major { abs(dx as int) } else { abs(dy as int) }),
            minor == (if x_major { abs(dy as int) } else { abs(dx as int) }),
            dx == b.x - a.x,
            dy == b.y - a.y,
            sx == sign(dx as int),
            sy == sign(dy as int),
            0 <= i <= major + 1,
            out@.len() == i,
            0 <= j <= i,
            err == 2 * i * minor + major - 2 * major * j,
            0 <= err < 2 * major,
            forall|k: int| 0 <= k < i ==> out@[k] == line_point(*a, *b, k),
        decreases major + 1 - i,
    {
        proof {
            assert(2 * i * minor + major == j * (2 * major) + err) by (nonlinear_arith)
                requires
                    err == 2 * i * minor + major - 2 * major * j,
            ;
            vstd::arithmetic::div_mod::lemma_fundamental_div_mod_converse(
                2 * i * minor + major,
                2 * major,
                j as int,
                err as int,
            );
            assert(minor_offset(i as int, minor as int, major as int) == j);
        }
        let x: i64 = if x_major { a.x as i64 + sx * i } else { a.x as i64 + sx * j };
        let y: i64 = if x_major { a.y as i64 + sy * j } else { a.y as i64 + sy * i };
        let depth = interpolate_u32(a.depth, b.depth, i as u64, major as u64);
        assert(i * 10000 <= major * 10000) by (nonlinear_arith)
            requires
                i <= major,
        ;
        let q: i64 = i * 10000 / major;
        proof {
            assert((i as int) * 10000 / (major as int) <= 10000) by (nonlinear_arith)
                requires
                    0 <= i <= major,
                    major > 0,
            ;
        }
        let t: u32 = q as u32;
        let color = a.color.blend(&b.color, t);
        out.push(LinePoint { x, y, depth, color });
        proof {
            assert(out@[i as int] == line_point(*a, *b, i as int));
        }
        let ghost (i0, j0, e0) = (i as int, j as int, err as int);
        i = i + 1;
        err = err + 2 * minor;
        if err >= 2 * major {
            j = j + 1;
            err = err - 2 * major;
        }
        proof {
            assert(err == 2 * i * minor + major - 2 * major * j) by (nonlinear_arith)
                requires
                    e0 == 2 * i0 * minor + major - 2 * major * j0,
                    i == i0 + 1,
                    (j == j0 && err == e0 + 2 * minor) || (j == j0 + 1 && err == e0 + 2 * minor - 2 * major),
            ;
        }
    }
    proof {
        assert(out@ =~= line_points(*a, *b));
    }
    out
}

/// The framebuffer after plotting a sequence of points in order.
pub open spec fn plot_all(m: FrameModel, pts: Seq<LinePoint>) -> FrameModel
    decreases pts.len(),
{
    if pts.len() == 0 {
        m
    } else {
        let p = pts.last();
        plot_all(m, pts.drop_last()).plot(p.x as int, p.y as int, p.depth, crate::color::packed(p.color) as u32)
    }
}

/// Draws the segment from `a` to `b` with depth-tested writes; pixels
/// outside the framebuffer are skipped.
pub fn draw_line(fb: &mut Framebuffer, a: &LineEnd, b: &LineEnd)
    requires
        old(fb).wf(),
    ensures
        final(fb).wf(),
        final(fb)@ == plot_all(old(fb)@, line_points(*a, *b)),
{
    let pts = rasterize_line(a, b);
    let mut k: usize = 0;
    while k < pts.len()
        invariant
            fb.wf(),
            k <= pts@.len(),
            fb@ == plot_all(old(fb)@, pts@.take(k as int)),
        decreases pts@.len() - k,
    {
        let p = pts[k];
        let hex = p.color.to_hex();
        fb.plot(p.x, p.y, p.depth, hex);
        proof {
            assert(pts@.take(k + 1).drop_last() =~= pts@.take(k as int));
        }
        k = k + 1;
    }
    proof {
        assert(pts@.take(pts@.len() as int) =~= pts@);
    }
}

proof fn lemma_offset_step(i: int, minor: int, major: int)
    requires
        0 <= i,
        0 <= minor <= major,
        major > 0,
    ensures
        0 <= minor_offset(i + 1, minor, major) - minor_offset(i, minor, major) <= 1,
{
    let d = 2 * major;
    let x = 2 * i * minor + major;
    assert(2 * (i + 1) * minor + major == x + 2 * minor) by (nonlinear_arith)
        requires
            x == 2 * i * minor + major,
    ;
    assert(x >= 0) by (nonlinear_arith)
        requires
            i >= 0,
            minor >= 0,
            major > 0,
            x == 2 * i * minor + major,
    ;
    vstd::arithmetic::div_mod::lemma_fundamental_div_mod(x, d);
    vstd::arithmetic::div_mod::lemma_fundamental_div_mod(x + 2 * minor, d);
    vstd::arithmetic::div_mod::lemma_mod_bound(x, d);
    vstd::arithmetic::div_mod::lemma_mod_bound(x + 2 * minor, d);
    let q0 = x / d;
    let q1 = (x + 2 * minor) / d;
    assert(0 <= q1 - q0 <= 1) by (nonlinear_arith)
        requires
            x == d * q0 + x % d,
            x + 2 * minor == d * q1 + (x + 2 * minor) % d,
            0 <= x % d < d,
            0 <= (x + 2 * minor) % d < d,
            0 <= 2 * minor <= d,
    ;
}

/// Lines have no gaps: consecutive pixels are neighbours, one step apart on
/// the major axis and at most one on the other.
pub proof fn lemma_line_is_connected(a: LineEnd, b: LineEnd, i: int)
    requires
        0 <= i < line_steps(a, b),
    ensures
        abs(line_point(a, b, i + 1).x - line_point(a, b, i).x) <= 1,
        abs(line_point(a, b, i + 1).y - line_point(a, b, i).y) <= 1,
        abs(line_point(a, b, i + 1).x - line_point(a, b, i).x) + abs(line_point(a, b, i + 1).y - line_point(
            a,
            b,
            i,
        ).y) >= 1,
        line_point(a, b, 0).x == a.x && line_point(a, b, 0).y == a.y,
        line_point(a, b, line_steps(a, b)).x == b.x && line_point(a, b, line_steps(a, b)).y == b.y,
{
    let dx = b.x - a.x;
    let dy = b.y - a.y;
    let n = line_steps(a, b);
    let minor = if abs(dx) >= abs(dy) { abs(dy) } else { abs(dx) };
    lemma_offset_step(i, minor, n);
    lemma_offset_end(minor, n);
    lemma_offset_bound(i, minor, n);
    lemma_offset_bound(i + 1, minor, n);
    let o0 = minor_offset(i, minor, n);
    let o1 = minor_offset(i + 1, minor, n);
    let sx = sign(dx);
    let sy = sign(dy);
    lemma_signed_steps(sx, i, o0, o1, n);
    lemma_signed_steps(sy, i, o0, o1, n);
    lemma_signed_steps(sx, 0, 0, 0, n);
    lemma_signed_steps(sy, 0, 0, 0, n);
    lemma_signed_steps(sx, n - 1, minor, minor, n);
    lemma_signed_steps(sy, n - 1, minor, minor, n);
    assert(sx * abs(dx) == dx);
    assert(sy * abs(dy) == dy);
}

proof fn lemma_signed_steps(s: int, i: int, o0: int, o1: int, n: int)
    requires
        s == 1 || s == -1,
        0 <= i < n,
        n <= 0x2_0000_0000,
        0 <= o0 <= n,
        0 <= o1 <= n,
        0 <= o1 - o0 <= 1,
    ensures
        s * (i + 1) - s * i == s,
        abs(s * o1 - s * o0) == o1 - o0,
        -0x2_0000_0000 <= s * i <= 0x2_0000_0000,
        -0x2_0000_0000 <= s * (i + 1) <= 0x2_0000_0000,
        -0x2_0000_0000 <= s * o0 <= 0x2_0000_0000,
        -0x2_0000_0000 <= s * o1 <= 0x2_0000_0000,
        s * n == if s == 1 { n } else { -n },
        s * 0 == 0,
{
    if s == 1 {
    } else {
    }
}

proof fn lemma_offset_end(minor: int, n: int)
    requires
        0 <= minor <= n,
        n > 0,
    ensures
        minor_offset(n, minor, n) == minor,
        minor_offset(0, minor, n) == 0,
{
    assert(2 * n * minor + n == minor * (2 * n) + n) by (nonlinear_arith);
    vstd::arithmetic::div_mod::lemma_fundamental_div_mod_converse(2 * n * minor + n, 2 * n, minor, n);
    assert(2 * 0 * minor + n == 0 * (2 * n) + n) by (nonlinear_arith);
    vstd::arithmetic::div_mod::lemma_fundamental_div_mod_converse(2 * 0 * minor + n, 2 * n, 0, n);
}

proof fn lemma_offset_bound(i: int, minor: int, n: int)
    requires
        0 <= i <= n,
        0 <= minor <= n,
        n > 0,
    ensures
        0 <= minor_offset(i, minor, n) <= minor,
{
    lemma_offset_end(minor, n);
    assert(2 * i * minor + n <= 2 * n * minor + n) by (nonlinear_arith)
        requires
            0 <= i <= n,
            0 <= minor,
    ;
    assert(0 <= 2 * i * minor + n) by (nonlinear_arith)
        requires
            0 <= i,
            0 <= minor,
            n > 0,
    ;
    vstd::arithmetic::div_mod::lemma_div_is_ordered(2 * i * minor + n, 2 * n * minor + n, 2 * n);
    vstd::arithmetic::div_mod::lemma_div_pos_is_pos(2 * i * minor + n, 2 * n);
}

} // verus!
