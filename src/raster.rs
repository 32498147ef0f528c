//! A packed-RGB frame with a depth plane, and an edge-function triangle fill.
//!
//! Screen positions are fixed-point: `SUBPIXEL` units per pixel, so the
//! center of pixel `x` lies at `x * SUBPIXEL + SUBPIXEL / 2`. Depths are
//! unsigned fixed-point values; smaller is nearer.

use vstd::prelude::*;

verus! {

pub const SUBPIXEL: i64 = 256;

/// The depth that a cleared pixel holds: nothing is farther.
pub const FAR: u32 = 0xffff_ffff;

pub const BACKGROUND: u32 = 0x101014;

/// A triangle corner on screen: fixed-point position and depth.
#[derive(Clone, Copy, Debug, PartialEq, Eq)]
pub struct ScreenVertex {
    pub x: i32,
    pub y: i32,
    pub z: u32,
}

pub struct FrameModel {
    pub w: nat,
    pub h: nat,
    pub color: Seq<u32>,
    pub depth: Seq<u32>,
}

/// A `w` by `h` frame, row-major, `y` growing downward.
pub struct Frame {
    w: usize,
    h: usize,
    color: Vec<u32>,
    depth: Vec<u32>,
}

impl View for Frame {
    type V = FrameModel;

    closed spec fn view(&self) -> FrameModel {
        FrameModel { w: self.w as nat, h: self.h as nat, color: self.color@, depth: self.depth@ }
    }
}

pub open spec fn pixel_index(w: nat, x: int, y: int) -> int {
    y * w + x
}

pub open spec fn in_frame(f: FrameModel, x: int, y: int) -> bool {
    0 <= x < f.w && 0 <= y < f.h
}

pub open spec fn frame_wf(f: FrameModel) -> bool {
    &&& f.w * f.h <= usize::MAX
    &&& f.color.len() == f.w * f.h
    &&& f.depth.len() == f.w * f.h
}

pub open spec fn color_of(f: FrameModel, x: int, y: int) -> u32 {
    f.color[pixel_index(f.w, x, y)]
}

pub open spec fn depth_of(f: FrameModel, x: int, y: int) -> u32 {
    f.depth[pixel_index(f.w, x, y)]
}

/// The frame after a depth-tested write of `z`/`rgb` at `(x, y)`: it takes
/// effect only inside the frame and only when `z` is strictly nearer.
pub open spec fn put_spec(f: FrameModel, x: int, y: int, z: u32, rgb: u32) -> FrameModel {
    if in_frame(f, x, y) && z < depth_of(f, x, y) {
        FrameModel {
            color: f.color.update(pixel_index(f.w, x, y), rgb),
            depth: f.depth.update(pixel_index(f.w, x, y), z),
            ..f
        }
    } else {
        f
    }
}

/// The frame with every color `rgb` and every depth `FAR`.
pub open spec fn cleared(f: FrameModel, rgb: u32) -> FrameModel {
    FrameModel {
        color: Seq::new(f.color.len(), |i: int| rgb),
        depth: Seq::new(f.depth.len(), |i: int| FAR),
        ..f
    }
}

pub proof fn lemma_index_in_range(w: nat, h: nat, x: int, y: int)
    requires
        0 <= x < w,
        0 <= y < h,
    ensures
        0 <= pixel_index(w, x, y) < w * h,
{
    assert(0 <= y * w + x < w * h) by (nonlinear_arith)
        requires
            0 <= x < w,
            0 <= y < h,
    ;
}

pub proof fn lemma_index_distinct(w: nat, x1: int, y1: int, x2: int, y2: int)
    requires
        0 <= x1 < w,
        0 <= x2 < w,
        0 <= y1,
        0 <= y2,
        x1 != x2 || y1 != y2,
    ensures
        pixel_index(w, x1, y1) != pixel_index(w, x2, y2),
{
    if y1 == y2 {
    } else if y1 < y2 {
        assert(y1 * w + x1 < y2 * w + x2) by (nonlinear_arith)
            requires
                0 <= x1 < w,
                0 <= x2,
                y1 < y2,
        ;
    } else {
        assert(y2 * w + x2 < y1 * w + x1) by (nonlinear_arith)
            requires
                0 <= x2 < w,
                0 <= x1,
                y2 < y1,
        ;
    }
}

impl Frame {
    /// A frame filled with `BACKGROUND`, every depth `FAR`.
    pub fn new(w: usize, h: usize) -> (f: Frame)
        requires
            w * h <= usize::MAX,
        ensures
            f@.w == w,
            f@.h == h,
            frame_wf(f@),
            forall|i: int| 0 <= i < w * h ==> f@.color[i] == BACKGROUND && f@.depth[i] == FAR,
    {
        let n = w * h;
        let mut color: Vec<u32> = Vec::new();
        let mut depth: Vec<u32> = Vec::new();
        let mut i: usize = 0;
        while i < n
            invariant
                i <= n,
                color@.len() == i,
                depth@.len() == i,
                forall|k: int| 0 <= k < i ==> color@[k] == BACKGROUND && depth@[k] == FAR,
            decreases n - i,
        {
            color.push(BACKGROUND);
            depth.push(FAR);
            i = i + 1;
        }
        Frame { w, h, color, depth }
    }

    pub fn width(&self) -> (r: usize)
        ensures
            r == self@.w,
    {
        self.w
    }

    pub fn height(&self) -> (r: usize)
        ensures
            r == self@.h,
    {
        self.h
    }

    /// The color plane, row-major.
    pub fn colors(&self) -> (r: &Vec<u32>)
        ensures
            r@ == self@.color,
    {
        &self.color
    }

    /// The depth plane, row-major.
    pub fn depths(&self) -> (r: &Vec<u32>)
        ensures
            r@ == self@.depth,
    {
        &self.depth
    }

    /// Resets every color to `rgb` and every depth to `FAR`.
    pub fn clear(&mut self, rgb: u32)
        requires
            frame_wf(old(self)@),
        ensures
            final(self)@.w == old(self)@.w,
            final(self)@.h == old(self)@.h,
            frame_wf(final(self)@),
            final(self)@ == cleared(old(self)@, rgb),
    {
        let n = self.color.len();
        let mut i: usize = 0;
        while i < n
            invariant
                i <= n,
                n == self.color@.len(),
                self.depth@.len() == n,
                self.w == old(self).w,
                self.h == old(self).h,
                frame_wf(self@),
                forall|k: int| 0 <= k < i ==> self.color@[k] == rgb && self.depth@[k] == FAR,
            decreases n - i,
        {
            self.color.set(i, rgb);
            self.depth.set(i, FAR);
            i = i + 1;
        }
        assert(self@.color =~= cleared(old(self)@, rgb).color);
        assert(self@.depth =~= cleared(old(self)@, rgb).depth);
    }

    fn put_at(&mut self, x: usize, y: usize, z: u32, rgb: u32)
        requires
            frame_wf(old(self)@),
            x < old(self)@.w,
            y < old(self)@.h,
        ensures
            final(self)@ == put_spec(old(self)@, x as int, y as int, z, rgb),
    {
        proof {
            lemma_index_in_range(self@.w, self@.h, x as int, y as int);
            assert(y * self.w <= pixel_index(self@.w, x as int, y as int));
        }
        let idx = y * self.w + x;
        if z < self.depth[idx] {
            self.depth.set(idx, z);
            self.color.set(idx, rgb);
        }
    }

    /// Depth-tested write: a no-op outside the frame; inside, `z`/`rgb` are
    /// stored only when `z` is strictly less than the stored depth.
    pub fn put_pixel_z(&mut self, x: i32, y: i32, z: u32, rgb: u32)
        requires
            frame_wf(old(self)@),
        ensures
            final(self)@ == put_spec(old(self)@, x as int, y as int, z, rgb),
    {
        if x < 0 || y < 0 {
            return;
        }
        let (ux, uy) = (x as usize, y as usize);
        if ux >= self.w || uy >= self.h {
            return;
        }
        self.put_at(ux, uy, z, rgb);
    }
}


/// Twice the signed area of `(a, b, p)`: positive when `p` lies to one side of
/// the line `a -> b`, negative on the other, zero on it.
#[verifier::opaque]
pub open spec fn edge_spec(ax: int, ay: int, bx: int, by: int, px: int, py: int) -> int {
    (px - ax) * (by - ay) - (py - ay) * (bx - ax)
}

/// The fixed-point coordinate of the center of pixel `p`.
pub open spec fn center(p: int) -> int {
    p * SUBPIXEL + SUBPIXEL / 2
}

pub open spec fn signed_area(a: ScreenVertex, b: ScreenVertex, c: ScreenVertex) -> int {
    edge_spec(a.x as int, a.y as int, b.x as int, b.y as int, c.x as int, c.y as int)
}

/// The edge values of the center of pixel `(x, y)` against the edges opposite
/// `a`, `b` and `c`.
pub open spec fn weights(a: ScreenVertex, b: ScreenVertex, c: ScreenVertex, x: int, y: int) -> (
    int,
    int,
    int,
) {
    let px = center(x);
    let py = center(y);
    (
        edge_spec(b.x as int, b.y as int, c.x as int, c.y as int, px, py),
        edge_spec(c.x as int, c.y as int, a.x as int, a.y as int, px, py),
        edge_spec(a.x as int, a.y as int, b.x as int, b.y as int, px, py),
    )
}

/// The center of pixel `(x, y)` lies in the (non-degenerate) triangle or on its
/// boundary: all three edge values have the sign of the area.
pub open spec fn covers(a: ScreenVertex, b: ScreenVertex, c: ScreenVertex, x: int, y: int) -> bool {
    let area = signed_area(a, b, c);
    let (w0, w1, w2) = weights(a, b, c, x, y);
    (area > 0 && w0 >= 0 && w1 >= 0 && w2 >= 0) || (area < 0 && w0 <= 0 && w1 <= 0 && w2 <= 0)
}

/// The depth at the center of pixel `(x, y)`, interpolated with barycentric
/// weights (edge value over area) and rounded down.
pub open spec fn interp_depth(a: ScreenVertex, b: ScreenVertex, c: ScreenVertex, x: int, y: int) -> int {
    let area = signed_area(a, b, c);
    let (w0, w1, w2) = weights(a, b, c, x, y);
    let num = w0 * a.z + w1 * b.z + w2 * c.z;
    if area < 0 {
        (-num) / (-area)
    } else {
        num / area
    }
}

/// Whether filling the triangle stores a new depth at `(x, y)`.
pub open spec fn fill_writes(
    f: FrameModel,
    a: ScreenVertex,
    b: ScreenVertex,
    c: ScreenVertex,
    x: int,
    y: int,
) -> bool {
    covers(a, b, c, x, y) && interp_depth(a, b, c, x, y) < depth_of(f, x, y)
}

pub open spec fn fill_depth(
    f: FrameModel,
    a: ScreenVertex,
    b: ScreenVertex,
    c: ScreenVertex,
    x: int,
    y: int,
) -> u32 {
    if fill_writes(f, a, b, c, x, y) {
        interp_depth(a, b, c, x, y) as u32
    } else {
        depth_of(f, x, y)
    }
}

pub open spec fn fill_color(
    f: FrameModel,
    a: ScreenVertex,
    b: ScreenVertex,
    c: ScreenVertex,
    rgb: u32,
    x: int,
    y: int,
) -> u32 {
    if fill_writes(f, a, b, c, x, y) {
        rgb
    } else {
        color_of(f, x, y)
    }
}

/// The whole frame after filling triangle `a b c` with `rgb`: pixel `i` is
/// `(i % w, i / w)`, and holds `fill_color` / `fill_depth` there.
pub open spec fn fill_frame(f: FrameModel, a: ScreenVertex, b: ScreenVertex, c: ScreenVertex, rgb: u32) -> FrameModel {
    FrameModel {
        color: Seq::new(f.color.len(), |i: int| fill_color(f, a, b, c, rgb, i % (f.w as int), i / (f.w as int))),
        depth: Seq::new(f.depth.len(), |i: int| fill_depth(f, a, b, c, i % (f.w as int), i / (f.w as int))),
        ..f
    }
}

proof fn lemma_pixel_of_index(w: nat, h: nat, i: int)
    requires
        0 <= i < w * h,
    ensures
        in_frame(FrameModel { w, h, color: seq![], depth: seq![] }, i % (w as int), i / (w as int)),
        pixel_index(w, i % (w as int), i / (w as int)) == i,
{
    assert(w > 0) by (nonlinear_arith)
        requires
            0 <= i < w * h,
    ;
    vstd::arithmetic::div_mod::lemma_fundamental_div_mod(i, w as int);
    vstd::arithmetic::div_mod::lemma_mod_bound(i, w as int);
    vstd::arithmetic::div_mod::lemma_div_pos_is_pos(i, w as int);
    let (x, y) = (i % (w as int), i / (w as int));
    assert(y < h) by (nonlinear_arith)
        requires
            i == w * y + x,
            0 <= x,
            i < w * h,
            w > 0,
    ;
    assert(y * w == w * y) by (nonlinear_arith);
}

/// A frame whose every pixel holds its filled value is `fill_frame`.
proof fn lemma_frame_from_pixels(
    f0: FrameModel,
    f: FrameModel,
    a: ScreenVertex,
    b: ScreenVertex,
    c: ScreenVertex,
    rgb: u32,
)
    requires
        frame_wf(f0),
        frame_wf(f),
        f.w == f0.w,
        f.h == f0.h,
        forall|px: int, py: int|
            in_frame(f0, px, py) ==> #[trigger] pixel_partial(f0, a, b, c, rgb, f, 0, f0.h as int, px, py),
    ensures
        f == fill_frame(f0, a, b, c, rgb),
{
    let g = fill_frame(f0, a, b, c, rgb);
    assert forall|i: int| 0 <= i < f.color.len() implies f.color[i] == g.color[i] && f.depth[i] == g.depth[i] by {
        lemma_pixel_of_index(f0.w, f0.h, i);
        let (x, y) = (i % (f0.w as int), i / (f0.w as int));
        assert(pixel_partial(f0, a, b, c, rgb, f, 0, f0.h as int, x, y));
    }
    assert(f.color =~= g.color);
    assert(f.depth =~= g.depth);
}

proof fn lemma_bary_identity(ax: int, ay: int, bx: int, by: int, cx: int, cy: int, px: int, py: int)
    ensures
        ({
            let w0 = edge_spec(bx, by, cx, cy, px, py);
            let w1 = edge_spec(cx, cy, ax, ay, px, py);
            let w2 = edge_spec(ax, ay, bx, by, px, py);
            let area = edge_spec(ax, ay, bx, by, cx, cy);
            &&& w0 + w1 + w2 == area
            &&& w0 * ax + w1 * bx + w2 * cx == area * px
            &&& w0 * ay + w1 * by + w2 * cy == area * py
        }),
{
    reveal(edge_spec);
    let (ux, uy, vx, vy, tx, ty) = (ax - px, ay - py, bx - px, by - py, cx - px, cy - py);
    let w0 = edge_spec(bx, by, cx, cy, px, py);
    let w1 = edge_spec(cx, cy, ax, ay, px, py);
    let w2 = edge_spec(ax, ay, bx, by, px, py);
    let area = edge_spec(ax, ay, bx, by, cx, cy);
    assert(w0 == vy * tx - vx * ty) by (nonlinear_arith)
        requires
            w0 == (px - bx) * (cy - by) - (py - by) * (cx - bx),
            vx == bx - px,
            vy == by - py,
            tx == cx - px,
            ty == cy - py,
    ;
    assert(w1 == ty * ux - tx * uy) by (nonlinear_arith)
        requires
            w1 == (px - cx) * (ay - cy) - (py - cy) * (ax - cx),
            ux == ax - px,
            uy == ay - py,
            tx == cx - px,
            ty == cy - py,
    ;
    assert(w2 == uy * vx - ux * vy) by (nonlinear_arith)
        requires
            w2 == (px - ax) * (by - ay) - (py - ay) * (bx - ax),
            ux == ax - px,
            uy == ay - py,
            vx == bx - px,
            vy == by - py,
    ;
    assert(area == (tx - ux) * (vy - uy) - (ty - uy) * (vx - ux)) by (nonlinear_arith)
        requires
            area == (cx - ax) * (by - ay) - (cy - ay) * (bx - ax),
            ux == ax - px,
            uy == ay - py,
            vx == bx - px,
            vy == by - py,
            tx == cx - px,
            ty == cy - py,
    ;
    assert((vy * tx - vx * ty) + (ty * ux - tx * uy) + (uy * vx - ux * vy) == (tx - ux) * (vy - uy)
        - (ty - uy) * (vx - ux)) by (nonlinear_arith);
    assert((vy * tx - vx * ty) * ux + (ty * ux - tx * uy) * vx + (uy * vx - ux * vy) * tx == 0)
        by (nonlinear_arith);
    assert((vy * tx - vx * ty) * uy + (ty * ux - tx * uy) * vy + (uy * vx - ux * vy) * ty == 0)
        by (nonlinear_arith);
    assert(w0 * ax == w0 * ux + w0 * px) by (nonlinear_arith)
        requires
            ux == ax - px,
    ;
    assert(w1 * bx == w1 * vx + w1 * px) by (nonlinear_arith)
        requires
            vx == bx - px,
    ;
    assert(w2 * cx == w2 * tx + w2 * px) by (nonlinear_arith)
        requires
            tx == cx - px,
    ;
    assert(area * px == w0 * px + w1 * px + w2 * px) by (nonlinear_arith)
        requires
            w0 + w1 + w2 == area,
    ;
    assert(w0 * ay == w0 * uy + w0 * py) by (nonlinear_arith)
        requires
            uy == ay - py,
    ;
    assert(w1 * by == w1 * vy + w1 * py) by (nonlinear_arith)
        requires
            vy == by - py,
    ;
    assert(w2 * cy == w2 * ty + w2 * py) by (nonlinear_arith)
        requires
            ty == cy - py,
    ;
    assert(area * py == w0 * py + w1 * py + w2 * py) by (nonlinear_arith)
        requires
            w0 + w1 + w2 == area,
    ;
}

/// A point that is a positive-weight combination of `a`, `b`, `c` lies
/// between their least and greatest.
proof fn lemma_convex_between(w0: int, w1: int, w2: int, a: int, b: int, c: int, p: int, m: int, big: int)
    requires
        w0 >= 0,
        w1 >= 0,
        w2 >= 0,
        w0 + w1 + w2 > 0,
        w0 * a + w1 * b + w2 * c == (w0 + w1 + w2) * p,
        m <= a && m <= b && m <= c,
        a <= big && b <= big && c <= big,
    ensures
        m <= p <= big,
{
    assert(w0 * a >= w0 * m) by (nonlinear_arith)
        requires
            w0 >= 0,
            a >= m,
    ;
    assert(w1 * b >= w1 * m) by (nonlinear_arith)
        requires
            w1 >= 0,
            b >= m,
    ;
    assert(w2 * c >= w2 * m) by (nonlinear_arith)
        requires
            w2 >= 0,
            c >= m,
    ;
    assert(w0 * a <= w0 * big) by (nonlinear_arith)
        requires
            w0 >= 0,
            a <= big,
    ;
    assert(w1 * b <= w1 * big) by (nonlinear_arith)
        requires
            w1 >= 0,
            b <= big,
    ;
    assert(w2 * c <= w2 * big) by (nonlinear_arith)
        requires
            w2 >= 0,
            c <= big,
    ;
    let s = w0 + w1 + w2;
    assert(w0 * m + w1 * m + w2 * m == s * m) by (nonlinear_arith)
        requires
            s == w0 + w1 + w2,
    ;
    assert(w0 * big + w1 * big + w2 * big == s * big) by (nonlinear_arith)
        requires
            s == w0 + w1 + w2,
    ;
    assert(s * p >= s * m);
    assert(s * p <= s * big);
    assert(p >= m) by (nonlinear_arith)
        requires
            s > 0,
            s * p >= s * m,
    ;
    assert(p <= big) by (nonlinear_arith)
        requires
            s > 0,
            s * p <= s * big,
    ;
}

pub open spec fn min3(a: int, b: int, c: int) -> int {
    if a <= b && a <= c {
        a
    } else if b <= c {
        b
    } else {
        c
    }
}

pub open spec fn max3(a: int, b: int, c: int) -> int {
    if a >= b && a >= c {
        a
    } else if b >= c {
        b
    } else {
        c
    }
}

/// A covered pixel center lies inside the bounding box of the corners.
proof fn lemma_covered_in_box(a: ScreenVertex, b: ScreenVertex, c: ScreenVertex, x: int, y: int)
    requires
        covers(a, b, c, x, y),
    ensures
        min3(a.x as int, b.x as int, c.x as int) <= center(x) <= max3(a.x as int, b.x as int, c.x as int),
        min3(a.y as int, b.y as int, c.y as int) <= center(y) <= max3(a.y as int, b.y as int, c.y as int),
{
    let (w0, w1, w2) = weights(a, b, c, x, y);
    let area = signed_area(a, b, c);
    lemma_bary_identity(
        a.x as int,
        a.y as int,
        b.x as int,
        b.y as int,
        c.x as int,
        c.y as int,
        center(x),
        center(y),
    );
    let (ax, bx, cx) = (a.x as int, b.x as int, c.x as int);
    let (ay, by, cy) = (a.y as int, b.y as int, c.y as int);
    if area > 0 {
        lemma_convex_between(w0, w1, w2, ax, bx, cx, center(x), min3(ax, bx, cx), max3(ax, bx, cx));
        lemma_convex_between(w0, w1, w2, ay, by, cy, center(y), min3(ay, by, cy), max3(ay, by, cy));
    } else {
        assert((-w0) * ax + (-w1) * bx + (-w2) * cx == (-w0 + -w1 + -w2) * center(x)) by (nonlinear_arith)
            requires
                w0 * ax + w1 * bx + w2 * cx == (w0 + w1 + w2) * center(x),
        ;
        assert((-w0) * ay + (-w1) * by + (-w2) * cy == (-w0 + -w1 + -w2) * center(y)) by (nonlinear_arith)
            requires
                w0 * ay + w1 * by + w2 * cy == (w0 + w1 + w2) * center(y),
        ;
        lemma_convex_between(-w0, -w1, -w2, ax, bx, cx, center(x), min3(ax, bx, cx), max3(ax, bx, cx));
        lemma_convex_between(-w0, -w1, -w2, ay, by, cy, center(y), min3(ay, by, cy), max3(ay, by, cy));
    }
}

/// The interpolated depth of a covered pixel is a depth: between 0 and `FAR`.
proof fn lemma_depth_in_range(a: ScreenVertex, b: ScreenVertex, c: ScreenVertex, x: int, y: int)
    requires
        covers(a, b, c, x, y),
    ensures
        0 <= interp_depth(a, b, c, x, y) <= FAR,
{
    let (w0, w1, w2) = weights(a, b, c, x, y);
    let area = signed_area(a, b, c);
    lemma_bary_identity(
        a.x as int,
        a.y as int,
        b.x as int,
        b.y as int,
        c.x as int,
        c.y as int,
        center(x),
        center(y),
    );
    let (v0, v1, v2) = if area > 0 { (w0, w1, w2) } else { (-w0, -w1, -w2) };
    let s = v0 + v1 + v2;
    let num = v0 * a.z + v1 * b.z + v2 * c.z;
    let (za, zb, zc) = (a.z as int, b.z as int, c.z as int);
    assert(num == v0 * za + v1 * zb + v2 * zc);
    assert(0 <= v0 * za) by (nonlinear_arith)
        requires
            v0 >= 0,
            za >= 0,
    ;
    assert(0 <= v1 * zb) by (nonlinear_arith)
        requires
            v1 >= 0,
            zb >= 0,
    ;
    assert(0 <= v2 * zc) by (nonlinear_arith)
        requires
            v2 >= 0,
            zc >= 0,
    ;
    assert(v0 * za <= v0 * FAR) by (nonlinear_arith)
        requires
            v0 >= 0,
            za <= FAR,
    ;
    assert(v1 * zb <= v1 * FAR) by (nonlinear_arith)
        requires
            v1 >= 0,
            zb <= FAR,
    ;
    assert(v2 * zc <= v2 * FAR) by (nonlinear_arith)
        requires
            v2 >= 0,
            zc <= FAR,
    ;
    assert(v0 * FAR + v1 * FAR + v2 * FAR == s * FAR) by (nonlinear_arith)
        requires
            s == v0 + v1 + v2,
    ;
    assert(s > 0);
    assert(0 <= num / s <= FAR) by (nonlinear_arith)
        requires
            s > 0,
            0 <= num <= s * FAR,
    ;
    if area < 0 {
        assert(-(w0 * a.z + w1 * b.z + w2 * c.z) == num) by (nonlinear_arith)
            requires
                v0 == -w0,
                v1 == -w1,
                v2 == -w2,
                num == v0 * a.z + v1 * b.z + v2 * c.z,
        ;
    }
}


/// The interpolated depth is a depth, and the weighted sum behind it has the
/// sign of the area.
proof fn lemma_numerator_sign(a: ScreenVertex, b: ScreenVertex, c: ScreenVertex, x: int, y: int)
    requires
        covers(a, b, c, x, y),
    ensures
        ({
            let (w0, w1, w2) = weights(a, b, c, x, y);
            let num = w0 * a.z + w1 * b.z + w2 * c.z;
            &&& signed_area(a, b, c) > 0 ==> num >= 0
            &&& signed_area(a, b, c) < 0 ==> num <= 0
        }),
{
    let (w0, w1, w2) = weights(a, b, c, x, y);
    let (za, zb, zc) = (a.z as int, b.z as int, c.z as int);
    if signed_area(a, b, c) > 0 {
        assert(w0 * za + w1 * zb + w2 * zc >= 0) by (nonlinear_arith)
            requires
                w0 >= 0,
                w1 >= 0,
                w2 >= 0,
                za >= 0,
                zb >= 0,
                zc >= 0,
        ;
    } else {
        assert(w0 * za + w1 * zb + w2 * zc <= 0) by (nonlinear_arith)
            requires
                w0 <= 0,
                w1 <= 0,
                w2 <= 0,
                za >= 0,
                zb >= 0,
                zc >= 0,
        ;
    }
}

proof fn lemma_center_in_span(p: int, lo: int, hi: int)
    requires
        lo <= center(p) <= hi,
    ensures
        lo / (SUBPIXEL as int) <= p <= hi / (SUBPIXEL as int),
{
    vstd::arithmetic::div_mod::lemma_fundamental_div_mod(lo, SUBPIXEL as int);
    vstd::arithmetic::div_mod::lemma_fundamental_div_mod(hi, SUBPIXEL as int);
    vstd::arithmetic::div_mod::lemma_mod_bound(lo, SUBPIXEL as int);
    vstd::arithmetic::div_mod::lemma_mod_bound(hi, SUBPIXEL as int);
}

const COORD_BOUND: i128 = 0x1_0000_0000;

const EDGE_BOUND: i128 = 0x8_0000_0000_0000_0000;

fn edge(ax: i128, ay: i128, bx: i128, by: i128, px: i128, py: i128) -> (r: i128)
    requires
        -COORD_BOUND <= ax <= COORD_BOUND,
        -COORD_BOUND <= ay <= COORD_BOUND,
        -COORD_BOUND <= bx <= COORD_BOUND,
        -COORD_BOUND <= by <= COORD_BOUND,
        -COORD_BOUND <= px <= COORD_BOUND,
        -COORD_BOUND <= py <= COORD_BOUND,
    ensures
        r == edge_spec(ax as int, ay as int, bx as int, by as int, px as int, py as int),
        -EDGE_BOUND <= r <= EDGE_BOUND,
{
    proof {
        reveal(edge_spec);
    }
    let d1 = px - ax;
    let d2 = by - ay;
    let d3 = py - ay;
    let d4 = bx - ax;
    assert(-0x4_0000_0000_0000_0000 <= d1 * d2 <= 0x4_0000_0000_0000_0000) by (nonlinear_arith)
        requires
            -0x2_0000_0000 <= d1 <= 0x2_0000_0000,
            -0x2_0000_0000 <= d2 <= 0x2_0000_0000,
    ;
    assert(-0x4_0000_0000_0000_0000 <= d3 * d4 <= 0x4_0000_0000_0000_0000) by (nonlinear_arith)
        requires
            -0x2_0000_0000 <= d3 <= 0x2_0000_0000,
            -0x2_0000_0000 <= d4 <= 0x2_0000_0000,
    ;
    d1 * d2 - d3 * d4
}

fn min3_i32(a: i32, b: i32, c: i32) -> (r: i32)
    ensures
        r == min3(a as int, b as int, c as int),
{
    if a <= b && a <= c {
        a
    } else if b <= c {
        b
    } else {
        c
    }
}

fn max3_i32(a: i32, b: i32, c: i32) -> (r: i32)
    ensures
        r == max3(a as int, b as int, c as int),
{
    if a >= b && a >= c {
        a
    } else if b >= c {
        b
    } else {
        c
    }
}

/// The pixel whose span holds fixed-point coordinate `v`: `v / SUBPIXEL`, rounded down.
fn pixel_of(v: i32) -> (r: i64)
    ensures
        r == (v as int) / (SUBPIXEL as int),
        -0x80_0000 <= r < 0x80_0000,
{
    let u: u64 = (v as i64 + 0x8000_0000) as u64;
    let q: u64 = u / 256;
    proof {
        let vi = v as int;
        vstd::arithmetic::div_mod::lemma_fundamental_div_mod(vi, 256);
        vstd::arithmetic::div_mod::lemma_mod_bound(vi, 256);
        vstd::arithmetic::div_mod::lemma_fundamental_div_mod_converse_div(
            vi + 0x8000_0000,
            256,
            vi / 256 + 0x80_0000,
            vi % 256,
        );
    }
    q as i64 - 0x80_0000
}

/// Pixel `(x, y)` part-way through a fill that has reached `(cx, cy)`: final
/// if it comes before in row-major order, untouched otherwise.
pub open spec fn pixel_partial(
    f0: FrameModel,
    a: ScreenVertex,
    b: ScreenVertex,
    c: ScreenVertex,
    rgb: u32,
    f: FrameModel,
    cx: int,
    cy: int,
    x: int,
    y: int,
) -> bool {
    if y < cy || (y == cy && x < cx) {
        depth_of(f, x, y) == fill_depth(f0, a, b, c, x, y) && color_of(f, x, y) == fill_color(
            f0,
            a,
            b,
            c,
            rgb,
            x,
            y,
        )
    } else {
        depth_of(f, x, y) == depth_of(f0, x, y) && color_of(f, x, y) == color_of(f0, x, y)
    }
}

/// The state part-way through a fill: pixels before `(cx, cy)` in row-major
/// order hold their final values, the rest their values in `f0`.
pub open spec fn fill_partial(
    f0: FrameModel,
    a: ScreenVertex,
    b: ScreenVertex,
    c: ScreenVertex,
    rgb: u32,
    f: FrameModel,
    cx: int,
    cy: int,
) -> bool {
    &&& f.w == f0.w
    &&& f.h == f0.h
    &&& frame_wf(f)
    &&& forall|x: int, y: int|
        in_frame(f0, x, y) ==> #[trigger] pixel_partial(f0, a, b, c, rgb, f, cx, cy, x, y)
}

proof fn lemma_put_other(f: FrameModel, x: int, y: int, z: u32, rgb: u32, qx: int, qy: int)
    requires
        frame_wf(f),
        in_frame(f, x, y),
        in_frame(f, qx, qy),
        qx != x || qy != y,
    ensures
        depth_of(put_spec(f, x, y, z, rgb), qx, qy) == depth_of(f, qx, qy),
        color_of(put_spec(f, x, y, z, rgb), qx, qy) == color_of(f, qx, qy),
{
    lemma_index_distinct(f.w, qx, qy, x, y);
    lemma_index_in_range(f.w, f.h, qx, qy);
    lemma_index_in_range(f.w, f.h, x, y);
}

proof fn lemma_put_self(f: FrameModel, x: int, y: int, z: u32, rgb: u32)
    requires
        frame_wf(f),
        in_frame(f, x, y),
    ensures
        frame_wf(put_spec(f, x, y, z, rgb)),
        put_spec(f, x, y, z, rgb).w == f.w,
        put_spec(f, x, y, z, rgb).h == f.h,
        depth_of(put_spec(f, x, y, z, rgb), x, y) == (if z < depth_of(f, x, y) {
            z
        } else {
            depth_of(f, x, y)
        }),
        color_of(put_spec(f, x, y, z, rgb), x, y) == (if z < depth_of(f, x, y) {
            rgb
        } else {
            color_of(f, x, y)
        }),
{
    lemma_index_in_range(f.w, f.h, x, y);
}

proof fn lemma_fill_step(
    f0: FrameModel,
    a: ScreenVertex,
    b: ScreenVertex,
    c: ScreenVertex,
    rgb: u32,
    f: FrameModel,
    f2: FrameModel,
    x: int,
    y: int,
)
    requires
        fill_partial(f0, a, b, c, rgb, f, x, y),
        in_frame(f0, x, y),
        covers(a, b, c, x, y) ==> 0 <= interp_depth(a, b, c, x, y) <= FAR && f2 == put_spec(
            f,
            x,
            y,
            interp_depth(a, b, c, x, y) as u32,
            rgb,
        ),
        !covers(a, b, c, x, y) ==> f2 == f,
    ensures
        fill_partial(f0, a, b, c, rgb, f2, x + 1, y),
{
    let z = interp_depth(a, b, c, x, y) as u32;
    if covers(a, b, c, x, y) {
        lemma_put_self(f, x, y, z, rgb);
    }
    assert forall|qx: int, qy: int| in_frame(f0, qx, qy) implies #[trigger] pixel_partial(
        f0,
        a,
        b,
        c,
        rgb,
        f2,
        x + 1,
        y,
        qx,
        qy,
    ) by {
        assert(pixel_partial(f0, a, b, c, rgb, f, x, y, qx, qy));
        if covers(a, b, c, x, y) && (qx != x || qy != y) {
            lemma_put_other(f, x, y, z, rgb, qx, qy);
        }
    }
    assert(f2.w == f0.w);
    assert(f2.h == f0.h);
    assert(frame_wf(f2));
}

/// For a triangle of positive area: a pixel whose center lies strictly inside
/// is left holding the depth-tested result of writing its interpolated depth,
/// and a pixel whose center lies strictly outside some edge is left as it was.
pub proof fn lemma_fill_inside_outside(
    f: FrameModel,
    a: ScreenVertex,
    b: ScreenVertex,
    c: ScreenVertex,
    rgb: u32,
    x: int,
    y: int,
)
    requires
        frame_wf(f),
        in_frame(f, x, y),
        signed_area(a, b, c) > 0,
    ensures
        ({
            let (w0, w1, w2) = weights(a, b, c, x, y);
            &&& (w0 > 0 && w1 > 0 && w2 > 0) ==> {
                &&& fill_depth(f, a, b, c, x, y) == (if interp_depth(a, b, c, x, y) < depth_of(f, x, y) {
                    interp_depth(a, b, c, x, y) as u32
                } else {
                    depth_of(f, x, y)
                })
                &&& fill_color(f, a, b, c, rgb, x, y) == (if interp_depth(a, b, c, x, y) < depth_of(f, x, y) {
                    rgb
                } else {
                    color_of(f, x, y)
                })
                &&& 0 <= interp_depth(a, b, c, x, y) <= FAR
            }
            &&& (w0 < 0 || w1 < 0 || w2 < 0) ==> fill_depth(f, a, b, c, x, y) == depth_of(f, x, y)
                && fill_color(f, a, b, c, rgb, x, y) == color_of(f, x, y)
        }),
{
    let (w0, w1, w2) = weights(a, b, c, x, y);
    if w0 > 0 && w1 > 0 && w2 > 0 {
        lemma_depth_in_range(a, b, c, x, y);
    }
}

/// Fills triangle `v0 v1 v2` with `rgb`: every pixel whose center it covers
/// gets a depth-tested write of the interpolated depth, and every other pixel
/// keeps its value (each pixel of the frame ends as `fill_depth`/`fill_color`
/// say: `pixel_partial` with the whole frame done). A triangle of zero area
/// writes nothing.
#[verifier::spinoff_prover]
#[verifier::rlimit(60)]
pub fn fill_triangle_z(fb: &mut Frame, v0: ScreenVertex, v1: ScreenVertex, v2: ScreenVertex, rgb: u32)
    requires
        frame_wf(old(fb)@),
    ensures
        final(fb)@.w == old(fb)@.w,
        final(fb)@.h == old(fb)@.h,
        frame_wf(final(fb)@),
        forall|px: int, py: int|
            in_frame(old(fb)@, px, py) ==> #[trigger] pixel_partial(
                old(fb)@,
                v0,
                v1,
                v2,
                rgb,
                final(fb)@,
                0,
                old(fb)@.h as int,
                px,
                py,
            ),
        final(fb)@ == fill_frame(old(fb)@, v0, v1, v2, rgb),
        signed_area(v0, v1, v2) == 0 ==> final(fb)@ == old(fb)@,
{
    let ghost f0 = fb@;
    let area = edge(
        v0.x as i128,
        v0.y as i128,
        v1.x as i128,
        v1.y as i128,
        v2.x as i128,
        v2.y as i128,
    );
    if area == 0 || fb.w == 0 || fb.h == 0 {
        proof {
            assert forall|px: int, py: int| in_frame(f0, px, py) implies #[trigger] pixel_partial(
                f0,
                v0,
                v1,
                v2,
                rgb,
                f0,
                0,
                f0.h as int,
                px,
                py,
            ) by {
                assert(!covers(v0, v1, v2, px, py));
            }
            lemma_frame_from_pixels(f0, f0, v0, v1, v2, rgb);
        }
        return;
    }
    let lo_x = pixel_of(min3_i32(v0.x, v1.x, v2.x));
    let hi_x = pixel_of(max3_i32(v0.x, v1.x, v2.x));
    let lo_y = pixel_of(min3_i32(v0.y, v1.y, v2.y));
    let hi_y = pixel_of(max3_i32(v0.y, v1.y, v2.y));
    let lo_x: i64 = if lo_x < 0 { 0 } else { lo_x };
    let lo_y: i64 = if lo_y < 0 { 0 } else { lo_y };
    let hi_x: i64 = if hi_x >= 0 && hi_x as usize >= fb.w { (fb.w - 1) as i64 } else { hi_x };
    let hi_y: i64 = if hi_y >= 0 && hi_y as usize >= fb.h { (fb.h - 1) as i64 } else { hi_y };
    assert forall|x: int, y: int|
        in_frame(f0, x, y) && #[trigger] covers(v0, v1, v2, x, y) implies lo_x <= x <= hi_x && lo_y
        <= y <= hi_y by {
        lemma_covered_in_box(v0, v1, v2, x, y);
        lemma_center_in_span(
            x,
            min3(v0.x as int, v1.x as int, v2.x as int),
            max3(v0.x as int, v1.x as int, v2.x as int),
        );
        lemma_center_in_span(
            y,
            min3(v0.y as int, v1.y as int, v2.y as int),
            max3(v0.y as int, v1.y as int, v2.y as int),
        );
    }
    let mut y: i64 = lo_y;
    while y <= hi_y
        invariant
            0 <= lo_x,
            0 <= lo_y <= y,
            y <= (if lo_y > hi_y + 1 { lo_y as int } else { hi_y + 1 }),
            hi_x < f0.w,
            hi_y < f0.h,
            hi_x < 0x80_0000,
            hi_y < 0x80_0000,
            area == signed_area(v0, v1, v2),
            area != 0,
            -EDGE_BOUND <= area <= EDGE_BOUND,
            f0 == old(fb)@,
            forall|x: int, y: int|
                in_frame(f0, x, y) && #[trigger] covers(v0, v1, v2, x, y) ==> lo_x <= x <= hi_x
                    && lo_y <= y <= hi_y,
            fill_partial(f0, v0, v1, v2, rgb, fb@, lo_x as int, y as int),
        decreases hi_y + 1 - y,
    {
        let mut x: i64 = lo_x;
        while x <= hi_x
            invariant
                0 <= lo_x <= x,
                x <= (if lo_x > hi_x + 1 { lo_x as int } else { hi_x + 1 }),
                0 <= y <= hi_y,
                hi_x < f0.w,
                hi_y < f0.h,
                hi_x < 0x80_0000,
                hi_y < 0x80_0000,
                area == signed_area(v0, v1, v2),
                area != 0,
                -EDGE_BOUND <= area <= EDGE_BOUND,
                forall|x: int, y: int|
                    in_frame(f0, x, y) && #[trigger] covers(v0, v1, v2, x, y) ==> lo_x <= x <= hi_x
                        && lo_y <= y <= hi_y,
                fill_partial(f0, v0, v1, v2, rgb, fb@, x as int, y as int),
            decreases hi_x + 1 - x,
        {
            let px: i128 = x as i128 * 256 + 128;
            let py: i128 = y as i128 * 256 + 128;
            let w0 = edge(v1.x as i128, v1.y as i128, v2.x as i128, v2.y as i128, px, py);
            let w1 = edge(v2.x as i128, v2.y as i128, v0.x as i128, v0.y as i128, px, py);
            let w2 = edge(v0.x as i128, v0.y as i128, v1.x as i128, v1.y as i128, px, py);
            let inside = (w0 >= 0 && w1 >= 0 && w2 >= 0 && area > 0) || (w0 <= 0 && w1 <= 0 && w2
                <= 0 && area < 0);
            let ghost before = fb@;
            assert(px == center(x as int) && py == center(y as int));
            assert(inside == covers(v0, v1, v2, x as int, y as int));
            if inside {
                let (z0, z1, z2) = (v0.z as i128, v1.z as i128, v2.z as i128);
                assert(-0x8_0000_0000_0000_0000_0000_0000 <= w0 * z0 <= 0x8_0000_0000_0000_0000_0000_0000) by (nonlinear_arith)
                    requires
                        -EDGE_BOUND <= w0 <= EDGE_BOUND,
                        0 <= z0 <= 0xffff_ffff,
                ;
                assert(-0x8_0000_0000_0000_0000_0000_0000 <= w1 * z1 <= 0x8_0000_0000_0000_0000_0000_0000) by (nonlinear_arith)
                    requires
                        -EDGE_BOUND <= w1 <= EDGE_BOUND,
                        0 <= z1 <= 0xffff_ffff,
                ;
                assert(-0x8_0000_0000_0000_0000_0000_0000 <= w2 * z2 <= 0x8_0000_0000_0000_0000_0000_0000) by (nonlinear_arith)
                    requires
                        -EDGE_BOUND <= w2 <= EDGE_BOUND,
                        0 <= z2 <= 0xffff_ffff,
                ;
                let num: i128 = w0 * z0 + w1 * z1 + w2 * z2;
                proof {
                    lemma_depth_in_range(v0, v1, v2, x as int, y as int);
                    lemma_numerator_sign(v0, v1, v2, x as int, y as int);
                }
                let (nn, dd): (u128, u128) = if area < 0 {
                    ((0 - num) as u128, (0 - area) as u128)
                } else {
                    (num as u128, area as u128)
                };
                let q: u128 = nn / dd;
                assert(q == interp_depth(v0, v1, v2, x as int, y as int));
                fb.put_at(x as usize, y as usize, q as u32, rgb);
            }
            proof {
                lemma_fill_step(f0, v0, v1, v2, rgb, before, fb@, x as int, y as int);
            }
            x = x + 1;
        }
        assert forall|px: int, py: int| in_frame(f0, px, py) implies #[trigger] pixel_partial(
            f0,
            v0,
            v1,
            v2,
            rgb,
            fb@,
            lo_x as int,
            y + 1,
            px,
            py,
        ) by {
            assert(pixel_partial(f0, v0, v1, v2, rgb, fb@, x as int, y as int, px, py));
            if (py == y && px >= x) || (py == y + 1 && px < lo_x) {
                assert(!covers(v0, v1, v2, px, py));
            }
        }
        y = y + 1;
    }
    proof {
        lemma_fill_done(f0, v0, v1, v2, rgb, fb@, lo_x as int, y as int, hi_y as int);
        lemma_frame_from_pixels(f0, fb@, v0, v1, v2, rgb);
    }
}

#[verifier::spinoff_prover]
#[verifier::rlimit(60)]
proof fn lemma_fill_done(
    f0: FrameModel,
    a: ScreenVertex,
    b: ScreenVertex,
    c: ScreenVertex,
    rgb: u32,
    f: FrameModel,
    lo_x: int,
    y: int,
    hi_y: int,
)
    requires
        fill_partial(f0, a, b, c, rgb, f, lo_x, y),
        y > hi_y,
        forall|px: int, py: int|
            in_frame(f0, px, py) && #[trigger] covers(a, b, c, px, py) ==> lo_x <= px && py <= hi_y,
    ensures
        forall|px: int, py: int|
            in_frame(f0, px, py) ==> #[trigger] pixel_partial(f0, a, b, c, rgb, f, 0, f0.h as int, px, py),
{
    assert forall|px: int, py: int| in_frame(f0, px, py) implies #[trigger] pixel_partial(
        f0,
        a,
        b,
        c,
        rgb,
        f,
        0,
        f0.h as int,
        px,
        py,
    ) by {
        assert(pixel_partial(f0, a, b, c, rgb, f, lo_x, y, px, py));
        if py > hi_y || (py == y && px < lo_x) {
            assert(!covers(a, b, c, px, py));
        }
    }
}

} // verus!
