//! One frame of drawing: clear, drop triangles that reach behind the near
//! depth or wind the wrong way on screen, and fill the rest.

use vstd::prelude::*;
use crate::obj::Corner;
use crate::raster::{
    cleared, edge_spec, fill_frame, fill_triangle_z, frame_wf, Frame, FrameModel, FAR, ScreenVertex,
};

verus! {

/// The 2D winding of screen points `p0 p1 p2`: positive when `p1 - p0`
/// turns toward `p2 - p0` with `y` growing downward.
pub open spec fn winding(p0: (i32, i32), p1: (i32, i32), p2: (i32, i32)) -> int {
    edge_spec(p0.0 as int, p0.1 as int, p2.0 as int, p2.1 as int, p1.0 as int, p1.1 as int)
}

/// A triangle is drawn when every corner's depth lies in `(near, FAR]` and its
/// screen winding is positive.
pub open spec fn visible_spec(
    p0: (i32, i32),
    p1: (i32, i32),
    p2: (i32, i32),
    d0: i64,
    d1: i64,
    d2: i64,
    near: i64,
) -> bool {
    &&& near < d0 <= FAR
    &&& near < d1 <= FAR
    &&& near < d2 <= FAR
    &&& winding(p0, p1, p2) > 0
}

/// Decides whether a projected triangle is drawn; see `visible_spec`.
pub fn triangle_visible(
    p0: (i32, i32),
    p1: (i32, i32),
    p2: (i32, i32),
    d0: i64,
    d1: i64,
    d2: i64,
    near: i64,
) -> (r: bool)
    ensures
        r == visible_spec(p0, p1, p2, d0, d1, d2, near),
{
    if d0 <= near || d1 <= near || d2 <= near {
        return false;
    }
    if d0 > FAR as i64 || d1 > FAR as i64 || d2 > FAR as i64 {
        return false;
    }
    proof {
        reveal(edge_spec);
    }
    let ax = p1.0 as i128 - p0.0 as i128;
    let ay = p1.1 as i128 - p0.1 as i128;
    let bx = p2.0 as i128 - p0.0 as i128;
    let by = p2.1 as i128 - p0.1 as i128;
    assert(-0x1_0000_0000_0000_0000 <= ax * by <= 0x1_0000_0000_0000_0000) by (nonlinear_arith)
        requires
            -0x1_0000_0000 <= ax <= 0x1_0000_0000,
            -0x1_0000_0000 <= by <= 0x1_0000_0000,
    ;
    assert(-0x1_0000_0000_0000_0000 <= ay * bx <= 0x1_0000_0000_0000_0000) by (nonlinear_arith)
        requires
            -0x1_0000_0000 <= ay <= 0x1_0000_0000,
            -0x1_0000_0000 <= bx <= 0x1_0000_0000,
    ;
    ax * by - ay * bx > 0
}

/// The screen corner for a projected point and its depth.
pub open spec fn corner_vertex(p: (i32, i32), d: i64) -> ScreenVertex {
    ScreenVertex { x: p.0, y: p.1, z: d as u32 }
}

/// The frame after drawing, on top of `f`, the first `t` groups of three
/// corners of `indices`, each filled only when `visible_spec` accepts it.
pub open spec fn draw_from(
    f: FrameModel,
    indices: Seq<Corner>,
    screen: Seq<(i32, i32)>,
    depths: Seq<i64>,
    near: i64,
    rgb: u32,
    t: nat,
) -> FrameModel
    decreases t,
{
    if t == 0 {
        f
    } else {
        let g = draw_from(f, indices, screen, depths, near, rgb, (t - 1) as nat);
        let k = 3 * (t - 1);
        let (i0, i1, i2) = (indices[k].0 as int, indices[k + 1].0 as int, indices[k + 2].0 as int);
        if visible_spec(screen[i0], screen[i1], screen[i2], depths[i0], depths[i1], depths[i2], near) {
            fill_frame(
                g,
                corner_vertex(screen[i0], depths[i0]),
                corner_vertex(screen[i1], depths[i1]),
                corner_vertex(screen[i2], depths[i2]),
                rgb,
            )
        } else {
            g
        }
    }
}

/// Clears `fb` to `background`, then fills, in order, each whole group of
/// three corners in `indices` that `triangle_visible` accepts, using the
/// projected point `screen[i]` and depth `depths[i]` of each corner's position.
pub fn draw_mesh(
    fb: &mut Frame,
    indices: &Vec<Corner>,
    screen: &Vec<(i32, i32)>,
    depths: &Vec<i64>,
    near: i64,
    background: u32,
    rgb: u32,
)
    requires
        frame_wf(old(fb)@),
        0 <= near,
        depths@.len() == screen@.len(),
        forall|k: int| 0 <= k < indices@.len() ==> (#[trigger] indices@[k]).0 < screen@.len(),
    ensures
        frame_wf(final(fb)@),
        final(fb)@.w == old(fb)@.w,
        final(fb)@.h == old(fb)@.h,
        final(fb)@ == draw_from(
            cleared(old(fb)@, background),
            indices@,
            screen@,
            depths@,
            near,
            rgb,
            (indices@.len() / 3) as nat,
        ),
{
    fb.clear(background);
    let ghost start = fb@;
    let len = indices.len();
    let n = len / 3;
    let mut t: usize = 0;
    let mut base: usize = 0;
    while t < n
        invariant
            t <= n,
            base == 3 * t,
            0 <= near,
            len == indices@.len(),
            n == len / 3,
            frame_wf(fb@),
            fb@.w == old(fb)@.w,
            fb@.h == old(fb)@.h,
            start == cleared(old(fb)@, background),
            fb@ == draw_from(start, indices@, screen@, depths@, near, rgb, t as nat),
            depths@.len() == screen@.len(),
            forall|k: int| 0 <= k < indices@.len() ==> (#[trigger] indices@[k]).0 < screen@.len(),
        decreases n - t,
    {
        proof {
            vstd::arithmetic::div_mod::lemma_fundamental_div_mod(indices@.len() as int, 3);
            vstd::arithmetic::div_mod::lemma_mod_bound(indices@.len() as int, 3);
            assert(base + 2 < indices@.len());
        }
        let i0 = indices[base].0 as usize;
        let i1 = indices[base + 1].0 as usize;
        let i2 = indices[base + 2].0 as usize;
        let (d0, d1, d2) = (depths[i0], depths[i1], depths[i2]);
        if triangle_visible(screen[i0], screen[i1], screen[i2], d0, d1, d2, near) {
            let v0 = ScreenVertex { x: screen[i0].0, y: screen[i0].1, z: d0 as u32 };
            let v1 = ScreenVertex { x: screen[i1].0, y: screen[i1].1, z: d1 as u32 };
            let v2 = ScreenVertex { x: screen[i2].0, y: screen[i2].1, z: d2 as u32 };
            assert(v0 == corner_vertex(screen@[i0 as int], d0));
            assert(v1 == corner_vertex(screen@[i1 as int], d1));
            assert(v2 == corner_vertex(screen@[i2 as int], d2));
            fill_triangle_z(fb, v0, v1, v2, rgb);
        }
        assert(fb@ == draw_from(start, indices@, screen@, depths@, near, rgb, (t + 1) as nat));
        t = t + 1;
        base = base + 3;
    }
}

} // verus!
