use crate::arith::{
    clamp, clamp_spec, floor_div, lemma_part_of, lemma_trunc_part_of, trunc_div, trunc_div_spec,
};
use crate::frame::{lemma_coords_of_index, lemma_index_in_frame, lemma_index_of_coords, pixel_index, PixelBuffer};
use crate::geometry::{PixColor, ScreenPoint, Surface};
use crate::texture::Texture;
use vstd::prelude::*;

verus! {

/// How one projected wall is painted: the sector's surface relation, the
/// texture repetition, the colour, and the pass (0 paints walls and records
/// the horizon, 1 fills up to the recorded horizon).
#[derive(Clone, Copy, Debug)]
pub struct WallPaint {
    pub surface: Surface,
    pub uv: [u32; 2],
    pub color: PixColor,
    pub pass: usize,
}

/// Row of the edge from `(x1, a)` to `(x2, b)` at column `x`, the offset
/// from `a` rounded towards zero.
pub open spec fn edge_row(a: int, b: int, x1: int, x2: int, x: int) -> int {
    let dx = if x2 == x1 {
        1
    } else {
        x2 - x1
    };
    trunc_div_spec((b - a) * (x - x1), dx) + a
}

/// The first column painted.
pub open spec fn first_col(p1: ScreenPoint, w: int) -> int {
    clamp_spec(p1.x as int, 0, w - 1)
}

/// The column past the last one painted.
pub open spec fn end_col(p2: ScreenPoint, w: int) -> int {
    clamp_spec(p2.x as int, 0, w - 1)
}

pub open spec fn raw_bottom(p1: ScreenPoint, p2: ScreenPoint, x: int) -> int {
    edge_row(p1.bottom as int, p2.bottom as int, p1.x as int, p2.x as int, x)
}

pub open spec fn raw_top(p1: ScreenPoint, p2: ScreenPoint, x: int) -> int {
    edge_row(p1.top as int, p2.top as int, p1.x as int, p2.x as int, x)
}

/// The wall's bottom edge at column `x`, kept on screen.
pub open spec fn bottom_row(p1: ScreenPoint, p2: ScreenPoint, h: int, x: int) -> int {
    clamp_spec(raw_bottom(p1, p2, x), 0, h - 1)
}

/// The wall's top edge at column `x`, kept on screen.
pub open spec fn top_row(p1: ScreenPoint, p2: ScreenPoint, h: int, x: int) -> int {
    clamp_spec(raw_top(p1, p2, x), 0, h - 1)
}

/// The rows `[lo, hi)` painted at column `x`; `xp` is the recorded horizon.
pub open spec fn span_rows(
    p1: ScreenPoint,
    p2: ScreenPoint,
    paint: WallPaint,
    h: int,
    xp: Seq<u32>,
    x: int,
) -> (int, int) {
    let lo = bottom_row(p1, p2, h, x);
    let hi = top_row(p1, p2, h, x);
    if paint.pass == 0 {
        (lo, hi)
    } else if paint.pass == 1 {
        match paint.surface {
            Surface::Bottom => (lo, xp[x] as int),
            Surface::Top => (xp[x] as int, hi),
            Surface::Normal => (lo, hi),
        }
    } else {
        (0, 0)
    }
}

/// Texture column at screen column `x`.
pub open spec fn tex_u(p1: ScreenPoint, p2: ScreenPoint, uv: [u32; 2], t: &Texture, x: int) -> int {
    ((x - p1.x) * (t.width * uv[0])) / (p2.x - p1.x)
}

/// Texture row at screen column `x`, row `y`.
pub open spec fn tex_v(
    p1: ScreenPoint,
    p2: ScreenPoint,
    uv: [u32; 2],
    t: &Texture,
    x: int,
    y: int,
) -> int {
    let b = raw_bottom(p1, p2, x);
    ((y - b) * (t.height * uv[1])) / (raw_top(p1, p2, x) - b)
}

/// The colour painted at `(x, y)`: the texture on the wall pass when one is
/// bound, else the paint's colour.
pub open spec fn span_color(
    p1: ScreenPoint,
    p2: ScreenPoint,
    paint: WallPaint,
    texture: Option<&Texture>,
    x: int,
    y: int,
) -> PixColor {
    if paint.pass == 0 && texture is Some {
        let t = texture->0;
        t.texel(tex_u(p1, p2, paint.uv, t, x), tex_v(p1, p2, paint.uv, t, x, y))
    } else {
        paint.color
    }
}

/// Whether the wall paints `(x, y)` of a `w` by `h` frame.
pub open spec fn is_painted(
    p1: ScreenPoint,
    p2: ScreenPoint,
    paint: WallPaint,
    w: int,
    h: int,
    xp: Seq<u32>,
    x: int,
    y: int,
) -> bool {
    &&& w > 0
    &&& h > 0
    &&& first_col(p1, w) <= x < end_col(p2, w)
    &&& span_rows(p1, p2, paint, h, xp, x).0 <= y < span_rows(p1, p2, paint, h, xp, x).1
}

/// The frame after painting the wall.
pub open spec fn painted_frame(
    frame: Seq<PixColor>,
    p1: ScreenPoint,
    p2: ScreenPoint,
    paint: WallPaint,
    texture: Option<&Texture>,
    w: int,
    h: int,
    xp: Seq<u32>,
) -> Seq<PixColor> {
    Seq::new(
        frame.len(),
        |k: int|
            if is_painted(p1, p2, paint, w, h, xp, k % w, k / w) {
                span_color(p1, p2, paint, texture, k % w, k / w)
            } else {
                frame[k]
            },
    )
}

/// The horizon after the wall: on the wall pass of a sector seen from
/// below (above), each painted column records the wall's bottom (top) row.
pub open spec fn horizon_after(
    xp: Seq<u32>,
    p1: ScreenPoint,
    p2: ScreenPoint,
    paint: WallPaint,
    w: int,
    h: int,
) -> Seq<u32> {
    Seq::new(
        xp.len(),
        |i: int|
            if w > 0 && h > 0 && paint.pass == 0 && first_col(p1, w) <= i < end_col(p2, w) {
                match paint.surface {
                    Surface::Bottom => bottom_row(p1, p2, h, i) as u32,
                    Surface::Top => top_row(p1, p2, h, i) as u32,
                    Surface::Normal => xp[i],
                }
            } else {
                xp[i]
            },
    )
}

/// Paints the screen columns between two projected wall edges, or, on the
/// second pass, the floor or ceiling between the wall and the horizon that
/// the first pass recorded in `x_points`.
pub fn draw_wall(
    p1: ScreenPoint,
    p2: ScreenPoint,
    paint: WallPaint,
    texture: Option<&Texture>,
    buffer: &mut PixelBuffer,
    x_points: &mut Vec<u32>,
)
    requires
        old(buffer).wf(),
        texture matches Some(t) ==> t.wf(),
        paint.surface != Surface::Normal ==> old(x_points)@.len() >= old(buffer).width,
    ensures
        final(buffer).wf(),
        final(buffer).width == old(buffer).width,
        final(buffer).height == old(buffer).height,
        final(buffer).pixels@ == painted_frame(
            old(buffer).pixels@,
            p1,
            p2,
            paint,
            texture,
            old(buffer).width as int,
            old(buffer).height as int,
            old(x_points)@,
        ),
        final(x_points)@ == horizon_after(
            old(x_points)@,
            p1,
            p2,
            paint,
            old(buffer).width as int,
            old(buffer).height as int,
        ),
{
    let ghost old_px = buffer.pixels@;
    let ghost old_xp = x_points@;
    let w = buffer.width;
    let h = buffer.height;
    let ghost wi = w as int;
    let ghost target = painted_frame(old_px, p1, p2, paint, texture, w as int, h as int, old_xp);
    let ghost horizon = horizon_after(old_xp, p1, p2, paint, w as int, h as int);
    if w == 0 || h == 0 {
        assert(buffer.pixels@ =~= target);
        assert(x_points@ =~= horizon);
        return ;
    }
    let last_row = h as i64 - 1;
    let dyb = p2.bottom as i64 - p1.bottom as i64;
    let dzb = p2.top as i64 - p1.top as i64;
    let mut dx = p2.x as i64 - p1.x as i64;
    if dx == 0 {
        dx = 1;
    }
    let x_start = clamp(p1.x as i64, 0, w as i64 - 1);
    let x_end = clamp(p2.x as i64, 0, w as i64 - 1);
    let mut x = x_start;
    while x < x_end
        invariant
            buffer.wf(),
            buffer.width == w,
            buffer.height == h,
            w > 0,
            h > 0,
            wi == w as int,
            x_start == first_col(p1, w as int),
            x_end == end_col(p2, w as int),
            x_start <= x,
            x <= x_end || x == x_start,
            0 <= x_start < w,
            0 <= x_end < w,
            last_row == h - 1,
            dyb == p2.bottom - p1.bottom,
            dzb == p2.top - p1.top,
            dx == (if p2.x == p1.x {
                1
            } else {
                p2.x - p1.x
            }),
            texture matches Some(t) ==> t.wf(),
            paint.surface != Surface::Normal ==> x_points@.len() >= w,
            x_points@.len() == old_xp.len(),
            buffer.pixels@.len() == old_px.len(),
            old_px.len() == w as int * h as int,
            target == painted_frame(old_px, p1, p2, paint, texture, w as int, h as int, old_xp),
            horizon == horizon_after(old_xp, p1, p2, paint, w as int, h as int),
            forall|k: int|
                0 <= k < old_px.len() ==> #[trigger] buffer.pixels@[k] == if k % wi < x {
                    target[k]
                } else {
                    old_px[k]
                },
            forall|i: int|
                0 <= i < old_xp.len() ==> #[trigger] x_points@[i] == if i < x {
                    horizon[i]
                } else {
                    old_xp[i]
                },
        decreases x_end - x,
    {
        let ghost xi = x as int;
        let t: i128 = x as i128 - p1.x as i128;
        proof {
            assert(p1.x <= x < p2.x);
            lemma_trunc_part_of(t as int, dx as int, dyb as int);
            lemma_trunc_part_of(t as int, dx as int, dzb as int);
            assert(-8589934592 * 8589934592 <= dyb * t <= 8589934592 * 8589934592)
                by (nonlinear_arith)
                requires
                    -8589934592 <= dyb <= 8589934592,
                    0 <= t <= 8589934592,
            ;
            assert(-8589934592 * 8589934592 <= dzb * t <= 8589934592 * 8589934592)
                by (nonlinear_arith)
                requires
                    -8589934592 <= dzb <= 8589934592,
                    0 <= t <= 8589934592,
            ;
            assert(t * dyb == dyb * t) by (nonlinear_arith);
            assert(t * dzb == dzb * t) by (nonlinear_arith);
        }
        let yb = trunc_div(dyb as i128 * t, dx as i128) as i64 + p1.bottom as i64;
        let yt = trunc_div(dzb as i128 * t, dx as i128) as i64 + p1.top as i64;
        assert(yb == raw_bottom(p1, p2, xi));
        assert(yt == raw_top(p1, p2, xi));
        let y1 = clamp(yb, 0, last_row);
        let y2 = clamp(yt, 0, last_row);
        let mut lo: i64 = y1;
        let mut hi: i64 = y2;
        if paint.pass == 0 {
            match paint.surface {
                Surface::Bottom => {
                    x_points.set(x as usize, y1 as u32);
                },
                Surface::Top => {
                    x_points.set(x as usize, y2 as u32);
                },
                Surface::Normal => {},
            }
        } else if paint.pass == 1 {
            match paint.surface {
                Surface::Bottom => {
                    hi = x_points[x as usize] as i64;
                },
                Surface::Top => {
                    lo = x_points[x as usize] as i64;
                },
                Surface::Normal => {},
            }
        } else {
            lo = 0;
            hi = 0;
        }
        assert(lo == span_rows(p1, p2, paint, h as int, old_xp, xi).0);
        assert(hi == span_rows(p1, p2, paint, h as int, old_xp, xi).1);
        let hi_c = if hi > h as i64 {
            h as i64
        } else {
            hi
        };
        let mut u: u64 = 0;
        if paint.pass == 0 {
            if let Some(tex) = texture {
                proof {
                    assert(tex.width as int * paint.uv[0] as int <= 0xffff_ffff * 0xffff_ffffint)
                        by (nonlinear_arith)
                        requires
                            tex.width <= 0xffff_ffffu32,
                            paint.uv[0] <= 0xffff_ffffu32,
                    ;
                }
                let span_w: i128 = tex.width as i128 * (paint.uv[0] as i128);
                proof {
                    lemma_part_of(t as int, dx as int, span_w as int);
                    assert(0 <= span_w <= 0xffff_ffff * 0xffff_ffffint) by (nonlinear_arith)
                        requires
                            span_w == tex.width * paint.uv[0],
                    ;
                    assert(t * span_w <= 8589934592 * (0xffff_ffff * 0xffff_ffffint))
                        by (nonlinear_arith)
                        requires
                            0 <= t <= 8589934592,
                            0 <= span_w <= 0xffff_ffff * 0xffff_ffffint,
                    ;
                }
                u = floor_div(t * span_w, dx as i128) as u64;
            }
        }
        let mut y = lo;
        proof {
            assert forall|k: int| 0 <= k < old_px.len() implies #[trigger] buffer.pixels@[k]
                == if k % wi < x || (k % wi == x && k / wi < y) {
                target[k]
            } else {
                old_px[k]
            } by {
                lemma_index_of_coords(wi, h as int, k);
                if k % wi == x && k / wi < lo {
                    assert(!is_painted(p1, p2, paint, wi, h as int, old_xp, xi, k / wi));
                }
            }
        }
        while y < hi_c
            invariant
                buffer.wf(),
                buffer.width == w,
                buffer.height == h,
                w > 0,
                h > 0,
                wi == w as int,
                lo <= y,
                y <= hi_c || y == lo,
                hi_c <= h,
                0 <= lo,
                first_col(p1, w as int) <= xi < end_col(p2, w as int),
                0 <= xi < w,
                xi == x,
                p1.x <= xi < p2.x,
                lo == span_rows(p1, p2, paint, h as int, old_xp, xi).0,
                hi == span_rows(p1, p2, paint, h as int, old_xp, xi).1,
                hi_c == (if hi > h {
                    h as i64
                } else {
                    hi
                }),
                yb == raw_bottom(p1, p2, xi),
                yt == raw_top(p1, p2, xi),
                i32::MIN <= yb <= i32::MAX,
                i32::MIN <= yt <= i32::MAX,
                y1 == clamp_spec(yb as int, 0, h - 1),
                y2 == clamp_spec(yt as int, 0, h - 1),
                paint.pass == 0 ==> lo == y1 && hi == y2,
                texture matches Some(tx) ==> tx.wf(),
                paint.pass == 0 && texture is Some ==> u == tex_u(
                    p1,
                    p2,
                    paint.uv,
                    texture->0,
                    xi,
                ),
                buffer.pixels@.len() == old_px.len(),
                old_px.len() == w as int * h as int,
                target == painted_frame(old_px, p1, p2, paint, texture, w as int, h as int, old_xp),
                forall|k: int|
                    0 <= k < old_px.len() ==> #[trigger] buffer.pixels@[k] == if k % wi < x || (k
                        % wi == x && k / wi < y) {
                        target[k]
                    } else {
                        old_px[k]
                    },
            decreases hi_c - y,
        {
            let mut c = paint.color;
            if paint.pass == 0 {
                if let Some(tex) = texture {
                    proof {
                        assert(tex.height as int * paint.uv[1] as int <= 0xffff_ffff
                            * 0xffff_ffffint) by (nonlinear_arith)
                            requires
                                tex.height <= 0xffff_ffffu32,
                                paint.uv[1] <= 0xffff_ffffu32,
                        ;
                    }
                    let s: i128 = y as i128 - yb as i128;
                    let span_h: i128 = tex.height as i128 * (paint.uv[1] as i128);
                    let rise: i128 = yt as i128 - yb as i128;
                    proof {
                        assert(yb <= y < yt);
                        lemma_part_of(s as int, rise as int, span_h as int);
                        assert(0 <= span_h <= 0xffff_ffff * 0xffff_ffffint) by (nonlinear_arith)
                            requires
                                span_h == tex.height * paint.uv[1],
                        ;
                        assert(0 <= s <= 8589934592);
                        assert(s * span_h <= 8589934592 * (0xffff_ffff * 0xffff_ffffint))
                            by (nonlinear_arith)
                            requires
                                0 <= s <= 8589934592,
                                0 <= span_h <= 0xffff_ffff * 0xffff_ffffint,
                        ;
                    }
                    let v = floor_div(s * span_h, rise) as u64;
                    c = tex.sample(u, v);
                }
            }
            let ghost before = buffer.pixels@;
            buffer.set_pixel(x as u32, y as u32, c);
            proof {
                lemma_coords_of_index(wi, xi, y as int);
                lemma_index_in_frame(wi, h as int, xi, y as int);
                assert(is_painted(p1, p2, paint, wi, h as int, old_xp, xi, y as int));
                assert(c == span_color(p1, p2, paint, texture, xi, y as int));
                assert forall|k: int| 0 <= k < old_px.len() implies #[trigger] buffer.pixels@[k]
                    == if k % wi < x || (k % wi == x && k / wi < y + 1) {
                    target[k]
                } else {
                    old_px[k]
                } by {
                    lemma_index_of_coords(wi, h as int, k);
                    if k == pixel_index(wi, xi, y as int) {
                        assert(buffer.pixels@[k] == c);
                    } else {
                        assert(buffer.pixels@[k] == before[k]);
                    }
                }
            }
            y += 1;
        }
        proof {
            assert forall|k: int| 0 <= k < old_px.len() implies #[trigger] buffer.pixels@[k]
                == if k % wi < x + 1 {
                target[k]
            } else {
                old_px[k]
            } by {
                lemma_index_of_coords(wi, h as int, k);
                if k % wi == x && k / wi >= y {
                    assert(!is_painted(p1, p2, paint, wi, h as int, old_xp, xi, k / wi));
                }
                if k % wi == x && k / wi < lo {
                    assert(!is_painted(p1, p2, paint, wi, h as int, old_xp, xi, k / wi));
                }
            }
        }
        x += 1;
    }
    proof {
        assert forall|k: int| 0 <= k < old_px.len() implies #[trigger] buffer.pixels@[k]
            == target[k] by {
            lemma_index_of_coords(wi, h as int, k);
        }
        assert(buffer.pixels@ =~= target);
        assert(x_points@ =~= horizon);
    }
}

/// A wall whose projected ends lie on a `w` by `h` screen is drawn as if
/// nothing were clamped: its columns run from its first end to its second,
/// and at each of them its edges keep their interpolated rows.
pub proof fn lemma_on_screen_wall_unclamped(p1: ScreenPoint, p2: ScreenPoint, w: int, h: int)
    requires
        0 <= p1.x < w,
        0 <= p2.x < w,
        0 <= p1.bottom < h,
        0 <= p2.bottom < h,
        0 <= p1.top < h,
        0 <= p2.top < h,
    ensures
        first_col(p1, w) == p1.x,
        end_col(p2, w) == p2.x,
        forall|x: int|
            p1.x <= x < p2.x ==> #[trigger] bottom_row(p1, p2, h, x) == raw_bottom(p1, p2, x)
                && top_row(p1, p2, h, x) == raw_top(p1, p2, x),
{
    assert forall|x: int| p1.x <= x < p2.x implies #[trigger] bottom_row(p1, p2, h, x) == raw_bottom(
        p1,
        p2,
        x,
    ) && top_row(p1, p2, h, x) == raw_top(p1, p2, x) by {
        let t = x - p1.x;
        let dx = p2.x - p1.x;
        let db = p2.bottom - p1.bottom;
        let dt = p2.top - p1.top;
        lemma_trunc_part_of(t, dx, db);
        lemma_trunc_part_of(t, dx, dt);
        assert(t * db == db * t) by (nonlinear_arith);
        assert(t * dt == dt * t) by (nonlinear_arith);
    }
}

/// On a sector seen from below, the wall pass records at each column it
/// paints the wall's bottom row, and the fill pass at that column paints up
/// to exactly that row.
pub proof fn lemma_fill_meets_recorded_horizon(
    p1: ScreenPoint,
    p2: ScreenPoint,
    q1: ScreenPoint,
    q2: ScreenPoint,
    uv: [u32; 2],
    wall_color: PixColor,
    fill_color: PixColor,
    xp: Seq<u32>,
    w: int,
    h: int,
    x: int,
)
    requires
        w > 0,
        0 < h <= u32::MAX,
        xp.len() >= w,
        first_col(p1, w) <= x < end_col(p2, w),
    ensures
        ({
            let wall_pass = WallPaint { surface: Surface::Bottom, uv, color: wall_color, pass: 0 };
            let fill_pass = WallPaint { surface: Surface::Bottom, uv, color: fill_color, pass: 1 };
            let recorded = horizon_after(xp, p1, p2, wall_pass, w, h);
            &&& recorded[x] == bottom_row(p1, p2, h, x)
            &&& span_rows(q1, q2, fill_pass, h, recorded, x).1 == bottom_row(p1, p2, h, x)
        }),
{
    let wall_pass = WallPaint { surface: Surface::Bottom, uv, color: wall_color, pass: 0 };
    let recorded = horizon_after(xp, p1, p2, wall_pass, w, h);
    assert(0 <= bottom_row(p1, p2, h, x) < h);
    assert(recorded[x] == bottom_row(p1, p2, h, x) as u32);
}

} // verus!
