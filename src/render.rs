use crate::arith::{is_isqrt, isqrt, sqrt_floor};
use crate::camera::{
    clip_behind, clipped, in_view, in_world, project, screen_coord, to_view, view_point, view_x,
    view_z, Camera, POS_ONE,
};
use crate::frame::PixelBuffer;
use crate::geometry::{PixColor, Point2, Point3, ScreenPoint, Surface, Wall};
use crate::raster::{draw_wall, horizon_after, painted_frame, WallPaint};
use crate::sector::{depths_descending, sort_back_to_front, Level, Sector};
use crate::texture::Texture;
use vstd::prelude::*;

verus! {

/// Where the camera stands relative to `s`.
pub open spec fn surface_of(cam: Camera, s: Sector) -> Surface {
    if cam.y < s.floor * POS_ONE {
        Surface::Bottom
    } else if cam.y > s.roof * POS_ONE {
        Surface::Top
    } else {
        Surface::Normal
    }
}

/// A sector whose heights and wall ends lie within the world's bounds.
pub open spec fn sector_in_world(s: Sector) -> bool {
    &&& in_world(s.floor as int)
    &&& in_world(s.roof as int)
    &&& forall|k: int|
        0 <= k < s.walls@.len() ==> {
            let w = #[trigger] s.walls@[k];
            &&& in_world(w.points[0].x as int)
            &&& in_world(w.points[0].y as int)
            &&& in_world(w.points[1].x as int)
            &&& in_world(w.points[1].y as int)
        }
}

/// The wall's ends in drawing order: reversed on the second pass.
pub open spec fn wall_ends(w: Wall, pass: int) -> (Point2, Point2) {
    if pass == 1 {
        (w.points[1], w.points[0])
    } else {
        (w.points[0], w.points[1])
    }
}

/// Projection of a camera-space bottom and top point pair.
pub open spec fn screen_point(b: Point3, t: Point3, w: int, h: int) -> ScreenPoint {
    ScreenPoint {
        x: screen_coord(b.x as int, b.z as int, w / 2) as i32,
        bottom: screen_coord(b.y as int, b.z as int, h / 2) as i32,
        top: screen_coord(t.y as int, t.z as int, h / 2) as i32,
    }
}

/// The wall on a `w` by `h` screen: its two projected edges, or `None` when
/// it lies wholly behind the camera.
pub open spec fn wall_screen(
    cam: Camera,
    wall: Wall,
    pass: int,
    floor: int,
    roof: int,
    w: int,
    h: int,
) -> Option<(ScreenPoint, ScreenPoint)> {
    let (e1, e2) = wall_ends(wall, pass);
    let b1 = view_point(cam, e1, floor);
    let b2 = view_point(cam, e2, floor);
    let t1 = view_point(cam, e1, roof);
    let t2 = view_point(cam, e2, roof);
    if b1.z < 1 && b2.z < 1 {
        None
    } else if b1.z < 1 {
        Some((screen_point(clipped(b1, b2), clipped(t1, t2), w, h), screen_point(b2, t2, w, h)))
    } else if b2.z < 1 {
        Some((screen_point(b1, t1, w, h), screen_point(clipped(b2, b1), clipped(t2, t1), w, h)))
    } else {
        Some((screen_point(b1, t1, w, h), screen_point(b2, t2, w, h)))
    }
}

/// The paint of a wall of `s` on `pass`: its own colour on the wall pass,
/// the roof or floor colour on the fill pass.
pub open spec fn wall_paint(s: Sector, surface: Surface, wall: Wall, pass: int) -> WallPaint {
    WallPaint {
        surface,
        uv: wall.uv,
        color: if pass == 0 {
            wall.color
        } else if surface == Surface::Top {
            s.roof_col
        } else {
            s.floor_col
        },
        pass: pass as usize,
    }
}

/// Frame and horizon after the first `k` walls of `s` on `pass`.
pub open spec fn walls_painted(
    frame: Seq<PixColor>,
    xp: Seq<u32>,
    cam: Camera,
    s: Sector,
    surface: Surface,
    pass: int,
    texture: Option<&Texture>,
    w: int,
    h: int,
    k: nat,
) -> (Seq<PixColor>, Seq<u32>)
    decreases k,
{
    if k == 0 {
        (frame, xp)
    } else {
        let prev = walls_painted(frame, xp, cam, s, surface, pass, texture, w, h, (k - 1) as nat);
        let wall = s.walls@[k - 1];
        match wall_screen(cam, wall, pass, s.floor as int, s.roof as int, w, h) {
            None => prev,
            Some((p1, p2)) => {
                let paint = wall_paint(s, surface, wall, pass);
                (
                    painted_frame(prev.0, p1, p2, paint, texture, w, h, prev.1),
                    horizon_after(prev.1, p1, p2, paint, w, h),
                )
            },
        }
    }
}

/// The horizon a sector starts its frame with.
pub open spec fn initial_horizon(s: Sector, surface: Surface, w: int, h: int) -> Seq<u32> {
    match surface {
        Surface::Bottom => Seq::new(w as nat, |i: int| h as u32),
        Surface::Top => Seq::new(w as nat, |i: int| 0u32),
        Surface::Normal => s.x_points@,
    }
}

/// Frame and horizon after drawing `s`: the wall pass, then, when the camera
/// is above or below the sector, the fill pass over the reversed walls.
pub open spec fn sector_frame(
    frame: Seq<PixColor>,
    cam: Camera,
    s: Sector,
    texture: Option<&Texture>,
    w: int,
    h: int,
) -> (Seq<PixColor>, Seq<u32>) {
    let surface = surface_of(cam, s);
    let n = s.walls@.len();
    let first = walls_painted(
        frame,
        initial_horizon(s, surface, w, h),
        cam,
        s,
        surface,
        0,
        texture,
        w,
        h,
        n,
    );
    if surface == Surface::Normal {
        first
    } else {
        walls_painted(first.0, first.1, cam, s, surface, 1, texture, w, h, n)
    }
}

/// Distance from the camera to the middle of the wall, rounded down.
pub open spec fn wall_depth(cam: Camera, wall: Wall) -> int {
    let a = wall.points[0];
    let b = wall.points[1];
    let mx = (view_x(cam, a) + view_x(cam, b)) / 2;
    let mz = (view_z(cam, a) + view_z(cam, b)) / 2;
    sqrt_floor(mx * mx + mz * mz)
}

pub open spec fn depth_sum(cam: Camera, walls: Seq<Wall>, k: nat) -> int
    decreases k,
{
    if k == 0 {
        0
    } else {
        depth_sum(cam, walls, (k - 1) as nat) + wall_depth(cam, walls[k - 1])
    }
}

/// The sector's sort key: the mean of its walls' depths, rounded down.
pub open spec fn sector_depth(cam: Camera, s: Sector) -> int {
    let n = s.walls@.len();
    if n == 0 {
        0
    } else {
        depth_sum(cam, s.walls@, n) / (n as int)
    }
}

/// `after` is `before` drawn for this frame: same geometry, new depth and
/// surface relation, and `xp` as its horizon.
pub open spec fn drawn_sector(before: Sector, after: Sector, cam: Camera, xp: Seq<u32>) -> bool {
    &&& after.walls@ == before.walls@
    &&& after.center == before.center
    &&& after.roof == before.roof
    &&& after.floor == before.floor
    &&& after.roof_col == before.roof_col
    &&& after.floor_col == before.floor_col
    &&& after.depth == sector_depth(cam, before)
    &&& after.surface == surface_of(cam, before)
    &&& after.x_points@ == xp
}

/// The frame after drawing the first `k` sectors of `ss` in order.
pub open spec fn sectors_frame(
    frame: Seq<PixColor>,
    ss: Seq<Sector>,
    cam: Camera,
    texture: Option<&Texture>,
    w: int,
    h: int,
    k: nat,
) -> Seq<PixColor>
    decreases k,
{
    if k == 0 {
        frame
    } else {
        sector_frame(
            sectors_frame(frame, ss, cam, texture, w, h, (k - 1) as nat),
            cam,
            ss[k - 1],
            texture,
            w,
            h,
        ).0
    }
}

/// Projects one wall of a sector for `pass`, clipping it at the near plane.
fn wall_to_screen(cam: &Camera, wall: &Wall, pass: usize, floor: i64, roof: i64, w: u32, h: u32) -> (r:
    Option<(ScreenPoint, ScreenPoint)>)
    requires
        cam.wf(),
        in_world(floor as int),
        in_world(roof as int),
        in_world(wall.points[0].x as int),
        in_world(wall.points[0].y as int),
        in_world(wall.points[1].x as int),
        in_world(wall.points[1].y as int),
    ensures
        r == wall_screen(*cam, *wall, pass as int, floor as int, roof as int, w as int, h as int),
{
    let (e1, e2) = if pass == 1 {
        (wall.points[1], wall.points[0])
    } else {
        (wall.points[0], wall.points[1])
    };
    let mut b1 = to_view(cam, e1, floor);
    let mut b2 = to_view(cam, e2, floor);
    let mut t1 = to_view(cam, e1, roof);
    let mut t2 = to_view(cam, e2, roof);
    if b1.z < 1 && b2.z < 1 {
        return None;
    }
    if b1.z < 1 {
        clip_behind(&mut b1, &b2);
        clip_behind(&mut t1, &t2);
    } else if b2.z < 1 {
        clip_behind(&mut b2, &b1);
        clip_behind(&mut t2, &t1);
    }
    let half_w = (w / 2) as i64;
    let half_h = (h / 2) as i64;
    let (x1, y1) = project(b1, half_w, half_h);
    let (_, y3) = project(t1, half_w, half_h);
    let (x2, y2) = project(b2, half_w, half_h);
    let (_, y4) = project(t2, half_w, half_h);
    Some((ScreenPoint { x: x1, bottom: y1, top: y3 }, ScreenPoint { x: x2, bottom: y2, top: y4 }))
}

/// Depth of one wall: distance to its middle in camera space.
fn wall_depth_of(cam: &Camera, wall: &Wall) -> (r: u64)
    requires
        cam.wf(),
        in_world(wall.points[0].x as int),
        in_world(wall.points[0].y as int),
        in_world(wall.points[1].x as int),
        in_world(wall.points[1].y as int),
    ensures
        r == wall_depth(*cam, *wall),
        r < 536870912,
{
    let a = to_view(cam, wall.points[0], 0);
    let b = to_view(cam, wall.points[1], 0);
    let mx = crate::arith::floor_div(a.x as i128 + b.x as i128, 2) as i64;
    let mz = crate::arith::floor_div(a.z as i128 + b.z as i128, 2) as i64;
    proof {
        crate::arith::lemma_div_within(a.x as int + b.x as int, 2, 268435456);
        crate::arith::lemma_div_within(a.z as int + b.z as int, 2, 268435456);
        assert(mx * mx <= 268435456 * 268435456) by (nonlinear_arith)
            requires
                -268435456 <= mx <= 268435456,
        ;
        assert(mz * mz <= 268435456 * 268435456) by (nonlinear_arith)
            requires
                -268435456 <= mz <= 268435456,
        ;
        assert(mx * mx >= 0) by (nonlinear_arith);
        assert(mz * mz >= 0) by (nonlinear_arith);
    }
    let sq = (mx * mx + mz * mz) as u64;
    let r = isqrt(sq);
    proof {
        if r >= 536870912 {
            assert(r * r >= 536870912 * 536870912) by (nonlinear_arith)
                requires
                    r >= 536870912,
            ;
        }
    }
    r
}

/// Sectors with the same walls, heights and colours draw alike.
pub proof fn lemma_walls_painted_shape(
    frame: Seq<PixColor>,
    xp: Seq<u32>,
    cam: Camera,
    s1: Sector,
    s2: Sector,
    surface: Surface,
    pass: int,
    texture: Option<&Texture>,
    w: int,
    h: int,
    k: nat,
)
    requires
        s1.walls@ == s2.walls@,
        s1.floor == s2.floor,
        s1.roof == s2.roof,
        s1.roof_col == s2.roof_col,
        s1.floor_col == s2.floor_col,
    ensures
        walls_painted(frame, xp, cam, s1, surface, pass, texture, w, h, k) == walls_painted(
            frame,
            xp,
            cam,
            s2,
            surface,
            pass,
            texture,
            w,
            h,
            k,
        ),
    decreases k,
{
    if k > 0 {
        lemma_walls_painted_shape(frame, xp, cam, s1, s2, surface, pass, texture, w, h, (k - 1) as nat);
    }
}

/// A horizon of `len` columns, each `value`.
fn filled_horizon(len: u32, value: u32) -> (r: Vec<u32>)
    ensures
        r@ == Seq::new(len as nat, |i: int| value),
{
    let mut v: Vec<u32> = Vec::new();
    let mut i: u32 = 0;
    while i < len
        invariant
            i <= len,
            v@ == Seq::new(i as nat, |j: int| value),
        decreases len - i,
    {
        v.push(value);
        i += 1;
        assert(v@ =~= Seq::new(i as nat, |j: int| value));
    }
    v
}

/// Draws every wall of `sector` for `pass`, skipping those wholly behind
/// the camera.
fn paint_walls(
    sector: &mut Sector,
    cam: &Camera,
    buffer: &mut PixelBuffer,
    texture: Option<&Texture>,
    surface: Surface,
    pass: usize,
)
    requires
        cam.wf(),
        sector_in_world(*old(sector)),
        old(buffer).wf(),
        texture matches Some(t) ==> t.wf(),
        surface != Surface::Normal ==> old(sector).x_points@.len() >= old(buffer).width,
        pass <= 1,
    ensures
        final(buffer).wf(),
        final(buffer).width == old(buffer).width,
        final(buffer).height == old(buffer).height,
        final(sector).walls@ == old(sector).walls@,
        final(sector).center == old(sector).center,
        final(sector).depth == old(sector).depth,
        final(sector).roof == old(sector).roof,
        final(sector).floor == old(sector).floor,
        final(sector).roof_col == old(sector).roof_col,
        final(sector).floor_col == old(sector).floor_col,
        final(sector).surface == old(sector).surface,
        final(sector).x_points@.len() == old(sector).x_points@.len(),
        (final(buffer).pixels@, final(sector).x_points@) == walls_painted(
            old(buffer).pixels@,
            old(sector).x_points@,
            *cam,
            *old(sector),
            surface,
            pass as int,
            texture,
            old(buffer).width as int,
            old(buffer).height as int,
            old(sector).walls@.len(),
        ),
{
    let ghost s0 = *sector;
    let ghost px0 = buffer.pixels@;
    let ghost xp0 = sector.x_points@;
    let w = buffer.width;
    let h = buffer.height;
    let n = sector.walls.len();
    let mut k: usize = 0;
    while k < n
        invariant
            k <= n,
            n == s0.walls@.len(),
            cam.wf(),
            sector_in_world(s0),
            buffer.wf(),
            buffer.width == w,
            buffer.height == h,
            texture matches Some(t) ==> t.wf(),
            surface != Surface::Normal ==> sector.x_points@.len() >= w,
            pass <= 1,
            sector.walls@ == s0.walls@,
            sector.center == s0.center,
            sector.depth == s0.depth,
            sector.roof == s0.roof,
            sector.floor == s0.floor,
            sector.roof_col == s0.roof_col,
            sector.floor_col == s0.floor_col,
            sector.surface == s0.surface,
            sector.x_points@.len() == xp0.len(),
            (buffer.pixels@, sector.x_points@) == walls_painted(
                px0,
                xp0,
                *cam,
                s0,
                surface,
                pass as int,
                texture,
                w as int,
                h as int,
                k as nat,
            ),
        decreases n - k,
    {
        let wall = sector.walls[k];
        assert(wall == s0.walls@[k as int]);
        let screen = wall_to_screen(cam, &wall, pass, sector.floor, sector.roof, w, h);
        match screen {
            Some((p1, p2)) => {
                let color = if pass == 0 {
                    wall.color
                } else if surface == Surface::Top {
                    sector.roof_col
                } else {
                    sector.floor_col
                };
                let paint = WallPaint { surface, uv: wall.uv, color, pass };
                assert(paint == wall_paint(s0, surface, wall, pass as int));
                draw_wall(p1, p2, paint, texture, buffer, &mut sector.x_points);
            },
            None => {},
        }
        k += 1;
    }
}

/// Draws `sector` for this frame: records its depth and surface relation,
/// resets its horizon, paints its walls, and, when the camera is above or
/// below it, fills its ceiling or floor on a second pass.
pub fn render_sector(
    sector: &mut Sector,
    cam: &Camera,
    buffer: &mut PixelBuffer,
    texture: Option<&Texture>,
)
    requires
        cam.wf(),
        sector_in_world(*old(sector)),
        old(buffer).wf(),
        texture matches Some(t) ==> t.wf(),
    ensures
        final(buffer).wf(),
        final(buffer).width == old(buffer).width,
        final(buffer).height == old(buffer).height,
        (final(buffer).pixels@, final(sector).x_points@) == sector_frame(
            old(buffer).pixels@,
            *cam,
            *old(sector),
            texture,
            old(buffer).width as int,
            old(buffer).height as int,
        ),
        drawn_sector(
            *old(sector),
            *final(sector),
            *cam,
            sector_frame(
                old(buffer).pixels@,
                *cam,
                *old(sector),
                texture,
                old(buffer).width as int,
                old(buffer).height as int,
            ).1,
        ),
{
    let ghost s0 = *sector;
    let ghost px0 = buffer.pixels@;
    let w = buffer.width;
    let h = buffer.height;
    let n = sector.walls.len();
    let mut sum: u128 = 0;
    let mut k: usize = 0;
    while k < n
        invariant
            k <= n,
            n == s0.walls@.len(),
            cam.wf(),
            sector_in_world(s0),
            *sector == s0,
            sum == depth_sum(*cam, s0.walls@, k as nat),
            sum <= k * 536870912,
        decreases n - k,
    {
        let wall = sector.walls[k];
        let d = wall_depth_of(cam, &wall);
        sum = sum + d as u128;
        k += 1;
    }
    sector.depth = if n == 0 {
        0
    } else {
        proof {
            assert(sum / (n as u128) <= sum) by (nonlinear_arith)
                requires
                    n >= 1,
                    sum >= 0,
            ;
            assert(sum / (n as u128) <= 536870912) by (nonlinear_arith)
                requires
                    sum <= n * 536870912,
                    n >= 1,
            ;
        }
        (sum / (n as u128)) as u64
    };
    let surface = if cam.y < sector.floor * POS_ONE {
        Surface::Bottom
    } else if cam.y > sector.roof * POS_ONE {
        Surface::Top
    } else {
        Surface::Normal
    };
    sector.surface = surface;
    match surface {
        Surface::Bottom => {
            sector.x_points = filled_horizon(w, h);
        },
        Surface::Top => {
            sector.x_points = filled_horizon(w, 0);
        },
        Surface::Normal => {},
    }
    let ghost s1 = *sector;
    assert(s1.x_points@ == initial_horizon(s0, surface, w as int, h as int));
    paint_walls(sector, cam, buffer, texture, surface, 0);
    proof {
        lemma_walls_painted_shape(
            px0,
            s1.x_points@,
            *cam,
            s1,
            s0,
            surface,
            0,
            texture,
            w as int,
            h as int,
            n as nat,
        );
    }
    if surface != Surface::Normal {
        let ghost s2 = *sector;
        let ghost px1 = buffer.pixels@;
        paint_walls(sector, cam, buffer, texture, surface, 1);
        proof {
            lemma_walls_painted_shape(
                px1,
                s2.x_points@,
                *cam,
                s2,
                s0,
                surface,
                1,
                texture,
                w as int,
                h as int,
                n as nat,
            );
        }
    }
}

/// Draws the sectors of `sectors` in their current order.
pub fn render_sectors(
    sectors: &mut Vec<Sector>,
    cam: &Camera,
    buffer: &mut PixelBuffer,
    texture: Option<&Texture>,
)
    requires
        cam.wf(),
        forall|i: int| 0 <= i < old(sectors)@.len() ==> sector_in_world(#[trigger] old(sectors)@[i]),
        old(buffer).wf(),
        texture matches Some(t) ==> t.wf(),
    ensures
        final(buffer).wf(),
        final(buffer).width == old(buffer).width,
        final(buffer).height == old(buffer).height,
        final(sectors)@.len() == old(sectors)@.len(),
        final(buffer).pixels@ == sectors_frame(
            old(buffer).pixels@,
            old(sectors)@,
            *cam,
            texture,
            old(buffer).width as int,
            old(buffer).height as int,
            old(sectors)@.len(),
        ),
        forall|i: int|
            0 <= i < old(sectors)@.len() ==> drawn_sector(
                #[trigger] old(sectors)@[i],
                final(sectors)@[i],
                *cam,
                sector_frame(
                    sectors_frame(
                        old(buffer).pixels@,
                        old(sectors)@,
                        *cam,
                        texture,
                        old(buffer).width as int,
                        old(buffer).height as int,
                        i as nat,
                    ),
                    *cam,
                    old(sectors)@[i],
                    texture,
                    old(buffer).width as int,
                    old(buffer).height as int,
                ).1,
            ),
{
    let ghost ss = sectors@;
    let ghost px0 = buffer.pixels@;
    let w = buffer.width;
    let h = buffer.height;
    let n = sectors.len();
    let mut i: usize = 0;
    while i < n
        invariant
            i <= n,
            n == ss.len(),
            sectors@.len() == n,
            cam.wf(),
            forall|j: int| 0 <= j < n ==> sector_in_world(#[trigger] ss[j]),
            buffer.wf(),
            buffer.width == w,
            buffer.height == h,
            texture matches Some(t) ==> t.wf(),
            buffer.pixels@ == sectors_frame(px0, ss, *cam, texture, w as int, h as int, i as nat),
            forall|j: int| i <= j < n ==> #[trigger] sectors@[j] == ss[j],
            forall|j: int|
                0 <= j < i ==> drawn_sector(
                    #[trigger] ss[j],
                    sectors@[j],
                    *cam,
                    sector_frame(
                        sectors_frame(px0, ss, *cam, texture, w as int, h as int, j as nat),
                        *cam,
                        ss[j],
                        texture,
                        w as int,
                        h as int,
                    ).1,
                ),
        decreases n - i,
    {
        let mut current = sectors.remove(i);
        assert(current == ss[i as int]);
        render_sector(&mut current, cam, buffer, texture);
        sectors.insert(i, current);
        i += 1;
    }
}

/// Draws one frame of `level` seen from `cam`: orders the sectors back to
/// front by the depths of the previous frame, then draws them in that
/// order, each recording its new depth.
pub fn render(level: &mut Level, cam: &Camera, buffer: &mut PixelBuffer, texture: Option<&Texture>)
    requires
        cam.wf(),
        forall|i: int|
            0 <= i < old(level).sectors@.len() ==> sector_in_world(#[trigger] old(level).sectors@[i]),
        old(buffer).wf(),
        texture matches Some(t) ==> t.wf(),
    ensures
        final(buffer).wf(),
        final(buffer).width == old(buffer).width,
        final(buffer).height == old(buffer).height,
        final(level).sectors@.len() == old(level).sectors@.len(),
        exists|ordered: Seq<Sector>|
            {
                &&& ordered.to_multiset() == old(level).sectors@.to_multiset()
                &&& ordered.len() == final(level).sectors@.len()
                &&& depths_descending(ordered)
                &&& final(buffer).pixels@ == sectors_frame(
                    old(buffer).pixels@,
                    ordered,
                    *cam,
                    texture,
                    old(buffer).width as int,
                    old(buffer).height as int,
                    ordered.len(),
                )
                &&& forall|i: int|
                    0 <= i < ordered.len() ==> drawn_sector(
                        #[trigger] ordered[i],
                        final(level).sectors@[i],
                        *cam,
                        sector_frame(
                            sectors_frame(
                                old(buffer).pixels@,
                                ordered,
                                *cam,
                                texture,
                                old(buffer).width as int,
                                old(buffer).height as int,
                                i as nat,
                            ),
                            *cam,
                            ordered[i],
                            texture,
                            old(buffer).width as int,
                            old(buffer).height as int,
                        ).1,
                    )
            },
{
    let ghost before = level.sectors@;
    sort_back_to_front(&mut level.sectors);
    let ghost ordered = level.sectors@;
    proof {
        assert forall|i: int| 0 <= i < ordered.len() implies sector_in_world(#[trigger] ordered[i]) by {
            assert(ordered.contains(ordered[i]));
            vstd::seq_lib::to_multiset_contains(ordered, ordered[i]);
            vstd::seq_lib::to_multiset_contains(before, ordered[i]);
            let j = choose|j: int| 0 <= j < before.len() && before[j] == ordered[i];
            assert(sector_in_world(before[j]));
        }
    }
    render_sectors(&mut level.sectors, cam, buffer, texture);
    proof {
        vstd::seq_lib::to_multiset_len(ordered);
        vstd::seq_lib::to_multiset_len(before);
    }
}

} // verus!
