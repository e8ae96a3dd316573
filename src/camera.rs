use crate::arith::{
    clamp, clamp_spec, floor_div, lemma_div_within, lemma_part_of, lemma_trunc_within, trunc_div,
    trunc_div_spec,
};
use crate::geometry::{Point2, Point3};
use vstd::prelude::*;

verus! {

/// Largest magnitude of a world coordinate or height, in world units.
pub const WORLD_LIMIT: i64 = 65536;

/// The fixed-point scale of camera positions and of camera space: `POS_ONE`
/// is one world unit.
pub const POS_ONE: i64 = 16;

/// Largest magnitude of a camera position coordinate, in `1 / POS_ONE`
/// units: the same span as `WORLD_LIMIT`.
pub const POS_LIMIT: i64 = 1048576;

/// Largest magnitude of a camera-space coordinate, in `1 / POS_ONE` units.
pub const VIEW_LIMIT: i64 = 134217728;

/// The fixed-point scale of the camera's cosine and sine: `TRIG_ONE` is 1.
pub const TRIG_ONE: i64 = 1024;

/// Largest magnitude of the camera's pitch, in degrees.
pub const PITCH_LIMIT: i64 = 360;

/// Pitch is approximated by shearing: a point at depth `z` moves up by
/// `pitch * z / PITCH_SHEAR`.
pub const PITCH_SHEAR: i64 = 32;

/// Perspective scale: a point at depth `FOV_SCALE` projects at unit scale.
pub const FOV_SCALE: i64 = 200;

pub open spec fn in_world(v: int) -> bool {
    -WORLD_LIMIT <= v <= WORLD_LIMIT
}

pub open spec fn in_reach(v: int) -> bool {
    -POS_LIMIT <= v <= POS_LIMIT
}

pub open spec fn in_view(v: int) -> bool {
    -VIEW_LIMIT <= v <= VIEW_LIMIT
}

pub open spec fn point_in_view(p: Point3) -> bool {
    in_view(p.x as int) && in_view(p.y as int) && in_view(p.z as int)
}

/// The viewer: position in `1 / POS_ONE` world units (`y` is height), yaw as
/// a fixed-point cosine and sine, and pitch in degrees.
#[derive(Clone, Copy, Debug)]
pub struct Camera {
    pub x: i64,
    pub y: i64,
    pub z: i64,
    pub cos: i64,
    pub sin: i64,
    pub pitch: i64,
}

impl Camera {
    pub open spec fn wf(&self) -> bool {
        &&& in_reach(self.x as int)
        &&& in_reach(self.y as int)
        &&& in_reach(self.z as int)
        &&& -TRIG_ONE <= self.cos <= TRIG_ONE
        &&& -TRIG_ONE <= self.sin <= TRIG_ONE
        &&& -PITCH_LIMIT <= self.pitch <= PITCH_LIMIT
    }
}

/// Camera-space `x` of the floor point `p`: translated by the camera
/// position, then rotated by its yaw.
pub open spec fn view_x(cam: Camera, p: Point2) -> int {
    ((p.x * POS_ONE - cam.x) * cam.cos - (p.y * POS_ONE - cam.z) * cam.sin) / (TRIG_ONE as int)
}

/// Camera-space depth of the floor point `p`.
pub open spec fn view_z(cam: Camera, p: Point2) -> int {
    ((p.y * POS_ONE - cam.z) * cam.cos + (p.x * POS_ONE - cam.x) * cam.sin) / (TRIG_ONE as int)
}

/// Camera-space `y` of the height `height` at depth `z`, with the pitch
/// shear.
pub open spec fn view_y(cam: Camera, height: int, z: int) -> int {
    height * POS_ONE - cam.y + (cam.pitch * z) / (PITCH_SHEAR as int)
}

/// The camera-space point of floor point `p` raised to `height`.
pub open spec fn view_point(cam: Camera, p: Point2, height: int) -> Point3 {
    Point3 {
        x: view_x(cam, p) as i64,
        y: view_y(cam, height, view_z(cam, p)) as i64,
        z: view_z(cam, p) as i64,
    }
}

/// Moves floor point `p`, raised to `height`, into camera space.
pub fn to_view(cam: &Camera, p: Point2, height: i64) -> (r: Point3)
    requires
        cam.wf(),
        in_world(p.x as int),
        in_world(p.y as int),
        in_world(height as int),
    ensures
        r.x == view_x(*cam, p),
        r.z == view_z(*cam, p),
        r.y == view_y(*cam, height as int, view_z(*cam, p)),
        r == view_point(*cam, p, height as int),
        point_in_view(r),
{
    let rx = p.x * POS_ONE - cam.x;
    let rz = p.y * POS_ONE - cam.z;
    proof {
        let m = 2097152int;
        assert(-m * 1024 <= rx * cam.cos <= m * 1024) by (nonlinear_arith)
            requires
                -m <= rx <= m,
                -1024 <= cam.cos <= 1024,
        ;
        assert(-m * 1024 <= rz * cam.sin <= m * 1024) by (nonlinear_arith)
            requires
                -m <= rz <= m,
                -1024 <= cam.sin <= 1024,
        ;
        assert(-m * 1024 <= rz * cam.cos <= m * 1024) by (nonlinear_arith)
            requires
                -m <= rz <= m,
                -1024 <= cam.cos <= 1024,
        ;
        assert(-m * 1024 <= rx * cam.sin <= m * 1024) by (nonlinear_arith)
            requires
                -m <= rx <= m,
                -1024 <= cam.sin <= 1024,
        ;
    }
    let nx = rx * cam.cos - rz * cam.sin;
    let nz = rz * cam.cos + rx * cam.sin;
    let x = floor_div(nx as i128, TRIG_ONE as i128);
    let z = floor_div(nz as i128, TRIG_ONE as i128);
    proof {
        lemma_div_within(nx as int, 1024, 4294967296);
        lemma_div_within(nz as int, 1024, 4294967296);
        assert(-4194304 <= x <= 4194304);
        assert(-4194304 <= z <= 4194304);
        assert(-1509949440 <= cam.pitch * z <= 1509949440) by (nonlinear_arith)
            requires
                -4194304 <= z <= 4194304,
                -360 <= cam.pitch <= 360,
        ;
    }
    let x = x as i64;
    let z = z as i64;
    let sh = floor_div((cam.pitch * z) as i128, PITCH_SHEAR as i128);
    proof {
        lemma_div_within((cam.pitch * z) as int, 32, 1509949440);
    }
    let y = height * POS_ONE - cam.y + sh as i64;
    Point3 { x, y, z }
}

/// `a` moved towards `b` by the fraction `num / den`, rounded down.
pub open spec fn lerp(a: int, b: int, num: int, den: int) -> int {
    a + (num * (b - a)) / den
}

/// Where the segment from `p1` (behind the near plane) to `p2` (on or in
/// front of it) crosses the plane; depth no less than 1.
pub open spec fn clipped(p1: Point3, p2: Point3) -> Point3 {
    let num = -p1.z;
    let den = p2.z - p1.z;
    let z = lerp(p1.z as int, p2.z as int, num, den);
    Point3 {
        x: lerp(p1.x as int, p2.x as int, num, den) as i64,
        y: lerp(p1.y as int, p2.y as int, num, den) as i64,
        z: if z < 1 {
            1
        } else {
            z as i64
        },
    }
}

/// The near plane is depth 0. Projection divides by depth, so a point on
/// the plane must be clipped too: in whole units, a point is behind when its
/// depth is below 1.
pub open spec fn is_behind(p: Point3) -> bool {
    p.z < 1
}

/// Replaces `p1`, at or behind the near plane, by the point where the
/// segment towards `p2`, at or in front of the plane and deeper than `p1`,
/// crosses it; the new point's depth is raised to 1 so that it can be
/// projected.
pub fn clip_behind(p1: &mut Point3, p2: &Point3)
    requires
        is_behind(*old(p1)),
        p2.z >= 0,
        old(p1).z < p2.z,
        point_in_view(*old(p1)),
        point_in_view(*p2),
    ensures
        *final(p1) == clipped(*old(p1), *p2),
        final(p1).z == 1,
        point_in_view(*final(p1)),
{
    let num: i128 = -(p1.z as i128);
    let den: i128 = p2.z as i128 - p1.z as i128;
    proof {
        lemma_part_of(num as int, den as int, p2.x - p1.x);
        lemma_part_of(num as int, den as int, p2.y - p1.y);
        lemma_part_of(num as int, den as int, p2.z - p1.z);
        vstd::arithmetic::div_mod::lemma_div_multiples_vanish(num as int, den as int);
        assert(num * den == den * num) by (nonlinear_arith);
        assert(-268435456 * 268435456 <= num * (p2.x - p1.x) <= 268435456 * 268435456)
            by (nonlinear_arith)
            requires
                0 <= num <= 268435456,
                -268435456 <= p2.x - p1.x <= 268435456,
        ;
        assert(-268435456 * 268435456 <= num * (p2.y - p1.y) <= 268435456 * 268435456)
            by (nonlinear_arith)
            requires
                0 <= num <= 268435456,
                -268435456 <= p2.y - p1.y <= 268435456,
        ;
        assert(0 <= num * (p2.z - p1.z) <= 268435456 * 268435456) by (nonlinear_arith)
            requires
                0 <= num <= 268435456,
                0 <= p2.z - p1.z <= 268435456,
        ;
    }
    let dx = floor_div(num * (p2.x as i128 - p1.x as i128), den);
    let dy = floor_div(num * (p2.y as i128 - p1.y as i128), den);
    let dz = floor_div(num * (p2.z as i128 - p1.z as i128), den);
    let x = p1.x + dx as i64;
    let y = p1.y + dy as i64;
    let mut z = p1.z + dz as i64;
    if z < 1 {
        z = 1;
    }
    *p1 = Point3 { x, y, z };
}

/// Screen coordinate of camera-space coordinate `v` at depth `z`, centred on
/// `half`: `v * FOV_SCALE / z + half` rounded towards zero, saturated to the
/// range of `i32`.
pub open spec fn screen_coord(v: int, z: int, half: int) -> int {
    clamp_spec(trunc_div_spec(v * FOV_SCALE + half * z, z), i32::MIN as int, i32::MAX as int)
}

/// Perspective projection of `p` onto a screen whose centre is
/// `(half_w, half_h)`: returns the column and the row.
pub fn project(p: Point3, half_w: i64, half_h: i64) -> (r: (i32, i32))
    requires
        p.z >= 1,
        point_in_view(p),
        0 <= half_w <= u32::MAX,
        0 <= half_h <= u32::MAX,
    ensures
        r.0 == screen_coord(p.x as int, p.z as int, half_w as int),
        r.1 == screen_coord(p.y as int, p.z as int, half_h as int),
{
    proof {
        assert(-134217728 * 200 <= p.x * 200 <= 134217728 * 200) by (nonlinear_arith)
            requires
                -134217728 <= p.x <= 134217728,
        ;
        assert(-134217728 * 200 <= p.y * 200 <= 134217728 * 200) by (nonlinear_arith)
            requires
                -134217728 <= p.y <= 134217728,
        ;
        assert(0 <= half_w * p.z <= 4294967295 * 134217728) by (nonlinear_arith)
            requires
                0 <= half_w <= 4294967295int,
                1 <= p.z <= 134217728,
        ;
        assert(0 <= half_h * p.z <= 4294967295 * 134217728) by (nonlinear_arith)
            requires
                0 <= half_h <= 4294967295int,
                1 <= p.z <= 134217728,
        ;
        lemma_trunc_within(p.x * 200 + half_w * p.z, p.z as int, 1152921504606846976);
        lemma_trunc_within(p.y * 200 + half_h * p.z, p.z as int, 1152921504606846976);
    }
    let nx: i128 = p.x as i128 * 200 + half_w as i128 * p.z as i128;
    let ny: i128 = p.y as i128 * 200 + half_h as i128 * p.z as i128;
    let sx = trunc_div(nx, p.z as i128) as i64;
    let sy = trunc_div(ny, p.z as i128) as i64;
    let sx = clamp(sx, i32::MIN as i64, i32::MAX as i64);
    let sy = clamp(sy, i32::MIN as i64, i32::MAX as i64);
    (sx as i32, sy as i32)
}

/// A segment from a point behind the near plane (depth below 0) to one at
/// depth 1 or more is clipped to a point at depth exactly 1, with `x` and
/// `y` moved along the segment by the fraction `-da / (db - da)` of the
/// two depths.
pub proof fn lemma_clip_lands_on_near_plane(p1: Point3, p2: Point3)
    requires
        p1.z < 0,
        p2.z >= 1,
        point_in_view(p1),
        point_in_view(p2),
    ensures
        clipped(p1, p2).z == 1,
        clipped(p1, p2).x == p1.x + ((-p1.z) * (p2.x - p1.x)) / (p2.z - p1.z),
        clipped(p1, p2).y == p1.y + ((-p1.z) * (p2.y - p1.y)) / (p2.z - p1.z),
{
    let num = -p1.z;
    let den = p2.z - p1.z;
    lemma_part_of(num as int, den as int, p2.x - p1.x);
    lemma_part_of(num as int, den as int, p2.y - p1.y);
    vstd::arithmetic::div_mod::lemma_div_multiples_vanish(num as int, den as int);
    assert(num * den == den * num) by (nonlinear_arith);
}

/// At depth `FOV_SCALE` the projection is the identity shifted by the
/// screen centre.
pub proof fn lemma_projection_unit_depth(v: int, half: int)
    requires
        i32::MIN <= v + half <= i32::MAX,
    ensures
        screen_coord(v, FOV_SCALE as int, half) == v + half,
{
    let s = v + half;
    assert(v * 200 + half * 200 == 200 * s) by (nonlinear_arith)
        requires
            s == v + half,
    ;
    vstd::arithmetic::div_mod::lemma_div_multiples_vanish(s, 200);
    vstd::arithmetic::div_mod::lemma_div_multiples_vanish(-s, 200);
    assert(-(200 * s) == 200 * (-s)) by (nonlinear_arith);
}

} // verus!
