//! Scalar and packed hit records, and the shading data derived from them.
use vstd::prelude::*;
use crate::lanes::{fits, mul_small, mul_wide, small, Ray, Vec3, WRay, Wec3};

verus! {

/// An opaque reference into a material table that this crate never reads.
#[derive(Clone, Copy, Debug, PartialEq, Eq)]
pub struct MaterialHandle {
    pub index: usize,
}

/// One ray and the distance along it at which something was hit.
#[derive(Clone, Copy, Debug, PartialEq, Eq)]
pub struct Hit {
    pub ray: Ray,
    pub t: i64,
}

/// The record that fills a staging list up to a multiple of four: an invalid ray at
/// distance zero.
pub open spec fn padding_hit() -> Hit {
    Hit {
        ray: Ray { origin: Vec3 { x: 0, y: 0, z: 0 }, dir: Vec3 { x: 0, y: 0, z: 0 }, valid: false },
        t: 0,
    }
}

impl Hit {
    /// The padding record.
    pub fn padding() -> (r: Hit)
        ensures
            r == padding_hit(),
    {
        Hit { ray: Ray::new_invalid(), t: 0 }
    }
}

/// Four hits packed lane by lane.
#[derive(Clone, Copy, Debug, PartialEq, Eq)]
pub struct WHit {
    pub ray: WRay,
    pub t: [i64; 4],
}

/// The scalar hit of lane `l` of a packed hit.
pub open spec fn hit_lane(w: WHit, l: int) -> Hit {
    Hit { ray: w.ray.lane_spec(l), t: w.t@[l] }
}

impl WHit {
    /// Every lane's hit point can be held in `i64` coordinates.
    pub open spec fn point_fits(self) -> bool {
        forall|l: int|
            0 <= l < 4 ==> #[trigger] self.ray.origin.lanes@[l].along_fits(
                self.ray.dir.lanes@[l],
                self.t@[l] as int,
            )
    }

    /// The point `origin + dir * t` of each lane.
    pub fn point(&self) -> (r: Wec3)
        requires
            self.point_fits(),
        ensures
            forall|l: int|
                0 <= l < 4 ==> #[trigger] r.lanes@[l].is_along(
                    self.ray.origin.lanes@[l],
                    self.ray.dir.lanes@[l],
                    self.t@[l] as int,
                ),
    {
        let o = &self.ray.origin.lanes;
        let d = &self.ray.dir.lanes;
        assert(o@[0].along_fits(d@[0], self.t@[0] as int));
        assert(o@[1].along_fits(d@[1], self.t@[1] as int));
        assert(o@[2].along_fits(d@[2], self.t@[2] as int));
        assert(o@[3].along_fits(d@[3], self.t@[3] as int));
        Wec3 {
            lanes: [
                o[0].along(&d[0], self.t[0]),
                o[1].along(&d[1], self.t[1]),
                o[2].along(&d[2], self.t[2]),
                o[3].along(&d[3], self.t[3]),
            ],
        }
    }

    /// Packs four scalar hits, the `i`-th into lane `i`.
    pub fn from_hits(hits: [Hit; 4]) -> (r: WHit)
        ensures
            r == packed(hits),
            forall|l: int| 0 <= l < 4 ==> #[trigger] hit_lane(r, l) == hits@[l],
    {
        let ray = WRay::from_rays([hits[0].ray, hits[1].ray, hits[2].ray, hits[3].ray]);
        let r = WHit { ray, t: [hits[0].t, hits[1].t, hits[2].t, hits[3].t] };
        assert(hit_lane(r, 0) == hits@[0]);
        assert(hit_lane(r, 1) == hits@[1]);
        assert(hit_lane(r, 2) == hits@[2]);
        assert(hit_lane(r, 3) == hits@[3]);
        proof {
            let e = packed(hits);
            assert(r.ray.origin.lanes@ =~= e.ray.origin.lanes@);
            assert(r.ray.dir.lanes@ =~= e.ray.dir.lanes@);
            assert(r.ray.valid@ =~= e.ray.valid@);
            assert(r.t@ =~= e.t@);
            assert(r.ray.origin.lanes == e.ray.origin.lanes);
            assert(r.ray.dir.lanes == e.ray.dir.lanes);
            assert(r.ray.valid == e.ray.valid);
            assert(r.t == e.t);
        }
        r
    }
}

/// Four scalar hits packed lane by lane, the `i`-th into lane `i`.
pub open spec fn packed(hits: [Hit; 4]) -> WHit {
    WHit {
        ray: WRay {
            origin: Wec3 { lanes: [hits@[0].ray.origin, hits@[1].ray.origin, hits@[2].ray.origin, hits@[3].ray.origin] },
            dir: Wec3 { lanes: [hits@[0].ray.dir, hits@[1].ray.dir, hits@[2].ray.dir, hits@[3].ray.dir] },
            valid: [hits@[0].ray.valid, hits@[1].ray.valid, hits@[2].ray.valid, hits@[3].ray.valid],
        },
        t: [hits@[0].t, hits@[1].t, hits@[2].t, hits@[3].t],
    }
}

impl From<[Hit; 4]> for WHit {
    fn from(hits: [Hit; 4]) -> (r: WHit) {
        WHit::from_hits(hits)
    }
}

impl vstd::std_specs::convert::FromSpecImpl<[Hit; 4]> for WHit {
    open spec fn obeys_from_spec() -> bool {
        true
    }

    open spec fn from_spec(hits: [Hit; 4]) -> WHit {
        packed(hits)
    }
}

/// A local frame around a normal: the tangent and bitangent are orthogonal to the
/// normal and to each other. They are not scaled to unit length.
#[derive(Clone, Copy, Debug, PartialEq, Eq)]
pub struct Frame {
    pub tangent: Vec3,
    pub bitangent: Vec3,
    pub normal: Vec3,
}

/// Four frames, one per lane.
#[derive(Clone, Copy, Debug, PartialEq, Eq)]
pub struct Wat3 {
    pub lanes: [Frame; 4],
}

pub open spec fn abs(v: int) -> int {
    if v < 0 { -v } else { v }
}

/// The tangent chosen for a normal: perpendicular to it, and built from its two
/// largest coordinates so that it is zero only for a zero normal.
pub open spec fn tangent_of(n: Vec3) -> Vec3 {
    if abs(n.x as int) > abs(n.z as int) {
        Vec3 { x: (-n.y) as i64, y: n.x, z: 0 }
    } else {
        Vec3 { x: 0, y: (-n.z) as i64, z: n.y }
    }
}

/// The cross product `a × b`, as mathematical values.
pub open spec fn cross_x(a: Vec3, b: Vec3) -> int {
    a.y * b.z - a.z * b.y
}

pub open spec fn cross_y(a: Vec3, b: Vec3) -> int {
    a.z * b.x - a.x * b.z
}

pub open spec fn cross_z(a: Vec3, b: Vec3) -> int {
    a.x * b.y - a.y * b.x
}

/// The frame built around a normal: its tangent, and the bitangent `normal × tangent`.
pub open spec fn is_frame_of(f: Frame, n: Vec3) -> bool {
    &&& f.normal == n
    &&& f.tangent == tangent_of(n)
    &&& f.bitangent.x == cross_x(n, f.tangent)
    &&& f.bitangent.y == cross_y(n, f.tangent)
    &&& f.bitangent.z == cross_z(n, f.tangent)
}

fn cross_coord(a1: i64, b2: i64, a2: i64, b1: i64) -> (r: i64)
    requires
        small(a1),
        small(b2),
        small(a2),
        small(b1),
    ensures
        r == a1 * b2 - a2 * b1,
{
    (mul_small(a1, b2) - mul_small(a2, b1)) as i64
}

/// Builds the frame around a normal.
pub fn frame_of(n: &Vec3) -> (f: Frame)
    requires
        n.is_small(),
    ensures
        is_frame_of(f, *n),
        f.tangent.dot_spec(*n) == 0,
        f.bitangent.dot_spec(*n) == 0,
        f.bitangent.dot_spec(f.tangent) == 0,
        !n.is_zero() ==> !f.tangent.is_zero(),
{
    let t = if mul_small(n.x, n.x) > mul_small(n.z, n.z) {
        Vec3 { x: -n.y, y: n.x, z: 0 }
    } else {
        Vec3 { x: 0, y: -n.z, z: n.y }
    };
    let b = Vec3 {
        x: cross_coord(n.y, t.z, n.z, t.y),
        y: cross_coord(n.z, t.x, n.x, t.z),
        z: cross_coord(n.x, t.y, n.y, t.x),
    };
    proof {
        let (x, y, z) = (n.x as int, n.y as int, n.z as int);
        assert((x * x > z * z) == (abs(x) > abs(z))) by (nonlinear_arith);
        let (tx, ty, tz) = (t.x as int, t.y as int, t.z as int);
        assert(tx * x + ty * y + tz * z == 0) by (nonlinear_arith)
            requires
                (tx == -y && ty == x && tz == 0) || (tx == 0 && ty == -z && tz == y),
        ;
        let (bx, by, bz) = (b.x as int, b.y as int, b.z as int);
        assert(bx * x + by * y + bz * z == 0) by (nonlinear_arith)
            requires
                bx == y * tz - z * ty,
                by == z * tx - x * tz,
                bz == x * ty - y * tx,
        ;
        assert(bx * tx == y * tz * tx - z * ty * tx) by (nonlinear_arith)
            requires
                bx == y * tz - z * ty,
        ;
        assert(by * ty == z * tx * ty - x * tz * ty) by (nonlinear_arith)
            requires
                by == z * tx - x * tz,
        ;
        assert(bz * tz == x * ty * tz - y * tx * tz) by (nonlinear_arith)
            requires
                bz == x * ty - y * tx,
        ;
        assert(y * tz * tx == y * tx * tz && z * ty * tx == z * tx * ty && x * tz * ty == x * ty * tz)
            by (nonlinear_arith);
    }
    Frame { tangent: t, bitangent: b, normal: *n }
}

/// The shading data of four hits: hit point, normal, local frame, and the distance by
/// which rays leaving the surface are pushed off it.
#[derive(Clone, Copy, Debug, PartialEq, Eq)]
pub struct WShadingPoint {
    pub ray: WRay,
    pub t: [i64; 4],
    pub point: Wec3,
    pub offset_by: [i64; 4],
    pub normal: Wec3,
    pub basis: Wat3,
}

/// Every lane of a packed vector is small.
pub open spec fn wec_small(w: Wec3) -> bool {
    forall|l: int| 0 <= l < 4 ==> (#[trigger] w.lanes@[l]).is_small()
}

/// The side of the surface a direction points to: `1` where it does not point into
/// the surface (including a direction along it), `-1` where it does.
pub open spec fn side(d: int) -> int {
    if d >= 0 { 1 } else { -1 }
}

/// The origin of a ray leaving `p` in direction `d`: `p` pushed off the surface
/// along `n` by `off`, toward the side that `d` points to.
pub open spec fn offset_coord(p: int, n: int, s: int, off: int) -> int {
    p + n * s * off
}

pub open spec fn is_offset_origin(o: Vec3, p: Vec3, n: Vec3, d: Vec3, off: int) -> bool {
    let s = side(n.dot_spec(d));
    &&& o.x == offset_coord(p.x as int, n.x as int, s, off)
    &&& o.y == offset_coord(p.y as int, n.y as int, s, off)
    &&& o.z == offset_coord(p.z as int, n.z as int, s, off)
}

pub open spec fn offset_fits(p: Vec3, n: Vec3, d: Vec3, off: int) -> bool {
    let s = side(n.dot_spec(d));
    &&& fits(offset_coord(p.x as int, n.x as int, s, off))
    &&& fits(offset_coord(p.y as int, n.y as int, s, off))
    &&& fits(offset_coord(p.z as int, n.z as int, s, off))
}

fn offset_one(p: i64, n: i64, s: i64, off: i64) -> (r: i64)
    requires
        small(n),
        s == 1 || s == -1,
        fits(offset_coord(p as int, n as int, s as int, off as int)),
    ensures
        r == offset_coord(p as int, n as int, s as int, off as int),
{
    let ns = if s == 1 { n } else { -n };
    assert(ns == n * s) by (nonlinear_arith)
        requires
            s == 1 || s == -1,
            ns == if s == 1 { n as int } else { -n },
    ;
    (p as i128 + mul_wide(ns, off)) as i64
}

fn offset_point(p: &Vec3, n: &Vec3, d: &Vec3, off: i64) -> (r: Vec3)
    requires
        n.is_small(),
        d.is_small(),
        offset_fits(*p, *n, *d, off as int),
    ensures
        is_offset_origin(r, *p, *n, *d, off as int),
{
    let s: i64 = if n.dot(d) >= 0 { 1 } else { -1 };
    Vec3 {
        x: offset_one(p.x, n.x, s, off),
        y: offset_one(p.y, n.y, s, off),
        z: offset_one(p.z, n.z, s, off),
    }
}

impl WShadingPoint {
    /// Shading data for `hit`, with the frame of each lane built around its normal.
    pub fn new(hit: WHit, point: Wec3, offset_by: [i64; 4], normal: Wec3) -> (r: Self)
        requires
            wec_small(normal),
        ensures
            r.ray == hit.ray,
            r.t == hit.t,
            r.point == point,
            r.offset_by == offset_by,
            r.normal == normal,
            forall|l: int| 0 <= l < 4 ==> is_frame_of(#[trigger] r.basis.lanes@[l], normal.lanes@[l]),
    {
        let n = &normal.lanes;
        assert(n@[0].is_small() && n@[1].is_small() && n@[2].is_small() && n@[3].is_small());
        let basis = Wat3 {
            lanes: [frame_of(&n[0]), frame_of(&n[1]), frame_of(&n[2]), frame_of(&n[3])],
        };
        WShadingPoint { ray: hit.ray, t: hit.t, point, offset_by, normal, basis }
    }

    /// The offset origins fit in `i64` for rays leaving in `dir`.
    pub open spec fn rays_fit(self, dir: Wec3) -> bool {
        forall|l: int|
            0 <= l < 4 ==> offset_fits(
                #[trigger] self.point.lanes@[l],
                self.normal.lanes@[l],
                dir.lanes@[l],
                self.offset_by@[l] as int,
            )
    }

    /// Rays leaving the shaded points in `dir`: each origin is pushed off the surface
    /// so that the new ray does not hit it again at once. Validity is kept per lane.
    pub fn create_rays(&self, dir: Wec3) -> (r: WRay)
        requires
            wec_small(self.normal),
            wec_small(dir),
            self.rays_fit(dir),
        ensures
            r.dir == dir,
            r.valid == self.ray.valid,
            forall|l: int|
                0 <= l < 4 ==> is_offset_origin(
                    #[trigger] r.origin.lanes@[l],
                    self.point.lanes@[l],
                    self.normal.lanes@[l],
                    dir.lanes@[l],
                    self.offset_by@[l] as int,
                ),
    {
        let p = &self.point.lanes;
        let n = &self.normal.lanes;
        let d = &dir.lanes;
        assert(n@[0].is_small() && n@[1].is_small() && n@[2].is_small() && n@[3].is_small());
        assert(d@[0].is_small() && d@[1].is_small() && d@[2].is_small() && d@[3].is_small());
        assert(offset_fits(p@[0], n@[0], d@[0], self.offset_by@[0] as int));
        assert(offset_fits(p@[1], n@[1], d@[1], self.offset_by@[1] as int));
        assert(offset_fits(p@[2], n@[2], d@[2], self.offset_by@[2] as int));
        assert(offset_fits(p@[3], n@[3], d@[3], self.offset_by@[3] as int));
        let origin = Wec3 {
            lanes: [
                offset_point(&p[0], &n[0], &d[0], self.offset_by[0]),
                offset_point(&p[1], &n[1], &d[1], self.offset_by[1]),
                offset_point(&p[2], &n[2], &d[2], self.offset_by[2]),
                offset_point(&p[3], &n[3], &d[3], self.offset_by[3]),
            ],
        };
        let mut ray = self.ray;
        ray.origin = origin;
        ray.dir = dir;
        ray
    }
}

} // verus!
