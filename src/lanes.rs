//! Exact integer vectors and four-lane ray packets.
use vstd::prelude::*;

verus! {

/// A coordinate that may enter a product without overflowing the wide accumulator.
pub open spec fn small(c: i64) -> bool {
    -0x7fff_ffff <= c <= 0x7fff_ffff
}

/// A mathematical value that an `i64` can hold.
pub open spec fn fits(v: int) -> bool {
    i64::MIN <= v <= i64::MAX
}

/// `a * b`, computed without overflow in 128 bits.
pub fn mul_wide(a: i64, b: i64) -> (r: i128)
    ensures
        r == a * b,
        -0x4000_0000_0000_0000_0000_0000_0000_0000 <= r <= 0x4000_0000_0000_0000_0000_0000_0000_0000,
{
    proof {
        let ai = a as int;
        let bi = b as int;
        assert(-0x8000_0000_0000_0000 <= ai <= 0x7fff_ffff_ffff_ffff);
        assert(-0x8000_0000_0000_0000 <= bi <= 0x7fff_ffff_ffff_ffff);
        assert(-0x4000_0000_0000_0000_0000_0000_0000_0000 <= ai * bi
            <= 0x4000_0000_0000_0000_0000_0000_0000_0000) by (nonlinear_arith)
            requires
                -0x8000_0000_0000_0000 <= ai <= 0x7fff_ffff_ffff_ffff,
                -0x8000_0000_0000_0000 <= bi <= 0x7fff_ffff_ffff_ffff,
        ;
    }
    (a as i128) * (b as i128)
}

/// `a * b` for two small coordinates.
pub fn mul_small(a: i64, b: i64) -> (r: i128)
    requires
        small(a),
        small(b),
    ensures
        r == a * b,
        -0x3fff_ffff_0000_0001 <= r <= 0x3fff_ffff_0000_0001,
{
    proof {
        let ai = a as int;
        let bi = b as int;
        assert(-0x3fff_ffff_0000_0001 <= ai * bi <= 0x3fff_ffff_0000_0001) by (nonlinear_arith)
            requires
                -0x7fff_ffff <= ai <= 0x7fff_ffff,
                -0x7fff_ffff <= bi <= 0x7fff_ffff,
        ;
    }
    (a as i128) * (b as i128)
}

/// `o + d * t` for one coordinate.
pub fn axpy(o: i64, d: i64, t: i64) -> (r: i64)
    requires
        fits(o + d * t),
    ensures
        r == o + d * t,
{
    let p = mul_wide(d, t);
    (o as i128 + p) as i64
}

/// A point or direction with exact integer coordinates.
#[derive(Clone, Copy, Debug, PartialEq, Eq)]
pub struct Vec3 {
    pub x: i64,
    pub y: i64,
    pub z: i64,
}

impl Vec3 {
    pub fn new(x: i64, y: i64, z: i64) -> (r: Vec3)
        ensures
            r == (Vec3 { x, y, z }),
    {
        Vec3 { x, y, z }
    }

    pub fn zero() -> (r: Vec3)
        ensures
            r == (Vec3 { x: 0, y: 0, z: 0 }),
    {
        Vec3 { x: 0, y: 0, z: 0 }
    }

    /// Every coordinate is small enough to be multiplied with another small one.
    pub open spec fn is_small(self) -> bool {
        small(self.x) && small(self.y) && small(self.z)
    }

    pub open spec fn is_zero(self) -> bool {
        self.x == 0 && self.y == 0 && self.z == 0
    }

    pub open spec fn dot_spec(self, o: Vec3) -> int {
        self.x * o.x + self.y * o.y + self.z * o.z
    }

    /// The dot product, exact in 128 bits.
    pub fn dot(&self, o: &Vec3) -> (r: i128)
        requires
            self.is_small(),
            o.is_small(),
        ensures
            r == self.dot_spec(*o),
    {
        mul_small(self.x, o.x) + mul_small(self.y, o.y) + mul_small(self.z, o.z)
    }

    /// The point `self + d * t`, as mathematical values.
    pub open spec fn along_fits(self, d: Vec3, t: int) -> bool {
        fits(self.x + d.x * t) && fits(self.y + d.y * t) && fits(self.z + d.z * t)
    }

    pub open spec fn is_along(self, o: Vec3, d: Vec3, t: int) -> bool {
        self.x == o.x + d.x * t && self.y == o.y + d.y * t && self.z == o.z + d.z * t
    }

    /// The point `self + d * t`.
    pub fn along(&self, d: &Vec3, t: i64) -> (r: Vec3)
        requires
            self.along_fits(*d, t as int),
        ensures
            r.is_along(*self, *d, t as int),
    {
        Vec3 { x: axpy(self.x, d.x, t), y: axpy(self.y, d.y, t), z: axpy(self.z, d.z, t) }
    }
}

/// Four vectors, one per lane.
#[derive(Clone, Copy, Debug, PartialEq, Eq)]
pub struct Wec3 {
    pub lanes: [Vec3; 4],
}

/// One ray. An invalid ray is a sentinel that never produces a hit.
#[derive(Clone, Copy, Debug, PartialEq, Eq)]
pub struct Ray {
    pub origin: Vec3,
    pub dir: Vec3,
    pub valid: bool,
}

impl Ray {
    pub fn new(origin: Vec3, dir: Vec3) -> (r: Ray)
        ensures
            r == (Ray { origin, dir, valid: true }),
    {
        Ray { origin, dir, valid: true }
    }

    pub fn new_invalid() -> (r: Ray)
        ensures
            r == (Ray { origin: Vec3 { x: 0, y: 0, z: 0 }, dir: Vec3 { x: 0, y: 0, z: 0 }, valid: false }),
    {
        Ray { origin: Vec3::zero(), dir: Vec3::zero(), valid: false }
    }
}

/// Four rays packed lane by lane; lanes may mix valid and invalid rays.
#[derive(Clone, Copy, Debug, PartialEq, Eq)]
pub struct WRay {
    pub origin: Wec3,
    pub dir: Wec3,
    pub valid: [bool; 4],
}

impl WRay {
    /// The ray of lane `l`.
    pub open spec fn lane_spec(self, l: int) -> Ray {
        Ray { origin: self.origin.lanes@[l], dir: self.dir.lanes@[l], valid: self.valid@[l] }
    }

    pub fn lane(&self, l: usize) -> (r: Ray)
        requires
            l < 4,
        ensures
            r == self.lane_spec(l as int),
    {
        Ray { origin: self.origin.lanes[l], dir: self.dir.lanes[l], valid: self.valid[l] }
    }

    /// Packs four rays, the `i`-th into lane `i`.
    pub fn from_rays(rays: [Ray; 4]) -> (r: WRay)
        ensures
            forall|l: int| 0 <= l < 4 ==> #[trigger] r.lane_spec(l) == rays@[l],
    {
        let r = WRay {
            origin: Wec3 { lanes: [rays[0].origin, rays[1].origin, rays[2].origin, rays[3].origin] },
            dir: Wec3 { lanes: [rays[0].dir, rays[1].dir, rays[2].dir, rays[3].dir] },
            valid: [rays[0].valid, rays[1].valid, rays[2].valid, rays[3].valid],
        };
        assert(r.lane_spec(0) == rays@[0]);
        assert(r.lane_spec(1) == rays@[1]);
        assert(r.lane_spec(2) == rays@[2]);
        assert(r.lane_spec(3) == rays@[3]);
        r
    }
}

} // verus!
