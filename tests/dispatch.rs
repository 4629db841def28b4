use bumpalo::Bump;
use hitcore::hit::{Hit, MaterialHandle, WHit, WShadingPoint};
use hitcore::lanes::{Ray, Vec3, WRay, Wec3};
use hitcore::store::{combine_visibility, Hitable, HitStore, HitableStore, FULLY_VISIBLE};

struct Sphere {
    center: Vec3,
    radius: i64,
    material: usize,
}

impl Hitable<()> for Sphere {
    fn hit_spec(&self, rays: WRay, t_start: [i64; 4], t_end: [i64; 4]) -> [i64; 4] {
        self.hit(&rays, t_start, t_end)
    }

    fn occluded_spec(&self, start: Wec3, end: Wec3, time: [i64; 4]) -> [u16; 4] {
        self.occluded(&start, &end, time)
    }

    fn shading_spec(&self, hits: WHit, primary: bool, camera: ()) -> (MaterialHandle, WShadingPoint) {
        self.get_shading_info(hits, primary, &camera)
    }

    fn hit(&self, rays: &WRay, t_start: [i64; 4], t_end: [i64; 4]) -> [i64; 4] {
        let mut out = t_end;
        for l in 0..4 {
            let r = rays.lane(l);
            if !r.valid {
                continue;
            }
            let oc = [
                (r.origin.x - self.center.x) as f64,
                (r.origin.y - self.center.y) as f64,
                (r.origin.z - self.center.z) as f64,
            ];
            let d = [r.dir.x as f64, r.dir.y as f64, r.dir.z as f64];
            let a = d[0] * d[0] + d[1] * d[1] + d[2] * d[2];
            let b = oc[0] * d[0] + oc[1] * d[1] + oc[2] * d[2];
            let c = oc[0] * oc[0] + oc[1] * oc[1] + oc[2] * oc[2] - (self.radius * self.radius) as f64;
            let disc = b * b - a * c;
            if disc < 0.0 {
                continue;
            }
            let t = ((-b - disc.sqrt()) / a).round() as i64;
            if t >= t_start[l] && t < t_end[l] {
                out[l] = t;
            }
        }
        out
    }

    fn occluded(&self, _start: &Wec3, _end: &Wec3, _time: [i64; 4]) -> [u16; 4] {
        [0; 4]
    }

    fn get_shading_info(&self, hits: WHit, _primary: bool, _camera: &()) -> (MaterialHandle, WShadingPoint) {
        let point = hits.point();
        let mut normal = point;
        for l in 0..4 {
            if hits.ray.valid[l] {
                normal.lanes[l] = Vec3::new(
                    point.lanes[l].x - self.center.x,
                    point.lanes[l].y - self.center.y,
                    point.lanes[l].z - self.center.z,
                );
            } else {
                normal.lanes[l] = Vec3::new(0, 0, 1);
            }
        }
        (MaterialHandle { index: self.material }, WShadingPoint::new(hits, point, [1; 4], normal))
    }
}

/// A surface that reports the same distance and visibility for every lane.
struct Flat {
    t: i64,
    visibility: u16,
}

impl Hitable<()> for Flat {
    fn hit_spec(&self, rays: WRay, t_start: [i64; 4], t_end: [i64; 4]) -> [i64; 4] {
        self.hit(&rays, t_start, t_end)
    }

    fn occluded_spec(&self, start: Wec3, end: Wec3, time: [i64; 4]) -> [u16; 4] {
        self.occluded(&start, &end, time)
    }

    fn shading_spec(&self, hits: WHit, primary: bool, camera: ()) -> (MaterialHandle, WShadingPoint) {
        self.get_shading_info(hits, primary, &camera)
    }

    fn hit(&self, _rays: &WRay, _t_start: [i64; 4], _t_end: [i64; 4]) -> [i64; 4] {
        [self.t; 4]
    }

    fn occluded(&self, _start: &Wec3, _end: &Wec3, _time: [i64; 4]) -> [u16; 4] {
        [self.visibility; 4]
    }

    fn get_shading_info(&self, hits: WHit, _primary: bool, _camera: &()) -> (MaterialHandle, WShadingPoint) {
        let z = Wec3 { lanes: [Vec3::new(0, 0, 1); 4] };
        (MaterialHandle { index: 0 }, WShadingPoint::new(hits, z, [0; 4], z))
    }
}

fn ray_z(x: i64) -> Ray {
    Ray::new(Vec3::new(x, 0, 0), Vec3::new(0, 0, 1))
}

fn packet(rays: [Ray; 4]) -> WRay {
    WRay::from_rays(rays)
}

fn zeros() -> Wec3 {
    Wec3 { lanes: [Vec3::zero(); 4] }
}

const FAR: [i64; 4] = [1000; 4];
const NEAR: [i64; 4] = [1; 4];

#[test]
fn one_sphere_straight_on_hit_is_shaded_once() {
    let mut scene = HitableStore::new();
    scene.push(Sphere { center: Vec3::new(0, 0, 4), radius: 2, material: 7 });
    let bump = Bump::new();
    let mut store = HitStore::from_hitable_store(&bump, &scene);
    let rays = packet([ray_z(0), Ray::new_invalid(), Ray::new_invalid(), Ray::new_invalid()]);
    scene.add_hits(rays, NEAR, FAR, &mut store);
    assert_eq!(store.staged_count(0), 1);
    assert_eq!(store.staged_hit(0, 0).t, 2);
    let mut out = bumpalo::collections::Vec::new_in(&bump);
    store.process_hits(&scene, &mut out, true, &());
    assert_eq!(out.len(), 1);
    let (mat, sp) = out[0];
    assert_eq!(mat.index, 7);
    assert_eq!(sp.t[0], 2);
    assert_eq!(sp.point.lanes[0], Vec3::new(0, 0, 2));
    // outward: from the center (0, 0, 4) toward the hit point (0, 0, 2)
    assert_eq!(sp.normal.lanes[0], Vec3::new(0, 0, -2));
    assert!(sp.ray.valid[0]);
    assert!(!sp.ray.valid[1] && !sp.ray.valid[2] && !sp.ray.valid[3]);
}

#[test]
fn farther_sphere_gets_no_hit() {
    let mut scene = HitableStore::new();
    scene.push(Sphere { center: Vec3::new(0, 0, 10), radius: 1, material: 0 });
    scene.push(Sphere { center: Vec3::new(0, 0, 5), radius: 1, material: 1 });
    let bump = Bump::new();
    let mut store = HitStore::from_hitable_store(&bump, &scene);
    scene.add_hits(packet([ray_z(0); 4]), NEAR, FAR, &mut store);
    assert_eq!(store.staged_count(0), 0);
    assert_eq!(store.staged_count(1), 4);
    assert_eq!(store.staged_hit(1, 0).t, 4);
}

#[test]
fn four_rays_four_spheres_each_padded_with_three() {
    let mut scene = HitableStore::new();
    for i in 0..4 {
        scene.push(Sphere { center: Vec3::new(10 * i, 0, 5), radius: 1, material: i as usize });
    }
    let bump = Bump::new();
    let mut store = HitStore::from_hitable_store(&bump, &scene);
    scene.add_hits(packet([ray_z(0), ray_z(10), ray_z(20), ray_z(30)]), NEAR, FAR, &mut store);
    for i in 0..4 {
        assert_eq!(store.staged_count(i), 1);
    }
    let mut out = bumpalo::collections::Vec::new_in(&bump);
    store.process_hits(&scene, &mut out, false, &());
    assert_eq!(out.len(), 4);
    for i in 0..4 {
        assert_eq!(store.staged_count(i), 4);
        assert!(store.staged_hit(i, 0).ray.valid);
        for k in 1..4 {
            assert!(!store.staged_hit(i, k).ray.valid);
        }
        assert_eq!(out[i].0.index, i);
        assert!(out[i].1.ray.valid[0]);
        assert!(!out[i].1.ray.valid[1]);
    }
}

#[test]
fn equal_distance_goes_to_earlier_surface() {
    let mut scene = HitableStore::new();
    scene.push(Flat { t: 50, visibility: FULLY_VISIBLE });
    scene.push(Flat { t: 50, visibility: FULLY_VISIBLE });
    let bump = Bump::new();
    let mut store = HitStore::from_hitable_store(&bump, &scene);
    scene.add_hits(packet([ray_z(0); 4]), NEAR, FAR, &mut store);
    assert_eq!(store.staged_count(0), 4);
    assert_eq!(store.staged_count(1), 0);
}

#[test]
fn nearer_later_surface_wins() {
    let mut scene = HitableStore::new();
    scene.push(Flat { t: 50, visibility: FULLY_VISIBLE });
    scene.push(Flat { t: 20, visibility: FULLY_VISIBLE });
    let bump = Bump::new();
    let mut store = HitStore::from_hitable_store(&bump, &scene);
    scene.add_hits(packet([ray_z(0); 4]), NEAR, FAR, &mut store);
    assert_eq!(store.staged_count(0), 0);
    assert_eq!(store.staged_count(1), 4);
    assert_eq!(store.staged_hit(1, 3).t, 20);
}

#[test]
fn distance_at_range_end_is_no_hit() {
    let mut scene = HitableStore::new();
    scene.push(Flat { t: 1000, visibility: FULLY_VISIBLE });
    let bump = Bump::new();
    let mut store = HitStore::from_hitable_store(&bump, &scene);
    scene.add_hits(packet([ray_z(0); 4]), NEAR, FAR, &mut store);
    assert_eq!(store.staged_count(0), 0);
}

#[test]
fn invalid_lanes_record_nothing() {
    let mut scene = HitableStore::new();
    scene.push(Flat { t: 5, visibility: FULLY_VISIBLE });
    let bump = Bump::new();
    let mut store = HitStore::from_hitable_store(&bump, &scene);
    let rays = packet([Ray::new_invalid(), ray_z(3), Ray::new_invalid(), Ray::new_invalid()]);
    scene.add_hits(rays, NEAR, FAR, &mut store);
    assert_eq!(store.staged_count(0), 1);
    assert_eq!(store.staged_hit(0, 0).ray.origin, Vec3::new(3, 0, 0));
    assert!(store.staged_hit(0, 0).ray.valid);
}

#[test]
fn five_staged_hits_make_two_batches() {
    let mut scene = HitableStore::new();
    scene.push(Flat { t: 5, visibility: FULLY_VISIBLE });
    let bump = Bump::new();
    let mut store = HitStore::from_hitable_store(&bump, &scene);
    for k in 0..5 {
        store.add_hit(0, Hit { ray: ray_z(k), t: k + 1 });
    }
    let mut out = bumpalo::collections::Vec::new_in(&bump);
    store.process_hits(&scene, &mut out, false, &());
    assert_eq!(out.len(), 2);
    assert_eq!(store.staged_count(0), 8);
    for k in 0..5 {
        assert_eq!(store.staged_hit(0, k as usize).t, k + 1);
    }
    for k in 5..8 {
        assert_eq!(store.staged_hit(0, k), Hit::padding());
    }
    assert_eq!(out[1].1.t, [5, 0, 0, 0]);
    assert_eq!(out[1].1.ray.valid, [true, false, false, false]);
}

#[test]
fn reset_then_process_gives_nothing() {
    let mut scene = HitableStore::new();
    scene.push(Flat { t: 5, visibility: FULLY_VISIBLE });
    scene.push(Flat { t: 9, visibility: FULLY_VISIBLE });
    let bump = Bump::new();
    let mut store = HitStore::from_hitable_store(&bump, &scene);
    scene.add_hits(packet([ray_z(0); 4]), NEAR, FAR, &mut store);
    assert_eq!(store.staged_count(0), 4);
    store.reset();
    assert_eq!(store.len(), 2);
    let mut out = bumpalo::collections::Vec::new_in(&bump);
    store.process_hits(&scene, &mut out, true, &());
    assert_eq!(out.len(), 0);
}

#[test]
fn no_surfaces_fully_visible() {
    let scene: HitableStore<Flat> = HitableStore::new();
    assert_eq!(scene.test_occluded(&zeros(), &zeros(), [0; 4]), [FULLY_VISIBLE; 4]);
}

#[test]
fn opaque_surface_blocks_every_lane() {
    let mut scene = HitableStore::new();
    scene.push(Flat { t: 5, visibility: FULLY_VISIBLE });
    scene.push(Flat { t: 5, visibility: 0 });
    scene.push(Flat { t: 5, visibility: 40000 });
    assert_eq!(scene.test_occluded(&zeros(), &zeros(), [0; 4]), [0; 4]);
}

#[test]
fn partial_visibility_multiplies() {
    let mut scene = HitableStore::new();
    scene.push(Flat { t: 5, visibility: 32768 });
    scene.push(Flat { t: 5, visibility: FULLY_VISIBLE });
    assert_eq!(scene.test_occluded(&zeros(), &zeros(), [0; 4]), [32768; 4]);
    assert_eq!(combine_visibility([65535, 32768, 0, 100], [32768, 32768, 65535, 65535]), [32768, 16385, 0, 100]);
}

#[test]
fn hit_point_is_origin_plus_t_dir() {
    let rays = packet([
        Ray::new(Vec3::new(1, 2, 3), Vec3::new(1, 0, 0)),
        Ray::new(Vec3::new(0, 0, 0), Vec3::new(-2, 3, 5)),
        Ray::new_invalid(),
        Ray::new(Vec3::new(-5, 5, -5), Vec3::new(0, -1, 0)),
    ]);
    let w = WHit { ray: rays, t: [4, 3, 9, 10] };
    let p = w.point();
    assert_eq!(p.lanes[0], Vec3::new(5, 2, 3));
    assert_eq!(p.lanes[1], Vec3::new(-6, 9, 15));
    assert_eq!(p.lanes[2], Vec3::new(0, 0, 0));
    assert_eq!(p.lanes[3], Vec3::new(-5, -5, -5));
}

#[test]
fn from_hits_packs_lanes_in_order() {
    let hits = [
        Hit { ray: ray_z(1), t: 10 },
        Hit::padding(),
        Hit { ray: ray_z(3), t: 30 },
        Hit { ray: ray_z(4), t: 40 },
    ];
    let w = WHit::from_hits(hits);
    assert_eq!(w.t, [10, 0, 30, 40]);
    assert_eq!(w.ray.valid, [true, false, true, true]);
    assert_eq!(w.ray.lane(2), ray_z(3));
}

fn dot(a: Vec3, b: Vec3) -> i64 {
    a.x * b.x + a.y * b.y + a.z * b.z
}

#[test]
fn shading_frame_is_orthogonal() {
    let normals = [Vec3::new(0, 0, 1), Vec3::new(3, 1, 2), Vec3::new(1, 2, 3), Vec3::new(0, -1, 0)];
    let hits = WHit { ray: packet([ray_z(0); 4]), t: [1; 4] };
    let sp = WShadingPoint::new(hits, zeros(), [2; 4], Wec3 { lanes: normals });
    assert_eq!(sp.basis.lanes[1].tangent, Vec3::new(-1, 3, 0));
    assert_eq!(sp.basis.lanes[2].tangent, Vec3::new(0, -3, 2));
    for l in 0..4 {
        let f = sp.basis.lanes[l];
        assert_eq!(f.normal, normals[l]);
        assert_ne!(f.tangent, Vec3::zero());
        assert_eq!(dot(f.tangent, f.normal), 0);
        assert_eq!(dot(f.bitangent, f.normal), 0);
        assert_eq!(dot(f.bitangent, f.tangent), 0);
    }
}

#[test]
fn create_rays_offsets_toward_direction_side() {
    let hits = WHit { ray: packet([ray_z(0), ray_z(0), Ray::new_invalid(), ray_z(0)]), t: [1; 4] };
    let point = Wec3 { lanes: [Vec3::new(0, 0, 10); 4] };
    let normal = Wec3 { lanes: [Vec3::new(0, 0, 1); 4] };
    let sp = WShadingPoint::new(hits, point, [3; 4], normal);
    let dirs = Wec3 {
        lanes: [Vec3::new(0, 0, 1), Vec3::new(0, 1, -1), Vec3::new(1, 0, 0), Vec3::new(0, 0, -5)],
    };
    let r = sp.create_rays(dirs);
    assert_eq!(r.origin.lanes[0], Vec3::new(0, 0, 13));
    assert_eq!(r.origin.lanes[1], Vec3::new(0, 0, 7));
    assert_eq!(r.origin.lanes[2], Vec3::new(0, 0, 13));
    assert_eq!(r.origin.lanes[3], Vec3::new(0, 0, 7));
    assert_eq!(r.dir, dirs);
    assert_eq!(r.valid, [true, true, false, true]);
}

#[test]
fn from_array_matches_from_hits() {
    let hits = [Hit { ray: ray_z(9), t: 1 }, Hit { ray: ray_z(8), t: 2 }, Hit::padding(), Hit { ray: ray_z(6), t: 4 }];
    let w: WHit = WHit::from(hits);
    assert_eq!(w, WHit::from_hits(hits));
    assert_eq!(w.ray.origin.lanes[1], Vec3::new(8, 0, 0));
    assert_eq!(w.t, [1, 2, 0, 4]);
}

#[test]
fn partial_surfaces_never_block_in_any_order() {
    let orders = [[3u16, 30000, 60000], [30000, 60000, 3], [60000, 3, 30000]];
    for order in orders {
        let mut scene = HitableStore::new();
        for v in order {
            scene.push(Flat { t: 5, visibility: v });
        }
        let r = scene.test_occluded(&zeros(), &zeros(), [0; 4]);
        assert!(r[0] > 0);
        assert!(r[0] <= 3);
    }
}

#[test]
fn output_follows_surfaces_then_groups() {
    let mut scene = HitableStore::new();
    scene.push(Flat { t: 5, visibility: FULLY_VISIBLE });
    scene.push(Flat { t: 5, visibility: FULLY_VISIBLE });
    let bump = Bump::new();
    let mut store = HitStore::from_hitable_store(&bump, &scene);
    for k in 1..6 {
        store.add_hit(0, Hit { ray: ray_z(k), t: k });
    }
    store.add_hit(1, Hit { ray: ray_z(10), t: 10 });
    store.add_hit(1, Hit { ray: ray_z(11), t: 11 });
    let mut out = bumpalo::collections::Vec::new_in(&bump);
    store.process_hits(&scene, &mut out, false, &());
    assert_eq!(out.len(), 3);
    assert_eq!(out[0].1.t, [1, 2, 3, 4]);
    assert_eq!(out[1].1.t, [5, 0, 0, 0]);
    assert_eq!(out[2].1.t, [10, 11, 0, 0]);
    assert_eq!(out[2].1.ray.valid, [true, true, false, false]);
    assert_eq!(out[2].1.ray.origin.lanes[1], Vec3::new(11, 0, 0));
}
