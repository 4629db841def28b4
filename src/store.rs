//! The geometry collection, nearest-hit selection per lane, per-object staging of
//! hits, and their re-batching into four-wide groups for shading.
use vstd::prelude::*;
use crate::arena::{
    clear_hits, hit_at, hit_count, list_at, list_at_mut, list_count, new_hit_list, new_list_table, push_hit,
    push_list, push_shaded, shaded, staged, staged_lists,
};
use crate::hit::{Hit, MaterialHandle, WHit, WShadingPoint, hit_lane, packed, padding_hit};
use crate::lanes::{WRay, Wec3};

verus! {

/// A surface that can be hit-tested, occlusion-tested and shaded. Implementations
/// are read-only and may be called from many threads at once. `C` is the camera that
/// shading may consult to size its offsets.
pub trait Hitable<C>: Send + Sync {
    /// What `hit` answers: a function of the surface and the arguments alone.
    spec fn hit_spec(&self, rays: WRay, t_start: [i64; 4], t_end: [i64; 4]) -> [i64; 4];

    /// What `occluded` answers: a function of the surface and the arguments alone.
    spec fn occluded_spec(&self, start: Wec3, end: Wec3, time: [i64; 4]) -> [u16; 4];

    /// What `get_shading_info` answers: a function of the surface and the arguments alone.
    spec fn shading_spec(&self, hits: WHit, primary: bool, camera: C) -> (MaterialHandle, WShadingPoint);

    /// For each lane, the distance of the nearest intersection in `[t_start, t_end)`,
    /// or a value at or past `t_end` where there is none.
    fn hit(&self, rays: &WRay, t_start: [i64; 4], t_end: [i64; 4]) -> (r: [i64; 4])
        ensures
            r == self.hit_spec(*rays, t_start, t_end),
    ;

    /// For each lane, how much of the segment from `start` to `end` this surface lets
    /// through: `0` is fully blocked, `FULLY_VISIBLE` is unobstructed.
    fn occluded(&self, start: &Wec3, end: &Wec3, time: [i64; 4]) -> (r: [u16; 4])
        ensures
            r == self.occluded_spec(*start, *end, time),
    ;

    /// The material and shading data of four hits on this surface; `primary` marks
    /// hits of camera rays.
    fn get_shading_info(&self, hits: WHit, primary: bool, camera: &C) -> (r: (MaterialHandle, WShadingPoint))
        ensures
            r == self.shading_spec(hits, primary, *camera),
    ;
}

/// The visibility of an unobstructed segment.
pub const FULLY_VISIBLE: u16 = 65535;

/// Visibility `a` seen through visibility `b`, both as fractions of `FULLY_VISIBLE`,
/// rounded up: the result is zero only where one of them is.
pub open spec fn vis_mul(a: int, b: int) -> int {
    (a * b + 65534) / 65535
}

/// The visibility of lane `l` through every reported value, folded in order.
pub open spec fn occlusion(vs: Seq<[u16; 4]>, l: int) -> int
    decreases vs.len(),
{
    if vs.len() == 0 {
        65535
    } else {
        vis_mul(occlusion(vs.drop_last(), l), vs.last()@[l] as int)
    }
}

/// Combines two per-lane visibilities.
pub fn combine_visibility(acc: [u16; 4], v: [u16; 4]) -> (r: [u16; 4])
    ensures
        forall|l: int| 0 <= l < 4 ==> #[trigger] r@[l] == vis_mul(acc@[l] as int, v@[l] as int),
{
    let r = [
        vis_mul_lane(acc[0], v[0]),
        vis_mul_lane(acc[1], v[1]),
        vis_mul_lane(acc[2], v[2]),
        vis_mul_lane(acc[3], v[3]),
    ];
    assert(r@[0] == vis_mul(acc@[0] as int, v@[0] as int));
    assert(r@[1] == vis_mul(acc@[1] as int, v@[1] as int));
    assert(r@[2] == vis_mul(acc@[2] as int, v@[2] as int));
    assert(r@[3] == vis_mul(acc@[3] as int, v@[3] as int));
    r
}

fn vis_mul_lane(a: u16, b: u16) -> (r: u16)
    ensures
        r == vis_mul(a as int, b as int),
{
    proof {
        let (ai, bi) = (a as int, b as int);
        assert(0 <= ai * bi <= 65535 * 65535) by (nonlinear_arith)
            requires
                0 <= ai <= 65535,
                0 <= bi <= 65535,
        ;
        assert(0 <= (ai * bi + 65534) / 65535 <= 65535) by (nonlinear_arith)
            requires
                0 <= ai * bi <= 65535 * 65535,
        ;
    }
    let p = (a as u32) * (b as u32) + 65534;
    (p / 65535) as u16
}

/// The fold of visibilities stays a fraction of `FULLY_VISIBLE`.
pub proof fn lemma_occlusion_bounded(vs: Seq<[u16; 4]>, l: int)
    requires
        0 <= l < 4,
    ensures
        0 <= occlusion(vs, l) <= 65535,
    decreases vs.len(),
{
    if vs.len() > 0 {
        lemma_occlusion_bounded(vs.drop_last(), l);
        let a = occlusion(vs.drop_last(), l);
        let b = vs.last()@[l] as int;
        assert(0 <= a * b <= 65535 * 65535) by (nonlinear_arith)
            requires
                0 <= a <= 65535,
                0 <= b <= 65535,
        ;
    }
}

/// With no surfaces every lane is fully visible.
pub proof fn lemma_no_surfaces_fully_visible(l: int)
    ensures
        occlusion(Seq::<[u16; 4]>::empty(), l) == 65535,
{
}

/// A surface that fully blocks a lane blocks it whatever the other surfaces report,
/// wherever it stands in the order.
pub proof fn lemma_blocking_surface_blocks(vs: Seq<[u16; 4]>, k: int, l: int)
    requires
        0 <= k < vs.len(),
        0 <= l < 4,
        vs[k]@[l] == 0,
    ensures
        occlusion(vs, l) == 0,
    decreases vs.len(),
{
    let a = occlusion(vs.drop_last(), l);
    let b = vs.last()@[l] as int;
    if k == vs.len() - 1 {
        assert(a * b == 0) by (nonlinear_arith)
            requires
                b == 0,
        ;
    } else {
        assert(vs.drop_last()[k] == vs[k]);
        lemma_blocking_surface_blocks(vs.drop_last(), k, l);
        assert(a * b == 0) by (nonlinear_arith)
            requires
                a == 0,
        ;
    }
}

/// A lane's visibility is zero exactly where some surface reports zero for it, so
/// whether a lane is blocked does not depend on the order of the surfaces.
pub proof fn lemma_blocked_iff_some_surface_blocks(vs: Seq<[u16; 4]>, l: int)
    requires
        0 <= l < 4,
    ensures
        occlusion(vs, l) == 0 <==> exists|k: int| 0 <= k < vs.len() && (#[trigger] vs[k])@[l] == 0,
    decreases vs.len(),
{
    if exists|k: int| 0 <= k < vs.len() && (#[trigger] vs[k])@[l] == 0 {
        let k = choose|k: int| 0 <= k < vs.len() && (#[trigger] vs[k])@[l] == 0;
        lemma_blocking_surface_blocks(vs, k, l);
    } else if vs.len() > 0 {
        let prev = vs.drop_last();
        assert forall|k: int| 0 <= k < prev.len() implies (#[trigger] prev[k])@[l] != 0 by {
            assert(prev[k] == vs[k]);
        }
        lemma_blocked_iff_some_surface_blocks(prev, l);
        lemma_occlusion_bounded(prev, l);
        let a = occlusion(prev, l);
        let b = vs.last()@[l] as int;
        assert(vs[vs.len() - 1]@[l] != 0);
        assert((a * b + 65534) / 65535 >= 1) by (nonlinear_arith)
            requires
                1 <= a,
                1 <= b,
        ;
    }
}

/// One more surface never raises a lane's visibility.
pub proof fn lemma_more_surfaces_never_raise_visibility(vs: Seq<[u16; 4]>, v: [u16; 4], l: int)
    requires
        0 <= l < 4,
    ensures
        occlusion(vs.push(v), l) <= occlusion(vs, l),
{
    lemma_occlusion_bounded(vs, l);
    let a = occlusion(vs, l);
    let b = v@[l] as int;
    assert(vs.push(v).drop_last() == vs);
    assert((a * b + 65534) / 65535 <= a) by (nonlinear_arith)
        requires
            0 <= a <= 65535,
            0 <= b <= 65535,
    ;
}

/// The distances that lane `l` received from each surface, in order.
pub open spec fn lane_ts(ts: Seq<[i64; 4]>, l: int) -> Seq<i64> {
    Seq::new(ts.len(), |k: int| ts[k]@[l])
}

/// The nearest hit of one lane: the smallest distance below `end` and the first
/// surface that reported it, folded in surface order with a strict comparison.
/// An invalid lane never has one.
pub open spec fn nearest(ts: Seq<i64>, end: i64, valid: bool) -> (i64, Option<int>)
    decreases ts.len(),
{
    if ts.len() == 0 {
        (end, None)
    } else {
        let (best, id) = nearest(ts.drop_last(), end, valid);
        if valid && ts.last() < best {
            (ts.last(), Some(ts.len() - 1))
        } else {
            (best, id)
        }
    }
}

/// What `nearest` picks: a valid lane's first surface at the smallest distance below
/// `end`, and none where no surface reported a distance below `end`.
pub proof fn lemma_nearest_is_first_minimum(ts: Seq<i64>, end: i64, valid: bool)
    ensures
        ({
            let (best, id) = nearest(ts, end, valid);
            match id {
                Some(i) => {
                    &&& valid
                    &&& 0 <= i < ts.len()
                    &&& best == ts[i]
                    &&& best < end
                    &&& forall|j: int| 0 <= j < ts.len() ==> best <= #[trigger] ts[j]
                    &&& forall|j: int| 0 <= j < i ==> best < #[trigger] ts[j]
                },
                None => {
                    &&& best == end
                    &&& valid ==> forall|j: int| 0 <= j < ts.len() ==> end <= #[trigger] ts[j]
                },
            }
        }),
    decreases ts.len(),
{
    if ts.len() > 0 {
        let prev = ts.drop_last();
        lemma_nearest_is_first_minimum(prev, end, valid);
        assert(forall|j: int| 0 <= j < prev.len() ==> prev[j] == ts[j]);
    }
}

/// Of two surfaces that report the same distance for a lane, the later one is never
/// the nearest hit; where that distance is the smallest one below `end` of a valid
/// lane, the nearest hit is the earlier one or a surface before it.
pub proof fn lemma_tie_goes_to_earlier(ts: Seq<i64>, end: i64, valid: bool, a: int, b: int)
    requires
        0 <= a < b < ts.len(),
        ts[a] == ts[b],
    ensures
        nearest(ts, end, valid).1 != Some(b),
        valid && ts[a] < end && (forall|j: int| 0 <= j < ts.len() ==> ts[a] <= #[trigger] ts[j])
            ==> (exists|i: int| i <= a && nearest(ts, end, valid).1 == Some(i)),
{
    lemma_nearest_is_first_minimum(ts, end, valid);
    let id = nearest(ts, end, valid).1;
    if valid && ts[a] < end && (forall|j: int| 0 <= j < ts.len() ==> ts[a] <= #[trigger] ts[j]) {
        assert(ts[a] >= end ==> false);
        let i = id->Some_0;
        assert(id is Some);
        assert(i <= a);
    }
}

/// A lane whose ray is invalid never has a nearest hit.
pub proof fn lemma_invalid_lane_has_no_hit(ts: Seq<i64>, end: i64)
    ensures
        nearest(ts, end, false).1 is None,
    decreases ts.len(),
{
    if ts.len() > 0 {
        lemma_invalid_lane_has_no_hit(ts.drop_last(), end);
    }
}

/// One step of the per-lane fold: surface `obj` reported `t`.
pub fn nearest_step(best: i64, id: Option<usize>, t: i64, valid: bool, obj: usize) -> (r: (i64, Option<usize>))
    ensures
        r == if valid && t < best { (t, Some(obj)) } else { (best, id) },
{
    if valid && t < best {
        (t, Some(obj))
    } else {
        (best, id)
    }
}

pub open spec fn id_spec(o: Option<usize>) -> Option<int> {
    match o {
        Some(i) => Some(i as int),
        None => None,
    }
}

/// The staging lists after the nearest hits of lanes `0..l` were recorded, lane by
/// lane: each lane with a nearest hit adds its ray and distance to the list of the
/// surface that produced it.
pub open spec fn record_upto(lists: Seq<Seq<Hit>>, ray: WRay, ts: Seq<[i64; 4]>, end: [i64; 4], l: int) -> Seq<Seq<Hit>>
    decreases l,
{
    if l <= 0 {
        lists
    } else {
        let prev = record_upto(lists, ray, ts, end, l - 1);
        let (t, id) = nearest(lane_ts(ts, l - 1), end@[l - 1], ray.valid@[l - 1]);
        match id {
            Some(i) => prev.update(i, prev[i].push(Hit { ray: ray.lane_spec(l - 1), t })),
            None => prev,
        }
    }
}

/// The staging lists after one packet: every lane's nearest hit recorded.
pub open spec fn record_packet(lists: Seq<Seq<Hit>>, ray: WRay, ts: Seq<[i64; 4]>, end: [i64; 4]) -> Seq<Seq<Hit>> {
    record_upto(lists, ray, ts, end, 4)
}

proof fn lemma_record_keeps_len(lists: Seq<Seq<Hit>>, ray: WRay, ts: Seq<[i64; 4]>, end: [i64; 4], l: int)
    requires
        0 <= l <= 4,
        ts.len() == lists.len(),
    ensures
        record_upto(lists, ray, ts, end, l).len() == lists.len(),
    decreases l,
{
    if l > 0 {
        lemma_record_keeps_len(lists, ray, ts, end, l - 1);
        lemma_nearest_is_first_minimum(lane_ts(ts, l - 1), end@[l - 1], ray.valid@[l - 1]);
    }
}

/// Recording a packet only appends, and every hit it appends has a valid ray: a lane
/// whose ray is invalid records nothing.
pub proof fn lemma_recorded_hits_are_valid(lists: Seq<Seq<Hit>>, ray: WRay, ts: Seq<[i64; 4]>, end: [i64; 4], l: int)
    requires
        0 <= l <= 4,
        ts.len() == lists.len(),
    ensures
        ({
            let r = record_upto(lists, ray, ts, end, l);
            &&& r.len() == lists.len()
            &&& forall|i: int| 0 <= i < lists.len() ==> lists[i].len() <= (#[trigger] r[i]).len()
            &&& forall|i: int| 0 <= i < lists.len() ==> (#[trigger] r[i]).subrange(0, lists[i].len() as int) == lists[i]
            &&& forall|i: int, k: int|
                0 <= i < lists.len() && lists[i].len() <= k < r[i].len() ==> (#[trigger] r[i][k]).ray.valid
        }),
    decreases l,
{
    if l > 0 {
        lemma_recorded_hits_are_valid(lists, ray, ts, end, l - 1);
        let prev = record_upto(lists, ray, ts, end, l - 1);
        lemma_nearest_is_first_minimum(lane_ts(ts, l - 1), end@[l - 1], ray.valid@[l - 1]);
        let r = record_upto(lists, ray, ts, end, l);
        assert forall|i: int| 0 <= i < lists.len() implies (#[trigger] r[i]).subrange(0, lists[i].len() as int) == lists[i] by {
            assert(prev[i].subrange(0, lists[i].len() as int) == lists[i]);
            assert(lists[i].len() <= prev[i].len());
            assert(r[i].subrange(0, lists[i].len() as int) =~= prev[i].subrange(0, lists[i].len() as int));
        }
    }
}

/// The hits that lanes `0..l` of a packet append to the list of surface `i`, in lane
/// order: one for each lane whose nearest hit is on that surface.
pub open spec fn appended_to(ray: WRay, ts: Seq<[i64; 4]>, end: [i64; 4], i: int, l: int) -> Seq<Hit>
    decreases l,
{
    if l <= 0 {
        Seq::empty()
    } else {
        let prev = appended_to(ray, ts, end, i, l - 1);
        let (t, id) = nearest(lane_ts(ts, l - 1), end@[l - 1], ray.valid@[l - 1]);
        if id == Some(i) {
            prev.push(Hit { ray: ray.lane_spec(l - 1), t })
        } else {
            prev
        }
    }
}

/// Recording a packet appends to each surface's list exactly the hits of the lanes
/// whose nearest hit is on that surface, each with the lane's ray and nearest
/// distance, in lane order; lanes do not affect one another and nothing else changes.
pub proof fn lemma_record_appends_lane_winners(lists: Seq<Seq<Hit>>, ray: WRay, ts: Seq<[i64; 4]>, end: [i64; 4], l: int)
    requires
        0 <= l <= 4,
        ts.len() == lists.len(),
    ensures
        record_upto(lists, ray, ts, end, l).len() == lists.len(),
        forall|i: int|
            0 <= i < lists.len() ==> #[trigger] record_upto(lists, ray, ts, end, l)[i] == lists[i] + appended_to(
                ray,
                ts,
                end,
                i,
                l,
            ),
    decreases l,
{
    if l > 0 {
        lemma_record_appends_lane_winners(lists, ray, ts, end, l - 1);
        lemma_nearest_is_first_minimum(lane_ts(ts, l - 1), end@[l - 1], ray.valid@[l - 1]);
        let prev = record_upto(lists, ray, ts, end, l - 1);
        let (t, id) = nearest(lane_ts(ts, l - 1), end@[l - 1], ray.valid@[l - 1]);
        let h = Hit { ray: ray.lane_spec(l - 1), t };
        assert forall|i: int| 0 <= i < lists.len() implies #[trigger] record_upto(lists, ray, ts, end, l)[i]
            == lists[i] + appended_to(ray, ts, end, i, l) by {
            assert(prev[i] == lists[i] + appended_to(ray, ts, end, i, l - 1));
            if id == Some(i) {
                assert((lists[i] + appended_to(ray, ts, end, i, l - 1)).push(h)
                    =~= lists[i] + appended_to(ray, ts, end, i, l - 1).push(h));
            }
        }
    }
}

/// The number of four-wide groups that `n` staged hits make.
pub open spec fn batch_count(n: nat) -> nat {
    (n + 3) / 4
}

/// A staging list filled with padding records up to the next multiple of four.
pub open spec fn pad(l: Seq<Hit>) -> Seq<Hit> {
    l + Seq::new((4 * batch_count(l.len()) - l.len()) as nat, |k: int| padding_hit())
}

/// The number of four-wide groups over all staging lists.
pub open spec fn total_batches(lists: Seq<Seq<Hit>>) -> nat
    decreases lists.len(),
{
    if lists.len() == 0 {
        0
    } else {
        total_batches(lists.drop_last()) + batch_count(lists.last().len())
    }
}

/// Padding makes a list of `4 * ceil(n / 4)` records whose first `n` are the staged
/// hits, unchanged, and whose others are invalid: every staged hit is dispatched once
/// and no padding record carries a valid ray.
pub proof fn lemma_pad_keeps_hits(l: Seq<Hit>)
    ensures
        pad(l).len() == 4 * batch_count(l.len()),
        pad(l).len() < l.len() + 4,
        pad(l).subrange(0, l.len() as int) == l,
        forall|k: int| l.len() <= k < pad(l).len() ==> !(#[trigger] pad(l)[k]).ray.valid,
{
    assert(pad(l).subrange(0, l.len() as int) =~= l);
}

/// Each staged hit is dispatched once, in its own surface's groups: hit `j` is lane
/// `j % 4` of group `j / 4` of the padded list.
pub proof fn lemma_groups_cover_staged_hits(list: Seq<Hit>, j: int)
    requires
        0 <= j < list.len(),
    ensures
        j / 4 < batch_count(list.len()),
        hit_lane(group(pad(list), j / 4), j % 4) == list[j],
{
    lemma_pad_keeps_hits(list);
    let p = pad(list);
    let q = j / 4;
    let r = j % 4;
    assert(j == 4 * q + r && 0 <= r < 4);
    assert(4 * q + 4 <= p.len());
    assert(p[j] == list[j]) by {
        assert(p.subrange(0, list.len() as int)[j] == p[j]);
    }
    let w = group(p, q);
    if r == 0 {
        assert(hit_lane(w, 0) == p[4 * q]);
    } else if r == 1 {
        assert(hit_lane(w, 1) == p[4 * q + 1]);
    } else if r == 2 {
        assert(hit_lane(w, 2) == p[4 * q + 2]);
    } else {
        assert(hit_lane(w, 3) == p[4 * q + 3]);
    }
}

/// Staging lists that are all empty make no four-wide group.
pub proof fn lemma_empty_lists_make_no_batches(lists: Seq<Seq<Hit>>)
    requires
        forall|i: int| 0 <= i < lists.len() ==> (#[trigger] lists[i]).len() == 0,
    ensures
        total_batches(lists) == 0,
    decreases lists.len(),
{
    if lists.len() > 0 {
        lemma_empty_lists_make_no_batches(lists.drop_last());
    }
}

/// What each surface reports for a segment, in id order.
pub open spec fn surface_visibilities<C, H: Hitable<C>>(objs: Seq<H>, start: Wec3, end: Wec3, time: [i64; 4]) -> Seq<[u16; 4]> {
    Seq::new(objs.len(), |i: int| objs[i].occluded_spec(start, end, time))
}

/// The end of the range each lane is searched in after the surfaces that gave `ts`:
/// the nearest distance found so far, or the original end.
pub open spec fn running_end(ts: Seq<[i64; 4]>, ray: WRay, t_end: [i64; 4]) -> [i64; 4] {
    [
        nearest(lane_ts(ts, 0), t_end@[0], ray.valid@[0]).0,
        nearest(lane_ts(ts, 1), t_end@[1], ray.valid@[1]).0,
        nearest(lane_ts(ts, 2), t_end@[2], ray.valid@[2]).0,
        nearest(lane_ts(ts, 3), t_end@[3], ray.valid@[3]).0,
    ]
}

/// What the surfaces answer when asked in id order, each for hits closer than the
/// nearest one found before it.
pub open spec fn surface_answers<C, H: Hitable<C>>(objs: Seq<H>, ray: WRay, t_start: [i64; 4], t_end: [i64; 4]) -> Seq<[i64; 4]>
    decreases objs.len(),
{
    if objs.len() == 0 {
        Seq::empty()
    } else {
        let prev = surface_answers::<C, H>(objs.drop_last(), ray, t_start, t_end);
        prev.push(objs.last().hit_spec(ray, t_start, running_end(prev, ray, t_end)))
    }
}

/// The `k`-th group of four records of a list, packed lane by lane.
pub open spec fn group(list: Seq<Hit>, k: int) -> WHit {
    packed([list[4 * k], list[4 * k + 1], list[4 * k + 2], list[4 * k + 3]])
}

/// What one surface's shading makes of its padded staging list, group by group.
pub open spec fn surface_output<C, H: Hitable<C>>(h: H, list: Seq<Hit>, primary: bool, camera: C) -> Seq<(MaterialHandle, WShadingPoint)> {
    Seq::new(batch_count(list.len()), |k: int| h.shading_spec(group(pad(list), k), primary, camera))
}

/// The shading results of every surface's staging list, surface by surface.
pub open spec fn dispatch_output<C, H: Hitable<C>>(objs: Seq<H>, lists: Seq<Seq<Hit>>, primary: bool, camera: C) -> Seq<(MaterialHandle, WShadingPoint)>
    decreases lists.len(),
{
    if lists.len() == 0 {
        Seq::empty()
    } else {
        dispatch_output::<C, H>(objs, lists.drop_last(), primary, camera)
            + surface_output::<C, H>(objs[lists.len() - 1], lists.last(), primary, camera)
    }
}

/// The geometry of a scene. A surface's position is its id, fixed for the store's life.
pub struct HitableStore<H> {
    objects: Vec<H>,
}

impl<H> View for HitableStore<H> {
    type V = Seq<H>;

    closed spec fn view(&self) -> Seq<H> {
        self.objects@
    }
}

impl<H> HitableStore<H> {
    pub fn new() -> (r: Self)
        ensures
            r@ == Seq::<H>::empty(),
    {
        HitableStore { objects: Vec::new() }
    }

    /// Adds a surface; its id is the number of surfaces before it.
    pub fn push(&mut self, hitable: H)
        ensures
            final(self)@ == old(self)@.push(hitable),
    {
        self.objects.push(hitable)
    }

    pub fn len(&self) -> (r: usize)
        ensures
            r == self@.len(),
    {
        self.objects.len()
    }

    /// The surface with id `id`.
    pub fn get(&self, id: usize) -> (r: &H)
        requires
            id < self@.len(),
        ensures
            *r == self@[id as int],
    {
        &self.objects[id]
    }

    /// The visibility of each lane's segment from `start` to `end` through every
    /// surface: the product of what each reports, starting from fully visible.
    pub fn test_occluded<C>(&self, start: &Wec3, end: &Wec3, time: [i64; 4]) -> (r: [u16; 4])
        where
            H: Hitable<C>,
        ensures
            forall|l: int|
                0 <= l < 4 ==> #[trigger] r@[l] == occlusion(surface_visibilities::<C, H>(self@, *start, *end, time), l),
            self@.len() == 0 ==> forall|l: int| 0 <= l < 4 ==> #[trigger] r@[l] == FULLY_VISIBLE,
    {
        let mut acc: [u16; 4] = [FULLY_VISIBLE, FULLY_VISIBLE, FULLY_VISIBLE, FULLY_VISIBLE];
        let ghost mut vs: Seq<[u16; 4]> = Seq::empty();
        let n = self.objects.len();
        let mut i: usize = 0;
        while i < n
            invariant
                n == self@.len(),
                i <= n,
                vs == surface_visibilities::<C, H>(self@, *start, *end, time).take(i as int),
                forall|l: int| 0 <= l < 4 ==> #[trigger] acc@[l] == occlusion(vs, l),
                
            decreases n - i,
        {
            let v = self.objects[i].occluded(start, end, time);
            let ghost prev = vs;
            acc = combine_visibility(acc, v);
            proof {
                vs = vs.push(v);
                assert(vs.drop_last() == prev);
                assert(vs =~= surface_visibilities::<C, H>(self@, *start, *end, time).take(i + 1));
            }
            i += 1;
        }
        proof {
            assert(vs =~= surface_visibilities::<C, H>(self@, *start, *end, time));
        }
        acc
    }

    /// Finds each lane's nearest hit over every surface in id order and records it in
    /// the staging list of the surface that produced it. Each surface is asked for
    /// hits closer than the nearest one found so far; on equal distances the earlier
    /// surface wins, and lanes with invalid rays or no hit record nothing.
    pub fn add_hits<C>(&self, ray: WRay, t_start: [i64; 4], t_end: [i64; 4], hit_store: &mut HitStore<'_>)
        where
            H: Hitable<C>,
        requires
            old(hit_store)@.len() == self@.len(),
        ensures
            final(hit_store)@ == record_packet(
                old(hit_store)@,
                ray,
                surface_answers::<C, H>(self@, ray, t_start, t_end),
                t_end,
            ),
            final(hit_store)@.len() == old(hit_store)@.len(),
            forall|i: int, k: int|
                0 <= i < old(hit_store)@.len() && old(hit_store)@[i].len() <= k < final(hit_store)@[i].len()
                    ==> (#[trigger] final(hit_store)@[i][k]).ray.valid,
    {
        let n = self.objects.len();
        let mut closest: [i64; 4] = t_end;
        let mut ids: [Option<usize>; 4] = [None, None, None, None];
        let ghost mut ts: Seq<[i64; 4]> = Seq::empty();
        let mut i: usize = 0;
        while i < n
            invariant
                n == self@.len(),
                i <= n,
                ts.len() == i,
                ts == surface_answers::<C, H>(self@.subrange(0, i as int), ray, t_start, t_end),
                closest == running_end(ts, ray, t_end),
                forall|l: int| 0 <= l < 4 ==> (#[trigger] closest@[l], id_spec(ids@[l]))
                    == nearest(lane_ts(ts, l), t_end@[l], ray.valid@[l]),
            decreases n - i,
        {
            let t = self.objects[i].hit(&ray, t_start, closest);
            let s0 = nearest_step(closest[0], ids[0], t[0], ray.valid[0], i);
            let s1 = nearest_step(closest[1], ids[1], t[1], ray.valid[1], i);
            let s2 = nearest_step(closest[2], ids[2], t[2], ray.valid[2], i);
            let s3 = nearest_step(closest[3], ids[3], t[3], ray.valid[3], i);
            let ghost prev = ts;
            proof {
                let objs = self@.subrange(0, i as int + 1);
                assert(objs.drop_last() =~= self@.subrange(0, i as int));
                assert(objs.last() == self@[i as int]);
                ts = ts.push(t);
                assert forall|l: int| 0 <= l < 4 implies lane_ts(ts, l).drop_last() == lane_ts(prev, l)
                    && lane_ts(ts, l).last() == t@[l] by {
                    assert(lane_ts(ts, l).drop_last() =~= lane_ts(prev, l));
                }
            }
            closest = [s0.0, s1.0, s2.0, s3.0];
            ids = [s0.1, s1.1, s2.1, s3.1];
            proof {
                assert forall|l: int| 0 <= l < 4 implies (#[trigger] closest@[l], id_spec(ids@[l]))
                    == nearest(lane_ts(ts, l), t_end@[l], ray.valid@[l]) by {
                    assert(lane_ts(ts, l).drop_last() == lane_ts(prev, l));
                }
                let e = running_end(ts, ray, t_end);
                assert(closest@[0] == e@[0] && closest@[1] == e@[1]);
                assert(closest@[2] == e@[2] && closest@[3] == e@[3]);
                assert(closest@ =~= e@);
                assert(closest == e);
            }
            i += 1;
        }
        proof {
            assert(self@.subrange(0, n as int) =~= self@);
        }
        let ghost start = hit_store@;
        let mut l: usize = 0;
        while l < 4
            invariant
                n == self@.len(),
                ts.len() == n,
                start.len() == n,
                0 <= l <= 4,
                hit_store@ == record_upto(start, ray, ts, t_end, l as int),
                forall|m: int| 0 <= m < 4 ==> (#[trigger] closest@[m], id_spec(ids@[m]))
                    == nearest(lane_ts(ts, m), t_end@[m], ray.valid@[m]),
            decreases 4 - l,
        {
            proof {
                lemma_record_keeps_len(start, ray, ts, t_end, l as int);
                lemma_nearest_is_first_minimum(lane_ts(ts, l as int), t_end@[l as int], ray.valid@[l as int]);
            }
            match ids[l] {
                Some(id) => {
                    hit_store.add_hit(id, Hit { ray: ray.lane(l), t: closest[l] });
                },
                None => {},
            }
            l += 1;
        }
        proof {
            lemma_recorded_hits_are_valid(start, ray, ts, t_end, 4);
        }
    }
}

/// Per-surface staging of scalar hits in a per-pass arena, re-batched four at a time
/// for shading. Not shared between threads while it fills.
pub struct HitStore<'bump> {
    hits: bumpalo::collections::Vec<'bump, bumpalo::collections::Vec<'bump, Hit>>,
}

impl<'bump> View for HitStore<'bump> {
    type V = Seq<Seq<Hit>>;

    /// The staging list of each surface id.
    closed spec fn view(&self) -> Seq<Seq<Hit>> {
        staged_lists(self.hits)
    }
}

impl<'bump> HitStore<'bump> {
    /// One empty staging list in `bump` for each surface of `hitable_store`.
    pub fn from_hitable_store<H>(bump: &'bump bumpalo::Bump, hitable_store: &HitableStore<H>) -> (r: Self)
        ensures
            r@.len() == hitable_store@.len(),
            forall|i: int| 0 <= i < r@.len() ==> (#[trigger] r@[i]).len() == 0,
    {
        let n = hitable_store.len();
        let mut hits = new_list_table(n, bump);
        let mut i: usize = 0;
        while i < n
            invariant
                i <= n,
                staged_lists(hits).len() == i,
                forall|k: int| 0 <= k < i ==> (#[trigger] staged_lists(hits)[k]).len() == 0,
            decreases n - i,
        {
            push_list(&mut hits, new_hit_list(bump));
            i += 1;
        }
        HitStore { hits }
    }

    pub fn len(&self) -> (r: usize)
        ensures
            r == self@.len(),
    {
        list_count(&self.hits)
    }

    /// The number of hits staged for surface `obj_id`.
    pub fn staged_count(&self, obj_id: usize) -> (r: usize)
        requires
            obj_id < self@.len(),
        ensures
            r == self@[obj_id as int].len(),
    {
        hit_count(list_at(&self.hits, obj_id))
    }

    /// The `k`-th hit staged for surface `obj_id`.
    pub fn staged_hit(&self, obj_id: usize, k: usize) -> (r: Hit)
        requires
            obj_id < self@.len(),
            k < self@[obj_id as int].len(),
        ensures
            r == self@[obj_id as int][k as int],
    {
        hit_at(list_at(&self.hits, obj_id), k)
    }

    /// Appends `hit` to the staging list of surface `obj_id`.
    pub fn add_hit(&mut self, obj_id: usize, hit: Hit)
        requires
            obj_id < old(self)@.len(),
        ensures
            final(self)@ == old(self)@.update(obj_id as int, old(self)@[obj_id as int].push(hit)),
    {
        push_hit(list_at_mut(&mut self.hits, obj_id), hit);
        proof {
            assert(self@ =~= old(self)@.update(obj_id as int, old(self)@[obj_id as int].push(hit)));
        }
    }

    /// The `k`-th group of four hits staged for surface `obj_id`, packed lane by lane.
    pub fn wide_hit_at(&self, obj_id: usize, k: usize) -> (r: WHit)
        requires
            obj_id < self@.len(),
            4 * k + 4 <= self@[obj_id as int].len(),
        ensures
            r == group(self@[obj_id as int], k as int),
            forall|l: int| 0 <= l < 4 ==> #[trigger] hit_lane(r, l) == self@[obj_id as int][4 * k + l],
    {
        let list = list_at(&self.hits, obj_id);
        let len = hit_count(list);
        assert(4 * k + 4 <= len);
        let b = 4 * k;
        WHit::from_hits([hit_at(list, b), hit_at(list, b + 1), hit_at(list, b + 2), hit_at(list, b + 3)])
    }

    /// Fills the staging list of surface `obj_id` with padding up to a multiple of four.
    pub fn pad_hits(&mut self, obj_id: usize)
        requires
            obj_id < old(self)@.len(),
        ensures
            final(self)@ == old(self)@.update(obj_id as int, pad(old(self)@[obj_id as int])),
    {
        let ghost orig = self@[obj_id as int];
        proof {
            lemma_pad_keeps_hits(orig);
        }
        while hit_count(list_at(&self.hits, obj_id)) % 4 != 0
            invariant
                obj_id < self@.len(),
                self@.len() == old(self)@.len(),
                forall|i: int| 0 <= i < self@.len() && i != obj_id ==> self@[i] == old(self)@[i],
                orig.len() <= self@[obj_id as int].len() <= pad(orig).len(),
                self@[obj_id as int] == pad(orig).subrange(0, self@[obj_id as int].len() as int),
            decreases pad(orig).len() - self@[obj_id as int].len(),
        {
            let ghost cur = self@[obj_id as int];
            proof {
                assert(cur.len() < pad(orig).len()) by {
                    if cur.len() == pad(orig).len() {
                        assert(cur.len() % 4 == 0);
                    }
                }
            }
            self.add_hit(obj_id, Hit::padding());
            proof {
                assert(self@[obj_id as int] == cur.push(padding_hit()));
                assert(self@[obj_id as int] =~= pad(orig).subrange(0, self@[obj_id as int].len() as int));
            }
        }
        proof {
            let cur = self@[obj_id as int];
            assert(cur.len() == pad(orig).len()) by {
                assert(cur.len() % 4 == 0);
                assert(pad(orig).len() == 4 * batch_count(orig.len()));
            }
            assert(cur =~= pad(orig));
            assert(self@ =~= old(self)@.update(obj_id as int, pad(orig)));
        }
    }

    /// Pads every staging list to a multiple of four, then hands each group of four to
    /// its surface's `get_shading_info`, surface by surface and group by group, and
    /// appends each result to `wintersections`.
    pub fn process_hits<C, H: Hitable<C>>(
        &mut self,
        hitables: &HitableStore<H>,
        wintersections: &mut bumpalo::collections::Vec<'_, (MaterialHandle, WShadingPoint)>,
        primary: bool,
        camera: &C,
    )
        requires
            old(self)@.len() == hitables@.len(),
        ensures
            final(self)@.len() == old(self)@.len(),
            forall|i: int| 0 <= i < old(self)@.len() ==> #[trigger] final(self)@[i] == pad(old(self)@[i]),
            shaded(*final(wintersections)).len() == shaded(*old(wintersections)).len() + total_batches(old(self)@),
            shaded(*final(wintersections)) == shaded(*old(wintersections)) + dispatch_output::<C, H>(
                hitables@,
                old(self)@,
                primary,
                *camera,
            ),
    {
        let n = list_count(&self.hits);
        let ghost orig = self@;
        let ghost out0 = shaded(*wintersections);
        let mut obj: usize = 0;
        while obj < n
            invariant
                n == self@.len(),
                n == orig.len(),
                n == hitables@.len(),
                obj <= n,
                forall|i: int| 0 <= i < obj ==> #[trigger] self@[i] == pad(orig[i]),
                forall|i: int| obj <= i < n ==> #[trigger] self@[i] == orig[i],
                shaded(*wintersections).len() == out0.len() + total_batches(orig.subrange(0, obj as int)),
                shaded(*wintersections) == out0 + dispatch_output::<C, H>(hitables@, orig.subrange(0, obj as int), primary, *camera),
            decreases n - obj,
        {
            self.pad_hits(obj);
            let count = hit_count(list_at(&self.hits, obj));
            proof {
                lemma_pad_keeps_hits(orig[obj as int]);
            }
            let groups = count / 4;
            let ghost before = shaded(*wintersections).len();
            let ghost done = shaded(*wintersections);
            let ghost mine = surface_output::<C, H>(hitables@[obj as int], orig[obj as int], primary, *camera);
            proof {
                let bc = batch_count(orig[obj as int].len());
                assert(self@[obj as int] == pad(orig[obj as int]));
                assert(count == 4 * bc);
                assert((4 * bc) / 4 == bc) by (nonlinear_arith);
            }
            let mut k: usize = 0;
            while k < groups
                invariant
                    n == self@.len(),
                    n == hitables@.len(),
                    obj < n,
                    count == self@[obj as int].len(),
                    groups == count / 4,
                    k <= groups,
                    shaded(*wintersections).len() == before + k,
                    before == done.len(),
                    n == orig.len(),
                    groups == mine.len(),
                    self@[obj as int] == pad(orig[obj as int]),
                    mine == surface_output::<C, H>(hitables@[obj as int], orig[obj as int], primary, *camera),
                    shaded(*wintersections) == done + mine.take(k as int),
                decreases groups - k,
            {
                assert(4 * k + 4 <= count) by (nonlinear_arith)
                    requires
                        k < groups,
                        groups == count / 4,
                ;
                let w = self.wide_hit_at(obj, k);
                push_shaded(wintersections, hitables.get(obj).get_shading_info(w, primary, camera));
                proof {
                    assert(shaded(*wintersections) =~= done + mine.take(k as int + 1));
                }
                k += 1;
            }
            proof {
                let s = orig.subrange(0, obj as int + 1);
                assert(s.drop_last() =~= orig.subrange(0, obj as int));
                assert(mine.take(groups as int) =~= mine);
                assert(shaded(*wintersections) =~= out0 + dispatch_output::<C, H>(hitables@, s, primary, *camera));
                let bc = batch_count(orig[obj as int].len());
                assert(count == 4 * bc);
                assert((4 * bc) / 4 == bc) by (nonlinear_arith);
                assert(groups == bc);
            }
            obj += 1;
        }
        proof {
            assert(orig.subrange(0, n as int) =~= orig);
        }
    }

    /// Empties every staging list, keeping the lists and the arena for the next pass.
    pub fn reset(&mut self)
        ensures
            final(self)@.len() == old(self)@.len(),
            forall|i: int| 0 <= i < final(self)@.len() ==> (#[trigger] final(self)@[i]).len() == 0,
    {
        let n = list_count(&self.hits);
        let mut i: usize = 0;
        while i < n
            invariant
                n == self@.len(),
                n == old(self)@.len(),
                i <= n,
                forall|k: int| 0 <= k < i ==> (#[trigger] self@[k]).len() == 0,
            decreases n - i,
        {
            let ghost before = self@;
            clear_hits(list_at_mut(&mut self.hits, i));
            proof {
                assert(self@ =~= before.update(i as int, Seq::<Hit>::empty()));
            }
            i += 1;
        }
    }
}

} // verus!
