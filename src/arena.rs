//! Per-pass arena storage: bumpalo's `Bump` and its growable vectors.
use vstd::prelude::*;
use crate::hit::{Hit, MaterialHandle, WShadingPoint};

verus! {

#[verifier::external_type_specification]
#[verifier::external_body]
pub struct ExBump<const MIN_ALIGN: usize>(bumpalo::Bump<MIN_ALIGN>);

#[verifier::external_type_specification]
#[verifier::external_body]
#[verifier::reject_recursive_types(T)]
pub struct ExBumpVec<'bump, T>(bumpalo::collections::Vec<'bump, T>);

/// The hits held by an arena vector, in order.
pub uninterp spec fn staged(v: bumpalo::collections::Vec<'_, Hit>) -> Seq<Hit>;

/// The shading records held by an arena vector, in order.
pub uninterp spec fn shaded(
    v: bumpalo::collections::Vec<'_, (MaterialHandle, WShadingPoint)>,
) -> Seq<(MaterialHandle, WShadingPoint)>;

/// Relies on bumpalo's `Vec::new_in`: a new vector in the arena is empty.
#[verifier::external_body]
pub(crate) fn new_hit_list<'bump>(bump: &'bump bumpalo::Bump) -> (r: bumpalo::collections::Vec<'bump, Hit>)
    ensures
        staged(r) == Seq::<Hit>::empty(),
{
    bumpalo::collections::Vec::new_in(bump)
}

/// Relies on bumpalo's `Vec::push`: the value is appended at the end.
#[verifier::external_body]
pub(crate) fn push_hit(v: &mut bumpalo::collections::Vec<'_, Hit>, h: Hit)
    ensures
        staged(*final(v)) == staged(*old(v)).push(h),
{
    v.push(h)
}

/// Relies on bumpalo's `Vec::push`: the value is appended at the end.
#[verifier::external_body]
pub(crate) fn push_shaded(
    v: &mut bumpalo::collections::Vec<'_, (MaterialHandle, WShadingPoint)>,
    s: (MaterialHandle, WShadingPoint),
)
    ensures
        shaded(*final(v)) == shaded(*old(v)).push(s),
{
    v.push(s)
}

/// Relies on bumpalo's `Vec::len`: the number of elements.
#[verifier::external_body]
pub(crate) fn hit_count(v: &bumpalo::collections::Vec<'_, Hit>) -> (r: usize)
    ensures
        r == staged(*v).len(),
{
    v.len()
}

/// Relies on bumpalo's `Vec` indexing: the element at position `i`.
#[verifier::external_body]
pub(crate) fn hit_at(v: &bumpalo::collections::Vec<'_, Hit>, i: usize) -> (r: Hit)
    requires
        i < staged(*v).len(),
    ensures
        r == staged(*v)[i as int],
{
    v[i]
}

/// Relies on bumpalo's `Vec::clear`: no element is left.
#[verifier::external_body]
pub(crate) fn clear_hits(v: &mut bumpalo::collections::Vec<'_, Hit>)
    ensures
        staged(*final(v)) == Seq::<Hit>::empty(),
{
    v.clear()
}

/// The staging lists held by an arena vector of arena vectors, in order.
pub uninterp spec fn staged_lists(
    v: bumpalo::collections::Vec<'_, bumpalo::collections::Vec<'_, Hit>>,
) -> Seq<Seq<Hit>>;

/// Relies on bumpalo's `Vec::with_capacity_in`: a new vector is empty, whatever its
/// capacity.
#[verifier::external_body]
pub(crate) fn new_list_table<'bump>(
    capacity: usize,
    bump: &'bump bumpalo::Bump,
) -> (r: bumpalo::collections::Vec<'bump, bumpalo::collections::Vec<'bump, Hit>>)
    ensures
        staged_lists(r) == Seq::<Seq<Hit>>::empty(),
{
    bumpalo::collections::Vec::with_capacity_in(capacity, bump)
}

/// Relies on bumpalo's `Vec::push`: the list is appended at the end.
#[verifier::external_body]
pub(crate) fn push_list<'bump>(
    v: &mut bumpalo::collections::Vec<'bump, bumpalo::collections::Vec<'bump, Hit>>,
    list: bumpalo::collections::Vec<'bump, Hit>,
)
    ensures
        staged_lists(*final(v)) == staged_lists(*old(v)).push(staged(list)),
{
    v.push(list)
}

/// Relies on bumpalo's `Vec::len`: the number of lists.
#[verifier::external_body]
pub(crate) fn list_count(v: &bumpalo::collections::Vec<'_, bumpalo::collections::Vec<'_, Hit>>) -> (r: usize)
    ensures
        r == staged_lists(*v).len(),
{
    v.len()
}

/// Relies on bumpalo's `Vec` indexing: the list at position `i`.
#[verifier::external_body]
pub(crate) fn list_at<'a, 'bump>(
    v: &'a bumpalo::collections::Vec<'bump, bumpalo::collections::Vec<'bump, Hit>>,
    i: usize,
) -> (r: &'a bumpalo::collections::Vec<'bump, Hit>)
    requires
        i < staged_lists(*v).len(),
    ensures
        staged(*r) == staged_lists(*v)[i as int],
{
    &v[i]
}

/// Relies on bumpalo's mutable `Vec` indexing: the list at position `i`, whose new
/// contents become those at position `i`.
#[verifier::external_body]
pub(crate) fn list_at_mut<'a, 'bump>(
    v: &'a mut bumpalo::collections::Vec<'bump, bumpalo::collections::Vec<'bump, Hit>>,
    i: usize,
) -> (r: &'a mut bumpalo::collections::Vec<'bump, Hit>)
    requires
        i < staged_lists(*old(v)).len(),
    ensures
        staged(*r) == staged_lists(*old(v))[i as int],
        staged_lists(*final(v)) == staged_lists(*old(v)).update(i as int, staged(*final(r))),
{
    &mut v[i]
}

} // verus!
