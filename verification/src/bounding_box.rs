//! Axis-aligned bounding boxes: union, the choice of a split axis, and the
//! slab test against a ray.
use crate::ray::Ray;
use crate::scalar::{infinity_rank, lemma_rank_bounded, vle, vlt, vmax, vmin, Scalar};
use crate::vector::{Triple, Vec3};
use vstd::prelude::*;

verus! {

/// The model of an [`AABB`]: the models of its two corners.
pub struct Bounds {
    pub lo: Triple,
    pub hi: Triple,
}

impl Bounds {
    /// The box that holds nothing: it starts at positive infinity and ends at
    /// negative infinity on every axis.
    pub open spec fn empty() -> Bounds {
        Bounds {
            lo: Triple { x: Some(infinity_rank()), y: Some(infinity_rank()), z: Some(infinity_rank()) },
            hi: Triple { x: Some(-infinity_rank()), y: Some(-infinity_rank()), z: Some(-infinity_rank()) },
        }
    }

    /// The smallest box around both: the lesser start and the greater end on
    /// every axis.
    pub open spec fn union(self, other: Bounds) -> Bounds {
        Bounds {
            lo: Triple {
                x: vmin(self.lo.x, other.lo.x),
                y: vmin(self.lo.y, other.lo.y),
                z: vmin(self.lo.z, other.lo.z),
            },
            hi: Triple {
                x: vmax(self.hi.x, other.hi.x),
                y: vmax(self.hi.y, other.hi.y),
                z: vmax(self.hi.z, other.hi.z),
            },
        }
    }

    /// Whether every coordinate is a number and the box starts no later than
    /// it ends on every axis.
    pub open spec fn proper(self) -> bool {
        &&& vle(self.lo.x, self.hi.x)
        &&& vle(self.lo.y, self.hi.y)
        &&& vle(self.lo.z, self.hi.z)
    }

    /// Whether the point lies in the box, bounds included, on every axis.
    pub open spec fn contains(self, p: Triple) -> bool {
        forall|k: int| 0 <= k < 3 ==> vle(#[trigger] self.lo.axis(k), p.axis(k)) && vle(p.axis(k), self.hi.axis(k))
    }

    /// Whether `p` is a corner of the box: on every axis it sits at the start
    /// or at the end.
    pub open spec fn has_corner(self, p: Triple) -> bool {
        forall|k: int| 0 <= k < 3 ==> #[trigger] p.axis(k) == self.lo.axis(k) || p.axis(k) == self.hi.axis(k)
    }
}

/// The axis that `AABB::max_axis` picks for the extents `d`: the first axis
/// whose extent is at least that of both others, and axis 2 where the
/// comparisons single out none.
pub open spec fn widest_axis(d: Triple) -> usize {
    if vle(d.y, d.x) && vle(d.z, d.x) {
        0
    } else if vle(d.z, d.y) {
        1
    } else {
        2
    }
}

/// One step of the slab test: the interval `[t_min, t_max]` cut down to the
/// stretch `[t0, t1]` in which the ray is between the two planes of one axis.
/// A bound that is not a number cuts nothing.
pub open spec fn narrow(interval: (Option<int>, Option<int>), t0: Option<int>, t1: Option<int>) -> (
    Option<int>,
    Option<int>,
) {
    (vmax(interval.0, t0), vmin(interval.1, t1))
}

/// Whether an interval is rejected: it ends at or before its start.
pub open spec fn closed_off(interval: (Option<int>, Option<int>)) -> bool {
    vle(interval.1, interval.0)
}

/// The slab test on the six plane crossings: the interval is cut down axis by
/// axis and the box is missed as soon as the interval is closed off.
pub open spec fn slabs_overlap(near: Triple, far: Triple, t_min: Option<int>, t_max: Option<int>) -> bool {
    let ix = narrow((t_min, t_max), near.x, far.x);
    let iy = narrow(ix, near.y, far.y);
    let iz = narrow(iy, near.z, far.z);
    !closed_off(ix) && !closed_off(iy) && !closed_off(iz)
}

/// An axis-aligned box, given by its least and its greatest corner.
#[derive(Clone, Copy, Debug)]
pub struct AABB {
    pub min: Vec3,
    pub max: Vec3,
}

impl View for AABB {
    type V = Bounds;

    open spec fn view(&self) -> Bounds {
        Bounds { lo: self.min@, hi: self.max@ }
    }
}

impl AABB {
    /// The corner that a ray with direction sign `sign` meets first on an
    /// axis is taken from `min` for sign 0 and from `max` otherwise.
    pub open spec fn spec_index(self, index: usize) -> Vec3 {
        if index == 0 {
            self.min
        } else {
            self.max
        }
    }

    /// The planes that `r` crosses on entering the box.
    pub open spec fn near_planes(self, r: Ray) -> Vec3 {
        Vec3 {
            x: self.spec_index(r.sign_x).x,
            y: self.spec_index(r.sign_y).y,
            z: self.spec_index(r.sign_z).z,
        }
    }

    /// The planes that `r` crosses on leaving the box.
    pub open spec fn far_planes(self, r: Ray) -> Vec3 {
        Vec3 {
            x: self.spec_index(flip(r.sign_x)).x,
            y: self.spec_index(flip(r.sign_y)).y,
            z: self.spec_index(flip(r.sign_z)).z,
        }
    }

    pub fn new(min: Vec3, max: Vec3) -> (b: AABB)
        ensures
            b.min == min,
            b.max == max,
    {
        AABB { min, max }
    }

    /// The empty box.
    pub fn default() -> (b: AABB)
        ensures
            b@ == Bounds::empty(),
    {
        AABB {
            min: Vec3::new(Scalar::infinity(), Scalar::infinity(), Scalar::infinity()),
            max: Vec3::new(Scalar::neg_infinity(), Scalar::neg_infinity(), Scalar::neg_infinity()),
        }
    }

    pub fn min(&self) -> (v: Vec3)
        ensures
            v == self.min,
    {
        self.min
    }

    pub fn max(&self) -> (v: Vec3)
        ensures
            v == self.max,
    {
        self.max
    }

    /// The least corner for index 0 and the greatest corner for any other index.
    pub fn index(&self, index: usize) -> (v: &Vec3)
        ensures
            *v == self.spec_index(index),
    {
        if index == 0 {
            &self.min
        } else {
            &self.max
        }
    }

    /// The axis along which a box with the extents `diff` is widest. Among
    /// axes of equal extent the first wins.
    pub fn max_axis(diff: &Vec3) -> (axis: usize)
        ensures
            axis == widest_axis(diff@),
            axis < 3,
            diff@.is_real() ==> forall|k: int| 0 <= k < 3 ==> vle(#[trigger] diff@.axis(k), diff@.axis(axis as int)),
            diff@.is_real() ==> forall|k: int| 0 <= k < axis ==> vlt(#[trigger] diff@.axis(k), diff@.axis(axis as int)),
    {
        if diff.x.ge(diff.y) && diff.x.ge(diff.z) {
            0
        } else if diff.y.ge(diff.z) {
            1
        } else {
            2
        }
    }

    /// The smallest box around `self` and `aabb`.
    pub fn extend_box(&self, aabb: &AABB) -> (b: AABB)
        ensures
            b@ == self@.union(aabb@),
            self@.proper() && aabb@.proper() ==> forall|p: Triple|
                self@.has_corner(p) || aabb@.has_corner(p) ==> #[trigger] b@.contains(p),
    {
        proof {
            if self@.proper() && aabb@.proper() {
                assert forall|p: Triple| self@.has_corner(p) || aabb@.has_corner(p) implies #[trigger] self@.union(
                    aabb@,
                ).contains(p) by {
                    lemma_union_contains_corners(self@, aabb@, p);
                }
            }
        }
        let small = Vec3::new(
            self.min.x.min(aabb.min.x),
            self.min.y.min(aabb.min.y),
            self.min.z.min(aabb.min.z),
        );
        let big = Vec3::new(
            self.max.x.max(aabb.max.x),
            self.max.y.max(aabb.max.y),
            self.max.z.max(aabb.max.z),
        );
        AABB::new(small, big)
    }

    /// The slab test, once the parameters at which the ray crosses the six
    /// planes are known: `near` holds those of the planes it enters through,
    /// `far` those of the planes it leaves through.
    pub fn overlap(near: &Vec3, far: &Vec3, t_min: Scalar, t_max: Scalar) -> (b: bool)
        ensures
            b == slabs_overlap(near@, far@, t_min@, t_max@),
    {
        let lo = t_min.max(near.x);
        let hi = t_max.min(far.x);
        if hi.le(lo) {
            return false;
        }
        let lo = lo.max(near.y);
        let hi = hi.min(far.y);
        if hi.le(lo) {
            return false;
        }
        let lo = lo.max(near.z);
        let hi = hi.min(far.z);
        !hi.le(lo)
    }

    /// Whether `r` passes through the box within `[t_min, t_max]`.
    ///
    /// `along(plane, origin, inverse)` is asked for the ray parameter at which
    /// a ray starting at `origin` with inverse direction `inverse` crosses
    /// `plane`, once per plane; the answers are judged by [`AABB::overlap`].
    pub fn hit<K: Fn(Scalar, Scalar, Scalar) -> Scalar>(
        &self,
        r: &Ray,
        t_min: Scalar,
        t_max: Scalar,
        along: &K,
    ) -> (b: bool)
        requires
            forall|p: Scalar, o: Scalar, i: Scalar| along.requires((p, o, i)),
        ensures
            exists|near: Vec3, far: Vec3|
                {
                    &&& #[trigger] crossings(along, self.near_planes(*r), *r, near)
                    &&& #[trigger] crossings(along, self.far_planes(*r), *r, far)
                    &&& b == slabs_overlap(near@, far@, t_min@, t_max@)
                },
    {
        let first = Vec3::new(self.index(r.sign_x).x, self.index(r.sign_y).y, self.index(r.sign_z).z);
        let last = Vec3::new(
            self.index(other_end(r.sign_x)).x,
            self.index(other_end(r.sign_y)).y,
            self.index(other_end(r.sign_z)).z,
        );
        let near = Vec3::new(
            along(first.x, r.ori.x, r.inv_dir.x),
            along(first.y, r.ori.y, r.inv_dir.y),
            along(first.z, r.ori.z, r.inv_dir.z),
        );
        let far = Vec3::new(
            along(last.x, r.ori.x, r.inv_dir.x),
            along(last.y, r.ori.y, r.inv_dir.y),
            along(last.z, r.ori.z, r.inv_dir.z),
        );
        let b = AABB::overlap(&near, &far, t_min, t_max);
        proof {
            assert(crossings(along, self.near_planes(*r), *r, near));
            assert(crossings(along, self.far_planes(*r), *r, far));
        }
        b
    }
}

/// The index of the opposite corner: 1 for 0, and 0 for anything else.
pub open spec fn flip(sign: usize) -> usize {
    if sign == 0 {
        1
    } else {
        0
    }
}

fn other_end(sign: usize) -> (i: usize)
    ensures
        i == flip(sign),
{
    if sign == 0 {
        1
    } else {
        0
    }
}

/// Whether `t` holds, axis by axis, an answer that `along` may give for the
/// plane in `planes` and the origin and inverse direction of `r`.
pub open spec fn crossings<K: Fn(Scalar, Scalar, Scalar) -> Scalar>(along: &K, planes: Vec3, r: Ray, t: Vec3) -> bool {
    &&& along.ensures((planes.x, r.ori.x, r.inv_dir.x), t.x)
    &&& along.ensures((planes.y, r.ori.y, r.inv_dir.y), t.y)
    &&& along.ensures((planes.z, r.ori.z, r.inv_dir.z), t.z)
}

/// The union of two proper boxes contains every corner of both.
pub proof fn lemma_union_contains_corners(a: Bounds, b: Bounds, p: Triple)
    requires
        a.proper(),
        b.proper(),
        a.has_corner(p) || b.has_corner(p),
    ensures
        a.union(b).contains(p),
{
    let u = a.union(b);
    assert forall|k: int| 0 <= k < 3 implies vle(#[trigger] u.lo.axis(k), p.axis(k)) && vle(
        p.axis(k),
        u.hi.axis(k),
    ) by {
        assert(p.axis(k) == a.lo.axis(k) || p.axis(k) == a.hi.axis(k) || p.axis(k) == b.lo.axis(k) || p.axis(k)
            == b.hi.axis(k));
    }
}

/// Union is commutative and associative, and a box united with itself or
/// with a box inside it is unchanged.
pub proof fn lemma_union_laws(a: Bounds, b: Bounds, c: Bounds)
    ensures
        a.union(b) == b.union(a),
        a.union(b).union(c) == a.union(b.union(c)),
        a.union(a) == a,
{
}

/// The empty box is neutral for union: united with it, a box whose
/// coordinates are all numbers is what it was.
pub proof fn lemma_empty_is_neutral(a: AABB)
    requires
        a.min@.is_real(),
        a.max@.is_real(),
    ensures
        Bounds::empty().union(a@) == a@,
        a@.union(Bounds::empty()) == a@,
{
    lemma_rank_bounded(a.min.x);
    lemma_rank_bounded(a.min.y);
    lemma_rank_bounded(a.min.z);
    lemma_rank_bounded(a.max.x);
    lemma_rank_bounded(a.max.y);
    lemma_rank_bounded(a.max.z);
}

/// The union of the boxes that `idx` selects from `boxes`, starting from the
/// empty box.
pub open spec fn union_of(boxes: Seq<AABB>, idx: Seq<usize>) -> Bounds
    decreases idx.len(),
{
    if idx.len() == 0 {
        Bounds::empty()
    } else {
        union_of(boxes, idx.drop_last()).union(boxes[idx.last() as int]@)
    }
}

/// Selecting one box more unites it with the union so far.
pub proof fn lemma_union_of_push(boxes: Seq<AABB>, idx: Seq<usize>, i: usize)
    ensures
        union_of(boxes, idx.push(i)) == union_of(boxes, idx).union(boxes[i as int]@),
{
    assert(idx.push(i).drop_last() =~= idx);
}

/// Any one selected box can be taken out and united last.
pub proof fn lemma_union_of_remove(boxes: Seq<AABB>, idx: Seq<usize>, i: int)
    requires
        0 <= i < idx.len(),
    ensures
        union_of(boxes, idx) == union_of(boxes, idx.remove(i)).union(boxes[idx[i] as int]@),
    decreases idx.len(),
{
    if i == idx.len() - 1 {
        assert(idx.remove(i) =~= idx.drop_last());
    } else {
        let t = idx.drop_last();
        lemma_union_of_remove(boxes, t, i);
        assert(idx.remove(i) =~= t.remove(i).push(idx.last()));
        lemma_union_of_push(boxes, t.remove(i), idx.last());
        lemma_union_laws(union_of(boxes, t.remove(i)), boxes[t[i] as int]@, boxes[idx.last() as int]@);
        lemma_union_laws(boxes[t[i] as int]@, boxes[idx.last() as int]@, boxes[t[i] as int]@);
        lemma_union_laws(union_of(boxes, t.remove(i)), boxes[idx.last() as int]@, boxes[t[i] as int]@);
    }
}

/// The union does not depend on the order in which the boxes are selected.
pub proof fn lemma_union_of_permutation(boxes: Seq<AABB>, a: Seq<usize>, b: Seq<usize>)
    requires
        a.to_multiset() == b.to_multiset(),
    ensures
        union_of(boxes, a) == union_of(boxes, b),
    decreases a.len(),
{
    broadcast use vstd::seq_lib::group_to_multiset_ensures;

    a.to_multiset_ensures();
    b.to_multiset_ensures();
    if a.len() == 0 {
        assert(b.to_multiset().len() == 0);
    } else {
        let x = a.last();
        assert(a.contains(x));
        assert(b.to_multiset().count(x) > 0);
        assert(b.contains(x));
        let i = choose|i: int| 0 <= i < b.len() && b[i] == x;
        assert(a.remove(a.len() - 1) =~= a.drop_last());
        assert(a.drop_last().to_multiset() =~= a.to_multiset().remove(x));
        assert(b.remove(i).to_multiset() =~= b.to_multiset().remove(x));
        lemma_union_of_permutation(boxes, a.drop_last(), b.remove(i));
        lemma_union_of_remove(boxes, b, i);
    }
}

/// The union over two selections in a row is the union of their unions.
pub proof fn lemma_union_of_concat(boxes: Seq<AABB>, a: Seq<usize>, b: Seq<usize>)
    ensures
        union_of(boxes, a + b) == union_of(boxes, a).union(union_of(boxes, b)),
    decreases b.len(),
{
    if b.len() == 0 {
        assert(a + b =~= a);
        lemma_union_of_absorbs_empty(boxes, a);
    } else {
        lemma_union_of_concat(boxes, a, b.drop_last());
        assert((a + b).drop_last() =~= a + b.drop_last());
        assert((a + b).last() == b.last());
        lemma_union_laws(union_of(boxes, a), union_of(boxes, b.drop_last()), boxes[b.last() as int]@);
    }
}

/// A union that started from the empty box is not changed by the empty box.
pub proof fn lemma_union_of_absorbs_empty(boxes: Seq<AABB>, idx: Seq<usize>)
    ensures
        union_of(boxes, idx).union(Bounds::empty()) == union_of(boxes, idx),
    decreases idx.len(),
{
    if idx.len() > 0 {
        lemma_union_of_absorbs_empty(boxes, idx.drop_last());
        let u = union_of(boxes, idx.drop_last());
        let x = boxes[idx.last() as int]@;
        lemma_union_laws(u, x, Bounds::empty());
        lemma_union_laws(x, Bounds::empty(), x);
        lemma_union_laws(u, Bounds::empty(), x);
    }
}

/// The union of the boxes of `objects[lo..hi]`.
pub fn union_range(boxes: &Vec<AABB>, objects: &Vec<usize>, lo: usize, hi: usize) -> (b: AABB)
    requires
        lo <= hi <= objects.len(),
        forall|k: int| lo <= k < hi ==> (#[trigger] objects[k]) < boxes.len(),
    ensures
        b@ == union_of(boxes@, objects@.subrange(lo as int, hi as int)),
{
    let mut acc = AABB::default();
    let mut k: usize = lo;
    assert(objects@.subrange(lo as int, lo as int) =~= Seq::<usize>::empty());
    while k < hi
        invariant
            lo <= k <= hi <= objects.len(),
            forall|j: int| lo <= j < hi ==> (#[trigger] objects[j]) < boxes.len(),
            acc@ == union_of(boxes@, objects@.subrange(lo as int, k as int)),
        decreases hi - k,
    {
        proof {
            lemma_union_of_push(boxes@, objects@.subrange(lo as int, k as int), objects[k as int]);
            assert(objects@.subrange(lo as int, k as int).push(objects[k as int]) =~= objects@.subrange(
                lo as int,
                k + 1,
            ));
        }
        acc = acc.extend_box(&boxes[objects[k]]);
        k += 1;
    }
    acc
}

} // verus!
