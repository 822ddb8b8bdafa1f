//! What a ray hits: the record of a hit, the closest hit among a list of
//! primitives, and the plain list of primitives.
use crate::bounding_box::{lemma_union_of_push, union_of, Bounds, AABB};
use crate::ray::Ray;
use crate::scalar::{vle, vlt, Scalar};
use crate::vector::Vec3;
use rand::seq::SliceRandom;
use rand::Rng;
use vstd::prelude::*;

verus! {

/// A hit of a ray on a primitive: the point `p`, the normal `n` turned
/// against the ray, the ray parameter `t`, the surface coordinates `u` and
/// `v`, the material `m` (as the caller numbers its materials) and whether
/// the ray came from outside.
#[derive(Clone, Copy, Debug)]
pub struct HitRecord {
    pub p: Vec3,
    pub n: Vec3,
    pub t: Scalar,
    pub u: Scalar,
    pub v: Scalar,
    pub m: usize,
    pub front_face: bool,
}

/// What the arithmetic of a primitive reports of the point in which a ray
/// meets it: the point, the surface coordinates, and the dot product of the
/// ray's direction with the outward normal there.
#[derive(Clone, Copy, Debug)]
pub struct Surface {
    pub p: Vec3,
    pub u: Scalar,
    pub v: Scalar,
    pub dot: Scalar,
}

/// The record of a hit at the ray parameter `t` in the point that `at`
/// describes, with the outward normal `outward` turned against the ray: kept
/// where the dot product is below zero, and flipped otherwise.
pub open spec fn recorded(t: Scalar, at: Surface, outward: Vec3, material: usize) -> HitRecord {
    HitRecord {
        p: at.p,
        n: if vlt(at.dot@, Some(0int)) {
            outward
        } else {
            outward.neg_spec()
        },
        t,
        u: at.u,
        v: at.v,
        m: material,
        front_face: vlt(at.dot@, Some(0int)),
    }
}

/// The record `h` carried over to another frame: at the point `p`, with the
/// outward normal `outward` turned against the ray whose direction has the
/// dot product `dot` with it.
pub open spec fn carried(h: HitRecord, p: Vec3, outward: Vec3, dot: Scalar) -> HitRecord {
    HitRecord {
        p,
        n: if vlt(dot@, Some(0int)) {
            outward
        } else {
            outward.neg_spec()
        },
        t: h.t,
        u: h.u,
        v: h.v,
        m: h.m,
        front_face: vlt(dot@, Some(0int)),
    }
}

impl HitRecord {
    /// The record seen from the other side: what was the front is the back.
    pub fn flip_face(&self) -> (h: HitRecord)
        ensures
            h == (HitRecord { front_face: !self.front_face, ..*self }),
    {
        let mut h = *self;
        h.front_face = !self.front_face;
        h
    }

    /// The record carried over to another frame, see [`carried`].
    pub fn carry(&self, p: Vec3, outward: &Vec3, dot: Scalar) -> (h: HitRecord)
        ensures
            h == carried(*self, p, *outward, dot),
    {
        let mut h = *self;
        h.p = p;
        h.set_face_normal(dot, outward);
        h
    }

    /// The record of a hit at `t` in the point that `at` describes.
    pub fn new(t: Scalar, at: Surface, outward: &Vec3, material: usize) -> (h: HitRecord)
        ensures
            h == recorded(t, at, *outward, material),
    {
        let mut h = HitRecord { p: at.p, n: *outward, t, u: at.u, v: at.v, m: material, front_face: false };
        h.set_face_normal(at.dot, outward);
        h
    }

    /// Turns the normal against the ray. `dot` is the dot product of the
    /// ray's direction with `outward_normal`: below zero the ray comes from
    /// outside and the normal is kept, otherwise the normal is flipped.
    pub fn set_face_normal(&mut self, dot: Scalar, outward_normal: &Vec3)
        ensures
            final(self).front_face == vlt(dot@, Some(0int)),
            final(self).front_face ==> final(self).n == *outward_normal,
            !final(self).front_face ==> final(self).n == outward_normal.neg_spec(),
            final(self).p == old(self).p,
            final(self).t == old(self).t,
            final(self).u == old(self).u,
            final(self).v == old(self).v,
            final(self).m == old(self).m,
    {
        self.front_face = dot.lt(Scalar::zero());
        self.n = if self.front_face {
            *outward_normal
        } else {
            outward_normal.neg()
        };
    }
}

/// Whether primitive `i` is hit within a ray parameter of at most `t_max`,
/// where `hits` holds for each primitive its hit on the ray, if it has one.
pub open spec fn within(hits: Seq<Option<HitRecord>>, i: int, t_max: Scalar) -> bool {
    hits[i] matches Some(h) && vle(h.t@, t_max@)
}

/// Whether `prim_hit` answers as a test of the primitives against one ray
/// does: primitive `i` has the hit `hits[i]` or none, and the test reports
/// that hit exactly when its parameter is at most the `t_max` it was asked
/// with.
pub open spec fn answers<P: Fn(usize, Ray, Scalar, Scalar) -> Option<HitRecord>>(
    prim_hit: &P,
    r: Ray,
    t_min: Scalar,
    hits: Seq<Option<HitRecord>>,
) -> bool {
    forall|i: usize, t_max: Scalar, res: Option<HitRecord>|
        i < hits.len() && #[trigger] prim_hit.ensures((i, r, t_min, t_max), res) ==> res == (if within(
            hits,
            i as int,
            t_max,
        ) {
            hits[i as int]
        } else {
            None
        })
}

/// Whether `res` is the closest of the hits within `t_max`: none if there is
/// none, and else one of them whose parameter no other one undercuts.
pub open spec fn is_closest(res: Option<HitRecord>, hits: Seq<Option<HitRecord>>, t_max: Scalar) -> bool {
    match res {
        None => forall|i: int| 0 <= i < hits.len() ==> !#[trigger] within(hits, i, t_max),
        Some(h) => {
            &&& exists|i: int| 0 <= i < hits.len() && #[trigger] hits[i] == Some(h)
            &&& vle(h.t@, t_max@)
            &&& forall|j: int| 0 <= j < hits.len() && #[trigger] within(hits, j, t_max) ==> vle(h.t@, hits[j]->0.t@)
        },
    }
}

/// Whether primitive `i` is hit at a ray parameter below `bound`.
pub open spec fn under(hits: Seq<Option<HitRecord>>, i: int, bound: Scalar) -> bool {
    hits[i] matches Some(h) && vlt(h.t@, bound@)
}

/// Whether `res` is a closest hit within `t_max` unless the only hits are
/// at `t_max` itself: one of the hits within `t_max` whose parameter no other
/// one undercuts, or none where no primitive is hit below `t_max`.
pub open spec fn is_nearest(res: Option<HitRecord>, hits: Seq<Option<HitRecord>>, t_max: Scalar) -> bool {
    match res {
        None => forall|i: int| 0 <= i < hits.len() ==> !#[trigger] under(hits, i, t_max),
        Some(h) => {
            &&& exists|i: int| 0 <= i < hits.len() && #[trigger] hits[i] == Some(h)
            &&& vle(h.t@, t_max@)
            &&& forall|j: int| 0 <= j < hits.len() && #[trigger] within(hits, j, t_max) ==> vle(h.t@, hits[j]->0.t@)
        },
    }
}

/// What a scan of all primitives finds and what a walk through the
/// hierarchy finds agree: both miss or both hit, and at the same ray
/// parameter. Left out are the rays whose only hits lie at `t_max` itself,
/// which the hierarchy may miss.
pub proof fn lemma_closest_agree(
    scanned: Option<HitRecord>,
    walked: Option<HitRecord>,
    hits: Seq<Option<HitRecord>>,
    t_max: Scalar,
)
    requires
        is_closest(scanned, hits, t_max),
        is_nearest(walked, hits, t_max),
        walked is None ==> forall|i: int| 0 <= i < hits.len() && #[trigger] within(hits, i, t_max) ==> under(hits, i, t_max),
    ensures
        scanned is None <==> walked is None,
        scanned is Some ==> scanned->0.t@ == walked->0.t@,
{
    if scanned is Some {
        let i = choose|i: int| 0 <= i < hits.len() && #[trigger] hits[i] == scanned;
        assert(within(hits, i, t_max));
        if walked is Some {
            let j = choose|j: int| 0 <= j < hits.len() && #[trigger] hits[j] == walked;
            assert(within(hits, j, t_max));
        } else {
            assert(under(hits, i, t_max));
        }
    } else if walked is Some {
        let j = choose|j: int| 0 <= j < hits.len() && #[trigger] hits[j] == walked;
        assert(within(hits, j, t_max));
    }
}

/// The state of a scan for the closest hit: nothing found yet and the bound
/// still `t_max`, or the hit of some primitive, within `t_max`, whose
/// parameter is the bound now.
pub open spec fn tracks(
    found: Option<HitRecord>,
    bound: Scalar,
    hits: Seq<Option<HitRecord>>,
    t_max: Scalar,
) -> bool {
    match found {
        None => bound == t_max,
        Some(h) => {
            &&& bound == h.t
            &&& vle(h.t@, t_max@)
            &&& exists|i: int| 0 <= i < hits.len() && #[trigger] hits[i] == Some(h)
        },
    }
}

/// Whether the hit of primitive `i`, if it is within `bound`, has the
/// parameter of the hit found.
pub open spec fn settled(found: Option<HitRecord>, bound: Scalar, hits: Seq<Option<HitRecord>>, i: int) -> bool {
    within(hits, i, bound) ==> found is Some && hits[i]->0.t@ == found->0.t@
}

/// Whether `found` came out of `prim_hit` for one of the primitives in `objects`.
pub open spec fn reported<P: Fn(usize, Ray, Scalar, Scalar) -> Option<HitRecord>>(
    prim_hit: &P,
    objects: Seq<usize>,
    r: Ray,
    t_min: Scalar,
    found: Option<HitRecord>,
) -> bool {
    found is Some ==> exists|k: int, bound: Scalar|
        0 <= k < objects.len() && #[trigger] prim_hit.ensures((objects[k], r, t_min, bound), found)
}

/// Tests the primitives `objects[lo..hi]` in turn, each within the bound that
/// the hits before it have left, and returns the last hit reported with the
/// bound it leaves.
pub fn scan<P: Fn(usize, Ray, Scalar, Scalar) -> Option<HitRecord>>(
    objects: &Vec<usize>,
    lo: usize,
    hi: usize,
    r: &Ray,
    t_min: Scalar,
    found: Option<HitRecord>,
    bound: Scalar,
    prim_hit: &P,
) -> (res: (Option<HitRecord>, Scalar))
    requires
        lo <= hi <= objects.len(),
        forall|o: usize, b: Scalar| objects@.contains(o) ==> #[trigger] prim_hit.requires((o, *r, t_min, b)),
        reported(prim_hit, objects@, *r, t_min, found),
    ensures
        reported(prim_hit, objects@, *r, t_min, res.0),
        lo == hi ==> res == (found, bound),
        forall|hits: Seq<Option<HitRecord>>, t_max: Scalar|
            #![trigger answers(prim_hit, *r, t_min, hits), tracks(found, bound, hits, t_max)]
            answers(prim_hit, *r, t_min, hits) && tracks(found, bound, hits, t_max) && (forall|k: int|
                lo <= k < hi ==> (#[trigger] objects[k]) < hits.len()) ==> {
                &&& tracks(res.0, res.1, hits, t_max)
                &&& vle(bound@, bound@) ==> vle(res.1@, bound@)
                &&& bound@ is None ==> res.1 == bound
                &&& forall|k: int| lo <= k < hi ==> #[trigger] settled(res.0, res.1, hits, objects[k] as int)
                &&& forall|i: int|
                    0 <= i < hits.len() && #[trigger] settled(found, bound, hits, i) ==> settled(
                        res.0,
                        res.1,
                        hits,
                        i,
                    )
            },
{
    let mut record = found;
    let mut closest = bound;
    let mut k: usize = lo;
    while k < hi
        invariant
            lo <= k <= hi <= objects.len(),
            forall|o: usize, b: Scalar| objects@.contains(o) ==> #[trigger] prim_hit.requires((o, *r, t_min, b)),
            reported(prim_hit, objects@, *r, t_min, record),
            k == lo ==> (record, closest) == (found, bound),
            forall|hits: Seq<Option<HitRecord>>, t_max: Scalar|
                #![trigger answers(prim_hit, *r, t_min, hits), tracks(found, bound, hits, t_max)]
                answers(prim_hit, *r, t_min, hits) && tracks(found, bound, hits, t_max) && (forall|j: int|
                    lo <= j < hi ==> (#[trigger] objects[j]) < hits.len()) ==> {
                    &&& tracks(record, closest, hits, t_max)
                    &&& vle(bound@, bound@) ==> vle(closest@, bound@)
                    &&& bound@ is None ==> closest == bound
                    &&& forall|j: int| lo <= j < k ==> #[trigger] settled(record, closest, hits, objects[j] as int)
                    &&& forall|i: int|
                        0 <= i < hits.len() && #[trigger] settled(found, bound, hits, i) ==> settled(
                            record,
                            closest,
                            hits,
                            i,
                        )
                },
        decreases hi - k,
    {
        let ghost before = (record, closest);
        let object = objects[k];
        assert(objects@.contains(object));
        let answer = prim_hit(object, *r, t_min, closest);
        match answer {
            Some(h) => {
                record = Some(h);
                closest = h.t;
            },
            None => {},
        }
        proof {
            assert forall|hits: Seq<Option<HitRecord>>, t_max: Scalar|
                #![trigger answers(prim_hit, *r, t_min, hits), tracks(found, bound, hits, t_max)]
                answers(prim_hit, *r, t_min, hits) && tracks(found, bound, hits, t_max) && (forall|j: int|
                    lo <= j < hi ==> (#[trigger] objects[j]) < hits.len()) implies {
                &&& tracks(record, closest, hits, t_max)
                &&& vle(bound@, bound@) ==> vle(closest@, bound@)
                &&& bound@ is None ==> closest == bound
                &&& forall|j: int| lo <= j < k + 1 ==> #[trigger] settled(record, closest, hits, objects[j] as int)
                &&& forall|i: int|
                    0 <= i < hits.len() && #[trigger] settled(found, bound, hits, i) ==> settled(
                        record,
                        closest,
                        hits,
                        i,
                    )
            } by {
                assert(objects[k as int] < hits.len());
                assert(tracks(before.0, before.1, hits, t_max));
                assert(prim_hit.ensures((object, *r, t_min, before.1), answer));
                if answer is Some {
                    assert(hits[object as int] == answer);
                }
                assert forall|j: int| lo <= j < k + 1 implies #[trigger] settled(
                    record,
                    closest,
                    hits,
                    objects[j] as int,
                ) by {
                    if j < k {
                        assert(settled(before.0, before.1, hits, objects[j] as int));
                    }
                }
                assert forall|i: int| 0 <= i < hits.len() && #[trigger] settled(found, bound, hits, i) implies settled(
                    record,
                    closest,
                    hits,
                    i,
                ) by {
                    assert(settled(before.0, before.1, hits, i));
                }
            }
            if answer is Some {
                assert(prim_hit.ensures((objects@[k as int], *r, t_min, before.1), record));
            }
        }
        k += 1;
    }
    (record, closest)
}

/// The indices `0..n` in order.
pub open spec fn identity(n: nat) -> Seq<usize> {
    Seq::new(n, |i: int| i as usize)
}

/// The union of all `boxes`, starting from the empty box.
pub fn union_all(boxes: &Vec<AABB>) -> (b: AABB)
    ensures
        b@ == union_of(boxes@, identity(boxes@.len())),
{
    let mut acc = AABB::default();
    let mut k: usize = 0;
    assert(identity(0) =~= Seq::<usize>::empty());
    while k < boxes.len()
        invariant
            k <= boxes.len(),
            acc@ == union_of(boxes@, identity(k as nat)),
        decreases boxes.len() - k,
    {
        proof {
            lemma_union_of_push(boxes@, identity(k as nat), k);
            assert(identity(k as nat).push(k) =~= identity((k + 1) as nat));
        }
        acc = acc.extend_box(&boxes[k]);
        k += 1;
    }
    acc
}

/// A plain list of primitives, each known by its index and its box, with the
/// box around all of them.
pub struct World {
    pub objects: Vec<usize>,
    pub boxes: Vec<AABB>,
    pub aabb: Option<AABB>,
}

/// A failed attempt to add a primitive that has no bounding box.
#[derive(Clone, Copy, Debug, PartialEq, Eq, Structural)]
pub struct MissingBox;

/// `choose` of the crate rand, on a slice of indices, with the generator of
/// the current thread. Trusted: it returns nothing for an empty slice and one
/// of the slice's elements otherwise; which one is not determined.
#[verifier::external_body]
fn pick_one(objects: &Vec<usize>) -> (picked: Option<usize>)
    ensures
        objects@.len() == 0 ==> picked is None,
        objects@.len() > 0 ==> picked is Some && objects@.contains(picked->0),
{
    objects.choose(&mut rand::thread_rng()).copied()
}

impl World {
    /// Whether the primitives are numbered in order and each has its box.
    pub open spec fn wf(&self) -> bool {
        &&& self.objects@ == identity(self.boxes@.len())
    }

    /// The empty list; its box is the empty box.
    pub fn new() -> (w: World)
        ensures
            w.objects@.len() == 0,
            w.boxes@.len() == 0,
            w.aabb is Some && w.aabb->0@ == Bounds::empty(),
            w.wf(),
    {
        let w = World { objects: Vec::new(), boxes: Vec::new(), aabb: Some(AABB::default()) };
        assert(w.objects@ =~= identity(0));
        w
    }

    /// Appends a primitive with the box `bounding_box`, under the next
    /// number, and takes the box around all primitives anew. A primitive
    /// without a box is refused and the list stays as it was.
    pub fn push(&mut self, bounding_box: Option<AABB>) -> (res: Result<usize, MissingBox>)
        ensures
            bounding_box is None ==> res is Err && *final(self) == *old(self),
            bounding_box is Some ==> {
                &&& res == Ok::<usize, MissingBox>(old(self).boxes.len())
                &&& final(self).boxes@ == old(self).boxes@.push(bounding_box->0)
                &&& final(self).objects@ == old(self).objects@.push(old(self).boxes.len())
                &&& final(self).aabb is Some
                &&& final(self).aabb->0@ == union_of(final(self).boxes@, identity(final(self).boxes@.len()))
                &&& old(self).wf() ==> final(self).wf()
            },
    {
        match bounding_box {
            None => Err(MissingBox),
            Some(aabb) => {
                let index = self.boxes.len();
                self.boxes.push(aabb);
                self.objects.push(index);
                self.aabb = Some(union_all(&self.boxes));
                proof {
                    if old(self).wf() {
                        assert(self.objects@ =~= identity(self.boxes@.len()));
                    }
                }
                Ok(index)
            },
        }
    }

    /// The box around all primitives.
    pub fn bounding_box(&self) -> (b: Option<AABB>)
        ensures
            b == self.aabb,
    {
        self.aabb
    }

    /// The closest hit among the primitives within `[t_min, t_max]`.
    ///
    /// `prim_hit(i, r, t_min, bound)` is asked for the hit of primitive `i`
    /// on `r` within `[t_min, bound]`, in the order of the list and with the
    /// bound lowered to each hit reported.
    pub fn hit<P: Fn(usize, Ray, Scalar, Scalar) -> Option<HitRecord>>(
        &self,
        r: &Ray,
        t_min: Scalar,
        t_max: Scalar,
        prim_hit: &P,
    ) -> (res: Option<HitRecord>)
        requires
            forall|o: usize, b: Scalar| self.objects@.contains(o) ==> #[trigger] prim_hit.requires((o, *r, t_min, b)),
        ensures
            reported(prim_hit, self.objects@, *r, t_min, res),
            self.objects@.len() == 0 ==> res is None,
            forall|hits: Seq<Option<HitRecord>>| #[trigger]
                answers(prim_hit, *r, t_min, hits) && self.wf() && hits.len() == self.boxes@.len() ==> is_closest(
                    res,
                    hits,
                    t_max,
                ),
    {
        let (res, bound) = scan(&self.objects, 0, self.objects.len(), r, t_min, None, t_max, prim_hit);
        proof {
            assert forall|hits: Seq<Option<HitRecord>>| #[trigger]
                answers(prim_hit, *r, t_min, hits) && self.wf() && hits.len() == self.boxes@.len() implies is_closest(
                res,
                hits,
                t_max,
            ) by {
                assert(tracks(None, t_max, hits, t_max));
                assert forall|i: int| 0 <= i < hits.len() implies #[trigger] settled(res, bound, hits, i) by {
                    assert(self.objects@[i] == i);
                    assert(settled(res, bound, hits, self.objects@[i] as int));
                }
                lemma_scanned_all(hits, res, bound, t_max);
            }
        }
        res
    }

    /// A direction towards one of the primitives, picked at random, as
    /// `sample` gives it for the primitive and `origin`; the x axis if there
    /// is no primitive.
    pub fn random<F: Fn(usize, Vec3) -> Vec3>(&self, origin: Vec3, sample: &F) -> (d: Vec3)
        requires
            forall|o: usize| self.objects@.contains(o) ==> #[trigger] sample.requires((o, origin)),
        ensures
            self.objects@.len() == 0 ==> d == Vec3::spec_unit_x(),
            self.objects@.len() > 0 ==> exists|o: usize| self.objects@.contains(o) && #[trigger] sample.ensures((o, origin), d),
    {
        match pick_one(&self.objects) {
            None => Vec3::unit_x(),
            Some(object) => sample(object, origin),
        }
    }
}

/// Whether `sum` may come out as the sum of the densities of the first `n`
/// primitives in `objects`, added up in order from zero.
pub open spec fn summed<D: Fn(usize, Vec3, Vec3) -> Scalar, A: Fn(Scalar, Scalar) -> Scalar>(
    objects: Seq<usize>,
    n: nat,
    origin: Vec3,
    direction: Vec3,
    density: &D,
    plus: &A,
    sum: Scalar,
) -> bool
    decreases n,
{
    if n == 0 {
        sum.bits == 0
    } else {
        exists|before: Scalar, one: Scalar|
            #![trigger density.ensures((objects[n - 1], origin, direction), one), plus.ensures((before, one), sum)]
            summed(objects, (n - 1) as nat, origin, direction, density, plus, before) && density.ensures(
                (objects[n - 1], origin, direction),
                one,
            ) && plus.ensures((before, one), sum)
    }
}

impl World {
    /// The density with which sampling towards the primitives proposes
    /// `direction` from `origin`: the mean of their densities.
    ///
    /// `density(i, origin, direction)` is asked for the density of each
    /// primitive in order, `plus` for the sum of two densities and
    /// `over(sum, count)` for the sum over the number of primitives.
    pub fn pdf_value<
        D: Fn(usize, Vec3, Vec3) -> Scalar,
        A: Fn(Scalar, Scalar) -> Scalar,
        M: Fn(Scalar, usize) -> Scalar,
    >(&self, origin: Vec3, direction: Vec3, density: &D, plus: &A, over: &M) -> (d: Scalar)
        requires
            forall|o: usize| self.objects@.contains(o) ==> #[trigger] density.requires((o, origin, direction)),
            forall|a: Scalar, b: Scalar| #[trigger] plus.requires((a, b)),
            forall|a: Scalar, n: usize| #[trigger] over.requires((a, n)),
        ensures
            exists|sum: Scalar|
                summed(self.objects@, self.objects@.len(), origin, direction, density, plus, sum) && #[trigger] over.ensures(
                    (sum, self.objects@.len() as usize),
                    d,
                ),
    {
        let mut sum = Scalar::zero();
        let mut k: usize = 0;
        while k < self.objects.len()
            invariant
                k <= self.objects@.len(),
                forall|o: usize| self.objects@.contains(o) ==> #[trigger] density.requires((o, origin, direction)),
                forall|a: Scalar, b: Scalar| #[trigger] plus.requires((a, b)),
                summed(self.objects@, k as nat, origin, direction, density, plus, sum),
            decreases self.objects@.len() - k,
        {
            let ghost before = sum;
            assert(self.objects@.contains(self.objects@[k as int]));
            let one = density(self.objects[k], origin, direction);
            sum = plus(sum, one);
            k += 1;
            proof {
                assert(density.ensures((self.objects@[k - 1], origin, direction), one) && plus.ensures(
                    (before, one),
                    sum,
                ));
            }
        }
        let d = over(sum, self.objects.len());
        assert(over.ensures((sum, self.objects@.len() as usize), d));
        d
    }
}

/// Once the hit of every primitive is settled, what was found is the closest hit.
pub proof fn lemma_scanned_all(hits: Seq<Option<HitRecord>>, found: Option<HitRecord>, bound: Scalar, t_max: Scalar)
    requires
        tracks(found, bound, hits, t_max),
        forall|i: int| 0 <= i < hits.len() ==> #[trigger] settled(found, bound, hits, i),
    ensures
        is_closest(found, hits, t_max),
{
    assert forall|j: int| 0 <= j < hits.len() && #[trigger] within(hits, j, t_max) implies found is Some && vle(
        found->0.t@,
        hits[j]->0.t@,
    ) by {
        assert(settled(found, bound, hits, j));
    }
}

/// `gen_range` of the crate rand, on the generator of the current thread,
/// for the whole numbers from `min` to `max`, both included. Trusted: the
/// outcome lies in that range; nothing else is determined. An empty range is
/// left out, since the crate refuses to sample it.
#[verifier::external_body]
pub fn random_int(min: u32, max: u32) -> (drawn: u32)
    requires
        min <= max,
    ensures
        min <= drawn <= max,
{
    let mut rng = rand::thread_rng();
    rng.gen_range(min..=max)
}

} // verus!
