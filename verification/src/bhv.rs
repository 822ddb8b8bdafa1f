//! The bounding-volume hierarchy: a balanced binary tree of boxes over a list
//! of primitives, built by median split and stored as a flat array of nodes.
use crate::bounding_box::{
    lemma_union_of_concat, lemma_union_of_permutation, union_of, union_range, widest_axis, Bounds, AABB,
};
use crate::hit::{answers, is_nearest, reported, scan, settled, tracks, under, within, HitRecord};
use crate::ray::Ray;
use crate::scalar::{vle, Scalar};
use crate::vector::Vec3;
use vstd::prelude::*;

verus! {

/// One node of the tree. It covers the primitives `objects[min_index..max_index]`
/// of its tree. A `child_index` of 0 marks a node without children; otherwise
/// the children are the nodes `child_index` and `child_index + 1`.
#[derive(Clone, Copy, Debug)]
pub struct Node {
    pub aabb: AABB,
    pub child_index: usize,
    pub min_index: usize,
    pub max_index: usize,
}

/// Why a hierarchy could not be built.
#[derive(Clone, Copy, Debug, PartialEq, Eq, Structural)]
pub enum BvhError {
    /// The list of primitives is empty.
    Empty,
    /// The primitive at this index has no bounding box.
    MissingBox(usize),
}

/// A hierarchy over the primitives whose boxes are `boxes`. The primitives
/// are known by their index in `boxes`; `objects` holds these indices in the
/// order in which the leaves cover them.
pub struct Bvh {
    pub nodes: Vec<Node>,
    pub objects: Vec<usize>,
    pub boxes: Vec<AABB>,
}

impl Node {
    /// The number of primitives that the node covers.
    pub open spec fn size(self) -> int {
        self.max_index - self.min_index
    }

    /// The index at which the node's range is split.
    pub open spec fn mid(self) -> int {
        self.min_index + (self.max_index - self.min_index) / 2
    }

    /// The number of nodes in a finished subtree over this node's range.
    pub open spec fn weight(self) -> int {
        2 * self.size() - 1
    }
}

/// Whether `objects` lists each of the indices `0..n` exactly once.
pub open spec fn is_permutation(objects: Seq<usize>, n: int) -> bool {
    &&& objects.len() == n
    &&& objects.no_duplicates()
    &&& forall|k: int| 0 <= k < n ==> (#[trigger] objects[k]) < n
    &&& forall|o: usize| o < n ==> #[trigger] objects.contains(o)
}

/// Whether `after` is `before` with the part `lo..hi` rearranged and nothing
/// else changed.
pub open spec fn rearranged(before: Seq<usize>, after: Seq<usize>, lo: int, hi: int) -> bool {
    &&& after.len() == before.len()
    &&& forall|k: int| 0 <= k < lo || hi <= k < before.len() ==> (#[trigger] after[k]) == before[k]
    &&& after.subrange(lo, hi).to_multiset() == before.subrange(lo, hi).to_multiset()
}

fn key_at(keys: &Vec<i64>, object: usize) -> (k: i64)
    requires
        object < keys.len(),
    ensures
        k == keys[object as int],
{
    keys[object]
}

/// `sort_by_key` of the standard library, on the part `lo..hi` of `objects`,
/// with the key of an object read from `keys`. Trusted: the part is
/// rearranged and nothing else changes, and afterwards the keys along the
/// part never decrease.
#[verifier::external_body]
fn sort_range_by_key(objects: &mut Vec<usize>, lo: usize, hi: usize, keys: &Vec<i64>)
    requires
        lo <= hi <= old(objects).len(),
        forall|k: int| lo <= k < hi ==> (#[trigger] old(objects)[k]) < keys.len(),
    ensures
        rearranged(old(objects)@, final(objects)@, lo as int, hi as int),
        forall|i: int, j: int|
            lo <= i <= j < hi ==> keys[(#[trigger] final(objects)@[i]) as int] <= keys[(
            #[trigger] final(objects)@[j]) as int],
{
    objects[lo..hi].sort_by_key(|object| key_at(keys, *object));
}

/// Whether `answers` holds, for every primitive at the positions `lo..hi`,
/// under the primitive's own number, an answer that `sort_value` may give
/// for its box along `axis`.
pub open spec fn keyed<S: Fn(AABB, usize) -> Scalar>(
    boxes: Seq<AABB>,
    objects: Seq<usize>,
    lo: int,
    hi: int,
    axis: usize,
    sort_value: &S,
    answers: Seq<Scalar>,
) -> bool {
    &&& answers.len() == boxes.len()
    &&& forall|k: int|
        lo <= k < hi ==> sort_value.ensures((boxes[objects[k] as int], axis), #[trigger] answers[objects[k] as int])
}

/// Whether every primitive at the positions `lo..mid` sorts no later than
/// every primitive at the positions `mid..hi`, by the keys of `answers`.
pub open spec fn parted(objects: Seq<usize>, lo: int, mid: int, hi: int, answers: Seq<Scalar>) -> bool {
    forall|k: int, l: int|
        lo <= k < mid <= l < hi ==> (#[trigger] answers[objects[k] as int]).spec_sort_key() <= (
        #[trigger] answers[objects[l] as int]).spec_sort_key()
}

/// Whether the primitives at the positions `lo..hi` are in the order of
/// their boxes' sort values along the axis on which `aabb` is widest, as
/// `extent` and `sort_value` may report them.
pub open spec fn in_order<E: Fn(AABB) -> Vec3, S: Fn(AABB, usize) -> Scalar>(
    boxes: Seq<AABB>,
    objects: Seq<usize>,
    lo: int,
    hi: int,
    aabb: AABB,
    extent: &E,
    sort_value: &S,
) -> bool {
    exists|d: Vec3, answers: Seq<Scalar>|
        #![trigger extent.ensures((aabb,), d), keyed(boxes, objects, lo, hi, widest_axis(d@), sort_value, answers)]
        extent.ensures((aabb,), d) && keyed(boxes, objects, lo, hi, widest_axis(d@), sort_value, answers) && forall|
            m: int,
        | #[trigger] parted(objects, lo, m, hi, answers)
}

/// Whether the range of node `i` is split by sort value: along the axis on
/// which the node's box is widest, every primitive in the first half of the
/// range sorts no later than every primitive in the second half, as
/// `extent` and `sort_value` may report the extents and the sort values.
pub open spec fn halved<E: Fn(AABB) -> Vec3, S: Fn(AABB, usize) -> Scalar>(
    nodes: Seq<Node>,
    objects: Seq<usize>,
    boxes: Seq<AABB>,
    i: int,
    extent: &E,
    sort_value: &S,
) -> bool {
    let node = nodes[i];
    exists|d: Vec3, answers: Seq<Scalar>|
        #![trigger extent.ensures((node.aabb,), d), keyed(boxes, objects, node.min_index as int, node.max_index as int, widest_axis(d@), sort_value, answers)]
        extent.ensures((node.aabb,), d) && keyed(
            boxes,
            objects,
            node.min_index as int,
            node.max_index as int,
            widest_axis(d@),
            sort_value,
            answers,
        ) && parted(objects, node.min_index as int, node.mid(), node.max_index as int, answers)
}

/// Whether every node's range is split by sort value, see [`halved`].
pub open spec fn median_split<E: Fn(AABB) -> Vec3, S: Fn(AABB, usize) -> Scalar>(
    nodes: Seq<Node>,
    objects: Seq<usize>,
    boxes: Seq<AABB>,
    extent: &E,
    sort_value: &S,
) -> bool {
    forall|i: int| 0 <= i < nodes.len() ==> #[trigger] halved(nodes, objects, boxes, i, extent, sort_value)
}

/// A position of a range whose contents were kept holds a primitive that
/// the range held before.
proof fn lemma_same_contents(before: Seq<usize>, after: Seq<usize>, a: int, b: int, k: int) -> (j: int)
    requires
        0 <= a <= k < b <= before.len(),
        after.len() == before.len(),
        after.subrange(a, b).to_multiset() == before.subrange(a, b).to_multiset(),
    ensures
        a <= j < b,
        before[j] == after[k],
{
    broadcast use vstd::seq_lib::group_to_multiset_ensures;

    let x = after[k];
    assert(after.subrange(a, b)[k - a] == x);
    assert(after.subrange(a, b).contains(x));
    assert(before.subrange(a, b).to_multiset().count(x) > 0);
    assert(before.subrange(a, b).contains(x));
    let i = choose|i: int| 0 <= i < b - a && before.subrange(a, b)[i] == x;
    a + i
}

impl Node {
    /// A node over `objects[min_index..max_index]`, without children yet.
    ///
    /// Its box is the union of the boxes in the range. The range is then put
    /// in the order of the sort values along the axis on which that box is
    /// widest, as `extent` and `sort_value` report them.
    fn new<E: Fn(AABB) -> Vec3, S: Fn(AABB, usize) -> Scalar>(
        objects: &mut Vec<usize>,
        boxes: &Vec<AABB>,
        keys: &mut Vec<i64>,
        min_index: usize,
        max_index: usize,
        extent: &E,
        sort_value: &S,
    ) -> (node: Node)
        requires
            min_index <= max_index <= old(objects).len(),
            forall|k: int| 0 <= k < old(objects).len() ==> (#[trigger] old(objects)[k]) < boxes.len(),
            old(keys).len() == boxes.len(),
            forall|b: AABB| extent.requires((b,)),
            forall|b: AABB, axis: usize| axis < 3 ==> sort_value.requires((b, axis)),
        ensures
            node.min_index == min_index,
            node.max_index == max_index,
            node.child_index == 0,
            node.aabb@ == union_of(boxes@, old(objects)@.subrange(min_index as int, max_index as int)),
            final(keys).len() == boxes.len(),
            rearranged(old(objects)@, final(objects)@, min_index as int, max_index as int),
            in_order(boxes@, final(objects)@, min_index as int, max_index as int, node.aabb, extent, sort_value),
    {
        let aabb = union_range(boxes, objects, min_index, max_index);
        let diff = extent(aabb);
        let axis = AABB::max_axis(&diff);
        let ghost mut answers: Seq<Scalar> = Seq::new(boxes@.len(), |i: int| Scalar { bits: 0 });
        let mut k: usize = min_index;
        while k < max_index
            invariant
                min_index <= k <= max_index <= objects.len(),
                axis < 3,
                keys.len() == boxes.len(),
                answers.len() == boxes.len(),
                forall|j: int| 0 <= j < objects.len() ==> (#[trigger] objects[j]) < boxes.len(),
                forall|b: AABB, axis: usize| axis < 3 ==> sort_value.requires((b, axis)),
                forall|j: int|
                    min_index <= j < k ==> sort_value.ensures(
                        (boxes@[objects@[j] as int], axis),
                        #[trigger] answers[objects@[j] as int],
                    ) && keys@[objects@[j] as int] == answers[objects@[j] as int].spec_sort_key(),
            decreases max_index - k,
        {
            let object = objects[k];
            let value = sort_value(boxes[object], axis);
            keys[object] = value.sort_key();
            proof {
                answers = answers.update(object as int, value);
            }
            k += 1;
        }
        let ghost before = objects@;
        sort_range_by_key(objects, min_index, max_index, keys);
        proof {
            let after = objects@;
            assert forall|j: int| min_index <= j < max_index implies sort_value.ensures(
                (boxes@[after[j] as int], axis),
                #[trigger] answers[after[j] as int],
            ) && keys@[after[j] as int] == answers[after[j] as int].spec_sort_key() by {
                let i = lemma_same_contents(before, after, min_index as int, max_index as int, j);
                assert(sort_value.ensures((boxes@[before[i] as int], axis), answers[before[i] as int]));
            }
            assert(keyed(boxes@, after, min_index as int, max_index as int, axis, sort_value, answers));
            assert forall|m: int| #[trigger] parted(after, min_index as int, m, max_index as int, answers) by {
                assert forall|a: int, b: int| min_index <= a < m <= b < max_index implies (
                #[trigger] answers[after[a] as int]).spec_sort_key() <= (
                #[trigger] answers[after[b] as int]).spec_sort_key() by {
                    assert(keys@[after[a] as int] <= keys@[after[b] as int]);
                }
            }
            assert(extent.ensures((aabb,), diff));
        }
        Node { aabb, child_index: 0, min_index, max_index }
    }
}

/// Whether the range `lo..hi` lies inside `a..b` or apart from it.
pub open spec fn inside_or_apart(lo: int, hi: int, a: int, b: int) -> bool {
    (a <= lo && hi <= b) || hi <= a || b <= lo
}

/// Rearranging a part leaves the contents of every range around it, and of
/// every range apart from it, as they were.
proof fn lemma_rearranged_range(before: Seq<usize>, after: Seq<usize>, lo: int, hi: int, a: int, b: int)
    requires
        0 <= lo <= hi <= before.len(),
        0 <= a <= b <= before.len(),
        rearranged(before, after, lo, hi),
        inside_or_apart(lo, hi, a, b),
    ensures
        after.subrange(a, b).to_multiset() == before.subrange(a, b).to_multiset(),
{
    if a <= lo && hi <= b {
        let b0 = before.subrange(a, lo);
        let b1 = before.subrange(lo, hi);
        let b2 = before.subrange(hi, b);
        let a0 = after.subrange(a, lo);
        let a1 = after.subrange(lo, hi);
        let a2 = after.subrange(hi, b);
        assert(a0 =~= b0);
        assert(a2 =~= b2);
        assert(before.subrange(a, b) =~= (b0 + b1) + b2);
        assert(after.subrange(a, b) =~= (a0 + a1) + a2);
        vstd::seq_lib::lemma_multiset_commutative(b0, b1);
        vstd::seq_lib::lemma_multiset_commutative(b0 + b1, b2);
        vstd::seq_lib::lemma_multiset_commutative(a0, a1);
        vstd::seq_lib::lemma_multiset_commutative(a0 + a1, a2);
    } else {
        assert(after.subrange(a, b) =~= before.subrange(a, b));
    }
}

/// Rearranging a part of a permutation gives a permutation.
proof fn lemma_rearranged_permutation(before: Seq<usize>, after: Seq<usize>, lo: int, hi: int, n: int)
    requires
        0 <= lo <= hi <= before.len(),
        rearranged(before, after, lo, hi),
        is_permutation(before, n),
    ensures
        is_permutation(after, n),
{
    broadcast use vstd::seq_lib::group_to_multiset_ensures;

    lemma_rearranged_range(before, after, lo, hi, 0, before.len() as int);
    assert(before.subrange(0, before.len() as int) =~= before);
    assert(after.subrange(0, after.len() as int) =~= after);
    before.lemma_multiset_has_no_duplicates();
    after.lemma_multiset_has_no_duplicates_conv();
    assert forall|k: int| 0 <= k < n implies (#[trigger] after[k]) < n by {
        assert(after.contains(after[k]));
        assert(before.to_multiset().count(after[k]) > 0);
        assert(before.contains(after[k]));
    }
    assert forall|o: usize| o < n implies #[trigger] after.contains(o) by {
        assert(before.contains(o));
        assert(after.to_multiset().count(o) > 0);
    }
}

/// Rearranging a part leaves the union over every range around it, and over
/// every range apart from it, as it was.
proof fn lemma_rearranged_union(
    boxes: Seq<AABB>,
    before: Seq<usize>,
    after: Seq<usize>,
    lo: int,
    hi: int,
    a: int,
    b: int,
)
    requires
        0 <= lo <= hi <= before.len(),
        0 <= a <= b <= before.len(),
        rearranged(before, after, lo, hi),
        inside_or_apart(lo, hi, a, b),
    ensures
        union_of(boxes, after.subrange(a, b)) == union_of(boxes, before.subrange(a, b)),
{
    lemma_rearranged_range(before, after, lo, hi, a, b);
    lemma_union_of_permutation(boxes, after.subrange(a, b), before.subrange(a, b));
}

/// Whether the range `lo..hi` lies inside one half of the node's range, or
/// apart from the node's range.
pub open spec fn fits(lo: int, hi: int, node: Node) -> bool {
    ||| node.min_index <= lo && hi <= node.mid()
    ||| node.mid() <= lo && hi <= node.max_index
    ||| hi <= node.min_index
    ||| node.max_index <= lo
}

/// Rearranging a part that lies inside one half of a node's range, or apart
/// from the range, leaves the range split by sort value.
proof fn lemma_halved_rearranged<E: Fn(AABB) -> Vec3, S: Fn(AABB, usize) -> Scalar>(
    nodes: Seq<Node>,
    boxes: Seq<AABB>,
    before: Seq<usize>,
    after: Seq<usize>,
    lo: int,
    hi: int,
    i: int,
    extent: &E,
    sort_value: &S,
)
    requires
        0 <= lo <= hi <= before.len(),
        rearranged(before, after, lo, hi),
        0 <= i < nodes.len(),
        nodes[i].min_index <= nodes[i].max_index <= before.len(),
        fits(lo, hi, nodes[i]),
        halved(nodes, before, boxes, i, extent, sort_value),
    ensures
        halved(nodes, after, boxes, i, extent, sort_value),
{
    let node = nodes[i];
    let min = node.min_index as int;
    let mid = node.mid();
    let max = node.max_index as int;
    let (d, answers) = choose|d: Vec3, answers: Seq<Scalar>|
        #![trigger extent.ensures((node.aabb,), d), keyed(boxes, before, min, max, widest_axis(d@), sort_value, answers)]
        extent.ensures((node.aabb,), d) && keyed(boxes, before, min, max, widest_axis(d@), sort_value, answers)
            && parted(before, min, mid, max, answers);
    let axis = widest_axis(d@);
    lemma_rearranged_range(before, after, lo, hi, min, mid);
    lemma_rearranged_range(before, after, lo, hi, mid, max);
    lemma_rearranged_range(before, after, lo, hi, min, max);
    assert forall|k: int| min <= k < max implies sort_value.ensures(
        (boxes[after[k] as int], axis),
        #[trigger] answers[after[k] as int],
    ) by {
        let j = lemma_same_contents(before, after, min, max, k);
        assert(sort_value.ensures((boxes[before[j] as int], axis), answers[before[j] as int]));
    }
    assert forall|k: int, l: int| min <= k < mid <= l < max implies (
    #[trigger] answers[after[k] as int]).spec_sort_key() <= (#[trigger] answers[after[l] as int]).spec_sort_key() by {
        let a = lemma_same_contents(before, after, min, mid, k);
        let b = lemma_same_contents(before, after, mid, max, l);
        assert(answers[before[a] as int].spec_sort_key() <= answers[before[b] as int].spec_sort_key());
    }
    assert(keyed(boxes, after, min, max, axis, sort_value, answers));
    assert(parted(after, min, mid, max, answers));
}

/// Whether a node's range is split by sort value depends on its box and its
/// range alone.
proof fn lemma_halved_same_node<E: Fn(AABB) -> Vec3, S: Fn(AABB, usize) -> Scalar>(
    a: Seq<Node>,
    b: Seq<Node>,
    objects: Seq<usize>,
    boxes: Seq<AABB>,
    i: int,
    j: int,
    extent: &E,
    sort_value: &S,
)
    requires
        a[i].aabb == b[j].aabb,
        a[i].min_index == b[j].min_index,
        a[i].max_index == b[j].max_index,
        halved(a, objects, boxes, i, extent, sort_value),
    ensures
        halved(b, objects, boxes, j, extent, sort_value),
{
    let node = a[i];
    let (d, answers) = choose|d: Vec3, answers: Seq<Scalar>|
        #![trigger extent.ensures((node.aabb,), d), keyed(boxes, objects, node.min_index as int, node.max_index as int, widest_axis(d@), sort_value, answers)]
        extent.ensures((node.aabb,), d) && keyed(
            boxes,
            objects,
            node.min_index as int,
            node.max_index as int,
            widest_axis(d@),
            sort_value,
            answers,
        ) && parted(objects, node.min_index as int, node.mid(), node.max_index as int, answers);
    assert(extent.ensures((b[j].aabb,), d) && keyed(
        boxes,
        objects,
        b[j].min_index as int,
        b[j].max_index as int,
        widest_axis(d@),
        sort_value,
        answers,
    ) && parted(objects, b[j].min_index as int, b[j].mid(), b[j].max_index as int, answers));
}

/// A range in order is split by sort value at its middle.
proof fn lemma_in_order_halved<E: Fn(AABB) -> Vec3, S: Fn(AABB, usize) -> Scalar>(
    nodes: Seq<Node>,
    objects: Seq<usize>,
    boxes: Seq<AABB>,
    i: int,
    extent: &E,
    sort_value: &S,
)
    requires
        in_order(
            boxes,
            objects,
            nodes[i].min_index as int,
            nodes[i].max_index as int,
            nodes[i].aabb,
            extent,
            sort_value,
        ),
    ensures
        halved(nodes, objects, boxes, i, extent, sort_value),
{
    let node = nodes[i];
    let lo = node.min_index as int;
    let hi = node.max_index as int;
    let (d, answers) = choose|d: Vec3, answers: Seq<Scalar>|
        #![trigger extent.ensures((node.aabb,), d), keyed(boxes, objects, lo, hi, widest_axis(d@), sort_value, answers)]
        extent.ensures((node.aabb,), d) && keyed(boxes, objects, lo, hi, widest_axis(d@), sort_value, answers)
            && forall|m: int| #[trigger] parted(objects, lo, m, hi, answers);
    assert(parted(objects, lo, node.mid(), hi, answers));
}

/// Whether node `i` covers a non-empty range of the primitives and its box is
/// the union of their boxes.
pub open spec fn covers(nodes: Seq<Node>, objects: Seq<usize>, boxes: Seq<AABB>, i: int) -> bool {
    let node = nodes[i];
    &&& node.min_index < node.max_index <= boxes.len()
    &&& node.aabb@ == union_of(boxes, objects.subrange(node.min_index as int, node.max_index as int))
}

/// Whether node `i` is a leaf over one primitive, or has two children later
/// in the array that split its range at the middle.
pub open spec fn linked(nodes: Seq<Node>, i: int) -> bool {
    let node = nodes[i];
    if node.size() == 1 {
        node.child_index == 0
    } else {
        let c = node.child_index as int;
        &&& i < c && c + 1 < nodes.len()
        &&& nodes[c].min_index == node.min_index && nodes[c].max_index == node.mid()
        &&& nodes[c + 1].min_index == node.mid() && nodes[c + 1].max_index == node.max_index
    }
}

/// Whether the ranges of two nodes share no primitive.
pub open spec fn apart(a: Node, b: Node) -> bool {
    a.max_index <= b.min_index || b.max_index <= a.min_index
}

/// The number of nodes still to come below the nodes from `from` on.
pub open spec fn pending_weight(nodes: Seq<Node>, from: int) -> int
    decreases nodes.len() - from,
{
    if from < 0 || from >= nodes.len() {
        0
    } else {
        nodes[from].weight() + pending_weight(nodes, from + 1)
    }
}

/// What holds of every node while the tree is built and afterwards.
pub open spec fn framed(nodes: Seq<Node>, objects: Seq<usize>, boxes: Seq<AABB>) -> bool {
    &&& is_permutation(objects, boxes.len() as int)
    &&& forall|i: int| 0 <= i < nodes.len() ==> #[trigger] covers(nodes, objects, boxes, i)
}

/// The state of a build in which the nodes before `cursor` have been split.
pub open spec fn building(nodes: Seq<Node>, objects: Seq<usize>, boxes: Seq<AABB>, cursor: int) -> bool {
    &&& boxes.len() >= 1
    &&& framed(nodes, objects, boxes)
    &&& 0 <= cursor <= nodes.len()
    &&& nodes.len() >= 1
    &&& nodes[0].min_index == 0 && nodes[0].max_index == boxes.len()
    &&& forall|i: int| 0 <= i < cursor ==> #[trigger] linked(nodes, i)
    &&& forall|i: int| cursor <= i < nodes.len() ==> (#[trigger] nodes[i]).child_index == 0
    &&& forall|u: int, v: int| cursor <= u < v < nodes.len() ==> apart(#[trigger] nodes[u], #[trigger] nodes[v])
    &&& forall|j: int, u: int|
        0 <= j < cursor <= u < nodes.len() ==> fits(
            (#[trigger] nodes[u]).min_index as int,
            nodes[u].max_index as int,
            #[trigger] nodes[j],
        )
    &&& cursor + pending_weight(nodes, cursor) == 2 * boxes.len() - 1
}

proof fn lemma_pending_weight_push(nodes: Seq<Node>, node: Node, from: int)
    requires
        0 <= from <= nodes.len(),
    ensures
        pending_weight(nodes.push(node), from) == pending_weight(nodes, from) + node.weight(),
    decreases nodes.len() - from,
{
    if from < nodes.len() {
        lemma_pending_weight_push(nodes, node, from + 1);
    } else {
        assert(pending_weight(nodes.push(node), from + 1) == 0);
    }
}

proof fn lemma_pending_weight_same(a: Seq<Node>, b: Seq<Node>, from: int)
    requires
        0 <= from,
        a.len() == b.len(),
        forall|i: int| from <= i < a.len() ==> (#[trigger] a[i]).weight() == b[i].weight(),
    ensures
        pending_weight(a, from) == pending_weight(b, from),
    decreases a.len() - from,
{
    if from < a.len() {
        lemma_pending_weight_same(a, b, from + 1);
    }
}

proof fn lemma_pending_weight_nonnegative(nodes: Seq<Node>, from: int)
    requires
        forall|i: int| 0 <= i < nodes.len() ==> (#[trigger] nodes[i]).size() >= 1,
    ensures
        pending_weight(nodes, from) >= 0,
    decreases nodes.len() - from,
{
    if 0 <= from < nodes.len() {
        lemma_pending_weight_nonnegative(nodes, from + 1);
    }
}

/// Rearranging a part of the primitives that every node's range either
/// contains or avoids keeps every node's box exact.
proof fn lemma_framed_rearranged(
    nodes: Seq<Node>,
    boxes: Seq<AABB>,
    before: Seq<usize>,
    after: Seq<usize>,
    lo: int,
    hi: int,
)
    requires
        framed(nodes, before, boxes),
        0 <= lo <= hi <= before.len(),
        rearranged(before, after, lo, hi),
        forall|i: int|
            0 <= i < nodes.len() ==> inside_or_apart(
                lo,
                hi,
                (#[trigger] nodes[i]).min_index as int,
                nodes[i].max_index as int,
            ),
    ensures
        framed(nodes, after, boxes),
{
    lemma_rearranged_permutation(before, after, lo, hi, boxes.len() as int);
    assert forall|i: int| 0 <= i < nodes.len() implies #[trigger] covers(nodes, after, boxes, i) by {
        assert(covers(nodes, before, boxes, i));
        lemma_rearranged_union(
            boxes,
            before,
            after,
            lo,
            hi,
            nodes[i].min_index as int,
            nodes[i].max_index as int,
        );
    }
}

/// A node over a freshly ordered part of the primitives joins the nodes:
/// every box stays exact and every range stays split by sort value, where
/// the part lies inside one half of each node's range or apart from it.
proof fn lemma_push_child<E: Fn(AABB) -> Vec3, S: Fn(AABB, usize) -> Scalar>(
    nodes: Seq<Node>,
    boxes: Seq<AABB>,
    before: Seq<usize>,
    after: Seq<usize>,
    child: Node,
    extent: &E,
    sort_value: &S,
)
    requires
        framed(nodes, before, boxes),
        median_split(nodes, before, boxes, extent, sort_value),
        child.min_index < child.max_index <= before.len(),
        rearranged(before, after, child.min_index as int, child.max_index as int),
        forall|i: int|
            0 <= i < nodes.len() ==> fits(child.min_index as int, child.max_index as int, #[trigger] nodes[i]),
        child.aabb@ == union_of(boxes, before.subrange(child.min_index as int, child.max_index as int)),
        in_order(boxes, after, child.min_index as int, child.max_index as int, child.aabb, extent, sort_value),
    ensures
        framed(nodes.push(child), after, boxes),
        median_split(nodes.push(child), after, boxes, extent, sort_value),
{
    let lo = child.min_index as int;
    let hi = child.max_index as int;
    let pushed = nodes.push(child);
    assert forall|i: int| 0 <= i < nodes.len() implies inside_or_apart(
        lo,
        hi,
        (#[trigger] nodes[i]).min_index as int,
        nodes[i].max_index as int,
    ) by {
        assert(covers(nodes, before, boxes, i));
        assert(fits(lo, hi, nodes[i]));
    }
    lemma_framed_rearranged(nodes, boxes, before, after, lo, hi);
    lemma_union_of_permutation(boxes, after.subrange(lo, hi), before.subrange(lo, hi));
    assert forall|i: int| 0 <= i < pushed.len() implies #[trigger] covers(pushed, after, boxes, i) by {
        if i < nodes.len() {
            assert(covers(nodes, after, boxes, i));
        }
    }
    assert forall|i: int| 0 <= i < pushed.len() implies #[trigger] halved(
        pushed,
        after,
        boxes,
        i,
        extent,
        sort_value,
    ) by {
        if i < nodes.len() {
            assert(covers(nodes, before, boxes, i));
            assert(halved(nodes, before, boxes, i, extent, sort_value));
            lemma_halved_rearranged(nodes, boxes, before, after, lo, hi, i, extent, sort_value);
            lemma_halved_same_node(nodes, pushed, after, boxes, i, i, extent, sort_value);
        } else {
            lemma_in_order_halved(pushed, after, boxes, i, extent, sort_value);
        }
    }
}

/// Once a node has its two children, the build has moved on by one node.
proof fn lemma_split_done(
    nodes0: Seq<Node>,
    nodes3: Seq<Node>,
    objects0: Seq<usize>,
    objects2: Seq<usize>,
    boxes: Seq<AABB>,
    cursor: int,
)
    requires
        0 <= cursor < nodes0.len(),
        building(nodes0, objects0, boxes, cursor),
        nodes0[cursor].size() >= 2,
        nodes0.len() + 2 <= usize::MAX,
        nodes3.len() == nodes0.len() + 2,
        forall|i: int| 0 <= i < nodes0.len() && i != cursor ==> #[trigger] nodes3[i] == nodes0[i],
        nodes3[cursor] == (Node { child_index: nodes0.len() as usize, ..nodes0[cursor] }),
        nodes3[nodes0.len() as int].min_index == nodes0[cursor].min_index,
        nodes3[nodes0.len() as int].max_index == nodes0[cursor].mid(),
        nodes3[nodes0.len() as int].child_index == 0,
        nodes3[nodes0.len() as int + 1].min_index == nodes0[cursor].mid(),
        nodes3[nodes0.len() as int + 1].max_index == nodes0[cursor].max_index,
        nodes3[nodes0.len() as int + 1].child_index == 0,
        framed(nodes3, objects2, boxes),
    ensures
        building(nodes3, objects2, boxes, cursor + 1),
{
    let len0 = nodes0.len() as int;
    let left = nodes3[len0];
    let right = nodes3[len0 + 1];
    assert(covers(nodes0, objects0, boxes, cursor));
    assert forall|i: int| 0 <= i < cursor + 1 implies #[trigger] linked(nodes3, i) by {
        if i < cursor {
            assert(linked(nodes0, i));
        }
    }
    assert forall|u: int, v: int| cursor + 1 <= u < v < nodes3.len() implies apart(
        #[trigger] nodes3[u],
        #[trigger] nodes3[v],
    ) by {
        if v < len0 {
            assert(apart(nodes0[u], nodes0[v]));
        } else if u < len0 {
            assert(apart(nodes0[cursor], nodes0[u]));
        }
    }
    assert forall|j: int, u: int| 0 <= j < cursor + 1 <= u < nodes3.len() implies fits(
        (#[trigger] nodes3[u]).min_index as int,
        nodes3[u].max_index as int,
        #[trigger] nodes3[j],
    ) by {
        if j == cursor {
            if u < len0 {
                assert(apart(nodes0[cursor], nodes0[u]));
            }
        } else if u < len0 {
            assert(fits(nodes0[u].min_index as int, nodes0[u].max_index as int, nodes0[j]));
        } else {
            assert(fits(nodes0[cursor].min_index as int, nodes0[cursor].max_index as int, nodes0[j]));
        }
    }
    let nodes1 = nodes0.push(left);
    let nodes2 = nodes1.push(right);
    lemma_pending_weight_push(nodes0, left, cursor + 1);
    lemma_pending_weight_push(nodes1, right, cursor + 1);
    lemma_pending_weight_same(nodes2, nodes3, cursor + 1);
    assert(pending_weight(nodes0, cursor) == nodes0[cursor].weight() + pending_weight(nodes0, cursor + 1));
}

/// A node over a single primitive needs no children: the build has moved on
/// by one node.
proof fn lemma_leaf_done(nodes0: Seq<Node>, objects0: Seq<usize>, boxes: Seq<AABB>, cursor: int)
    requires
        0 <= cursor < nodes0.len(),
        building(nodes0, objects0, boxes, cursor),
        nodes0[cursor].size() < 2,
    ensures
        building(nodes0, objects0, boxes, cursor + 1),
{
    assert(covers(nodes0, objects0, boxes, cursor));
    assert(linked(nodes0, cursor));
    assert(pending_weight(nodes0, cursor) == nodes0[cursor].weight() + pending_weight(nodes0, cursor + 1));
    assert forall|j: int, u: int| 0 <= j < cursor + 1 <= u < nodes0.len() implies fits(
        (#[trigger] nodes0[u]).min_index as int,
        nodes0[u].max_index as int,
        #[trigger] nodes0[j],
    ) by {
        if j == cursor {
            assert(apart(nodes0[cursor], nodes0[u]));
        }
    }
}

/// While a node is split, the first half and the second half of its range
/// each lie inside one half of every node's range or apart from it.
proof fn lemma_halves_fit(nodes0: Seq<Node>, objects0: Seq<usize>, boxes: Seq<AABB>, cursor: int, i: int)
    requires
        0 <= cursor < nodes0.len(),
        0 <= i < nodes0.len(),
        building(nodes0, objects0, boxes, cursor),
    ensures
        fits(nodes0[cursor].min_index as int, nodes0[cursor].mid(), nodes0[i]),
        fits(nodes0[cursor].mid(), nodes0[cursor].max_index as int, nodes0[i]),
{
    assert(covers(nodes0, objects0, boxes, cursor));
    assert(covers(nodes0, objects0, boxes, i));
    if i < cursor {
        assert(fits(nodes0[cursor].min_index as int, nodes0[cursor].max_index as int, nodes0[i]));
    } else if i > cursor {
        assert(apart(nodes0[cursor], nodes0[i]));
    }
}

impl Bvh {
    /// Whether the tree is complete: every node's box is the union of the
    /// boxes it covers, every node over more than one primitive has its two
    /// children, and the root covers everything.
    pub open spec fn wf(&self) -> bool {
        &&& building(self.nodes@, self.objects@, self.boxes@, self.nodes@.len() as int)
        &&& self.nodes@.len() == 2 * self.boxes@.len() - 1
    }

    /// Gives node `node_index` its two children, unless it covers a single
    /// primitive: the left child covers the first half of its range, the
    /// right child the rest.
    fn split_node<E: Fn(AABB) -> Vec3, S: Fn(AABB, usize) -> Scalar>(
        &mut self,
        node_index: usize,
        keys: &mut Vec<i64>,
        extent: &E,
        sort_value: &S,
    )
        requires
            node_index < old(self).nodes@.len(),
            building(old(self).nodes@, old(self).objects@, old(self).boxes@, node_index as int),
            median_split(old(self).nodes@, old(self).objects@, old(self).boxes@, extent, sort_value),
            old(keys).len() == old(self).boxes.len(),
            forall|b: AABB| extent.requires((b,)),
            forall|b: AABB, axis: usize| axis < 3 ==> sort_value.requires((b, axis)),
        ensures
            final(self).boxes == old(self).boxes,
            final(keys).len() == old(keys).len(),
            building(final(self).nodes@, final(self).objects@, final(self).boxes@, node_index + 1),
            median_split(final(self).nodes@, final(self).objects@, final(self).boxes@, extent, sort_value),
    {
        let ghost nodes0 = self.nodes@;
        let ghost objects0 = self.objects@;
        let ghost boxes = self.boxes@;
        let ghost cursor = node_index as int;
        let node = self.nodes[node_index];
        let min_index = node.min_index;
        let max_index = node.max_index;
        proof {
            assert(covers(nodes0, objects0, boxes, cursor));
        }
        if max_index - min_index < 2 {
            proof {
                lemma_leaf_done(nodes0, objects0, boxes, cursor);
            }
            return ;
        }
        let mid_index = min_index + (max_index - min_index) / 2;
        let child_index = self.nodes.len();

        proof {
            assert forall|i: int| 0 <= i < nodes0.len() implies fits(
                min_index as int,
                mid_index as int,
                #[trigger] nodes0[i],
            ) by {
                lemma_halves_fit(nodes0, objects0, boxes, cursor, i);
            }
        }
        let left = Node::new(&mut self.objects, &self.boxes, keys, min_index, mid_index, extent, sort_value);
        let ghost objects1 = self.objects@;
        proof {
            lemma_push_child(nodes0, boxes, objects0, objects1, left, extent, sort_value);
        }
        self.nodes.push(left);
        let ghost nodes1 = self.nodes@;
        proof {
            assert forall|i: int| 0 <= i < nodes1.len() implies fits(
                mid_index as int,
                max_index as int,
                #[trigger] nodes1[i],
            ) by {
                if i < nodes0.len() {
                    lemma_halves_fit(nodes0, objects0, boxes, cursor, i);
                }
            }
        }
        let right = Node::new(&mut self.objects, &self.boxes, keys, mid_index, max_index, extent, sort_value);
        let ghost objects2 = self.objects@;
        proof {
            lemma_push_child(nodes1, boxes, objects1, objects2, right, extent, sort_value);
        }
        self.nodes.push(right);
        let ghost nodes2 = self.nodes@;
        let mut parent = node;
        parent.child_index = child_index;
        self.nodes.set(node_index, parent);
        let total = self.nodes.len();
        let ghost nodes3 = self.nodes@;
        proof {
            assert(nodes3.len() == total);
            assert forall|i: int| 0 <= i < nodes3.len() implies #[trigger] covers(nodes3, objects2, boxes, i) by {
                assert(covers(nodes2, objects2, boxes, i));
            }
            assert forall|i: int| 0 <= i < nodes3.len() implies #[trigger] halved(
                nodes3,
                objects2,
                boxes,
                i,
                extent,
                sort_value,
            ) by {
                lemma_halved_same_node(nodes2, nodes3, objects2, boxes, i, i, extent, sort_value);
            }
            lemma_split_done(nodes0, nodes3, objects0, objects2, boxes, cursor);
        }
    }
}

/// The boxes of `boxes`, all of which are present.
pub open spec fn present(boxes: Seq<Option<AABB>>) -> Seq<AABB> {
    Seq::new(boxes.len(), |i: int| boxes[i]->0)
}

impl Bvh {
    /// Builds the hierarchy over the primitives whose boxes are `boxes`.
    ///
    /// Every node's range is ordered by the sort value of its boxes along the
    /// axis on which the node's box is widest, and split at the middle, until
    /// a range holds one primitive. `extent` is asked for the extents of a
    /// box along the three axes and `sort_value` for the sort value of a box
    /// along one axis; whatever they answer, the tree is complete.
    ///
    /// Fails on an empty list, and on a primitive without a box: the error
    /// names the first such primitive.
    pub fn new<E: Fn(AABB) -> Vec3, S: Fn(AABB, usize) -> Scalar>(
        boxes: Vec<Option<AABB>>,
        extent: E,
        sort_value: S,
    ) -> (res: Result<Bvh, BvhError>)
        requires
            forall|b: AABB| extent.requires((b,)),
            forall|b: AABB, axis: usize| axis < 3 ==> sort_value.requires((b, axis)),
        ensures
            match res {
                Ok(bvh) => {
                    &&& boxes@.len() >= 1
                    &&& forall|i: int| 0 <= i < boxes@.len() ==> (#[trigger] boxes@[i]) is Some
                    &&& bvh.boxes@ == present(boxes@)
                    &&& bvh.wf()
                    &&& median_split(bvh.nodes@, bvh.objects@, bvh.boxes@, &extent, &sort_value)
                },
                Err(BvhError::Empty) => boxes@.len() == 0,
                Err(BvhError::MissingBox(i)) => {
                    &&& i < boxes@.len()
                    &&& boxes@[i as int] is None
                    &&& forall|j: int| 0 <= j < i ==> (#[trigger] boxes@[j]) is Some
                },
            },
    {
        let count = boxes.len();
        if count == 0 {
            return Err(BvhError::Empty);
        }
        let mut found: Vec<AABB> = Vec::new();
        let mut objects: Vec<usize> = Vec::new();
        let mut keys: Vec<i64> = Vec::new();
        let mut i: usize = 0;
        while i < count
            invariant
                count == boxes.len(),
                i <= count,
                found.len() == i,
                objects.len() == i,
                keys.len() == i,
                forall|j: int| 0 <= j < i ==> (#[trigger] boxes@[j]) is Some,
                forall|j: int| 0 <= j < i ==> (#[trigger] found@[j]) == boxes@[j]->0,
                forall|j: int| 0 <= j < i ==> (#[trigger] objects@[j]) == j,
            decreases count - i,
        {
            match boxes[i] {
                Some(aabb) => {
                    found.push(aabb);
                },
                None => {
                    return Err(BvhError::MissingBox(i));
                },
            }
            objects.push(i);
            keys.push(0);
            i += 1;
        }
        assert(found@ =~= present(boxes@));
        let ghost objects0 = objects@;
        let root = Node::new(&mut objects, &found, &mut keys, 0, count, &extent, &sort_value);
        let mut nodes: Vec<Node> = Vec::new();
        nodes.push(root);
        let mut bvh = Bvh { nodes, objects, boxes: found };
        proof {
            let ghost n = count as int;
            assert forall|o: usize| o < n implies #[trigger] objects0.contains(o) by {
                assert(objects0[o as int] == o);
            }
            assert(is_permutation(objects0, n));
            lemma_rearranged_permutation(objects0, bvh.objects@, 0, n, n);
            lemma_union_of_permutation(bvh.boxes@, bvh.objects@.subrange(0, n), objects0.subrange(0, n));
            assert(covers(bvh.nodes@, bvh.objects@, bvh.boxes@, 0));
            lemma_in_order_halved(bvh.nodes@, bvh.objects@, bvh.boxes@, 0, &extent, &sort_value);
            assert(pending_weight(bvh.nodes@, 1) == 0);
            assert(pending_weight(bvh.nodes@, 0) == bvh.nodes@[0].weight() + pending_weight(bvh.nodes@, 1));
        }
        let mut node_idx: usize = 0;
        while node_idx < bvh.nodes.len()
            invariant
                building(bvh.nodes@, bvh.objects@, bvh.boxes@, node_idx as int),
                median_split(bvh.nodes@, bvh.objects@, bvh.boxes@, &extent, &sort_value),
                bvh.boxes@ == present(boxes@),
                keys.len() == bvh.boxes.len(),
                forall|b: AABB| extent.requires((b,)),
                forall|b: AABB, axis: usize| axis < 3 ==> sort_value.requires((b, axis)),
            decreases 2 * bvh.boxes@.len() - 1 - node_idx,
        {
            bvh.split_node(node_idx, &mut keys, &extent, &sort_value);
            proof {
                assert forall|k: int| 0 <= k < bvh.nodes@.len() implies (#[trigger] bvh.nodes@[k]).size() >= 1 by {
                    assert(covers(bvh.nodes@, bvh.objects@, bvh.boxes@, k));
                }
                lemma_pending_weight_nonnegative(bvh.nodes@, node_idx + 1);
            }
            node_idx += 1;
        }
        assert(pending_weight(bvh.nodes@, bvh.nodes@.len() as int) == 0);
        Ok(bvh)
    }
}

/// Whether position `k` of the primitives lies in the range of a node on the stack.
pub open spec fn on_stack(nodes: Seq<Node>, stack: Seq<usize>, k: int) -> bool {
    exists|s: int|
        0 <= s < stack.len() && nodes[(#[trigger] stack[s]) as int].min_index <= k < nodes[stack[s] as int].max_index
}

/// The number of nodes in the subtrees of the nodes on the stack.
pub open spec fn stack_weight(nodes: Seq<Node>, stack: Seq<usize>) -> int
    decreases stack.len(),
{
    if stack.len() == 0 {
        0
    } else {
        stack_weight(nodes, stack.drop_last()) + nodes[stack.last() as int].weight()
    }
}

proof fn lemma_stack_weight_nonnegative(nodes: Seq<Node>, stack: Seq<usize>)
    requires
        forall|i: int| 0 <= i < nodes.len() ==> (#[trigger] nodes[i]).size() >= 1,
        forall|s: int| 0 <= s < stack.len() ==> (#[trigger] stack[s]) < nodes.len(),
    ensures
        stack_weight(nodes, stack) >= 0,
    decreases stack.len(),
{
    if stack.len() > 0 {
        lemma_stack_weight_nonnegative(nodes, stack.drop_last());
    }
}

proof fn lemma_stack_weight_push(nodes: Seq<Node>, stack: Seq<usize>, x: usize)
    ensures
        stack_weight(nodes, stack.push(x)) == stack_weight(nodes, stack) + nodes[x as int].weight(),
{
    assert(stack.push(x).drop_last() =~= stack);
}

proof fn lemma_on_stack_push(nodes: Seq<Node>, stack: Seq<usize>, x: usize, k: int)
    ensures
        on_stack(nodes, stack, k) ==> on_stack(nodes, stack.push(x), k),
        nodes[x as int].min_index <= k < nodes[x as int].max_index ==> on_stack(nodes, stack.push(x), k),
{
    let pushed = stack.push(x);
    if on_stack(nodes, stack, k) {
        let s = choose|s: int|
            0 <= s < stack.len() && nodes[(#[trigger] stack[s]) as int].min_index <= k < nodes[stack[s] as int].max_index;
        assert(pushed[s] == stack[s]);
    }
    if nodes[x as int].min_index <= k < nodes[x as int].max_index {
        assert(pushed[stack.len() as int] == x);
    }
}

proof fn lemma_on_stack_pop(nodes: Seq<Node>, stack: Seq<usize>, k: int)
    requires
        stack.len() > 0,
        on_stack(nodes, stack, k),
    ensures
        on_stack(nodes, stack.drop_last(), k) || nodes[stack.last() as int].min_index <= k < nodes[stack.last() as int].max_index,
{
    let s = choose|s: int|
        0 <= s < stack.len() && nodes[(#[trigger] stack[s]) as int].min_index <= k < nodes[stack[s] as int].max_index;
    if s < stack.len() - 1 {
        assert(stack.drop_last()[s] == stack[s]);
    }
}

impl Bvh {
    /// Whether `box_hit` never misses a box that holds a primitive with a hit
    /// below the bound it was asked with.
    pub open spec fn conservative<B: Fn(AABB, Ray, Scalar, Scalar) -> bool>(
        &self,
        box_hit: &B,
        r: Ray,
        t_min: Scalar,
        hits: Seq<Option<HitRecord>>,
    ) -> bool {
        forall|c: int, k: int, bound: Scalar, b: bool|
            #![trigger box_hit.ensures((self.nodes@[c].aabb, r, t_min, bound), b), under(hits, self.objects@[k] as int, bound)]
            0 <= c < self.nodes@.len() && self.nodes@[c].min_index <= k < self.nodes@[c].max_index && under(
                hits,
                self.objects@[k] as int,
                bound,
            ) && box_hit.ensures((self.nodes@[c].aabb, r, t_min, bound), b) ==> b
    }

    /// What holds of a traversal under way: every primitive with a hit
    /// below the bound can still be reached from the stack.
    pub open spec fn pending(
        &self,
        hits: Seq<Option<HitRecord>>,
        stack: Seq<usize>,
        found: Option<HitRecord>,
        bound: Scalar,
        t_max: Scalar,
    ) -> bool {
        &&& tracks(found, bound, hits, t_max)
        &&& forall|k: int|
            0 <= k < self.objects@.len() && #[trigger] under(hits, self.objects@[k] as int, bound) ==> on_stack(
                self.nodes@,
                stack,
                k,
            )
    }

    /// What is taken for granted of the two tests when the result of a
    /// traversal is called the closest hit among `hits`.
    pub open spec fn oracle<B: Fn(AABB, Ray, Scalar, Scalar) -> bool, P: Fn(usize, Ray, Scalar, Scalar) -> Option<HitRecord>>(
        &self,
        box_hit: &B,
        prim_hit: &P,
        r: Ray,
        t_min: Scalar,
        hits: Seq<Option<HitRecord>>,
    ) -> bool {
        &&& hits.len() == self.boxes@.len()
        &&& answers(prim_hit, r, t_min, hits)
        &&& self.conservative(box_hit, r, t_min, hits)
    }

    /// The closest hit among the primitives within `[t_min, t_max]`.
    ///
    /// The tree is walked depth first from the root with an explicit stack.
    /// At a leaf, `prim_hit(i, r, t_min, bound)` is asked for the hit of
    /// primitive `i` within `[t_min, bound]`, and the bound is lowered to
    /// each hit reported. At any other node, `box_hit(aabb, r, t_min, bound)`
    /// is asked of the box of each child whether the ray passes through it
    /// within the bound, and the children for which it does are visited.
    ///
    /// Whatever the two tests answer, the result came out of `prim_hit`.
    /// Where they answer as tests against one ray do, the result is the
    /// closest hit; a ray whose only hits lie at `t_max` itself may be taken
    /// for a miss.
    pub fn hit<B: Fn(AABB, Ray, Scalar, Scalar) -> bool, P: Fn(usize, Ray, Scalar, Scalar) -> Option<HitRecord>>(
        &self,
        r: &Ray,
        t_min: Scalar,
        t_max: Scalar,
        box_hit: &B,
        prim_hit: &P,
    ) -> (res: Option<HitRecord>)
        requires
            self.wf(),
            forall|a: AABB, b: Scalar| #[trigger] box_hit.requires((a, *r, t_min, b)),
            forall|o: usize, b: Scalar| self.objects@.contains(o) ==> #[trigger] prim_hit.requires((o, *r, t_min, b)),
        ensures
            reported(prim_hit, self.objects@, *r, t_min, res),
            forall|hits: Seq<Option<HitRecord>>| #[trigger]
                self.oracle(box_hit, prim_hit, *r, t_min, hits) ==> is_nearest(res, hits, t_max),
    {
        let mut found: Option<HitRecord> = None;
        let mut bound = t_max;
        let mut stack: Vec<usize> = Vec::new();
        stack.push(0);
        proof {
            assert forall|i: int| 0 <= i < self.nodes@.len() implies (#[trigger] self.nodes@[i]).size() >= 1 by {
                assert(covers(self.nodes@, self.objects@, self.boxes@, i));
            }
            assert forall|hits: Seq<Option<HitRecord>>| #[trigger]
                self.oracle(box_hit, prim_hit, *r, t_min, hits) implies self.pending(
                hits,
                stack@,
                found,
                bound,
                t_max,
            ) by {
                assert forall|k: int| 0 <= k < self.objects@.len() implies on_stack(self.nodes@, stack@, k) by {
                    assert(stack@[0] == 0);
                }
                assert(tracks(found, bound, hits, t_max));
            }
        }
        while stack.len() > 0
            invariant
                self.wf(),
                forall|i: int| 0 <= i < self.nodes@.len() ==> (#[trigger] self.nodes@[i]).size() >= 1,
                forall|s: int| 0 <= s < stack@.len() ==> (#[trigger] stack@[s]) < self.nodes@.len(),
                forall|a: AABB, b: Scalar| #[trigger] box_hit.requires((a, *r, t_min, b)),
                forall|o: usize, b: Scalar|
                    self.objects@.contains(o) ==> #[trigger] prim_hit.requires((o, *r, t_min, b)),
                reported(prim_hit, self.objects@, *r, t_min, found),
                forall|hits: Seq<Option<HitRecord>>| #[trigger]
                    self.oracle(box_hit, prim_hit, *r, t_min, hits) ==> self.pending(hits, stack@, found, bound, t_max),
            decreases stack_weight(self.nodes@, stack@),
        {
            let ghost stack0 = stack@;
            let ghost found0 = found;
            let ghost bound0 = bound;
            proof {
                lemma_stack_weight_nonnegative(self.nodes@, stack0.drop_last());
            }
            let index = stack.pop().unwrap();
            let node = self.nodes[index];
            let ghost stack1 = stack@;
            proof {
                assert(linked(self.nodes@, index as int));
                assert(covers(self.nodes@, self.objects@, self.boxes@, index as int));
            }
            if node.child_index == 0 {
                let (f, b) = scan(&self.objects, node.min_index, node.max_index, r, t_min, found, bound, prim_hit);
                found = f;
                bound = b;
                proof {
                    assert forall|hits: Seq<Option<HitRecord>>| #[trigger]
                        self.oracle(box_hit, prim_hit, *r, t_min, hits) implies self.pending(
                        hits,
                        stack@,
                        found,
                        bound,
                        t_max,
                    ) by {
                        assert(self.pending(hits, stack0, found0, bound0, t_max));
                        assert(answers(prim_hit, *r, t_min, hits) && tracks(found0, bound0, hits, t_max));
                        assert(tracks(found, bound, hits, t_max));
                        assert forall|k: int|
                            0 <= k < self.objects@.len() && #[trigger] under(
                                hits,
                                self.objects@[k] as int,
                                bound,
                            ) implies on_stack(self.nodes@, stack@, k) by {
                            assert(under(hits, self.objects@[k] as int, bound0));
                            lemma_on_stack_pop(self.nodes@, stack0, k);
                            if node.min_index <= k < node.max_index {
                                assert(settled(found, bound, hits, self.objects@[k] as int));
                                assert(within(hits, self.objects@[k] as int, bound));
                            }
                        }
                    }
                }
            } else {
                let left = node.child_index;
                assert(node == self.nodes@[index as int]);
                assert(node.size() != 1);
                let total = self.nodes.len();
                assert(left + 1 < total);
                let right = left + 1;
                let through_left = box_hit(self.nodes[left].aabb, *r, t_min, bound);
                if through_left {
                    stack.push(left);
                }
                let ghost stack2 = stack@;
                let through_right = box_hit(self.nodes[right].aabb, *r, t_min, bound);
                if through_right {
                    stack.push(right);
                }
                proof {
                    lemma_stack_weight_push(self.nodes@, stack1, left);
                    lemma_stack_weight_push(self.nodes@, stack2, right);
                    assert forall|hits: Seq<Option<HitRecord>>| #[trigger]
                        self.oracle(box_hit, prim_hit, *r, t_min, hits) implies self.pending(
                        hits,
                        stack@,
                        found,
                        bound,
                        t_max,
                    ) by {
                        assert(self.pending(hits, stack0, found0, bound0, t_max));
                        assert forall|k: int|
                            0 <= k < self.objects@.len() && #[trigger] under(
                                hits,
                                self.objects@[k] as int,
                                bound,
                            ) implies on_stack(self.nodes@, stack@, k) by {
                            lemma_on_stack_pop(self.nodes@, stack0, k);
                            lemma_on_stack_push(self.nodes@, stack1, left, k);
                            lemma_on_stack_push(self.nodes@, stack2, right, k);
                            if through_left {
                                lemma_on_stack_push(self.nodes@, stack1.push(left), right, k);
                            }
                            if !on_stack(self.nodes@, stack1, k) {
                                if k < node.mid() {
                                    assert(through_left);
                                } else {
                                    assert(through_right);
                                }
                            }
                        }
                    }
                }
            }
        }
        proof {
            assert forall|hits: Seq<Option<HitRecord>>| #[trigger]
                self.oracle(box_hit, prim_hit, *r, t_min, hits) implies is_nearest(found, hits, t_max) by {
                assert(self.pending(hits, stack@, found, bound, t_max));
                assert forall|i: int| 0 <= i < hits.len() implies !#[trigger] under(hits, i, bound) by {
                    assert(self.objects@.contains(i as usize));
                    let k = choose|k: int| 0 <= k < self.objects@.len() && self.objects@[k] == i as usize;
                    if under(hits, self.objects@[k] as int, bound) {
                        assert(on_stack(self.nodes@, stack@, k));
                    }
                }
                if found is Some {
                    assert forall|j: int| 0 <= j < hits.len() && #[trigger] within(hits, j, t_max) implies vle(
                        found->0.t@,
                        hits[j]->0.t@,
                    ) by {
                        assert(!under(hits, j, bound));
                    }
                }
            }
        }
        found
    }

    /// The box around all primitives.
    pub fn bounding_box(&self) -> (b: Option<AABB>)
        requires
            self.wf(),
        ensures
            b == Some(self.nodes@[0].aabb),
            b->0@ == union_of(self.boxes@, self.objects@),
    {
        proof {
            assert(covers(self.nodes@, self.objects@, self.boxes@, 0));
            assert(self.objects@.subrange(0, self.objects@.len() as int) =~= self.objects@);
        }
        Some(self.nodes[0].aabb)
    }
}

/// In a complete tree, the box of every node with children is the union of
/// the boxes of its two children, and the box of every other node is the
/// box of its one primitive united with the empty box.
pub proof fn lemma_boxes_are_unions(bvh: Bvh, i: int)
    requires
        bvh.wf(),
        0 <= i < bvh.nodes@.len(),
    ensures
        bvh.nodes@[i].child_index == 0 ==> bvh.nodes@[i].size() == 1 && bvh.nodes@[i].aabb@ == Bounds::empty().union(
            bvh.boxes@[bvh.objects@[bvh.nodes@[i].min_index as int] as int]@,
        ),
        bvh.nodes@[i].child_index != 0 ==> {
            let c = bvh.nodes@[i].child_index as int;
            &&& i < c && c + 1 < bvh.nodes@.len()
            &&& bvh.nodes@[i].aabb@ == bvh.nodes@[c].aabb@.union(bvh.nodes@[c + 1].aabb@)
        },
{
    let node = bvh.nodes@[i];
    let lo = node.min_index as int;
    let hi = node.max_index as int;
    assert(linked(bvh.nodes@, i));
    assert(covers(bvh.nodes@, bvh.objects@, bvh.boxes@, i));
    if node.child_index == 0 {
        let one = bvh.objects@.subrange(lo, hi);
        assert(one.drop_last() =~= Seq::<usize>::empty());
        assert(one.last() == bvh.objects@[lo]);
        assert(union_of(bvh.boxes@, one) == union_of(bvh.boxes@, one.drop_last()).union(
            bvh.boxes@[one.last() as int]@,
        ));
    } else {
        let c = node.child_index as int;
        let mid = node.mid();
        assert(covers(bvh.nodes@, bvh.objects@, bvh.boxes@, c));
        assert(covers(bvh.nodes@, bvh.objects@, bvh.boxes@, c + 1));
        assert(bvh.objects@.subrange(lo, hi) =~= bvh.objects@.subrange(lo, mid) + bvh.objects@.subrange(mid, hi));
        lemma_union_of_concat(bvh.boxes@, bvh.objects@.subrange(lo, mid), bvh.objects@.subrange(mid, hi));
    }
}


/// In a complete tree, the children of a node share its primitives evenly:
/// the first child covers half of them, rounded down, and the second the
/// rest, so that the two differ by one primitive at most.
pub proof fn lemma_children_are_balanced(bvh: Bvh, i: int)
    requires
        bvh.wf(),
        0 <= i < bvh.nodes@.len(),
        bvh.nodes@[i].child_index != 0,
    ensures
        bvh.nodes@[bvh.nodes@[i].child_index as int].size() == bvh.nodes@[i].size() / 2,
        bvh.nodes@[bvh.nodes@[i].child_index + 1].size() == bvh.nodes@[i].size() - bvh.nodes@[i].size() / 2,
        bvh.nodes@[bvh.nodes@[i].child_index as int].size() <= bvh.nodes@[bvh.nodes@[i].child_index + 1].size()
            <= bvh.nodes@[bvh.nodes@[i].child_index as int].size() + 1,
{
    assert(linked(bvh.nodes@, i));
    assert(covers(bvh.nodes@, bvh.objects@, bvh.boxes@, i));
}

} // verus!
