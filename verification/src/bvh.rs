//! The bounding-volume hierarchy: a binary tree over intersectables whose
//! nodes carry the union of their children's boxes. Hit queries test the
//! node's box first and probe both children with a tightened interval.
//!
//! Construction sorts each span by the boxes' minimum coordinate on a
//! randomly chosen axis and splits at the midpoint. The contract pins what
//! the callers rely on: the tree holds exactly the objects it was built
//! from, stays well-formed, and keeps determinism and material bounds.

use vstd::prelude::*;

verus! {

use vstd::seq_lib::lemma_multiset_commutative;
use vstd::pervasive::unreached;

use crate::aabb::Aabb;
use crate::fixed::fx_wf;
use crate::hit::{Hittable, HittableList};
use crate::ray::Ray;
use crate::rng::Rng;

pub struct BvhNode {
    pub left: Box<Hittable>,
    pub right: Box<Hittable>,
    pub bounding_box: Aabb,
}

/// The objects a subtree was built over: hierarchy nodes decompose into
/// their children, empty aggregates vanish, and everything else is atomic.
pub open spec fn spec_leaves(h: Hittable) -> Seq<Hittable>
    decreases h,
{
    match h {
        Hittable::Bvh(n) => spec_leaves(*n.left) + spec_leaves(*n.right),
        Hittable::List(l) => if l.objects@.len() == 0 {
            Seq::empty()
        } else {
            seq![h]
        },
        _ => seq![h],
    }
}

/// Every hierarchy node inside carries exactly the union of its children's
/// boxes: the merge of the two boxes its children report, or the one box
/// when the other side is an empty aggregate without one. Objects that are
/// not hierarchy nodes are atomic here, as in the leaf bookkeeping.
pub open spec fn boxes_united(h: Hittable, time0: i64, time1: i64) -> bool
    decreases h,
{
    match h {
        Hittable::Bvh(n) => {
            &&& (match (
                n.left.spec_bounding_box(time0, time1),
                n.right.spec_bounding_box(time0, time1),
            ) {
                (Some(a), Some(b)) => n.bounding_box == a.spec_surrounding(b),
                (Some(a), None) => n.bounding_box == a,
                (None, Some(b)) => n.bounding_box == b,
                (None, None) => false,
            })
            &&& boxes_united(*n.left, time0, time1)
            &&& boxes_united(*n.right, time0, time1)
        },
        _ => true,
    }
}

/// What the builder asks of its input: well-formed objects that all report
/// a bounding box (at the comparator's fixed time and at the build times),
/// none of them already a hierarchy node. The last point is a bookkeeping
/// restriction, not a geometric one: the leaf accounting (`spec_leaves`)
/// takes hierarchy nodes apart, so a span holding one could not be promised
/// back as an atomic leaf. Scenes nest hierarchies by placing a built tree
/// inside an aggregate or a transform, never by handing it back to the
/// builder, so no described scene is excluded.
pub open spec fn build_input_ok(objs: Seq<Hittable>, time0: i64, time1: i64) -> bool {
    &&& Hittable::seq_wf(objs)
    &&& (forall|i: int|
        0 <= i < objs.len() ==> (#[trigger] objs[i]).spec_bounding_box(0, 0) is Some)
    &&& (forall|i: int|
        0 <= i < objs.len() ==> (#[trigger] objs[i]).spec_bounding_box(time0, time1) is Some)
    &&& (forall|i: int| 0 <= i < objs.len() ==> !((#[trigger] objs[i]) is Bvh))
}

/// Order two objects by their boxes' minimum coordinate on the given axis.
fn box_less(a: &Hittable, b: &Hittable, axis: u64) -> (r: bool)
    requires
        a.wf(),
        b.wf(),
        a.spec_bounding_box(0, 0) is Some,
        b.spec_bounding_box(0, 0) is Some,
{
    let ba = a.bounding_box(0, 0);
    let bb = b.bounding_box(0, 0);
    match (ba, bb) {
        (Some(x), Some(y)) => {
            if axis == 0 {
                x.minimum.x < y.minimum.x
            } else if axis == 1 {
                x.minimum.y < y.minimum.y
            } else {
                x.minimum.z < y.minimum.z
            }
        },
        _ => false,
    }
}

/// An object that is not a hierarchy node and reports a box stands for
/// itself in the leaf sequence.
proof fn lemma_atomic_leaves(h: Hittable)
    requires
        !(h is Bvh),
        h.spec_bounding_box(0, 0) is Some,
    ensures
        spec_leaves(h) =~= seq![h],
{
    match h {
        Hittable::List(l) => {
            if l.objects@.len() == 0 {
                assert(Hittable::spec_list_bbox(l.objects@, 0, 0) is None);
                assert(false);
            }
        },
        _ => {},
    }
}

/// Order a span by the chosen axis via selection of the least remaining
/// box, preserving the span as a multiset along with every structural
/// property the builder relies on.
fn sort_by_axis(objects: Vec<Hittable>, axis: u64, time0: i64, time1: i64) -> (r: Vec<Hittable>)
    requires
        build_input_ok(objects@, time0, time1),
    ensures
        r@.to_multiset() == objects@.to_multiset(),
        r@.len() == objects@.len(),
        build_input_ok(r@, time0, time1),
        Hittable::seq_deterministic(objects@) ==> Hittable::seq_deterministic(r@),
        forall|n: int|
            #[trigger] Hittable::seq_mats_ok(objects@, n) ==> Hittable::seq_mats_ok(r@, n),
{
    broadcast use vstd::multiset::group_multiset_axioms;

    let ghost orig = objects@;
    let mut rest = objects;
    let mut sorted_v: Vec<Hittable> = Vec::new();
    proof {
        let e = Seq::<Hittable>::empty();
        e.to_multiset_ensures();
        assert forall|a: Hittable| e.to_multiset().count(a) == 0 by {
            if e.to_multiset().count(a) > 0 {
                assert(e.contains(a));
            }
        }
        assert(e.to_multiset().add(rest@.to_multiset()) =~= rest@.to_multiset());
    }
    while rest.len() > 0
        invariant
            sorted_v@.to_multiset().add(rest@.to_multiset()) == orig.to_multiset(),
            sorted_v@.len() + rest@.len() == orig.len(),
            build_input_ok(sorted_v@, time0, time1),
            build_input_ok(rest@, time0, time1),
            Hittable::seq_deterministic(orig) ==> Hittable::seq_deterministic(sorted_v@)
                && Hittable::seq_deterministic(rest@),
            forall|n: int|
                #[trigger] Hittable::seq_mats_ok(orig, n) ==> Hittable::seq_mats_ok(sorted_v@, n)
                    && Hittable::seq_mats_ok(rest@, n),
        decreases rest@.len(),
    {
        let mut m: usize = 0;
        let mut j: usize = 1;
        while j < rest.len()
            invariant
                build_input_ok(rest@, time0, time1),
                rest@.len() > 0,
                m < rest@.len(),
                j <= rest@.len(),
            decreases rest@.len() - j,
        {
            if box_less(&rest[j], &rest[m], axis) {
                m = j;
            }
            j = j + 1;
        }
        let ghost rest_before = rest@;
        let ghost sorted_before = sorted_v@;
        let x = rest.remove(m);
        sorted_v.push(x);
        proof {
            rest_before.to_multiset_ensures();
            sorted_before.to_multiset_ensures();
            assert(rest_before.contains(x));
            assert(rest_before.to_multiset().count(x) > 0);
            assert(sorted_v@.to_multiset() =~= sorted_before.to_multiset().insert(x));
            assert(rest@.to_multiset() =~= rest_before.to_multiset().remove(x));
            assert(sorted_v@.to_multiset().add(rest@.to_multiset()) =~= orig.to_multiset());
            if Hittable::seq_deterministic(orig) {
                assert forall|i: int| 0 <= i < sorted_v@.len() implies (#[trigger] sorted_v@[
                i]).deterministic() by {
                    if i < sorted_before.len() {
                        assert(sorted_v@[i] == sorted_before[i]);
                    } else {
                        assert(sorted_v@[i] == rest_before[m as int]);
                    }
                }
            }
            assert forall|n: int| #[trigger] Hittable::seq_mats_ok(orig, n) implies
                Hittable::seq_mats_ok(sorted_v@, n) && Hittable::seq_mats_ok(rest@, n) by {
                assert(Hittable::seq_mats_ok(sorted_before, n) && Hittable::seq_mats_ok(
                    rest_before,
                    n,
                ));
                assert forall|i: int| 0 <= i < sorted_v@.len() implies (#[trigger] sorted_v@[
                i]).spec_mats_ok(n) by {
                    if i < sorted_before.len() {
                        assert(sorted_v@[i] == sorted_before[i]);
                    } else {
                        assert(sorted_v@[i] == rest_before[m as int]);
                    }
                }
            }
        }
    }
    proof {
        sorted_v@.to_multiset_ensures();
        rest@.to_multiset_ensures();
        assert(rest@.to_multiset().len() == 0);
        assert(sorted_v@.to_multiset().add(rest@.to_multiset()) =~= sorted_v@.to_multiset());
    }
    sorted_v
}

impl BvhNode {
    /// Build a hierarchy over a whole aggregate.
    pub fn new_with_list(list: HittableList, time0: i64, time1: i64, rng: &mut Rng) -> (r: BvhNode)
        requires
            list.objects@.len() >= 1,
            build_input_ok(list.objects@, time0, time1),
            fx_wf(time0),
            fx_wf(time1),
        ensures
            Hittable::Bvh(r).wf(),
            Hittable::Bvh(r).spec_bounding_box(time0, time1) is Some,
            boxes_united(Hittable::Bvh(r), time0, time1),
            spec_leaves(Hittable::Bvh(r)).to_multiset() == list.objects@.to_multiset(),
            Hittable::seq_deterministic(list.objects@) ==> Hittable::Bvh(r).deterministic(),
            forall|n: int|
                #[trigger] Hittable::seq_mats_ok(list.objects@, n) ==> Hittable::Bvh(
                    r,
                ).spec_mats_ok(n),
    {
        Self::new(list.objects, time0, time1, rng)
    }

    /// Build a hierarchy over a span of objects, consuming it. A span of one
    /// becomes a degenerate node whose second child is an empty aggregate
    /// that can never report a hit, so the node answers exactly as its
    /// single object does.
    #[verifier::rlimit(100)]
    #[verifier::spinoff_prover]
    pub fn new(objects: Vec<Hittable>, time0: i64, time1: i64, rng: &mut Rng) -> (r: BvhNode)
        requires
            objects@.len() >= 1,
            build_input_ok(objects@, time0, time1),
            fx_wf(time0),
            fx_wf(time1),
        ensures
            Hittable::Bvh(r).wf(),
            Hittable::Bvh(r).spec_bounding_box(time0, time1) is Some,
            boxes_united(Hittable::Bvh(r), time0, time1),
            spec_leaves(Hittable::Bvh(r)).to_multiset() == objects@.to_multiset(),
            Hittable::seq_deterministic(objects@) ==> Hittable::Bvh(r).deterministic(),
            forall|n: int|
                #[trigger] Hittable::seq_mats_ok(objects@, n) ==> Hittable::Bvh(r).spec_mats_ok(n),
        decreases objects@.len(),
    {
        let ghost orig = objects@;
        let axis = rng.next_below(3);
        let mut rest = objects;
        if rest.len() == 1 {
            let obj = match rest.pop() {
                Some(o) => o,
                None => unreached(),
            };
            proof {
                assert(orig[0] == obj);
                assert(obj.wf());
            }
            let bb = match obj.bounding_box(time0, time1) {
                Some(b) => b,
                None => unreached(),
            };
            proof {
                assert(orig =~= seq![obj]);
                assert(seq![obj] + Seq::<Hittable>::empty() =~= seq![obj]);
            }
            let empty = HittableList::new();
            proof {
                assert(spec_leaves(Hittable::List(empty)) =~= Seq::<Hittable>::empty());
                lemma_atomic_leaves(obj);
                assert(spec_leaves(obj) + spec_leaves(Hittable::List(empty)) =~= seq![obj]);
                assert(Hittable::seq_wf(empty.objects@));
                assert(Hittable::seq_deterministic(empty.objects@));
                if Hittable::seq_deterministic(orig) {
                    assert(orig[0].deterministic());
                }
                assert forall|n: int| #[trigger] Hittable::seq_mats_ok(objects@, n) implies
                    obj.spec_mats_ok(n) && Hittable::List(empty).spec_mats_ok(n) by {
                    assert(orig[0].spec_mats_ok(n));
                    assert(Hittable::seq_mats_ok(empty.objects@, n));
                }
                assert(bb.wf());
                assert(obj.wf());
                assert(Hittable::List(empty).wf());
                assert(Hittable::List(empty).deterministic());
                assert(Hittable::spec_list_bbox(empty.objects@, time0, time1) is None);
                assert(Hittable::List(empty).spec_bounding_box(time0, time1) is None);
                assert(!(obj is Bvh));
                assert(boxes_united(obj, time0, time1));
                assert(boxes_united(Hittable::List(empty), time0, time1));
            }
            return BvhNode { left: Box::new(obj), right: Box::new(Hittable::List(empty)), bounding_box: bb };
        }
        if rest.len() == 2 {
            let second = match rest.pop() {
                Some(o) => o,
                None => unreached(),
            };
            let first = match rest.pop() {
                Some(o) => o,
                None => unreached(),
            };
            proof {
                assert(orig[0] == first && orig[1] == second);
                assert(orig =~= seq![first, second]);
            }
            let (left, right) = if box_less(&first, &second, axis) {
                (first, second)
            } else {
                (second, first)
            };
            proof {
                assert(left.wf() && right.wf());
            }
            let bl = match left.bounding_box(time0, time1) {
                Some(b) => b,
                None => unreached(),
            };
            let br = match right.bounding_box(time0, time1) {
                Some(b) => b,
                None => unreached(),
            };
            let bb = bl.surrounding_box(&br);
            proof {
                lemma_atomic_leaves(left);
                lemma_atomic_leaves(right);
                assert(seq![left] + seq![right] =~= seq![left, right]);
                vstd::seq_lib::lemma_seq_union_to_multiset_commutative(seq![first], seq![second]);
                assert(seq![first] + seq![second] =~= seq![first, second]);
                assert(seq![second] + seq![first] =~= seq![second, first]);
                assert(seq![left, right].to_multiset() =~= orig.to_multiset());
                if Hittable::seq_deterministic(orig) {
                    assert(orig[0].deterministic() && orig[1].deterministic());
                }
                assert forall|n: int| #[trigger] Hittable::seq_mats_ok(objects@, n) implies
                    left.spec_mats_ok(n) && right.spec_mats_ok(n) by {
                    assert(orig[0].spec_mats_ok(n));
                    assert(orig[1].spec_mats_ok(n));
                }
                assert(!(left is Bvh) && !(right is Bvh));
                assert(boxes_united(left, time0, time1));
                assert(boxes_united(right, time0, time1));
            }
            return BvhNode { left: Box::new(left), right: Box::new(right), bounding_box: bb };
        }
        let mut sorted_v = sort_by_axis(rest, axis, time0, time1);
        let mid = sorted_v.len() / 2;
        let ghost whole = sorted_v@;
        let tail = sorted_v.split_off(mid);
        proof {
            assert(whole =~= sorted_v@ + tail@);
            lemma_multiset_commutative(sorted_v@, tail@);
        }
        proof {
            assert forall|i: int| 0 <= i < sorted_v@.len() implies (#[trigger] sorted_v@[i])
                == whole[i] by {}
            assert forall|i: int| 0 <= i < tail@.len() implies (#[trigger] tail@[i]) == whole[
            i + sorted_v@.len()] by {}
            if Hittable::seq_deterministic(orig) {
                assert(Hittable::seq_deterministic(whole));
                assert forall|i: int| 0 <= i < sorted_v@.len() implies (#[trigger] sorted_v@[
                i]).deterministic() by {
                    assert(whole[i].deterministic());
                }
                assert forall|i: int| 0 <= i < tail@.len() implies (#[trigger] tail@[
                i]).deterministic() by {
                    assert(whole[i + sorted_v@.len()].deterministic());
                }
            }
            assert forall|n: int| #[trigger] Hittable::seq_mats_ok(objects@, n) implies
                Hittable::seq_mats_ok(sorted_v@, n) && Hittable::seq_mats_ok(tail@, n) by {
                assert(Hittable::seq_mats_ok(whole, n));
                assert forall|i: int| 0 <= i < sorted_v@.len() implies (#[trigger] sorted_v@[
                i]).spec_mats_ok(n) by {
                    assert(whole[i].spec_mats_ok(n));
                }
                assert forall|i: int| 0 <= i < tail@.len() implies (#[trigger] tail@[
                i]).spec_mats_ok(n) by {
                    assert(whole[i + sorted_v@.len()].spec_mats_ok(n));
                }
            }
        }
        let left_node = Self::new(sorted_v, time0, time1, rng);
        let right_node = Self::new(tail, time0, time1, rng);
        let bb = left_node.bounding_box.surrounding_box(&right_node.bounding_box);
        proof {
            lemma_multiset_commutative(
                spec_leaves(Hittable::Bvh(left_node)),
                spec_leaves(Hittable::Bvh(right_node)),
            );
        }
        BvhNode {
            left: Box::new(Hittable::Bvh(left_node)),
            right: Box::new(Hittable::Bvh(right_node)),
            bounding_box: bb,
        }
    }
}

/// The acceleration structure is a pure optimization at every node: when a
/// node's box admits the ray, its hit query answers exactly as the linear
/// scan of its two children over the same interval. Pruning is the only
/// divergence a node can introduce, and it only ever suppresses hits whose
/// surrounding box the ray misses.
pub proof fn lemma_bvh_node_matches_linear(n: BvhNode, r: Ray, t_min: i64, t_max: i64)
    requires
        n.bounding_box.spec_hit(r, t_min, t_max),
    ensures
        Hittable::Bvh(n).hit_spec(r, t_min, t_max) == Hittable::list_hit_spec(
            seq![*n.left, *n.right],
            0,
            r,
            t_min,
            t_max,
            None,
        ),
{
    let objs = seq![*n.left, *n.right];
    let lh = n.left.hit_spec(r, t_min, t_max);
    match lh {
        Some(h) => {
            assert(Hittable::list_hit_spec(objs, 0, r, t_min, t_max, None)
                == Hittable::list_hit_spec(objs, 1, r, t_min, h.t, Some(h)));
            let rh = n.right.hit_spec(r, t_min, h.t);
            match rh {
                Some(h2) => {
                    assert(Hittable::list_hit_spec(objs, 1, r, t_min, h.t, Some(h))
                        == Hittable::list_hit_spec(objs, 2, r, t_min, h2.t, Some(h2)));
                },
                None => {
                    assert(Hittable::list_hit_spec(objs, 1, r, t_min, h.t, Some(h))
                        == Hittable::list_hit_spec(objs, 2, r, t_min, h.t, Some(h)));
                },
            }
        },
        None => {
            assert(Hittable::list_hit_spec(objs, 0, r, t_min, t_max, None)
                == Hittable::list_hit_spec(objs, 1, r, t_min, t_max, None));
            let rh = n.right.hit_spec(r, t_min, t_max);
            match rh {
                Some(h2) => {
                    assert(Hittable::list_hit_spec(objs, 1, r, t_min, t_max, None)
                        == Hittable::list_hit_spec(objs, 2, r, t_min, h2.t, Some(h2)));
                },
                None => {
                    assert(Hittable::list_hit_spec(objs, 1, r, t_min, t_max, None)
                        == Hittable::list_hit_spec(objs, 2, r, t_min, t_max, None));
                },
            }
        },
    }
}

/// A degenerate leaf node (a single object beside an empty aggregate)
/// answers exactly as its object whenever its box admits the ray.
pub proof fn lemma_bvh_leaf_matches_object(n: BvhNode, r: Ray, t_min: i64, t_max: i64)
    requires
        n.bounding_box.spec_hit(r, t_min, t_max),
        *n.right is List,
        (*n.right)->List_0.objects@.len() == 0,
    ensures
        Hittable::Bvh(n).hit_spec(r, t_min, t_max) == n.left.hit_spec(r, t_min, t_max),
{
    let lh = n.left.hit_spec(r, t_min, t_max);
    let tight = match lh {
        Some(rec) => rec.t,
        None => t_max,
    };
    assert(n.right.hit_spec(r, t_min, tight) is None) by {
        let l = (*n.right)->List_0;
        assert(Hittable::list_hit_spec(l.objects@, 0, r, t_min, tight, None) is None);
    }
}

/// Scanning a single object is querying it.
proof fn lemma_single_scan(h: Hittable, r: Ray, t_min: i64, t_max: i64)
    ensures
        Hittable::list_hit_spec(seq![h], 0, r, t_min, t_max, None) == h.hit_spec(
            r,
            t_min,
            t_max,
        ),
{
    let objs = seq![h];
    assert(objs[0] == h);
    match h.hit_spec(r, t_min, t_max) {
        Some(rec) => {
            assert(Hittable::list_hit_spec(objs, 1, r, t_min, rec.t, Some(rec)) == Some(rec));
        },
        None => {
            assert(Hittable::list_hit_spec(objs, 1, r, t_min, t_max, None) is None);
        },
    }
}

/// The hierarchy is a pure optimization, not a semantic change: a
/// deterministic tree whose boxes admit its subtree hits reports exactly
/// what the linear scan of its leaves reports, for every ray and interval.
/// Box admission is the one geometric assumption: over the reals a box built
/// as the union of its children's boxes always admits their hits, and only
/// fixed-point rounding at a box edge could deny one.
pub proof fn lemma_hierarchy_matches_leaf_scan(h: Hittable, r: Ray, t_min: i64, t_max: i64)
    requires
        h.deterministic(),
        h.boxes_admit(r, t_min),
    ensures
        h.hit_spec(r, t_min, t_max) == Hittable::list_hit_spec(
            spec_leaves(h),
            0,
            r,
            t_min,
            t_max,
            None,
        ),
    decreases h,
{
    match h {
        Hittable::Bvh(n) => {
            lemma_hierarchy_matches_leaf_scan(*n.left, r, t_min, t_max);
            let la = spec_leaves(*n.left);
            let lb = spec_leaves(*n.right);
            let lh = n.left.hit_spec(r, t_min, t_max);
            Hittable::lemma_fold_append(la, lb, 0, r, t_min, t_max, None);
            match lh {
                Some(hl) => {
                    Hittable::lemma_fold_acc(lb, 0, r, t_min, hl.t, hl);
                    lemma_hierarchy_matches_leaf_scan(*n.right, r, t_min, hl.t);
                },
                None => {
                    lemma_hierarchy_matches_leaf_scan(*n.right, r, t_min, t_max);
                },
            }
            let raw = Hittable::spec_bvh_combine(n, r, t_min, t_max);
            assert(h.hit_spec(r, t_min, t_max) == (if n.bounding_box.spec_hit(r, t_min, t_max) {
                raw
            } else {
                None::<crate::hit::HitRecord>
            }));
            if raw is Some {
                assert(n.bounding_box.spec_hit(r, t_min, t_max));
            }
            assert(spec_leaves(h) == la + lb);
        },
        Hittable::List(l) => {
            if l.objects@.len() == 0 {
                assert(Hittable::list_hit_spec(l.objects@, 0, r, t_min, t_max, None) is None);
                assert(spec_leaves(h) =~= Seq::<Hittable>::empty());
                assert(Hittable::list_hit_spec(spec_leaves(h), 0, r, t_min, t_max, None)
                    is None);
            } else {
                assert(spec_leaves(h) =~= seq![h]);
                lemma_single_scan(h, r, t_min, t_max);
            }
        },
        _ => {
            assert(spec_leaves(h) =~= seq![h]);
            lemma_single_scan(h, r, t_min, t_max);
        },
    }
}

} // verus!
