//! The bounding-volume hierarchy.
//!
//! The tree prunes with the exact box test of `aabb`, so its result provably
//! equals the flat scan of the same surfaces: acceleration changes cost,
//! never the reported intersection.

use crate::aabb::{contains, spec_box_hit, spec_union, Aabb};
use crate::hittable::{
    clone_hittable, h_range_ok, h_time_ok, h_wf, lemma_h_hit_in_box, rec_wf, spec_h_box,
    spec_h_hit_t, HitRecord, Hittable,
};
use crate::hittable_list::{
    combine_hits, lemma_best_append, lemma_best_narrow, list_range_ok, list_wf, spec_best,
    HittableList,
};
use crate::ray::Ray;
use crate::vec3::v_fits;
use rand::rngs::SmallRng;
use vstd::prelude::*;

verus! {

/// A node of the hierarchy: a leaf wrapping one surface, or an inner node
/// whose box contains both children's boxes.
pub enum BvhTree {
    Leaf { object: Hittable, bbox: Aabb },
    Node { left: Box<BvhTree>, right: Box<BvhTree>, bbox: Aabb },
}

/// The hierarchy over an immutable snapshot of surfaces, built for one
/// shutter interval.
pub struct BvhNode {
    pub root: BvhTree,
    pub time0: i64,
    pub time1: i64,
}

impl BvhTree {
    /// The surfaces under this node, left to right.
    pub open spec fn surfaces(self) -> Seq<Hittable>
        decreases self,
    {
        match self {
            BvhTree::Leaf { object, bbox } => seq![object],
            BvhTree::Node { left, right, bbox } => left.surfaces() + right.surfaces(),
        }
    }

    pub open spec fn bbox_of(self) -> Aabb {
        match self {
            BvhTree::Leaf { object, bbox } => bbox,
            BvhTree::Node { left, right, bbox } => bbox,
        }
    }

    /// Every leaf box is the box its surface reports over the build
    /// interval, and every inner box is exactly the union of its children's
    /// boxes.
    pub open spec fn wf(self, time0: int, time1: int) -> bool
        decreases self,
    {
        match self {
            BvhTree::Leaf { object, bbox } => {
                &&& h_wf(object)
                &&& h_range_ok(object, time0, time1)
                &&& bbox == spec_h_box(object, time0, time1)
                &&& bbox.fits()
            },
            BvhTree::Node { left, right, bbox } => {
                &&& left.wf(time0, time1)
                &&& right.wf(time0, time1)
                &&& bbox == spec_union(left.bbox_of(), right.bbox_of())
                &&& bbox.fits()
            },
        }
    }
}

/// A ray that misses a node's box misses every surface under the node: the
/// soundness of pruning.
pub proof fn lemma_tree_miss(tree: BvhTree, ray: Ray, t0: int, t1: int, time0: int, time1: int)
    requires
        tree.wf(time0, time1),
        time0 <= ray.time <= time1,
        !spec_box_hit(tree.bbox_of(), ray.orig, ray.dir, t0, t1),
    ensures
        spec_best(tree.surfaces(), ray, t0, t1) is None,
    decreases tree,
{
    match tree {
        BvhTree::Leaf { object, bbox } => {
            lemma_h_hit_in_box(object, ray, t0, t1, time0, time1);
            if spec_h_hit_t(object, ray, t0, t1) is Some {
                let t = spec_h_hit_t(object, ray, t0, t1)->0;
                crate::aabb::lemma_box_hit_witness(bbox, ray.orig, ray.dir, t0, t1, t);
            }
            assert(tree.surfaces().drop_last() =~= Seq::<Hittable>::empty());
            assert(tree.surfaces().last() == object);
            assert(spec_best(Seq::<Hittable>::empty(), ray, t0, t1) is None);
        },
        BvhTree::Node { left, right, bbox } => {
            crate::aabb::lemma_union_contains(left.bbox_of(), right.bbox_of());
            if spec_box_hit(left.bbox_of(), ray.orig, ray.dir, t0, t1) {
                crate::aabb::lemma_box_hit_monotone(
                    bbox,
                    left.bbox_of(),
                    ray.orig,
                    ray.dir,
                    t0,
                    t1,
                );
            }
            if spec_box_hit(right.bbox_of(), ray.orig, ray.dir, t0, t1) {
                crate::aabb::lemma_box_hit_monotone(
                    bbox,
                    right.bbox_of(),
                    ray.orig,
                    ray.dir,
                    t0,
                    t1,
                );
            }
            lemma_tree_miss(*left, ray, t0, t1, time0, time1);
            lemma_tree_miss(*right, ray, t0, t1, time0, time1);
            lemma_best_append(left.surfaces(), right.surfaces(), ray, t0, t1);
        },
    }
}

/// The box of a node.
fn tree_box(tree: &BvhTree) -> (r: Aabb)
    ensures
        r == tree.bbox_of(),
{
    match tree {
        BvhTree::Leaf { object, bbox } => *bbox,
        BvhTree::Node { left, right, bbox } => *bbox,
    }
}

/// Traverse the tree: prune on a box miss, otherwise test the left child and
/// re-test the right child with the interval narrowed to the left hit, so
/// the right subtree can only report a strictly closer hit.
#[verifier::rlimit(60)]
fn tree_hit(
    tree: &BvhTree,
    r: &Ray,
    t_min: i64,
    t_max: i64,
    Ghost(time0): Ghost<int>,
    Ghost(time1): Ghost<int>,
) -> (res: Option<HitRecord>)
    requires
        tree.wf(time0, time1),
        time0 <= r.time <= time1,
        v_fits(r.orig),
        v_fits(r.dir),
    ensures
        res is Some <==> spec_best(tree.surfaces(), *r, t_min as int, t_max as int) is Some,
        res matches Some(rec) ==> {
            &&& spec_best(tree.surfaces(), *r, t_min as int, t_max as int) == Some(rec.t as int)
            &&& t_min < rec.t < t_max
            &&& rec_wf(rec)
        },
    decreases *tree,
{
    match tree {
        BvhTree::Leaf { object, bbox } => {
            proof {
                assert(tree.surfaces().drop_last() =~= Seq::<Hittable>::empty());
                assert(tree.surfaces().last() == *object);
                assert(spec_best(Seq::<Hittable>::empty(), *r, t_min as int, t_max as int)
                    is None);
            }
            object.hit(r, t_min, t_max)
        },
        BvhTree::Node { left, right, bbox } => {
            let ghost ls = left.surfaces();
            let ghost rs = right.surfaces();
            if !bbox.hit(r, t_min, t_max) {
                proof {
                    lemma_tree_miss(*tree, *r, t_min as int, t_max as int, time0, time1);
                }
                None
            } else {
                proof {
                    lemma_best_append(ls, rs, *r, t_min as int, t_max as int);
                }
                match tree_hit(left, r, t_min, t_max, Ghost(time0), Ghost(time1)) {
                    Some(lrec) => {
                        proof {
                            lemma_best_narrow(rs, *r, t_min as int, t_max as int, lrec.t as int);
                        }
                        match tree_hit(right, r, t_min, lrec.t, Ghost(time0), Ghost(time1)) {
                            Some(rrec) => Some(rrec),
                            None => Some(lrec),
                        }
                    },
                    None => tree_hit(right, r, t_min, t_max, Ghost(time0), Ghost(time1)),
                }
            }
        },
    }
}

/// The box minimum along an axis, the key the builder sorts by.
fn box_min_key(h: &Hittable, axis: i64, time0: i64, time1: i64) -> (r: i64)
    requires
        h_wf(*h),
        h_range_ok(*h, time0 as int, time1 as int),
        time0 <= time1,
{
    let b = h.box_for(time0, time1);
    if axis == 0 {
        b.minimum.x
    } else if axis == 1 {
        b.minimum.y
    } else {
        b.minimum.z
    }
}

/// Selection sort by the box minimum along an axis: the result holds exactly
/// the surfaces given, reordered.
fn sort_by_box_min(objects: Vec<Hittable>, axis: i64, time0: i64, time1: i64) -> (r: Vec<
    Hittable,
>)
    requires
        list_wf(objects@),
        list_range_ok(objects@, time0 as int, time1 as int),
        time0 <= time1,
    ensures
        r@.to_multiset() == objects@.to_multiset(),
        r@.len() == objects@.len(),
        list_wf(r@),
        list_range_ok(r@, time0 as int, time1 as int),
{
    broadcast use vstd::seq_lib::group_to_multiset_ensures;
    broadcast use vstd::multiset::group_multiset_axioms;

    let mut rem = objects;
    let mut out: Vec<Hittable> = Vec::new();
    let ghost all = rem@;
    proof {
        assert(out@.to_multiset().add(rem@.to_multiset()) =~= all.to_multiset());
    }
    while rem.len() > 0
        invariant
            out@.to_multiset().add(rem@.to_multiset()) == all.to_multiset(),
            out@.len() + rem@.len() == all.len(),
            list_wf(out@),
            list_wf(rem@),
            list_range_ok(out@, time0 as int, time1 as int),
            list_range_ok(rem@, time0 as int, time1 as int),
            time0 <= time1,
        decreases rem.len(),
    {
        let mut m: usize = 0;
        let mut mk = box_min_key(&rem[0], axis, time0, time1);
        let mut j: usize = 1;
        while j < rem.len()
            invariant
                m < rem@.len(),
                j <= rem@.len(),
                list_wf(rem@),
                list_range_ok(rem@, time0 as int, time1 as int),
                time0 <= time1,
            decreases rem.len() - j,
        {
            let k = box_min_key(&rem[j], axis, time0, time1);
            if k < mk {
                m = j;
                mk = k;
            }
            j = j + 1;
        }
        let ghost rem_before = rem@;
        let ghost out_before = out@;
        let x = rem.remove(m);
        out.push(x);
        proof {
            lemma_move_one(out_before, rem_before, m as int, out@, rem@);
            assert(out@.to_multiset().add(rem@.to_multiset()) =~= all.to_multiset());
            assert forall|i: int| 0 <= i < rem@.len() implies h_wf(#[trigger] rem@[i])
                && h_range_ok(rem@[i], time0 as int, time1 as int) by {
                if i < m {
                    assert(rem@[i] == rem_before[i]);
                } else {
                    assert(rem@[i] == rem_before[i + 1]);
                }
            }
            assert forall|i: int| 0 <= i < out@.len() implies h_wf(#[trigger] out@[i])
                && h_range_ok(out@[i], time0 as int, time1 as int) by {}
        }
    }
    proof {
        assert(rem@.to_multiset() =~= Seq::<Hittable>::empty().to_multiset());
        assert(out@.to_multiset() =~= all.to_multiset());
    }
    out
}


/// Moving one element from one sequence onto the end of another keeps the
/// combined multiset.
proof fn lemma_move_one(
    prev_out: Seq<Hittable>,
    prev_rem: Seq<Hittable>,
    m: int,
    new_out: Seq<Hittable>,
    new_rem: Seq<Hittable>,
)
    requires
        0 <= m < prev_rem.len(),
        new_rem == prev_rem.remove(m),
        new_out == prev_out.push(prev_rem[m]),
    ensures
        new_out.to_multiset().add(new_rem.to_multiset()) =~= prev_out.to_multiset().add(
            prev_rem.to_multiset(),
        ),
{
    broadcast use vstd::seq_lib::group_to_multiset_ensures;
    broadcast use vstd::multiset::group_multiset_axioms;

    let x = prev_rem[m];
    assert(prev_rem.remove(m).to_multiset() =~= prev_rem.to_multiset().remove(x));
    assert(prev_out.push(x).to_multiset() =~= prev_out.to_multiset().insert(x));
    assert(prev_rem.contains(x));
    assert(prev_rem.to_multiset().count(x) > 0);
    assert forall|y: Hittable|
        new_out.to_multiset().add(new_rem.to_multiset()).count(y) == prev_out.to_multiset().add(
            prev_rem.to_multiset(),
        ).count(y) by {
        assert(new_out.to_multiset().count(y) == prev_out.to_multiset().insert(x).count(y));
        assert(new_rem.to_multiset().count(y) == prev_rem.to_multiset().remove(x).count(y));
    }
}

/// Build the tree for a nonempty slice of surfaces: one surface becomes a
/// leaf, two are ordered by a box comparison, more are sorted along a random
/// axis and split at the middle.
#[verifier::rlimit(60)]
fn make(objects: Vec<Hittable>, time0: i64, time1: i64, rng: &mut SmallRng) -> (r: BvhTree)
    requires
        objects@.len() >= 1,
        list_wf(objects@),
        list_range_ok(objects@, time0 as int, time1 as int),
        time0 <= time1,
    ensures
        r.wf(time0 as int, time1 as int),
        r.surfaces().to_multiset() == objects@.to_multiset(),
    decreases objects@.len(),
{
    broadcast use vstd::seq_lib::group_to_multiset_ensures;
    broadcast use vstd::multiset::group_multiset_axioms;

    let n = objects.len();
    if n == 1 {
        let ghost entry = objects@;
        let mut objects = objects;
        let obj = objects.pop().unwrap();
        let bbox = obj.box_for(time0, time1);
        let r = BvhTree::Leaf { object: obj, bbox };
        proof {
            crate::hittable::lemma_h_box_fits(obj, time0 as int, time1 as int);
            assert(r.surfaces() =~= seq![obj]);
            assert(entry =~= seq![obj]);
        }
        r
    } else if n == 2 {
        let ghost before = objects@;
        let axis = crate::util::random_i64_range(rng, 0, 3);
        let mut objects = objects;
        let b = objects.pop().unwrap();
        let a = objects.pop().unwrap();
        let ka = box_min_key(&a, axis, time0, time1);
        let kb = box_min_key(&b, axis, time0, time1);
        let (first, second) = if ka <= kb {
            (a, b)
        } else {
            (b, a)
        };
        let bf = first.box_for(time0, time1);
        let bs = second.box_for(time0, time1);
        let bbox = Aabb::surrounding_box(bf, bs);
        let r = BvhTree::Node {
            left: Box::new(BvhTree::Leaf { object: first, bbox: bf }),
            right: Box::new(BvhTree::Leaf { object: second, bbox: bs }),
            bbox,
        };
        proof {
            crate::aabb::lemma_union_contains(bf, bs);
            crate::hittable::lemma_h_box_fits(first, time0 as int, time1 as int);
            crate::hittable::lemma_h_box_fits(second, time0 as int, time1 as int);
            crate::aabb::lemma_union_fits(bf, bs);
            reveal_with_fuel(BvhTree::surfaces, 3);
            reveal_with_fuel(BvhTree::wf, 3);
            assert(BvhTree::Leaf { object: first, bbox: bf }.wf(time0 as int, time1 as int));
            assert(BvhTree::Leaf { object: second, bbox: bs }.wf(time0 as int, time1 as int));
            assert(r.surfaces() =~= seq![first] + seq![second]);
            assert(before.len() == 2);
            assert(b == before[1] && a == before[0]);
            assert(before =~= seq![a] + seq![b]);
            vstd::seq_lib::lemma_multiset_commutative(seq![a], seq![b]);
            vstd::seq_lib::lemma_multiset_commutative(seq![b], seq![a]);
            assert(seq![a].to_multiset().add(seq![b].to_multiset())
                =~= seq![b].to_multiset().add(seq![a].to_multiset()));
            if ka <= kb {
                assert(r.surfaces() =~= seq![a] + seq![b]);
            } else {
                assert(r.surfaces() =~= seq![b] + seq![a]);
            }
            assert(r.surfaces().to_multiset() =~= before.to_multiset());
        }
        r
    } else {
        let axis = crate::util::random_i64_range(rng, 0, 3);
        let mut sorted = sort_by_box_min(objects, axis, time0, time1);
        let ghost sorted_seq = sorted@;
        let mid = n / 2;
        let right_v = sorted.split_off(mid);
        proof {
            assert(sorted_seq =~= sorted@ + right_v@);
            vstd::seq_lib::lemma_multiset_commutative(sorted@, right_v@);
            assert forall|i: int| 0 <= i < sorted@.len() implies h_wf(#[trigger] sorted@[i])
                && h_range_ok(sorted@[i], time0 as int, time1 as int) by {
                assert(sorted@[i] == sorted_seq[i]);
            }
            assert forall|i: int| 0 <= i < right_v@.len() implies h_wf(#[trigger] right_v@[i])
                && h_range_ok(right_v@[i], time0 as int, time1 as int) by {
                assert(right_v@[i] == sorted_seq[i + mid]);
            }
        }
        let left = make(sorted, time0, time1, rng);
        let right = make(right_v, time0, time1, rng);
        let lb = tree_box(&left);
        let rb = tree_box(&right);
        let bbox = Aabb::surrounding_box(lb, rb);
        let r = BvhTree::Node { left: Box::new(left), right: Box::new(right), bbox };
        proof {
            crate::aabb::lemma_union_contains(lb, rb);
            crate::aabb::lemma_union_fits(lb, rb);
            vstd::seq_lib::lemma_multiset_commutative(left.surfaces(), right.surfaces());
            assert(r.surfaces() == left.surfaces() + right.surfaces());
            assert(r.surfaces().to_multiset() =~= left.surfaces().to_multiset().add(
                right.surfaces().to_multiset(),
            ));
            assert(sorted_seq.to_multiset() =~= sorted@.to_multiset().add(right_v@.to_multiset()));
            assert(r.surfaces().to_multiset() =~= objects@.to_multiset());
        }
        r
    }
}

impl BvhNode {
    pub open spec fn wf(self) -> bool {
        &&& self.root.wf(self.time0 as int, self.time1 as int)
        &&& self.time0 <= self.time1
    }

    /// The surfaces the hierarchy indexes.
    pub open spec fn surfaces(self) -> Seq<Hittable> {
        self.root.surfaces()
    }

    /// Build a hierarchy over the surfaces of a list for a shutter interval.
    /// An empty list has no box to build from, which is a construction
    /// failure, reported as `None`.
    pub fn new(list: &HittableList, time0: i64, time1: i64, rng: &mut SmallRng) -> (res: Option<
        BvhNode,
    >)
        requires
            list_wf(list.objects@),
            list_range_ok(list.objects@, time0 as int, time1 as int),
            time0 <= time1,
        ensures
            match res {
                None => list.objects@.len() == 0,
                Some(b) => {
                    &&& list.objects@.len() > 0
                    &&& b.wf()
                    &&& b.time0 == time0
                    &&& b.time1 == time1
                    &&& b.surfaces().to_multiset() == list.objects@.to_multiset()
                },
            },
    {
        let n = list.objects.len();
        if n == 0 {
            return None;
        }
        let mut copy: Vec<Hittable> = Vec::new();
        let mut i: usize = 0;
        while i < n
            invariant
                n == list.objects@.len(),
                i <= n,
                copy@ == list.objects@.take(i as int),
                list_wf(list.objects@),
                list_range_ok(list.objects@, time0 as int, time1 as int),
            decreases n - i,
        {
            let c = clone_hittable(&list.objects[i]);
            copy.push(c);
            proof {
                assert(copy@ =~= list.objects@.take(i as int + 1));
            }
            i = i + 1;
        }
        proof {
            assert(copy@ =~= list.objects@);
        }
        let root = make(copy, time0, time1, rng);
        Some(BvhNode { root, time0, time1 })
    }

    /// The nearest intersection, exactly what the flat list of the same
    /// surfaces reports on the same interval.
    pub fn hit(&self, r: &Ray, t_min: i64, t_max: i64) -> (res: Option<HitRecord>)
        requires
            self.wf(),
            self.time0 <= r.time <= self.time1,
            v_fits(r.orig),
            v_fits(r.dir),
        ensures
            res is Some <==> spec_best(self.surfaces(), *r, t_min as int, t_max as int) is Some,
            res matches Some(rec) ==> {
                &&& spec_best(self.surfaces(), *r, t_min as int, t_max as int) == Some(
                    rec.t as int,
                )
                &&& t_min < rec.t < t_max
                &&& rec_wf(rec)
            },
    {
        tree_hit(
            &self.root,
            r,
            t_min,
            t_max,
            Ghost(self.time0 as int),
            Ghost(self.time1 as int),
        )
    }

    /// The hierarchy's own precomputed box.
    pub fn bounding_box(&self, time0: i64, time1: i64) -> (res: Option<Aabb>)
        ensures
            res == Some(self.root.bbox_of()),
    {
        Some(tree_box(&self.root))
    }
}

/// Acceleration does not change results: a hierarchy built over the surfaces
/// of a list reports, for every ray and every query interval, exactly the
/// hit parameter the flat list reports.
pub proof fn lemma_bvh_agrees_with_list(
    b: BvhNode,
    list: HittableList,
    ray: Ray,
    t0: int,
    t1: int,
)
    requires
        b.surfaces().to_multiset() == list.objects@.to_multiset(),
    ensures
        spec_best(b.surfaces(), ray, t0, t1) == spec_best(list.objects@, ray, t0, t1),
{
    lemma_best_permutation(b.surfaces(), list.objects@, ray, t0, t1);
}

/// What the best hit over a sequence means, stated without recursion: a miss
/// means every surface misses; a hit parameter is reported by some surface
/// and no surface reports a closer one.
pub open spec fn best_characterized(
    objs: Seq<Hittable>,
    ray: Ray,
    t0: int,
    t1: int,
    r: Option<int>,
) -> bool {
    match r {
        None => forall|i: int|
            0 <= i < objs.len() ==> spec_h_hit_t(#[trigger] objs[i], ray, t0, t1) is None,
        Some(t) => {
            &&& exists|i: int|
                0 <= i < objs.len() && spec_h_hit_t(#[trigger] objs[i], ray, t0, t1) == Some(t)
            &&& forall|i: int|
                0 <= i < objs.len() ==> match spec_h_hit_t(#[trigger] objs[i], ray, t0, t1) {
                    Some(ti) => ti >= t,
                    None => true,
                }
        },
    }
}

/// The recursive best hit satisfies its order-free characterization.
#[verifier::rlimit(80)]
pub proof fn lemma_best_characterized(objs: Seq<Hittable>, ray: Ray, t0: int, t1: int)
    ensures
        best_characterized(objs, ray, t0, t1, spec_best(objs, ray, t0, t1)),
    decreases objs.len(),
{
    if objs.len() > 0 {
        lemma_best_characterized(objs.drop_last(), ray, t0, t1);
        let prev = spec_best(objs.drop_last(), ray, t0, t1);
        assert forall|i: int| 0 <= i < objs.len() - 1 implies objs[i] == objs.drop_last()[i] by {}
        if spec_best(objs, ray, t0, t1) is Some {
            let t = spec_best(objs, ray, t0, t1)->0;
            if prev is Some && prev->0 == t {
                let wi = choose|i: int|
                    0 <= i < objs.drop_last().len() && spec_h_hit_t(
                        #[trigger] objs.drop_last()[i],
                        ray,
                        t0,
                        t1,
                    ) == Some(t);
                assert(spec_h_hit_t(objs[wi], ray, t0, t1) == Some(t));
            } else {
                assert(spec_h_hit_t(objs[objs.len() - 1], ray, t0, t1) == Some(t));
            }
        }
    }
}


/// An element of a sequence occurs in any sequence with the same multiset.
proof fn lemma_contains_transfer(s1: Seq<Hittable>, s2: Seq<Hittable>, h: Hittable)
    requires
        s1.to_multiset() == s2.to_multiset(),
        s1.contains(h),
    ensures
        s2.contains(h),
{
    s1.to_multiset_ensures();
    s2.to_multiset_ensures();
    assert(s1.to_multiset().count(h) > 0);
}

/// The best hit is the same for any two aggregates holding the same
/// surfaces, whatever their order: building an acceleration structure over a
/// scene cannot change what is hit.
#[verifier::rlimit(100)]
pub proof fn lemma_best_permutation(
    s1: Seq<Hittable>,
    s2: Seq<Hittable>,
    ray: Ray,
    t0: int,
    t1: int,
)
    requires
        s1.to_multiset() == s2.to_multiset(),
    ensures
        spec_best(s1, ray, t0, t1) == spec_best(s2, ray, t0, t1),
{
    lemma_best_characterized(s1, ray, t0, t1);
    lemma_best_characterized(s2, ray, t0, t1);
    let b1 = spec_best(s1, ray, t0, t1);
    let b2 = spec_best(s2, ray, t0, t1);
    match b1 {
        None => {
            if b2 is Some {
                let t = b2->0;
                let j = choose|j: int|
                    0 <= j < s2.len() && spec_h_hit_t(#[trigger] s2[j], ray, t0, t1) == Some(t);
                let h = s2[j];
                assert(s2.contains(h));
                lemma_contains_transfer(s2, s1, h);
                let i = choose|i: int| 0 <= i < s1.len() && s1[i] == h;
                assert(spec_h_hit_t(s1[i], ray, t0, t1) is None);
            }
        },
        Some(t1v) => {
            let i = choose|i: int|
                0 <= i < s1.len() && spec_h_hit_t(#[trigger] s1[i], ray, t0, t1) == Some(t1v);
            let h1 = s1[i];
            assert(s1.contains(h1));
            lemma_contains_transfer(s1, s2, h1);
            let i2 = choose|i2: int| 0 <= i2 < s2.len() && s2[i2] == h1;
            assert(0 <= i2 < s2.len() && s2[i2] == h1);
            match b2 {
                None => {
                    assert(spec_h_hit_t(s2[i2], ray, t0, t1) is None);
                },
                Some(t2v) => {
                    assert(t1v >= t2v);
                    let j = choose|j: int|
                        0 <= j < s2.len() && spec_h_hit_t(#[trigger] s2[j], ray, t0, t1) == Some(
                            t2v,
                        );
                    let h2 = s2[j];
                    assert(s2.contains(h2));
                    lemma_contains_transfer(s2, s1, h2);
                    let j1 = choose|j1: int| 0 <= j1 < s1.len() && s1[j1] == h2;
                    assert(spec_h_hit_t(s1[j1], ray, t0, t1) == Some(t2v));
                    assert(t2v >= t1v);
                },
            }
        },
    }
}

} // verus!
