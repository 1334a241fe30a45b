//! The flat aggregate: a list of surfaces scanned in order, shrinking the
//! interval to the closest hit found so far.

use crate::aabb::{spec_union, Aabb};
use crate::hittable::{
    h_range_ok, h_time_ok, h_wf, lemma_h_hit_narrow, rec_wf, spec_h_box, spec_h_hit_t, HitRecord,
    Hittable,
};
use crate::ray::Ray;
use crate::vec3::v_fits;
use vstd::prelude::*;

verus! {

pub struct HittableList {
    pub objects: Vec<Hittable>,
}

/// Every surface of the sequence is valid.
pub open spec fn list_wf(objs: Seq<Hittable>) -> bool {
    forall|i: int| 0 <= i < objs.len() ==> h_wf(#[trigger] objs[i])
}

/// Every surface can answer at this ray time.
pub open spec fn list_time_ok(objs: Seq<Hittable>, time: int) -> bool {
    forall|i: int| 0 <= i < objs.len() ==> h_time_ok(#[trigger] objs[i], time)
}

/// Every surface can report a box over this span.
pub open spec fn list_range_ok(objs: Seq<Hittable>, time0: int, time1: int) -> bool {
    forall|i: int| 0 <= i < objs.len() ==> h_range_ok(#[trigger] objs[i], time0, time1)
}

/// The nearest hit parameter over a sequence of surfaces, each queried on
/// the full interval; an earlier surface wins ties.
pub open spec fn spec_best(objs: Seq<Hittable>, ray: Ray, t0: int, t1: int) -> Option<int>
    decreases objs.len(),
{
    if objs.len() == 0 {
        None
    } else {
        let prev = spec_best(objs.drop_last(), ray, t0, t1);
        match spec_h_hit_t(objs.last(), ray, t0, t1) {
            Some(t) => match prev {
                Some(tp) => if t < tp {
                    Some(t)
                } else {
                    Some(tp)
                },
                None => Some(t),
            },
            None => prev,
        }
    }
}

/// The union of all surface boxes, or none for an empty aggregate.
pub open spec fn spec_list_box(objs: Seq<Hittable>, time0: int, time1: int) -> Option<Aabb>
    decreases objs.len(),
{
    if objs.len() == 0 {
        None
    } else {
        let b = spec_h_box(objs.last(), time0, time1);
        match spec_list_box(objs.drop_last(), time0, time1) {
            Some(prev) => Some(spec_union(prev, b)),
            None => Some(b),
        }
    }
}

impl HittableList {
    pub fn new() -> (r: HittableList)
        ensures
            r.objects@ == Seq::<Hittable>::empty(),
    {
        HittableList { objects: Vec::new() }
    }

    pub fn add(&mut self, obj: Hittable)
        ensures
            final(self).objects@ == old(self).objects@.push(obj),
    {
        self.objects.push(obj);
    }

    /// The nearest hit over all surfaces: scanning left to right with the
    /// upper bound shrunk to the best parameter so far returns exactly
    /// `spec_best` of the whole sequence on the original interval.
    pub fn hit(&self, r: &Ray, t_min: i64, t_max: i64) -> (res: Option<HitRecord>)
        requires
            list_wf(self.objects@),
            list_time_ok(self.objects@, r.time as int),
            v_fits(r.orig),
            v_fits(r.dir),
        ensures
            res is Some <==> spec_best(self.objects@, *r, t_min as int, t_max as int) is Some,
            res matches Some(rec) ==> {
                &&& spec_best(self.objects@, *r, t_min as int, t_max as int) == Some(
                    rec.t as int,
                )
                &&& t_min < rec.t < t_max
                &&& rec_wf(rec)
            },
    {
        let ghost all = self.objects@;
        let mut closest: i64 = t_max;
        let mut best: Option<HitRecord> = None;
        let n = self.objects.len();
        let mut i: usize = 0;
        while i < n
            invariant
                n == all.len(),
                i <= n,
                self.objects@ == all,
                list_wf(all),
                list_time_ok(all, r.time as int),
                v_fits(r.orig),
                v_fits(r.dir),
                closest <= t_max,
                match spec_best(all.take(i as int), *r, t_min as int, t_max as int) {
                    None => best is None && closest == t_max,
                    Some(t) => {
                        &&& best matches Some(rec) && rec.t == t && closest == rec.t
                        &&& t_min < t < t_max
                        &&& best matches Some(rec) ==> rec_wf(rec)
                    },
                },
            decreases n - i,
        {
            let h = &self.objects[i];
            let sub = h.hit(r, t_min, closest);
            proof {
                lemma_h_hit_narrow(all[i as int], *r, t_min as int, t_max as int, closest as int);
                assert(all.take(i as int + 1).drop_last() =~= all.take(i as int));
                assert(all.take(i as int + 1).last() == all[i as int]);
            }
            match sub {
                Some(rec) => {
                    closest = rec.t;
                    best = Some(rec);
                },
                None => {},
            }
            i = i + 1;
        }
        proof {
            assert(all.take(n as int) =~= all);
        }
        best
    }

    /// The union of all member boxes, or none for an empty list.
    pub fn bounding_box(&self, time0: i64, time1: i64) -> (res: Option<Aabb>)
        requires
            list_wf(self.objects@),
            list_range_ok(self.objects@, time0 as int, time1 as int),
            time0 <= time1,
        ensures
            res == spec_list_box(self.objects@, time0 as int, time1 as int),
    {
        let ghost all = self.objects@;
        let n = self.objects.len();
        let mut res: Option<Aabb> = None;
        let mut i: usize = 0;
        while i < n
            invariant
                n == all.len(),
                i <= n,
                self.objects@ == all,
                list_wf(all),
                list_range_ok(all, time0 as int, time1 as int),
                time0 <= time1,
                res == spec_list_box(all.take(i as int), time0 as int, time1 as int),
            decreases n - i,
        {
            let b = self.objects[i].box_for(time0, time1);
            proof {
                assert(all.take(i as int + 1).drop_last() =~= all.take(i as int));
                assert(all.take(i as int + 1).last() == all[i as int]);
            }
            res = match res {
                Some(prev) => Some(Aabb::surrounding_box(prev, b)),
                None => Some(b),
            };
            i = i + 1;
        }
        proof {
            assert(all.take(n as int) =~= all);
        }
        res
    }
}

/// Narrowing the upper bound filters the best hit of a whole sequence, as it
/// does each surface's.
pub proof fn lemma_best_narrow(objs: Seq<Hittable>, ray: Ray, t0: int, t1: int, t1p: int)
    requires
        t1p <= t1,
    ensures
        match spec_best(objs, ray, t0, t1) {
            Some(t) => spec_best(objs, ray, t0, t1p) == (if t < t1p {
                Some(t)
            } else {
                None
            }),
            None => spec_best(objs, ray, t0, t1p) is None,
        },
    decreases objs.len(),
{
    if objs.len() > 0 {
        lemma_best_narrow(objs.drop_last(), ray, t0, t1, t1p);
        lemma_h_hit_narrow(objs.last(), ray, t0, t1, t1p);
    }
}

/// The best hit over a concatenation combines the two halves' best hits,
/// the left half winning ties.
pub proof fn lemma_best_append(l: Seq<Hittable>, s: Seq<Hittable>, ray: Ray, t0: int, t1: int)
    ensures
        spec_best(l + s, ray, t0, t1) == combine_hits(
            spec_best(l, ray, t0, t1),
            spec_best(s, ray, t0, t1),
        ),
    decreases s.len(),
{
    if s.len() == 0 {
        assert(l + s =~= l);
    } else {
        lemma_best_append(l, s.drop_last(), ray, t0, t1);
        assert((l + s).drop_last() =~= l + s.drop_last());
        assert((l + s).last() == s.last());
    }
}

/// Merge two best hits: the right operand wins only when strictly closer.
pub open spec fn combine_hits(a: Option<int>, b: Option<int>) -> Option<int> {
    match b {
        Some(tb) => match a {
            Some(ta) => if tb < ta {
                Some(tb)
            } else {
                Some(ta)
            },
            None => Some(tb),
        },
        None => a,
    }
}

} // verus!
