//! Axis-aligned bounding boxes.
//!
//! The hit test decides, exactly, whether some integer ray parameter `t`
//! strictly inside the query interval places the ray within the box.  Because
//! the decision is exact, pruning a bounding-volume hierarchy with it can be
//! proved to never change the reported intersection.

use crate::fixed::{lemma_mul_le, lemma_mul_ge};
use crate::ray::Ray;
use crate::vec3::{v_fits, vec3i, Vec3};
use vstd::prelude::*;

verus! {

#[derive(Clone, Copy, PartialEq, Eq, Structural, Debug)]
pub struct Aabb {
    pub minimum: Vec3,
    pub maximum: Vec3,
}

impl Aabb {
    /// Minimum at most maximum, componentwise.
    pub open spec fn wf(self) -> bool {
        &&& self.minimum.x <= self.maximum.x
        &&& self.minimum.y <= self.maximum.y
        &&& self.minimum.z <= self.maximum.z
    }

    pub open spec fn fits(self) -> bool {
        v_fits(self.minimum) && v_fits(self.maximum)
    }

    pub fn new(minimum: Vec3, maximum: Vec3) -> (r: Aabb)
        ensures
            r == (Aabb { minimum, maximum }),
    {
        Aabb { minimum, maximum }
    }

    pub fn min(&self) -> (r: Vec3)
        ensures
            r == self.minimum,
    {
        self.minimum
    }

    pub fn max(&self) -> (r: Vec3)
        ensures
            r == self.maximum,
    {
        self.maximum
    }

    /// Exact slab test; see `spec_box_hit`.
    pub fn hit(&self, r: &Ray, t_start: i64, t_end: i64) -> (res: bool)
        requires
            self.fits(),
            v_fits(r.orig),
            v_fits(r.dir),
        ensures
            res == spec_box_hit(*self, r.orig, r.dir, t_start as int, t_end as int),
    {
        let (ex, lox, hix) = axis_span(self.minimum.x, self.maximum.x, r.orig.x, r.dir.x);
        let (ey, loy, hiy) = axis_span(self.minimum.y, self.maximum.y, r.orig.y, r.dir.y);
        let (ez, loz, hiz) = axis_span(self.minimum.z, self.maximum.z, r.orig.z, r.dir.z);
        if ex || ey || ez {
            proof {
                assert forall|t: int| !(t_start < t < t_end && in_slab(*self, r.orig, r.dir, t))
                    by {}
            }
            return false;
        }
        let mut lo: i128 = t_start as i128 + 1;
        if lox > lo {
            lo = lox;
        }
        if loy > lo {
            lo = loy;
        }
        if loz > lo {
            lo = loz;
        }
        let mut hi: i128 = t_end as i128 - 1;
        if hix < hi {
            hi = hix;
        }
        if hiy < hi {
            hi = hiy;
        }
        if hiz < hi {
            hi = hiz;
        }
        if lo <= hi {
            proof {
                assert(t_start < lo < t_end && in_slab(*self, r.orig, r.dir, lo as int));
            }
            true
        } else {
            proof {
                assert forall|t: int| !(t_start < t < t_end && in_slab(*self, r.orig, r.dir, t))
                    by {}
            }
            false
        }
    }

    /// The componentwise union of two boxes.
    pub fn surrounding_box(box0: Aabb, box1: Aabb) -> (r: Aabb)
        ensures
            r == spec_union(box0, box1),
    {
        Aabb {
            minimum: Vec3 {
                x: if box0.minimum.x < box1.minimum.x {
                    box0.minimum.x
                } else {
                    box1.minimum.x
                },
                y: if box0.minimum.y < box1.minimum.y {
                    box0.minimum.y
                } else {
                    box1.minimum.y
                },
                z: if box0.minimum.z < box1.minimum.z {
                    box0.minimum.z
                } else {
                    box1.minimum.z
                },
            },
            maximum: Vec3 {
                x: if box0.maximum.x > box1.maximum.x {
                    box0.maximum.x
                } else {
                    box1.maximum.x
                },
                y: if box0.maximum.y > box1.maximum.y {
                    box0.maximum.y
                } else {
                    box1.maximum.y
                },
                z: if box0.maximum.z > box1.maximum.z {
                    box0.maximum.z
                } else {
                    box1.maximum.z
                },
            },
        }
    }
}

/// One component of the slab test: `o + t*d` stays between `mn` and `mx`,
/// stated exactly at scale `SCALE^2` (so no rounding is involved).
pub open spec fn slab_axis(mn: int, mx: int, o: int, d: int, t: int) -> bool {
    mn * 65536 <= o * 65536 + t * d <= mx * 65536
}

/// The ray position at integer parameter `t` lies inside the box.
pub open spec fn in_slab(b: Aabb, orig: Vec3, dir: Vec3, t: int) -> bool {
    &&& slab_axis(b.minimum.x as int, b.maximum.x as int, orig.x as int, dir.x as int, t)
    &&& slab_axis(b.minimum.y as int, b.maximum.y as int, orig.y as int, dir.y as int, t)
    &&& slab_axis(b.minimum.z as int, b.maximum.z as int, orig.z as int, dir.z as int, t)
}

/// Some integer parameter strictly inside `(t0, t1)` places the ray inside
/// the box.
pub open spec fn spec_box_hit(b: Aabb, orig: Vec3, dir: Vec3, t0: int, t1: int) -> bool {
    exists|t: int| t0 < t < t1 && in_slab(b, orig, dir, t)
}

/// One axis of the slab test: the integer parameters `t` that keep
/// `o + t*d` between `mn` and `mx` form the interval `[lo, hi]` (when
/// `empty` is false), or there are none (when `empty` is true).
fn axis_span(mn: i64, mx: i64, o: i64, d: i64) -> (r: (bool, i128, i128))
    requires
        crate::fixed::fits(mn as int),
        crate::fixed::fits(mx as int),
        crate::fixed::fits(o as int),
        crate::fixed::fits(d as int),
    ensures
        ({
            let (empty, lo, hi) = r;
            &&& forall|t: int|
                -0x1_0000_0000_0000_0000 <= t <= 0x1_0000_0000_0000_0000 ==> (slab_axis(
                    mn as int,
                    mx as int,
                    o as int,
                    d as int,
                    t,
                ) <==> (!empty && lo <= t <= hi))
        }),
{
    let a: i128 = (mn as i128 - o as i128) * 65536;
    let b: i128 = (mx as i128 - o as i128) * 65536;
    if d == 0 {
        if mn <= o && o <= mx {
            (false, -0x1_0000_0000_0000_0000i128, 0x1_0000_0000_0000_0000i128)
        } else {
            proof {
                assert forall|t: int| !slab_axis(mn as int, mx as int, o as int, d as int, t)
                    by {}
            }
            (true, 1, 0)
        }
    } else if d > 0 {
        let lo = crate::fixed::div_ceil(a, d as i128);
        let hi = crate::fixed::div_floor(b, d as i128);
        proof {
            assert forall|t: int|
                -0x1_0000_0000_0000_0000 <= t <= 0x1_0000_0000_0000_0000 implies (slab_axis(
                mn as int,
                mx as int,
                o as int,
                d as int,
                t,
            ) <==> (lo <= t <= hi)) by {
                lemma_mul_ge(t, a as int, d as int);
                lemma_mul_le(t, b as int, d as int);
            }
        }
        (false, lo, hi)
    } else {
        let e: i128 = -(d as i128);
        let lo = crate::fixed::div_ceil(-b, e);
        let hi = crate::fixed::div_floor(-a, e);
        proof {
            assert forall|t: int|
                -0x1_0000_0000_0000_0000 <= t <= 0x1_0000_0000_0000_0000 implies (slab_axis(
                mn as int,
                mx as int,
                o as int,
                d as int,
                t,
            ) <==> (lo <= t <= hi)) by {
                lemma_mul_ge(t, -(b as int), e as int);
                lemma_mul_le(t, -(a as int), e as int);
                assert(t * (e as int) == -(t * (d as int))) by (nonlinear_arith)
                    requires
                        e as int == -(d as int),
                ;
            }
        }
        (false, lo, hi)
    }
}

/// `outer` contains `inner` componentwise.
pub open spec fn contains(outer: Aabb, inner: Aabb) -> bool {
    &&& outer.minimum.x <= inner.minimum.x && inner.maximum.x <= outer.maximum.x
    &&& outer.minimum.y <= inner.minimum.y && inner.maximum.y <= outer.maximum.y
    &&& outer.minimum.z <= inner.minimum.z && inner.maximum.z <= outer.maximum.z
}

pub open spec fn spec_union(a: Aabb, b: Aabb) -> Aabb {
    Aabb {
        minimum: vec3i(
            if a.minimum.x < b.minimum.x {
                a.minimum.x as int
            } else {
                b.minimum.x as int
            },
            if a.minimum.y < b.minimum.y {
                a.minimum.y as int
            } else {
                b.minimum.y as int
            },
            if a.minimum.z < b.minimum.z {
                a.minimum.z as int
            } else {
                b.minimum.z as int
            },
        ),
        maximum: vec3i(
            if a.maximum.x > b.maximum.x {
                a.maximum.x as int
            } else {
                b.maximum.x as int
            },
            if a.maximum.y > b.maximum.y {
                a.maximum.y as int
            } else {
                b.maximum.y as int
            },
            if a.maximum.z > b.maximum.z {
                a.maximum.z as int
            } else {
                b.maximum.z as int
            },
        ),
    }
}

/// The union of a box with itself is the box: one half of the stated
/// algebraic laws of `surrounding_box`.
pub proof fn lemma_union_idempotent(a: Aabb)
    ensures
        spec_union(a, a) == a,
{
}

/// The union contains both operands: `surrounding_box` is monotonic.
pub proof fn lemma_union_contains(a: Aabb, b: Aabb)
    ensures
        contains(spec_union(a, b), a),
        contains(spec_union(a, b), b),
{
}

/// The union is commutative.
pub proof fn lemma_union_commutes(a: Aabb, b: Aabb)
    ensures
        spec_union(a, b) == spec_union(b, a),
{
}

/// The union of two boxes that fit the coordinate range fits it too.
pub proof fn lemma_union_fits(a: Aabb, b: Aabb)
    requires
        a.fits(),
        b.fits(),
    ensures
        spec_union(a, b).fits(),
{
}

/// A parameter placing the ray inside an inner box places it inside any box
/// containing it.
pub proof fn lemma_contains_slab(outer: Aabb, inner: Aabb, orig: Vec3, dir: Vec3, t: int)
    requires
        contains(outer, inner),
        in_slab(inner, orig, dir, t),
    ensures
        in_slab(outer, orig, dir, t),
{
}

/// A point inside an inner box is inside any box containing it, so a box hit
/// of the inner box is a box hit of the outer one.
pub proof fn lemma_box_hit_monotone(
    outer: Aabb,
    inner: Aabb,
    orig: Vec3,
    dir: Vec3,
    t0: int,
    t1: int,
)
    requires
        contains(outer, inner),
        spec_box_hit(inner, orig, dir, t0, t1),
    ensures
        spec_box_hit(outer, orig, dir, t0, t1),
{
    let t = choose|t: int| t0 < t < t1 && in_slab(inner, orig, dir, t);
    assert(in_slab(outer, orig, dir, t));
}

/// A known in-slab parameter strictly inside the interval witnesses the box
/// hit.
pub proof fn lemma_box_hit_witness(b: Aabb, orig: Vec3, dir: Vec3, t0: int, t1: int, t: int)
    requires
        t0 < t < t1,
        in_slab(b, orig, dir, t),
    ensures
        spec_box_hit(b, orig, dir, t0, t1),
{
}

} // verus!
