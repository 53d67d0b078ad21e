//! The scene aggregate: an insertion-ordered list of spheres.
//!
//! `HitableList::hit` scans every member, shrinking the upper parametric
//! bound to the best hit found so far, and is proved to return the nearest
//! intersection over the whole list (and none exactly when no member
//! intersects).

use vstd::prelude::*;
use crate::fixed::SCALE;
use crate::ray::Ray;
use crate::ray::at_s;
use crate::sphere::HitRecord;
use crate::sphere::Sphere;
use crate::sphere::hit_time;
use crate::sphere::lemma_record_normal_props;
use crate::sphere::lemma_sphere_hit_narrow;
use crate::sphere::lemma_sphere_hit_record;
use crate::sphere::lemma_sphere_hit_range;
use crate::sphere::lemma_sphere_hit_widen;
use crate::sphere::spec_sphere_hit;

verus! {

pub struct HitableList {
    pub objects: Vec<Sphere>,
}

impl View for HitableList {
    type V = Seq<Sphere>;

    open spec fn view(&self) -> Seq<Sphere> {
        self.objects@
    }
}

/// The fold that the scan below computes: each member is queried with the
/// upper bound shrunk to the best `t` among the members before it.
pub open spec fn spec_list_hit(objs: Seq<Sphere>, r: Ray, t_min: i64, t_max: i64) -> Option<
    HitRecord,
>
    decreases objs.len(),
{
    if objs.len() == 0 {
        Option::None
    } else {
        let prev = spec_list_hit(objs.drop_last(), r, t_min, t_max);
        let bound = match prev {
            Option::Some(h) => h.t,
            Option::None => t_max,
        };
        match spec_sphere_hit(objs.last(), r, t_min, bound) {
            Option::Some(h2) => Option::Some(h2),
            Option::None => prev,
        }
    }
}

/// The fold returns the nearest hit: none exactly when no member hits inside
/// `[t_min, t_max]`, else a member's hit whose `t` is minimal among all
/// members' hits.
#[verifier::rlimit(100)]
pub proof fn lemma_list_hit_nearest(objs: Seq<Sphere>, r: Ray, t_min: i64, t_max: i64)
    ensures
        spec_list_hit(objs, r, t_min, t_max) is None ==> forall|i: int|
            0 <= i < objs.len() ==> spec_sphere_hit(objs[i], r, t_min, t_max) is None,
        spec_list_hit(objs, r, t_min, t_max) matches Some(h) ==> {
            &&& t_min as int <= h.t as int <= t_max as int
            &&& exists|i: int|
                0 <= i < objs.len() && spec_sphere_hit(objs[i], r, t_min, t_max) == Option::Some(h)
            &&& forall|i: int|
                0 <= i < objs.len() && spec_sphere_hit(objs[i], r, t_min, t_max) is Some
                    ==> h.t as int <= hit_time(spec_sphere_hit(objs[i], r, t_min, t_max))
        },
    decreases objs.len(),
{
    if objs.len() == 0 {
    } else {
        let prefix = objs.drop_last();
        lemma_list_hit_nearest(prefix, r, t_min, t_max);
        assert(forall|i: int| 0 <= i < prefix.len() ==> prefix[i] == objs[i]);
        let last = objs.last();
        let prev = spec_list_hit(prefix, r, t_min, t_max);
        let bound = match prev {
            Option::Some(h) => h.t,
            Option::None => t_max,
        };
        let lastres = spec_sphere_hit(last, r, t_min, bound);
        match lastres {
            Option::Some(h2) => {
                lemma_sphere_hit_range(last, r, t_min, bound);
                lemma_sphere_hit_widen(last, r, t_min, bound, t_max);
                assert(spec_sphere_hit(objs[objs.len() - 1], r, t_min, t_max) == Option::Some(h2));
                assert(spec_list_hit(objs, r, t_min, t_max) == Option::Some(h2));
                assert forall|i: int|
                    0 <= i < objs.len() && spec_sphere_hit(objs[i], r, t_min, t_max) is Some
                        implies h2.t as int <= hit_time(
                    spec_sphere_hit(objs[i], r, t_min, t_max),
                ) by {
                    if i < objs.len() - 1 {
                        assert(spec_sphere_hit(prefix[i], r, t_min, t_max) is Some);
                    }
                }
            },
            Option::None => {
                match prev {
                    Option::None => {
                        assert forall|i: int| 0 <= i < objs.len() implies spec_sphere_hit(
                            objs[i],
                            r,
                            t_min,
                            t_max,
                        ) is None by {
                            if i < objs.len() - 1 {
                                assert(spec_sphere_hit(prefix[i], r, t_min, t_max) is None);
                            }
                        }
                    },
                    Option::Some(hp) => {
                        assert forall|i: int|
                            0 <= i < objs.len() && spec_sphere_hit(objs[i], r, t_min, t_max)
                                is Some implies hp.t as int <= hit_time(
                            spec_sphere_hit(objs[i], r, t_min, t_max),
                        ) by {
                            if i < objs.len() - 1 {
                                assert(spec_sphere_hit(prefix[i], r, t_min, t_max) is Some);
                            } else {
                                // the last member: were its full-range hit at or
                                // nearer than `hp.t`, the bounded query would
                                // have found it too.
                                let full = spec_sphere_hit(last, r, t_min, t_max);
                                if hit_time(full) <= bound as int {
                                    lemma_sphere_hit_narrow(last, r, t_min, bound, t_max);
                                    assert(false);
                                }
                            }
                        }
                        let wit = choose|i: int|
                            0 <= i < prefix.len() && spec_sphere_hit(prefix[i], r, t_min, t_max)
                                == Option::Some(hp);
                        assert(spec_sphere_hit(objs[wit], r, t_min, t_max) == Option::Some(hp));
                    },
                }
            },
        }
    }
}

impl HitableList {
    pub fn new() -> (l: HitableList)
        ensures
            l@ == Seq::<Sphere>::empty(),
    {
        HitableList { objects: Vec::new() }
    }

    /// Append a sphere; members keep their insertion order.
    pub fn add(&mut self, object: &Sphere)
        ensures
            final(self)@ == old(self)@.push(*object),
    {
        self.objects.push(*object)
    }

    /// Nearest intersection of `r` across all members inside `[t_min,
    /// t_max]`: a linear scan that shrinks the upper bound to the best hit
    /// found so far.
    pub fn hit(&self, r: &Ray, t_min: i64, t_max: i64) -> (res: Option<HitRecord>)
        ensures
            res == spec_list_hit(self@, *r, t_min, t_max),
            res is None ==> forall|i: int|
                0 <= i < self@.len() ==> spec_sphere_hit(self@[i], *r, t_min, t_max) is None,
            res matches Some(h) ==> {
                &&& t_min as int <= h.t as int <= t_max as int
                &&& exists|i: int|
                    0 <= i < self@.len() && spec_sphere_hit(self@[i], *r, t_min, t_max)
                        == Option::Some(h)
                &&& forall|i: int|
                    0 <= i < self@.len() && spec_sphere_hit(self@[i], *r, t_min, t_max) is Some
                        ==> h.t as int <= hit_time(spec_sphere_hit(self@[i], *r, t_min, t_max))
                &&& h.p == at_s(*r, h.t)
                &&& -(SCALE as int) <= h.normal.x as int <= SCALE as int
                &&& -(SCALE as int) <= h.normal.y as int <= SCALE as int
                &&& -(SCALE as int) <= h.normal.z as int <= SCALE as int
            },
    {
        let mut record: Option<HitRecord> = Option::None;
        let mut idx: usize = 0;
        while idx < self.objects.len()
            invariant
                idx <= self.objects.len(),
                record == spec_list_hit(self@.subrange(0, idx as int), *r, t_min, t_max),
            decreases self.objects.len() - idx,
        {
            let closest_so_far: i64 = match record {
                Option::Some(h) => h.t,
                Option::None => t_max,
            };
            let res = self.objects[idx].hit(r, t_min, closest_so_far);
            if res.is_some() {
                record = res;
            }
            proof {
                let ext = self@.subrange(0, idx + 1);
                assert(ext.drop_last() =~= self@.subrange(0, idx as int));
                assert(ext.last() == self@[idx as int]);
            }
            idx = idx + 1;
        }
        proof {
            assert(self@.subrange(0, self@.len() as int) =~= self@);
            lemma_list_hit_nearest(self@, *r, t_min, t_max);
            match record {
                Option::Some(h) => {
                    let i = choose|i: int|
                        0 <= i < self@.len() && spec_sphere_hit(self@[i], *r, t_min, t_max)
                            == Option::Some(h);
                    lemma_sphere_hit_record(self@[i], *r, t_min, t_max);
                    lemma_record_normal_props(self@[i], *r, h.t);
                },
                Option::None => {},
            }
        }
        record
    }
}

} // verus!
