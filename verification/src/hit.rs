//! What a ray can hit, and what is recorded where it does.
use crate::material::{Blank, Surface};
use crate::point3::Point3;
use crate::ray::Ray;
use crate::scalar::Fixed;
use crate::vec3::Vec3;
use core::ops::Neg;
use std::rc::Rc;
use vstd::prelude::*;

verus! {

/// The place where a ray meets a surface.
#[derive(Clone)]
pub struct Record {
    /// The point that was hit.
    pub p: Point3,
    /// The surface normal there, turned against the incoming ray.
    pub normal: Vec3,
    /// The material of the surface, shared with the object that was hit.
    pub mat: Rc<Surface>,
    /// The ray parameter of the hit.
    pub t: Fixed,
    /// Whether the ray came from outside, so that the outward normal already opposed it.
    pub front_face: bool,
}

impl Record {
    /// The record of a hit at `p` and parameter `t`, on a surface whose
    /// outward normal there is `outward`, by the ray `ray`.
    pub open spec fn spec_facing(
        p: Point3,
        outward: Vec3,
        mat: Rc<Surface>,
        t: Fixed,
        ray: Ray,
    ) -> Record {
        let front_face = ray.direction.spec_dot(outward).raw < 0;
        Record {
            p,
            normal: if front_face {
                outward
            } else {
                outward.spec_neg()
            },
            mat,
            t,
            front_face,
        }
    }

    /// This record with its normal and side set for the ray `ray` and the
    /// outward normal `outward`.
    pub open spec fn spec_with_face(self, ray: Ray, outward: Vec3) -> Record {
        Record::spec_facing(self.p, outward, self.mat, self.t, ray)
    }

    /// A record at the origin, of a surface that scatters nothing.
    pub fn new() -> (r: Record)
        ensures
            r.p == Point3::spec_zero(),
            r.normal == Vec3::spec_zero(),
            *r.mat == Surface::Blank(Blank {  }),
            r.t.raw == 0,
            !r.front_face,
    {
        Record {
            p: Point3::zero(),
            normal: Vec3::zero(),
            mat: Rc::new(Surface::Blank(Blank::new())),
            t: Fixed::zero(),
            front_face: false,
        }
    }

    /// Records on which side the ray `ray` met the surface, and turns the
    /// normal against it. The outward normal must have an opposite: no
    /// component of it is the least number of 64 bits.
    pub fn set_face_normal(&mut self, ray: &Ray, outward_normal: &Vec3)
        requires
            outward_normal.x.raw >= -crate::scalar::RAW_MAX,
            outward_normal.y.raw >= -crate::scalar::RAW_MAX,
            outward_normal.z.raw >= -crate::scalar::RAW_MAX,
        ensures
            *final(self) == old(self).spec_with_face(*ray, *outward_normal),
            ray.direction.spec_dot(final(self).normal).raw <= 0,
    {
        proof {
            crate::vec3::lemma_dot_neg(ray.direction, *outward_normal);
        }
        self.front_face = ray.direction.dot(*outward_normal).raw < 0;
        self.normal = if self.front_face {
            *outward_normal
        } else {
            (*outward_normal).neg()
        };
    }
}

impl Default for Record {
    fn default() -> (r: Record)
        ensures
            r.p == Point3::spec_zero(),
            r.normal == Vec3::spec_zero(),
            *r.mat == Surface::Blank(Blank {  }),
            r.t.raw == 0,
            !r.front_face,
    {
        Record::new()
    }
}

/// A hit, kept only if it lies before `bound`.
pub open spec fn before(found: Option<Record>, bound: Fixed) -> Option<Record> {
    match found {
        Some(rec) => if rec.t.raw < bound.raw {
            Some(rec)
        } else {
            None
        },
        None => None,
    }
}

/// The limit that a later object has to beat: the hit found so far, else `t_max`.
pub open spec fn limit(found: Option<Record>, t_max: Fixed) -> Fixed {
    match found {
        Some(rec) => rec.t,
        None => t_max,
    }
}

/// Something a ray can hit.
///
/// An implementation names its nearest hit in `(t_min, t_max)` and proves
/// two facts of it: the hit lies strictly inside the interval, and a smaller
/// upper limit changes nothing but to drop a hit that lies at or beyond it.
pub trait Hittable {
    /// The hit of `ray` that is reported for the open interval `(t_min, t_max)`.
    spec fn hit_spec(&self, ray: Ray, t_min: Fixed, t_max: Fixed) -> Option<Record>;

    /// A reported hit lies strictly inside the interval.
    proof fn hit_in_range(&self, ray: Ray, t_min: Fixed, t_max: Fixed)
        ensures
            self.hit_spec(ray, t_min, t_max) matches Some(rec) ==> t_min.raw < rec.t.raw
                < t_max.raw,
    ;

    /// Lowering the upper limit to `bound` keeps the hit if it lies before
    /// `bound` and reports none otherwise.
    proof fn hit_under_bound(&self, ray: Ray, t_min: Fixed, t_max: Fixed, bound: Fixed)
        requires
            bound.raw <= t_max.raw,
        ensures
            self.hit_spec(ray, t_min, bound) == before(self.hit_spec(ray, t_min, t_max), bound),
    ;

    /// The nearest hit of `ray` in `(t_min, t_max)`, if there is one.
    fn hit(&self, ray: &Ray, t_min: Fixed, t_max: Fixed) -> (r: Option<Record>)
        ensures
            r == self.hit_spec(*ray, t_min, t_max),
    ;
}

/// The hit that a sweep over `objects` in order reports: each object has to
/// beat the nearest hit found before it.
pub open spec fn nearest<H: Hittable>(
    objects: Seq<H>,
    ray: Ray,
    t_min: Fixed,
    t_max: Fixed,
) -> Option<Record>
    decreases objects.len(),
{
    if objects.len() == 0 {
        None
    } else {
        let found = nearest(objects.drop_last(), ray, t_min, t_max);
        match objects.last().hit_spec(ray, t_min, limit(found, t_max)) {
            Some(rec) => Some(rec),
            None => found,
        }
    }
}

/// The hit of a sweep lies strictly inside the interval.
pub proof fn lemma_nearest_in_range<H: Hittable>(
    objects: Seq<H>,
    ray: Ray,
    t_min: Fixed,
    t_max: Fixed,
)
    ensures
        nearest(objects, ray, t_min, t_max) matches Some(rec) ==> t_min.raw < rec.t.raw
            < t_max.raw,
    decreases objects.len(),
{
    if objects.len() > 0 {
        lemma_nearest_in_range(objects.drop_last(), ray, t_min, t_max);
        let found = nearest(objects.drop_last(), ray, t_min, t_max);
        objects.last().hit_in_range(ray, t_min, limit(found, t_max));
    }
}

/// No object of the scene is hit nearer than the hit of the sweep: where
/// object `i` alone would be hit in the interval, the sweep reports a hit
/// that is at least as near.
pub proof fn lemma_nearest_is_nearest<H: Hittable>(
    objects: Seq<H>,
    ray: Ray,
    t_min: Fixed,
    t_max: Fixed,
    i: int,
)
    requires
        0 <= i < objects.len(),
        objects[i].hit_spec(ray, t_min, t_max) is Some,
    ensures
        nearest(objects, ray, t_min, t_max) matches Some(rec) && rec.t.raw <= objects[i].hit_spec(
            ray,
            t_min,
            t_max,
        )->0.t.raw,
    decreases objects.len(),
{
    let rest = objects.drop_last();
    let found = nearest(rest, ray, t_min, t_max);
    let last = objects.last();
    lemma_nearest_in_range(rest, ray, t_min, t_max);
    last.hit_in_range(ray, t_min, limit(found, t_max));
    if i < objects.len() - 1 {
        assert(rest[i] == objects[i]);
        lemma_nearest_is_nearest(rest, ray, t_min, t_max, i);
    } else {
        last.hit_in_range(ray, t_min, t_max);
        last.hit_under_bound(ray, t_min, t_max, limit(found, t_max));
    }
}

/// The hit of a sweep is the hit of one of its objects.
pub proof fn lemma_nearest_is_member<H: Hittable>(
    objects: Seq<H>,
    ray: Ray,
    t_min: Fixed,
    t_max: Fixed,
) -> (i: int)
    requires
        nearest(objects, ray, t_min, t_max) is Some,
    ensures
        0 <= i < objects.len(),
        objects[i].hit_spec(ray, t_min, t_max) == nearest(objects, ray, t_min, t_max),
    decreases objects.len(),
{
    let rest = objects.drop_last();
    let found = nearest(rest, ray, t_min, t_max);
    let last = objects.last();
    lemma_nearest_in_range(rest, ray, t_min, t_max);
    if last.hit_spec(ray, t_min, limit(found, t_max)) is Some {
        last.hit_under_bound(ray, t_min, t_max, limit(found, t_max));
        objects.len() - 1
    } else {
        let i = lemma_nearest_is_member(rest, ray, t_min, t_max);
        assert(rest[i] == objects[i]);
        i
    }
}

/// A sweep reports no hit exactly when no object is hit in the interval.
pub proof fn lemma_nearest_none<H: Hittable>(
    objects: Seq<H>,
    ray: Ray,
    t_min: Fixed,
    t_max: Fixed,
)
    ensures
        nearest(objects, ray, t_min, t_max) is None <==> forall|i: int|
            0 <= i < objects.len() ==> (#[trigger] objects[i]).hit_spec(ray, t_min, t_max) is None,
{
    if nearest(objects, ray, t_min, t_max) is Some {
        let i = lemma_nearest_is_member(objects, ray, t_min, t_max);
        assert(objects[i].hit_spec(ray, t_min, t_max) is Some);
    } else {
        assert forall|i: int| 0 <= i < objects.len() implies (#[trigger] objects[i]).hit_spec(
            ray,
            t_min,
            t_max,
        ) is None by {
            if objects[i].hit_spec(ray, t_min, t_max) is Some {
                lemma_nearest_is_nearest(objects, ray, t_min, t_max, i);
            }
        }
    }
}

/// Lowering the upper limit of a sweep keeps its hit if it lies before the
/// new limit and reports none otherwise.
pub proof fn lemma_nearest_under_bound<H: Hittable>(
    objects: Seq<H>,
    ray: Ray,
    t_min: Fixed,
    t_max: Fixed,
    bound: Fixed,
)
    requires
        bound.raw <= t_max.raw,
    ensures
        nearest(objects, ray, t_min, bound) == before(
            nearest(objects, ray, t_min, t_max),
            bound,
        ),
    decreases objects.len(),
{
    if objects.len() > 0 {
        let rest = objects.drop_last();
        let last = objects.last();
        lemma_nearest_under_bound(rest, ray, t_min, t_max, bound);
        lemma_nearest_in_range(rest, ray, t_min, t_max);
        let wide = nearest(rest, ray, t_min, t_max);
        let narrow = nearest(rest, ray, t_min, bound);
        last.hit_in_range(ray, t_min, limit(wide, t_max));
        last.hit_in_range(ray, t_min, limit(narrow, bound));
        if narrow is None {
            last.hit_under_bound(ray, t_min, limit(wide, t_max), bound);
        }
    }
}

/// A scene: objects in the order in which they were added.
pub struct HittableObjects<H: Hittable> {
    pub objects: Vec<H>,
}

impl<H: Hittable> HittableObjects<H> {
    /// The empty scene.
    pub fn new() -> (r: Self)
        ensures
            r.objects@.len() == 0,
    {
        HittableObjects { objects: Vec::new() }
    }

    /// Removes every object.
    pub fn clear(&mut self)
        ensures
            final(self).objects@.len() == 0,
    {
        self.objects.clear();
    }

    /// Adds `h` behind the objects that are there.
    pub fn add(&mut self, h: H)
        ensures
            final(self).objects@ == old(self).objects@.push(h),
    {
        self.objects.push(h);
    }
}

impl<H: Hittable> Default for HittableObjects<H> {
    fn default() -> (r: Self)
        ensures
            r.objects@.len() == 0,
    {
        HittableObjects { objects: Vec::new() }
    }
}

impl<H: Hittable> Hittable for HittableObjects<H> {
    open spec fn hit_spec(&self, ray: Ray, t_min: Fixed, t_max: Fixed) -> Option<Record> {
        nearest(self.objects@, ray, t_min, t_max)
    }

    proof fn hit_in_range(&self, ray: Ray, t_min: Fixed, t_max: Fixed) {
        lemma_nearest_in_range(self.objects@, ray, t_min, t_max);
    }

    proof fn hit_under_bound(&self, ray: Ray, t_min: Fixed, t_max: Fixed, bound: Fixed) {
        lemma_nearest_under_bound(self.objects@, ray, t_min, t_max, bound);
    }

    fn hit(&self, ray: &Ray, t_min: Fixed, t_max: Fixed) -> (r: Option<Record>) {
        self.sweep(ray, t_min, t_max)
    }
}

impl<H: Hittable> HittableObjects<H> {
    /// The nearest hit of `ray` in `(t_min, t_max)` among all objects: each
    /// object in turn has to beat the nearest hit found before it.
    pub fn sweep(&self, ray: &Ray, t_min: Fixed, t_max: Fixed) -> (r: Option<Record>)
        ensures
            r == nearest(self.objects@, *ray, t_min, t_max),
    {
        let mut hit_record: Option<Record> = None;
        let mut closest_so_far = t_max;
        let mut i: usize = 0;
        while i < self.objects.len()
            invariant
                i <= self.objects@.len(),
                hit_record == nearest(self.objects@.take(i as int), *ray, t_min, t_max),
                closest_so_far == limit(hit_record, t_max),
            decreases self.objects@.len() - i,
        {
            proof {
                assert(self.objects@.take(i + 1).drop_last() =~= self.objects@.take(i as int));
            }
            match self.objects[i].hit(ray, t_min, closest_so_far) {
                Some(rec) => {
                    closest_so_far = rec.t;
                    hit_record = Some(rec);
                },
                None => {},
            }
            i = i + 1;
        }
        proof {
            assert(self.objects@.take(i as int) =~= self.objects@);
        }
        hit_record
    }
}

} // verus!
