//! Scenes: the surfaces that a ray is tested against.

use crate::hittable::{Hittable, Intersection};
use crate::interval::Interval;
use crate::ray::Ray;
use vstd::prelude::*;

verus! {

/// The nearer of two intersections; the earlier one where they tie.
pub open spec fn nearer(earlier: Option<Intersection>, later: Option<Intersection>) -> Option<
    Intersection,
> {
    match (earlier, later) {
        (Some(e), Some(l)) => if l.t@ < e.t@ {
            Some(l)
        } else {
            Some(e)
        },
        (None, _) => later,
        (_, None) => earlier,
    }
}

/// The nearest of the intersections that the surfaces have with the ray,
/// each asked alone for the whole range; the first of them where several
/// are equally near.
pub open spec fn nearest<H: Hittable>(surfaces: Seq<H>, ray: Ray, ray_t: Interval) -> Option<
    Intersection,
>
    decreases surfaces.len(),
{
    if surfaces.len() == 0 {
        None
    } else {
        nearer(nearest(surfaces.drop_last(), ray, ray_t), surfaces.last().hit_spec(ray, ray_t))
    }
}

/// Whether surface `k` gives the nearest intersection: it has one, no
/// surface has a nearer one, and none before it has one as near.
pub open spec fn is_first_nearest<H: Hittable>(
    surfaces: Seq<H>,
    ray: Ray,
    ray_t: Interval,
    k: int,
) -> bool {
    &&& 0 <= k < surfaces.len()
    &&& surfaces[k].hit_spec(ray, ray_t) is Some
    &&& forall|j: int|
        0 <= j < surfaces.len() ==> (#[trigger] surfaces[j].hit_spec(ray, ray_t) matches Some(g)
            ==> g.t@ >= surfaces[k].hit_spec(ray, ray_t).unwrap().t@ && (j < k ==> g.t@
            > surfaces[k].hit_spec(ray, ray_t).unwrap().t@))
}

/// The surfaces of a scene, in the order in which they were added.
pub struct Scene<H: Hittable> {
    pub hittables: Vec<H>,
}

impl<H: Hittable> Scene<H> {
    /// Whether every surface is well formed.
    pub open spec fn wf(&self) -> bool {
        forall|i: int| 0 <= i < self.hittables@.len() ==> (#[trigger] self.hittables@[i]).wf()
    }

    /// The nearest intersection of the ray with any surface, strictly
    /// inside the range.
    pub open spec fn hit_spec(&self, ray: Ray, ray_t: Interval) -> Option<Intersection> {
        nearest(self.hittables@, ray, ray_t)
    }

    /// A scene without surfaces.
    pub fn new() -> (s: Scene<H>)
        ensures
            s.hittables@ == Seq::<H>::empty(),
            s.wf(),
    {
        Scene { hittables: Vec::new() }
    }

    /// Adds a surface.
    pub fn push(&mut self, obj: H)
        requires
            old(self).wf(),
            obj.wf(),
        ensures
            final(self).hittables@ == old(self).hittables@.push(obj),
            final(self).wf(),
    {
        self.hittables.push(obj);
    }

    /// Looks for the nearest intersection of the ray with any surface,
    /// strictly inside `ray_t`. Returns whether there is one; if so it is
    /// written to `intersection`, which is left alone otherwise.
    pub fn hit(&self, ray: &Ray, ray_t: &Interval, intersection: &mut Intersection) -> (hit: bool)
        requires
            self.wf(),
            ray.in_reach(),
        ensures
            hit == self.hit_spec(*ray, *ray_t).is_some(),
            hit ==> *final(intersection) == self.hit_spec(*ray, *ray_t).unwrap(),
            !hit ==> *final(intersection) == *old(intersection),
            hit ==> ray_t.surrounds_spec(final(intersection).t) && ray.direction.dot_spec(
                final(intersection).normal,
            )@ <= 0 && final(intersection).material.wf(),
    {
        proof {
            lemma_nearest_inside(self.hittables@, *ray, *ray_t);
        }
        let mut temp_record: Intersection = Intersection::default();
        let mut hit_anything: bool = false;
        let mut closest_so_far = ray_t.max;
        let mut i: usize = 0;
        while i < self.hittables.len()
            invariant
                i <= self.hittables.len(),
                self.wf(),
                ray.in_reach(),
                closest_so_far@ <= ray_t.max@,
                hit_anything == nearest(self.hittables@.take(i as int), *ray, *ray_t).is_some(),
                hit_anything ==> *intersection == nearest(
                    self.hittables@.take(i as int),
                    *ray,
                    *ray_t,
                ).unwrap() && closest_so_far == intersection.t,
                !hit_anything ==> *intersection == *old(intersection) && closest_so_far
                    == ray_t.max,
            decreases self.hittables.len() - i,
        {
            let hittable = &self.hittables[i];
            proof {
                let prefix = self.hittables@.take(i as int + 1);
                assert(prefix.drop_last() == self.hittables@.take(i as int));
                assert(prefix.last() == self.hittables@[i as int]);
                hittable.lemma_hit_inside(*ray, *ray_t);
                hittable.lemma_hit_narrowed(*ray, *ray_t, closest_so_far);
                hittable.lemma_hit_inside(*ray, Interval { min: ray_t.min, max: closest_so_far });
            }
            if hittable.hit(ray, Interval::new(ray_t.min, closest_so_far), &mut temp_record) {
                hit_anything = true;
                closest_so_far = temp_record.t;
                *intersection = temp_record;
            }
            i = i + 1;
        }
        proof {
            assert(self.hittables@.take(i as int) == self.hittables@);
        }
        hit_anything
    }
}

/// The nearest intersection lies strictly inside the range asked for, its
/// normal does not point along the ray, and its material is well formed.
pub proof fn lemma_nearest_inside<H: Hittable>(surfaces: Seq<H>, ray: Ray, ray_t: Interval)
    requires
        forall|i: int| 0 <= i < surfaces.len() ==> (#[trigger] surfaces[i]).wf(),
    ensures
        nearest(surfaces, ray, ray_t) matches Some(i) ==> ray_t.surrounds_spec(i.t)
            && ray.direction.dot_spec(i.normal)@ <= 0 && i.material.wf(),
    decreases surfaces.len(),
{
    if surfaces.len() > 0 {
        let front = surfaces.drop_last();
        assert(forall|j: int| 0 <= j < front.len() ==> front[j] == surfaces[j]);
        lemma_nearest_inside(front, ray, ray_t);
        surfaces.last().lemma_hit_inside(ray, ray_t);
    }
}

/// Testing a ray against a scene gives what testing it against each
/// surface alone and keeping the nearest intersection gives: none where no
/// surface has one, else that of the first surface whose intersection no
/// other undercuts.
pub proof fn lemma_nearest_is_first_minimum<H: Hittable>(surfaces: Seq<H>, ray: Ray, ray_t: Interval)
    ensures
        nearest(surfaces, ray, ray_t) is None <==> forall|j: int|
            0 <= j < surfaces.len() ==> #[trigger] surfaces[j].hit_spec(ray, ray_t) is None,
        nearest(surfaces, ray, ray_t) is Some ==> exists|k: int| #[trigger]
            is_first_nearest(surfaces, ray, ray_t, k) && nearest(surfaces, ray, ray_t)
                == surfaces[k].hit_spec(ray, ray_t),
    decreases surfaces.len(),
{
    if surfaces.len() > 0 {
        let front = surfaces.drop_last();
        let last = surfaces.len() - 1;
        lemma_nearest_is_first_minimum(front, ray, ray_t);
        assert(forall|j: int| 0 <= j < front.len() ==> front[j] == surfaces[j]);
        let before = nearest(front, ray, ray_t);
        let here = surfaces.last().hit_spec(ray, ray_t);
        if before is Some {
            let k = choose|k: int| #[trigger]
                is_first_nearest(front, ray, ray_t, k) && before == front[k].hit_spec(ray, ray_t);
            assert(front[k] == surfaces[k]);
            if here is Some && here.unwrap().t@ < before.unwrap().t@ {
                assert(is_first_nearest(surfaces, ray, ray_t, last));
            } else {
                assert(is_first_nearest(surfaces, ray, ray_t, k));
            }
        } else if here is Some {
            assert(is_first_nearest(surfaces, ray, ray_t, last));
        }
    }
}

} // verus!
