//! Several surfaces taken as one.

use crate::ray::Ray;
use crate::surface::{RayIntersectionResult, Surface};
use vstd::prelude::*;

verus! {

/// A list of surfaces that belong to the caller. A ray meets the list
/// where it first meets one of them.
pub struct MultiSurface<'a> {
    surfaces: Vec<&'a dyn Surface>,
}

/// Whether `result` is a meeting ahead of the ray's start.
pub open spec fn is_ahead(result: RayIntersectionResult) -> bool {
    result matches RayIntersectionResult::Intersected { t, .. } && t@ > 0
}

/// Whether `result` is a meeting so far away that its distance went past
/// the end of the range.
pub open spec fn is_out_of_range(result: RayIntersectionResult) -> bool {
    result matches RayIntersectionResult::Intersected { t, .. } && t@ == i64::MAX
}

/// Whether `candidate` is to replace `best`: it lies ahead, and `best` is
/// no meeting or lies farther away.
pub open spec fn is_closer(best: RayIntersectionResult, candidate: RayIntersectionResult) -> bool {
    is_ahead(candidate) && match best {
        RayIntersectionResult::NoIntersection => true,
        RayIntersectionResult::Intersected { t, .. } => candidate->t@ < t@,
    }
}

/// The nearest of the meetings ahead among `results`, the first of them
/// where several are equally near; no meeting where none lies ahead.
pub open spec fn nearest(results: Seq<RayIntersectionResult>) -> RayIntersectionResult
    decreases results.len(),
{
    if results.len() == 0 {
        RayIntersectionResult::NoIntersection
    } else {
        let best: RayIntersectionResult = nearest(results.drop_last());
        if is_closer(best, results.last()) {
            results.last()
        } else {
            best
        }
    }
}

/// `nearest` picks a meeting ahead that no other meeting ahead beats, and
/// that none before it equals in distance; it picks nothing only where no
/// meeting lies ahead.
pub proof fn lemma_nearest(results: Seq<RayIntersectionResult>)
    ensures
        nearest(results) is NoIntersection <==> forall|i: int|
            0 <= i < results.len() ==> !is_ahead(#[trigger] results[i]),
        nearest(results) is Intersected ==> exists|j: int|
            0 <= j < results.len() && #[trigger] results[j] == nearest(results) && is_ahead(
                results[j],
            ) && forall|i: int|
                0 <= i < j && is_ahead(#[trigger] results[i]) ==> results[i]->t@ > results[j]->t@,
        forall|i: int|
            0 <= i < results.len() && is_ahead(#[trigger] results[i]) ==> nearest(results)->t@
                <= results[i]->t@,
    decreases results.len(),
{
    if results.len() > 0 {
        let front: Seq<RayIntersectionResult> = results.drop_last();
        lemma_nearest(front);
        assert(forall|i: int| 0 <= i < front.len() ==> front[i] == results[i]);
        let best: RayIntersectionResult = nearest(front);
        if is_closer(best, results.last()) {
            let j: int = results.len() - 1;
            assert(results[j] == nearest(results));
            assert forall|i: int| 0 <= i < j && is_ahead(#[trigger] results[i]) implies results[i]->t@
                > results[j]->t@ by {
                assert(front[i] == results[i]);
            }
        } else if best is Intersected {
            let j: int = choose|j: int|
                0 <= j < front.len() && #[trigger] front[j] == best && is_ahead(front[j])
                    && forall|i: int|
                    0 <= i < j && is_ahead(#[trigger] front[i]) ==> front[i]->t@ > front[j]->t@;
            assert(results[j] == nearest(results));
            assert forall|i: int| 0 <= i < j && is_ahead(#[trigger] results[i]) implies results[i]->t@
                > results[j]->t@ by {
                assert(front[i] == results[i]);
            }
        } else {
            assert(!is_ahead(results.last()));
            assert(results[results.len() - 1] == results.last());
        }
    }
}

impl<'a> MultiSurface<'a> {
    /// The surfaces, in the order in which they are tested.
    pub closed spec fn view(&self) -> Seq<&'a dyn Surface> {
        self.surfaces@
    }

    /// What `ray` meets on each of the surfaces.
    pub open spec fn hits(&self, ray: Ray) -> Seq<RayIntersectionResult> {
        Seq::new(self@.len(), |i: int| self@[i].hit(ray))
    }

    /// The list of `surfaces`.
    pub fn from(surfaces: Vec<&'a dyn Surface>) -> (r: MultiSurface<'a>)
        ensures
            r@ == surfaces@,
    {
        MultiSurface { surfaces }
    }

    /// The nearer of two results.
    fn closer(best: RayIntersectionResult, candidate: RayIntersectionResult) -> (r:
        RayIntersectionResult)
        ensures
            r == if is_closer(best, candidate) { candidate } else { best },
    {
        match candidate {
            RayIntersectionResult::Intersected { surface_material, surface_normal, t } => {
                if t.raw > 0 {
                    match best {
                        RayIntersectionResult::NoIntersection => candidate,
                        RayIntersectionResult::Intersected {
                            surface_material: _,
                            surface_normal: _,
                            t: least,
                        } => {
                            if t.raw < least.raw {
                                candidate
                            } else {
                                best
                            }
                        },
                    }
                } else {
                    best
                }
            },
            RayIntersectionResult::NoIntersection => best,
        }
    }
}

impl<'a> MultiSurface<'a> {
    /// The list answers with what one of its surfaces answers, and no
    /// surface is met ahead nearer than that. It answers with nothing only
    /// where no surface is met ahead, or the nearest lies out of range.
    pub proof fn lemma_closest_wins(&self, ray: Ray)
        ensures
            self.hit(ray) is Intersected ==> exists|j: int|
                0 <= j < self@.len() && #[trigger] self@[j].hit(ray) == self.hit(ray) && is_ahead(
                    self.hit(ray),
                ),
            self.hit(ray) is Intersected ==> forall|i: int|
                0 <= i < self@.len() && is_ahead(#[trigger] self@[i].hit(ray)) ==> self.hit(ray)->t@
                    <= self@[i].hit(ray)->t@,
            self.hit(ray) is NoIntersection <==> is_out_of_range(nearest(self.hits(ray)))
                || forall|i: int| 0 <= i < self@.len() ==> !is_ahead(#[trigger] self@[i].hit(ray)),
    {
        let results: Seq<RayIntersectionResult> = self.hits(ray);
        lemma_nearest(results);
        assert forall|i: int|
            0 <= i < self@.len() && is_ahead(#[trigger] self@[i].hit(ray)) implies nearest(
            results,
        )->t@ <= self@[i].hit(ray)->t@ && nearest(results) is Intersected by {
            assert(results[i] == self@[i].hit(ray));
        }
        if nearest(results) is NoIntersection {
            assert forall|i: int| 0 <= i < self@.len() implies !is_ahead(
                #[trigger] self@[i].hit(ray),
            ) by {
                assert(results[i] == self@[i].hit(ray));
            }
        }
        if self.hit(ray) is Intersected {
            let j: int = choose|j: int|
                0 <= j < results.len() && #[trigger] results[j] == nearest(results) && is_ahead(
                    results[j],
                );
            assert(self@[j].hit(ray) == self.hit(ray));
        }
        if forall|i: int| 0 <= i < self@.len() ==> !is_ahead(#[trigger] self@[i].hit(ray)) {
            assert forall|i: int| 0 <= i < results.len() implies !is_ahead(
                #[trigger] results[i],
            ) by {
                assert(results[i] == self@[i].hit(ray));
            }
        }
    }
}

impl<'a> Surface for MultiSurface<'a> {
    /// The nearest meeting ahead over all the surfaces, unless its distance
    /// went past the end of the range.
    open spec fn hit(&self, ray: Ray) -> RayIntersectionResult {
        if is_out_of_range(nearest(self.hits(ray))) {
            RayIntersectionResult::NoIntersection
        } else {
            nearest(self.hits(ray))
        }
    }

    fn intersect_with_ray(&self, ray: Ray) -> (r: RayIntersectionResult) {
        let mut best: RayIntersectionResult = RayIntersectionResult::NoIntersection;
        let mut i: usize = 0;
        while i < self.surfaces.len()
            invariant
                i <= self.surfaces.len(),
                best == nearest(self.hits(ray).take(i as int)),
            decreases self.surfaces.len() - i,
        {
            let candidate: RayIntersectionResult = self.surfaces[i].intersect_with_ray(ray);
            proof {
                assert(self.hits(ray).take(i + 1).drop_last() =~= self.hits(ray).take(i as int));
            }
            best = MultiSurface::closer(best, candidate);
            i = i + 1;
        }
        proof {
            assert(self.hits(ray).take(self.surfaces.len() as int) =~= self.hits(ray));
        }
        match best {
            RayIntersectionResult::Intersected { surface_material: _, surface_normal: _, t } => {
                if t.raw == i64::MAX {
                    RayIntersectionResult::NoIntersection
                } else {
                    best
                }
            },
            RayIntersectionResult::NoIntersection => best,
        }
    }
}

} // verus!
