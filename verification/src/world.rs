//! A scene: shapes under one point light, answering colors along rays.

use vstd::prelude::*;
use vstd::seq_lib::{group_to_multiset_ensures, to_multiset_contains};
use vstd::multiset::Multiset;
use crate::fixed::SCALE;
use crate::color::{Color, C3, color_within};
use crate::tuple::{Tuple, v4_sub, v4_neg, v4_dot, within_units};
use crate::ray::{Ray, RayV, spec_position};
use crate::light::PointLight;
use crate::shape::{Shape, shape_ok, spec_material_of, normal_wf};
use crate::material::spec_lighting;
use crate::intersection::{
    Intersection, Intersections, spec_sphere_ts, spec_plane_t, cast_ok, spec_facing_normal,
};

verus! {

/// A scene-wide container: every shape, and the light that shades them.
#[derive(Debug)]
pub struct World {
    pub shapes: Vec<Shape>,
    pub light: PointLight,
}

/// Every shape well formed and within 100 world units of the origin; the
/// light within the scene scale.
pub open spec fn world_ok(w: &World) -> bool {
    (forall|k: int|
        0 <= k < w.shapes@.len() ==> shape_ok(#[trigger] w.shapes@[k]) && shape_near(
            w.shapes@[k],
        )) && within_units(w.light.position@, 500_000_000int) && color_within(
        w.light.intensity@,
        10_000_000int,
    )
}

/// Sphere centers within 100 world units, where ray casting is exact.
pub open spec fn shape_near(s: Shape) -> bool {
    match s {
        Shape::Sphere { center, .. } => within_units(center@, 100_000_000int),
        Shape::Plane { .. } => true,
    }
}

/// `i` records one of the distances at which `r` meets the shape `s`.
pub open spec fn shape_candidate(s: Shape, r: RayV, i: Intersection) -> bool {
    i.object == s && match s {
        Shape::Sphere { center, radius, .. } => match spec_sphere_ts(center@, radius as int, r) {
            None => false,
            Some(ts) => i.t as int == ts.0 || i.t as int == ts.1,
        },
        Shape::Plane { .. } => match spec_plane_t(r) {
            None => false,
            Some(t) => i.t as int == t,
        },
    }
}

/// `i` is a candidate hit of some shape of the scene along `r`.
pub open spec fn scene_candidate(w: &World, r: RayV, i: Intersection) -> bool {
    exists|j: int| 0 <= j < w.shapes@.len() && #[trigger] shape_candidate(w.shapes@[j], r, i)
}

/// `h` is the visible hit of the scene: a candidate, not behind the ray,
/// and no candidate in front of it.
pub open spec fn scene_hit(w: &World, r: RayV, h: Intersection) -> bool {
    scene_candidate(w, r, h) && h.t >= 0 && forall|i: Intersection|
        #[trigger] scene_candidate(w, r, i) && i.t >= 0 ==> h.t <= i.t
}

/// The ray escapes the scene: every candidate lies behind its origin.
pub open spec fn scene_misses(w: &World, r: RayV) -> bool {
    forall|i: Intersection| #[trigger] scene_candidate(w, r, i) ==> i.t < 0
}

/// What the visible hit `h` shades to, with no shadowing applied.
pub open spec fn spec_shade_hit(w: &World, r: RayV, h: Intersection) -> C3 {
    spec_lighting(
        spec_material_of(h.object),
        h.object,
        w.light,
        spec_position(r, h.t as int),
        v4_neg(r.direction),
        spec_facing_normal(h, r),
        false,
    )
}

/// A correct answer for the color along `r`: black when the ray escapes,
/// else the shading of a visible hit.
pub open spec fn spec_color_ok(w: &World, r: RayV, c: C3) -> bool {
    (scene_misses(w, r) && c == (C3 { r: 0int, g: 0int, b: 0int })) || (exists|h: Intersection|
        #[trigger] scene_hit(w, r, h) && c == spec_shade_hit(w, r, h))
}

/// The hit `h` lies within the scale the machine shades exactly: its
/// distance and world point within scene bounds, its normal defined, and
/// the light at least half a squared unit away from the point.
pub open spec fn hit_shadable(w: &World, r: RayV, h: Intersection) -> bool {
    &&& -1_000_000_000 <= h.t as int <= 1_000_000_000
    &&& within_units(spec_position(r, h.t as int), 500_000_000int)
    &&& normal_wf(h.object, spec_position(r, h.t as int))
    &&& v4_dot(
        v4_sub(w.light.position@, spec_position(r, h.t as int)),
        v4_sub(w.light.position@, spec_position(r, h.t as int)),
    ) >= SCALE as int / 4
}

/// The whole answer along `r` is owed: the ray is within casting scale
/// and every visible hit of the scene is shadable.
pub open spec fn ray_renderable(w: &World, r: RayV) -> bool {
    cast_ok_ray(r) && forall|h: Intersection|
        #[trigger] scene_hit(w, r, h) ==> hit_shadable(w, r, h)
}

impl World {
    pub fn new(shapes: Vec<Shape>, light: PointLight) -> (w: World)
        ensures
            w.shapes == shapes,
            w.light == light,
    {
        World { shapes, light }
    }

    /// The color seen along `ray`: the scene-wide intersections are
    /// gathered, the visible hit selected and shaded; black when the ray
    /// escapes. `None` when the ray or the hit falls outside the scale
    /// the fixed-point machine renders exactly.
    pub fn color_at(&self, ray: &Ray) -> (c: Option<Color>)
        requires
            world_ok(self),
        ensures
            c is Some ==> spec_color_ok(self, ray@, c->0@),
            ray_renderable(self, ray@) ==> c is Some,
            c is None ==> !cast_ok_ray(ray@) || exists|h: Intersection|
                #[trigger] scene_hit(self, ray@, h) && !hit_shadable(self, ray@, h),
    {
        broadcast use group_to_multiset_ensures;
        broadcast use vstd::multiset::group_multiset_axioms;

        if ray.origin.x < -100_000_000 || ray.origin.x > 100_000_000 || ray.origin.y
            < -100_000_000 || ray.origin.y > 100_000_000 || ray.origin.z < -100_000_000
            || ray.origin.z > 100_000_000 || ray.origin.w < -100_000_000 || ray.origin.w
            > 100_000_000 {
            return None;
        }
        if ray.direction.x < -10_000_000 || ray.direction.x > 10_000_000 || ray.direction.y
            < -10_000_000 || ray.direction.y > 10_000_000 || ray.direction.z < -10_000_000
            || ray.direction.z > 10_000_000 || ray.direction.w < -10_000_000 || ray.direction.w
            > 10_000_000 {
            return None;
        }
        if ray.direction.dot(&ray.direction) < 1 {
            return None;
        }
        let mut xs = Intersections::new(Vec::new());
        proof {
            assert(xs@.len() == xs@.to_multiset().len());
            assert(xs@.to_multiset().len() == Seq::<Intersection>::empty().to_multiset().len());
            assert(Seq::<Intersection>::empty().to_multiset() =~= Multiset::<Intersection>::empty());
            assert(xs@.len() == 0);
        }
        let mut k: usize = 0;
        while k < self.shapes.len()
            invariant
                world_ok(self),
                cast_ok_ray(ray@),
                k <= self.shapes@.len(),
                xs.wf(),
                forall|i: Intersection| #[trigger]
                    xs@.contains(i) ==> exists|j: int|
                        0 <= j < k && shape_candidate(self.shapes@[j], ray@, i),
                forall|i: Intersection, j: int|
                    0 <= j < k && #[trigger] shape_candidate(self.shapes@[j], ray@, i)
                        ==> xs@.contains(i),
            decreases self.shapes@.len() - k,
        {
            let s = self.shapes[k];
            let xsk = s.intersect(ray);
            let ghost pre = xs@;
            xs.extend(xsk);
            proof {
                assert forall|i: Intersection| #[trigger] xs@.contains(i) implies exists|j: int|
                    0 <= j < k + 1 && shape_candidate(self.shapes@[j], ray@, i) by {
                    to_multiset_contains(xs@, i);
                    to_multiset_contains(pre, i);
                    to_multiset_contains(xsk@, i);
                    assert(xs@.to_multiset().count(i) > 0);
                    if pre.to_multiset().count(i) > 0 {
                        assert(pre.contains(i));
                    } else {
                        assert(xsk@.to_multiset().count(i) > 0);
                        assert(xsk@.contains(i));
                        let idx = choose|idx: int|
                            0 <= idx < xsk@.len() && xsk@[idx] == i;
                        assert(shape_candidate(self.shapes@[k as int], ray@, i));
                    }
                }
                assert forall|i: Intersection, j: int|
                    0 <= j < k + 1 && #[trigger] shape_candidate(
                        self.shapes@[j],
                        ray@,
                        i,
                    ) implies xs@.contains(i) by {
                    to_multiset_contains(xs@, i);
                    to_multiset_contains(pre, i);
                    to_multiset_contains(xsk@, i);
                    if j < k {
                        assert(pre.contains(i));
                        assert(pre.to_multiset().count(i) > 0);
                        assert(xs@.to_multiset().count(i) > 0);
                    } else {
                        assert(i.object == self.shapes@[j]);
                        match self.shapes@[j] {
                            Shape::Sphere { center, radius, .. } => {
                                assert(xsk@.len() == 2);
                                if i.t as int == xsk@[0].t as int {
                                    assert(i == xsk@[0]);
                                    assert(xsk@.contains(i));
                                } else {
                                    assert(i == xsk@[1]);
                                    assert(xsk@.contains(i));
                                }
                            },
                            Shape::Plane { .. } => {
                                assert(i == xsk@[0]);
                                assert(xsk@.contains(i));
                            },
                        }
                        assert(xsk@.to_multiset().count(i) > 0);
                        assert(xs@.to_multiset().count(i) > 0);
                    }
                }
            }
            k = k + 1;
        }
        let hit = xs.hit();
        match hit {
            None => {
                proof {
                    assert forall|i: Intersection| #[trigger]
                        scene_candidate(self, ray@, i) implies i.t < 0 by {
                        assert(xs@.contains(i));
                        let idx = choose|idx: int| 0 <= idx < xs@.len() && xs@[idx] == i;
                    }
                }
                Some(Color::black())
            },
            Some(h) => {
                proof {
                    assert(scene_candidate(self, ray@, h));
                    assert forall|i: Intersection|
                        #[trigger] scene_candidate(self, ray@, i) && i.t >= 0 implies h.t
                        <= i.t by {
                        assert(xs@.contains(i));
                        let idx = choose|idx: int| 0 <= idx < xs@.len() && xs@[idx] == i;
                    }
                    assert(scene_hit(self, ray@, h));
                }
                self.shade(ray, h)
            },
        }
    }

    /// Shades one visible hit, checking that it lies within the scale the
    /// machine shades exactly.
    fn shade(&self, ray: &Ray, h: Intersection) -> (c: Option<Color>)
        requires
            world_ok(self),
            cast_ok_ray(ray@),
            scene_hit(self, ray@, h),
            scene_candidate(self, ray@, h),
        ensures
            c is Some ==> spec_color_ok(self, ray@, c->0@),
            c is Some <==> hit_shadable(self, ray@, h),
    {
        proof {
            let j = choose|j: int|
                0 <= j < self.shapes@.len() && shape_candidate(self.shapes@[j], ray@, h);
            assert(shape_ok(h.object));
        }
        if h.t < -1_000_000_000 || h.t > 1_000_000_000 {
            return None;
        }
        let point = ray.position(h.t);
        if point.x < -500_000_000 || point.x > 500_000_000 || point.y < -500_000_000 || point.y
            > 500_000_000 || point.z < -500_000_000 || point.z > 500_000_000 || point.w
            < -500_000_000 || point.w > 500_000_000 {
            return None;
        }
        if !h.object.normal_defined(&point) {
            return None;
        }
        let lv = self.light.position.minus(&point);
        if lv.dot(&lv) < SCALE / 4 {
            return None;
        }
        let comps = h.prepare_computations(ray);
        let m = comps.object.material();
        let shaded = m.lighting(
            &comps.object,
            &self.light,
            comps.point,
            comps.eyev,
            comps.normalv,
            false,
        );
        proof {
            assert(spec_shade_hit(self, ray@, h) == shaded@);
        }
        Some(shaded)
    }
}

/// Ray bounds under which scene-wide casting stays within the machine.
pub open spec fn cast_ok_ray(r: RayV) -> bool {
    within_units(r.origin, 100_000_000int) && within_units(r.direction, 10_000_000int) && v4_dot(
        r.direction,
        r.direction,
    ) >= 1
}

} // verus!
