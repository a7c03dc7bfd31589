use tracer_core::color::Color;
use tracer_core::fixed::{EPSILON, SCALE};
use tracer_core::intersection::{Intersection, Intersections};
use tracer_core::light::PointLight;
use tracer_core::ray::Ray;
use tracer_core::shape::Shape;
use tracer_core::tuple::Tuple;

fn fx(v: f64) -> i64 {
    (v * 1_000_000.0).round() as i64
}

fn approx(a: i64, expected: f64) -> bool {
    (a - fx(expected)).abs() <= 100
}

fn approx_tuple(t: Tuple, x: f64, y: f64, z: f64) -> bool {
    approx(t.x, x) && approx(t.y, y) && approx(t.z, z)
}

#[test]
fn point_light_has_position_and_intensity() {
    let intensity = Color::white();
    let position = Tuple::point(0, 0, 0);
    let light = PointLight::new(position, intensity);

    assert_eq!(light.position, position);
    assert_eq!(light.intensity, intensity);
}

#[test]
fn intersection_encapsulates_t_and_object() {
    let s = Shape::unit_sphere();
    let i = Intersection::new(fx(3.5), s);

    assert_eq!(i.t, fx(3.5));
    assert_eq!(i.object, s);
}

#[test]
fn aggregate_intersections() {
    let s = Shape::unit_sphere();
    let i1 = Intersection::new(fx(1.0), s);
    let i2 = Intersection::new(fx(2.0), s);
    let xs = Intersections::new(vec![i1, i2]);

    assert_eq!(2, xs.len());
    assert_eq!(fx(1.0), xs.get(0).t);
    assert_eq!(fx(2.0), xs.get(1).t);
}

#[test]
fn aggregate_intersections_with_add() {
    let s = Shape::unit_sphere();
    let i1 = Intersection::new(fx(1.0), s);
    let i2 = Intersection::new(fx(2.0), s);
    let i3 = Intersection::new(fx(3.0), s);
    let i4 = Intersection::new(fx(4.0), s);
    let xs = Intersections::new(vec![i1, i2, i3, i4]);

    assert_eq!(4, xs.len());
    assert_eq!(fx(1.0), xs.get(0).t);
    assert_eq!(fx(2.0), xs.get(1).t);
    assert_eq!(fx(3.0), xs.get(2).t);
    assert_eq!(fx(4.0), xs.get(3).t);
}

#[test]
fn intersect_sets_object_on_intersection() {
    let r = Ray::new(Tuple::point(0, 0, fx(-5.0)), Tuple::vector(0, 0, fx(1.0)));
    let s = Shape::unit_sphere();
    let xs = s.intersect(&r);

    assert_eq!(2, xs.len());
    assert_eq!(xs.get(0).object, s);
    assert_eq!(xs.get(1).object, s);
}

#[test]
fn hit_all_intersections_positive_t() {
    let s = Shape::unit_sphere();
    let i1 = Intersection::new(fx(1.0), s);
    let i2 = Intersection::new(fx(2.0), s);
    let xs = Intersections::new(vec![i2, i1]);
    let i = xs.hit().unwrap();

    assert_eq!(i, i1);
}

#[test]
fn hit_some_intersections_negative_t() {
    let s = Shape::unit_sphere();
    let i1 = Intersection::new(fx(-1.0), s);
    let i2 = Intersection::new(fx(1.0), s);
    let xs = Intersections::new(vec![i2, i1]);
    let i = xs.hit().unwrap();

    assert_eq!(i, i2);
}

#[test]
fn hit_all_intersections_negative_t() {
    let s = Shape::unit_sphere();
    let i1 = Intersection::new(fx(-2.0), s);
    let i2 = Intersection::new(fx(-1.0), s);
    let xs = Intersections::new(vec![i2, i1]);
    let i = xs.hit();

    assert_eq!(i, None);
}

#[test]
fn hit_lowest_non_negative_intersection() {
    let s = Shape::unit_sphere();
    let i1 = Intersection::new(fx(5.0), s);
    let i2 = Intersection::new(fx(7.0), s);
    let i3 = Intersection::new(fx(-3.0), s);
    let i4 = Intersection::new(fx(2.0), s);
    let xs = Intersections::new(vec![i1, i2, i3, i4]);
    let i = xs.hit().unwrap();

    assert_eq!(i, i4);
}

#[test]
fn extend_intersections_gets_union() {
    let s1 = Shape::unit_sphere();
    let i1 = Intersection::new(fx(5.0), s1);
    let i2 = Intersection::new(fx(7.0), s1);
    let i3 = Intersection::new(fx(-3.0), s1);
    let i4 = Intersection::new(fx(2.0), s1);
    let mut xs1 = Intersections::new(vec![i1, i2, i3, i4]);

    let s2 = Shape::unit_sphere();
    let i5 = Intersection::new(fx(-1.0), s2);
    let i6 = Intersection::new(fx(1.0), s2);
    let i7 = Intersection::new(fx(2.0), s2);
    let xs2 = Intersections::new(vec![i5, i6, i7]);

    xs1.extend(xs2);

    assert_eq!(xs1.len(), 7);
    assert_eq!(xs1.hit().unwrap(), i6);
}

#[test]
fn extend_is_commutative_for_len_and_hit() {
    let s = Shape::unit_sphere();
    let a = vec![
        Intersection::new(fx(5.0), s),
        Intersection::new(fx(-3.0), s),
        Intersection::new(fx(2.5), s),
    ];
    let b = vec![Intersection::new(fx(1.5), s), Intersection::new(fx(-0.5), s)];

    let mut ab = Intersections::new(a.clone());
    ab.extend(Intersections::new(b.clone()));
    let mut ba = Intersections::new(b);
    ba.extend(Intersections::new(a));

    assert_eq!(ab.len(), ba.len());
    assert_eq!(ab.hit().unwrap().t, ba.hit().unwrap().t);
    assert_eq!(ab.hit().unwrap().t, fx(1.5));
}

#[test]
fn hit_ignores_input_order() {
    let s = Shape::unit_sphere();
    let i1 = Intersection::new(fx(3.0), s);
    let i2 = Intersection::new(fx(-2.0), s);
    let i3 = Intersection::new(fx(0.5), s);

    let xs_a = Intersections::new(vec![i1, i2, i3]);
    let xs_b = Intersections::new(vec![i3, i1, i2]);

    assert_eq!(xs_a.hit().unwrap().t, fx(0.5));
    assert_eq!(xs_b.hit().unwrap().t, fx(0.5));
}

#[test]
fn empty_intersections_have_no_hit() {
    let xs = Intersections::new(vec![]);
    assert_eq!(xs.len(), 0);
    assert_eq!(xs.hit(), None);
}

#[test]
fn precompute_state_of_intersection() {
    let r = Ray::new(Tuple::point(0, 0, fx(-5.0)), Tuple::vector(0, 0, fx(1.0)));
    let shape = Shape::unit_sphere();
    let i = Intersection::new(fx(4.0), shape);
    let comps = i.prepare_computations(&r);

    assert_eq!(comps.t, i.t);
    assert!(approx_tuple(comps.point, 0.0, 0.0, -1.0));
    assert!(approx_tuple(comps.eyev, 0.0, 0.0, -1.0));
}

#[test]
fn hit_when_intersection_on_outside() {
    let r = Ray::new(Tuple::point(0, 0, fx(-5.0)), Tuple::vector(0, 0, fx(1.0)));
    let shape = Shape::unit_sphere();
    let i = Intersection::new(fx(4.0), shape);
    let comps = i.prepare_computations(&r);

    assert!(!comps.inside);
}

#[test]
fn hit_when_intersection_on_inside() {
    let r = Ray::new(Tuple::point(0, 0, 0), Tuple::vector(0, 0, fx(1.0)));
    let shape = Shape::unit_sphere();
    let i = Intersection::new(fx(1.0), shape);
    let comps = i.prepare_computations(&r);

    assert!(approx_tuple(comps.point, 0.0, 0.0, 1.0));
    assert!(approx_tuple(comps.eyev, 0.0, 0.0, -1.0));
    assert!(comps.inside);
    assert!(approx_tuple(comps.normalv, 0.0, 0.0, -1.0));
}

#[test]
fn hit_should_offset_point() {
    let r = Ray::new(Tuple::point(0, 0, fx(-5.0)), Tuple::vector(0, 0, fx(1.0)));
    let shape = Shape::sphere(
        Tuple::point(0, 0, fx(1.0)),
        SCALE,
        tracer_core::material::Material::default(),
    );
    let i = Intersection::new(fx(5.0), shape);
    let comps = i.prepare_computations(&r);

    assert!(comps.over_point.z < -EPSILON / 2);
    assert!(comps.point.z > comps.over_point.z);
}

#[test]
fn normal_faces_the_eye_after_preparation() {
    let r = Ray::new(Tuple::point(0, 0, 0), Tuple::vector(0, 0, fx(1.0)));
    let shape = Shape::unit_sphere();
    let i = Intersection::new(fx(1.0), shape);
    let comps = i.prepare_computations(&r);

    assert!(comps.normalv.dot(&comps.eyev) >= 0);
}

#[test]
fn sphere_miss_yields_empty_intersections() {
    let r = Ray::new(Tuple::point(0, fx(2.0), fx(-5.0)), Tuple::vector(0, 0, fx(1.0)));
    let s = Shape::unit_sphere();
    let xs = s.intersect(&r);

    assert_eq!(xs.len(), 0);
    assert_eq!(xs.hit(), None);
}

#[test]
fn plane_intersects_from_above() {
    let p = Shape::Plane { material: tracer_core::material::Material::default() };
    let r = Ray::new(Tuple::point(0, fx(1.0), 0), Tuple::vector(0, fx(-1.0), 0));
    let xs = p.intersect(&r);

    assert_eq!(xs.len(), 1);
    assert!(approx(xs.get(0).t, 1.0));
}

#[test]
fn plane_parallel_ray_misses() {
    let p = Shape::Plane { material: tracer_core::material::Material::default() };
    let r = Ray::new(Tuple::point(0, fx(1.0), 0), Tuple::vector(0, 0, fx(1.0)));
    let xs = p.intersect(&r);

    assert_eq!(xs.len(), 0);
}

#[test]
fn tuple_algebra_matches_known_values() {
    let a = Tuple::vector(fx(1.0), fx(2.0), fx(3.0));
    let b = Tuple::vector(fx(2.0), fx(3.0), fx(4.0));

    assert_eq!(a.dot(&b), fx(20.0));
    let c = a.cross(&b);
    assert!(approx_tuple(c, -1.0, 2.0, -1.0));
    let n = Tuple::vector(0, fx(3.0), fx(4.0)).normalize();
    assert!(approx_tuple(n, 0.0, 0.6, 0.8));
    let m = Tuple::vector(0, fx(3.0), fx(4.0)).magnitude();
    assert!(approx(m, 5.0));
}

#[test]
fn reflect_at_forty_five_degrees() {
    let v = Tuple::vector(fx(1.0), fx(-1.0), 0);
    let n = Tuple::vector(0, fx(1.0), 0);
    let r = v.reflect(&n);

    assert!(approx_tuple(r, 1.0, 1.0, 0.0));
}

#[test]
fn ray_position_walks_the_direction() {
    let r = Ray::new(Tuple::point(fx(2.0), fx(3.0), fx(4.0)), Tuple::vector(fx(1.0), 0, 0));

    assert!(approx_tuple(r.position(0), 2.0, 3.0, 4.0));
    assert!(approx_tuple(r.position(fx(1.0)), 3.0, 3.0, 4.0));
    assert!(approx_tuple(r.position(fx(-1.0)), 1.0, 3.0, 4.0));
    assert!(approx_tuple(r.position(fx(2.5)), 4.5, 3.0, 4.0));
}

#[test]
fn sphere_normal_points_radially() {
    let s = Shape::unit_sphere();
    let n = s.normal_at(&Tuple::point(fx(1.0), 0, 0));
    assert!(approx_tuple(n, 1.0, 0.0, 0.0));

    let shifted = Shape::sphere(
        Tuple::point(0, fx(1.0), 0),
        SCALE,
        tracer_core::material::Material::default(),
    );
    let n2 = shifted.normal_at(&Tuple::point(0, fx(2.0), 0));
    assert!(approx_tuple(n2, 0.0, 1.0, 0.0));
}

#[test]
fn plane_normal_is_up_everywhere() {
    let p = Shape::Plane { material: tracer_core::material::Material::default() };
    let n = p.normal_at(&Tuple::point(fx(10.0), 0, fx(-3.0)));
    assert!(approx_tuple(n, 0.0, 1.0, 0.0));
}

#[test]
fn canvas_stores_written_pixels() {
    let mut c = tracer_core::canvas::Canvas::new(3, 2);
    assert_eq!(c.width(), 3);
    assert_eq!(c.height(), 2);
    assert_eq!(c.pixel_at(2, 1), Color::black());
    let red = Color::new(fx(1.0), 0, 0);
    c.write_pixel(2, 1, red);
    assert_eq!(c.pixel_at(2, 1), red);
    assert_eq!(c.pixel_at(0, 0), Color::black());
}

#[test]
fn color_at_rejects_out_of_scale_rays() {
    let s = Shape::unit_sphere();
    let light = PointLight::new(Tuple::point(0, 0, fx(-10.0)), Color::white());
    let w = tracer_core::world::World::new(vec![s], light);
    let r = Ray::new(Tuple::point(fx(5000.0), 0, 0), Tuple::vector(0, 0, fx(1.0)));
    assert_eq!(w.color_at(&r), None);
}

#[test]
fn sqrt_is_exact_on_squares() {
    assert_eq!(tracer_core::fixed::sqrt_fx(fx(4.0)), fx(2.0));
    assert_eq!(tracer_core::fixed::sqrt_fx(0), 0);
    assert_eq!(tracer_core::fixed::sqrt_fx(fx(2.25)), fx(1.5));
}
