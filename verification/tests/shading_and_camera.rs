use tracer_core::camera::Camera;
use tracer_core::color::Color;
use tracer_core::light::PointLight;
use tracer_core::material::{Material, PatternKind};
use tracer_core::shape::Shape;
use tracer_core::transform::Transform;
use tracer_core::tuple::Tuple;
use tracer_core::world::World;

fn fx(v: f64) -> i64 {
    (v * 1_000_000.0).round() as i64
}

// Shading chains up to two hundred rounded multiplications (the specular
// power), so colors are compared at half a thousandth of intensity.
fn approx(a: i64, expected: f64) -> bool {
    (a - fx(expected)).abs() <= 500
}

fn approx_color(c: Color, r: f64, g: f64, b: f64) -> bool {
    approx(c.r, r) && approx(c.g, g) && approx(c.b, b)
}

const FRAC_PI_2: f64 = 1.5707963267948966;

#[test]
fn default_material() {
    let m = Material::default();
    assert_eq!(m.ambient, fx(0.1));
    assert_eq!(m.diffuse, fx(0.9));
    assert_eq!(m.specular, fx(0.9));
    assert_eq!(m.shininess, fx(200.0));
}

#[test]
fn lighting_eye_between_light_and_surface() {
    let object = Shape::unit_sphere();
    let m = Material::default();
    let position = Tuple::point(0, 0, 0);
    let eyev = Tuple::vector(0, 0, fx(-1.0));
    let normalv = Tuple::vector(0, 0, fx(-1.0));
    let light = PointLight::new(Tuple::point(0, 0, fx(-10.0)), Color::white());
    let result = m.lighting(&object, &light, position, eyev, normalv, false);

    assert!(approx_color(result, 1.9, 1.9, 1.9));
}

#[test]
fn lighting_eye_between_light_and_surface_eye_offset_45_degrees() {
    let object = Shape::unit_sphere();
    let m = Material::default();
    let position = Tuple::point(0, 0, 0);
    let pv = fx(0.7071067811865476);
    let eyev = Tuple::vector(0, pv, -pv);
    let normalv = Tuple::vector(0, 0, fx(-1.0));
    let light = PointLight::new(Tuple::point(0, 0, fx(-10.0)), Color::white());
    let result = m.lighting(&object, &light, position, eyev, normalv, false);

    assert!(approx_color(result, 1.0, 1.0, 1.0));
}

#[test]
fn lighting_eye_opposite_surface_light_offset_45_degrees() {
    let object = Shape::unit_sphere();
    let m = Material::default();
    let position = Tuple::point(0, 0, 0);
    let eyev = Tuple::vector(0, 0, fx(-1.0));
    let normalv = Tuple::vector(0, 0, fx(-1.0));
    let light = PointLight::new(Tuple::point(0, fx(10.0), fx(-10.0)), Color::white());
    let result = m.lighting(&object, &light, position, eyev, normalv, false);

    assert!(approx_color(result, 0.7364, 0.7364, 0.7364));
}

#[test]
fn lighting_eye_in_path_of_reflection_vector() {
    let object = Shape::unit_sphere();
    let m = Material::default();
    let position = Tuple::point(0, 0, 0);
    let pv = fx(-0.7071067811865476);
    let eyev = Tuple::vector(0, pv, pv);
    let normalv = Tuple::vector(0, 0, fx(-1.0));
    let light = PointLight::new(Tuple::point(0, fx(10.0), fx(-10.0)), Color::white());
    let result = m.lighting(&object, &light, position, eyev, normalv, false);

    assert!(approx_color(result, 1.6364, 1.6364, 1.6364));
}

#[test]
fn lighting_light_behind_surface() {
    let object = Shape::unit_sphere();
    let m = Material::default();
    let position = Tuple::point(0, 0, 0);
    let eyev = Tuple::vector(0, 0, fx(-1.0));
    let normalv = Tuple::vector(0, 0, fx(-1.0));
    let light = PointLight::new(Tuple::point(0, 0, fx(10.0)), Color::white());
    let result = m.lighting(&object, &light, position, eyev, normalv, false);

    assert!(approx_color(result, 0.1, 0.1, 0.1));
}

#[test]
fn lighting_with_surface_in_shadow() {
    let object = Shape::unit_sphere();
    let m = Material::default();
    let position = Tuple::point(0, 0, 0);
    let eyev = Tuple::vector(0, 0, fx(-1.0));
    let normalv = Tuple::vector(0, 0, fx(-1.0));
    let light = PointLight::new(Tuple::point(0, 0, fx(-10.0)), Color::white());
    let in_shadow = true;
    let result = m.lighting(&object, &light, position, eyev, normalv, in_shadow);

    assert!(approx_color(result, 0.1, 0.1, 0.1));
}

#[test]
fn lighting_in_shadow_ignores_diffuse_and_specular_geometry() {
    let object = Shape::unit_sphere();
    let m = Material::default();
    let position = Tuple::point(0, 0, 0);
    let normalv = Tuple::vector(0, 0, fx(-1.0));
    let light = PointLight::new(Tuple::point(0, 0, fx(-10.0)), Color::white());
    let eye_a = Tuple::vector(0, 0, fx(-1.0));
    let pv = fx(0.7071067811865476);
    let eye_b = Tuple::vector(0, pv, -pv);

    let ra = m.lighting(&object, &light, position, eye_a, normalv, true);
    let rb = m.lighting(&object, &light, position, eye_b, normalv, true);

    assert_eq!(ra, rb);
    assert!(approx_color(ra, 0.1, 0.1, 0.1));
}

#[test]
fn lighting_with_pattern_applied() {
    let object = Shape::unit_sphere();
    let m = Material::new(
        Color::white(),
        fx(1.0),
        0,
        0,
        fx(200.0),
        Some(PatternKind::Stripe { a: Color::white(), b: Color::black() }),
    );
    let eyev = Tuple::vector(0, 0, fx(-1.0));
    let normalv = Tuple::vector(0, 0, fx(-1.0));
    let light = PointLight::new(Tuple::point(0, 0, fx(-10.0)), Color::white());
    let c1 = m.lighting(&object, &light, Tuple::point(fx(0.9), 0, 0), eyev, normalv, false);
    let c2 = m.lighting(&object, &light, Tuple::point(fx(1.1), 0, 0), eyev, normalv, false);

    assert_eq!(c1, Color::white());
    assert_eq!(c2, Color::black());
}

#[test]
fn stripe_pattern_alternates_below_zero() {
    let object = Shape::unit_sphere();
    let pat = PatternKind::Stripe { a: Color::white(), b: Color::black() };

    assert_eq!(pat.pattern_at_shape(&object, &Tuple::point(fx(0.5), 0, 0)), Color::white());
    assert_eq!(pat.pattern_at_shape(&object, &Tuple::point(fx(-0.5), 0, 0)), Color::black());
    assert_eq!(pat.pattern_at_shape(&object, &Tuple::point(fx(-1.5), 0, 0)), Color::white());
}

#[test]
fn construct_camera() {
    let c = Camera::new(160, 120, fx(FRAC_PI_2), None).unwrap();

    assert_eq!(c.hsize, 160);
    assert_eq!(c.vsize, 120);
    assert_eq!(c.field_of_view, fx(FRAC_PI_2));
    assert_eq!(c.transform, Transform::identity());
}

#[test]
fn camera_rejects_empty_grid() {
    assert!(Camera::new(0, 120, fx(FRAC_PI_2), None).is_none());
    assert!(Camera::new(160, 0, fx(FRAC_PI_2), None).is_none());
    assert!(Camera::new(160, 120, 0, None).is_none());
}

#[test]
fn pixel_size_horizontal_canvas() {
    let c = Camera::new(200, 125, fx(FRAC_PI_2), None).unwrap();
    assert!(approx(c.pixel_size, 0.01));
}

#[test]
fn pixel_size_vertical_canvas() {
    let c = Camera::new(125, 200, fx(FRAC_PI_2), None).unwrap();
    assert!(approx(c.pixel_size, 0.01));
}

#[test]
fn construct_ray_through_center_of_canvas() {
    let c = Camera::new(201, 101, fx(FRAC_PI_2), None).unwrap();
    let r = c.ray_for_pixel(100, 50).unwrap();

    assert!(approx(r.origin.x, 0.0) && approx(r.origin.y, 0.0) && approx(r.origin.z, 0.0));
    assert!(
        approx(r.direction.x, 0.0) && approx(r.direction.y, 0.0) && approx(r.direction.z, -1.0)
    );
}

#[test]
fn construct_ray_through_corner_of_canvas() {
    let c = Camera::new(201, 101, fx(FRAC_PI_2), None).unwrap();
    let r = c.ray_for_pixel(0, 0).unwrap();

    assert!(approx(r.origin.x, 0.0) && approx(r.origin.y, 0.0) && approx(r.origin.z, 0.0));
    assert!(
        approx(r.direction.x, 0.66519) && approx(r.direction.y, 0.33259) && approx(
            r.direction.z,
            -0.66851,
        )
    );
}

#[test]
fn construct_ray_when_camera_transformed() {
    let sq = fx(0.7071067811865476);
    let t = Transform::rotation_y(sq, sq).compose(&Transform::translation(0, fx(-2.0), fx(5.0)));
    let c = Camera::new(201, 101, fx(FRAC_PI_2), Some(t)).unwrap();
    let r = c.ray_for_pixel(100, 50).unwrap();

    assert!(approx(r.origin.x, 0.0) && approx(r.origin.y, 2.0) && approx(r.origin.z, -5.0));
    assert!(
        approx(r.direction.x, 0.7071067811865476) && approx(r.direction.y, 0.0) && approx(
            r.direction.z,
            -0.7071067811865476,
        )
    );
}

fn default_world() -> World {
    let m1 = Material::new(Color::new(fx(0.8), fx(1.0), fx(0.6)), fx(0.1), fx(0.7), fx(0.2), fx(
        200.0,
    ), None);
    let s1 = Shape::sphere(Tuple::point(0, 0, 0), fx(1.0), m1);
    let s2 = Shape::sphere(Tuple::point(0, 0, 0), fx(0.5), Material::default());
    let light = PointLight::new(Tuple::point(fx(-10.0), fx(10.0), fx(-10.0)), Color::white());
    World::new(vec![s1, s2], light)
}

#[test]
fn render_world_with_camera() {
    let w = default_world();
    let from = Tuple::point(0, 0, fx(-5.0));
    let to = Tuple::point(0, 0, 0);
    let up = Tuple::vector(0, fx(1.0), 0);
    let tr = Transform::view_transform(from, to, up);
    let c = Camera::new(11, 11, fx(FRAC_PI_2), Some(tr)).unwrap();

    let image = c.render(&w).unwrap();
    let center = image.pixel_at(5, 5);
    assert!(approx_color(center, 0.38066, 0.47583, 0.2855));
}

#[test]
fn color_at_escaping_ray_is_black() {
    let w = default_world();
    let r = tracer_core::ray::Ray::new(
        Tuple::point(0, 0, fx(-5.0)),
        Tuple::vector(0, fx(1.0), 0),
    );
    let c = w.color_at(&r).unwrap();
    assert_eq!(c, Color::black());
}

#[test]
fn color_at_shades_the_nearest_hit() {
    let w = default_world();
    let r = tracer_core::ray::Ray::new(
        Tuple::point(0, 0, fx(-5.0)),
        Tuple::vector(0, 0, fx(1.0)),
    );
    let c = w.color_at(&r).unwrap();
    assert!(approx_color(c, 0.38066, 0.47583, 0.2855));
}
