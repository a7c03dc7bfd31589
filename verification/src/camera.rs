//! The camera: a pixel grid mapped to world-space rays, and the render
//! loop that drives them through a scene.

use vstd::prelude::*;
use crate::fixed::{
    SCALE, fx_mul, fx_div, sdiv, spec_cos, spec_tan, mul_fx, div_fx, tan_fx, lemma_sdiv_mag,
    lemma_fx_mul_bound,
};
use crate::tuple::{Tuple, V4, v4_sub, v4_norm, v4_dot, within_units};
use crate::ray::Ray;
use crate::transform::{Transform, Affine, AffV, aff_ok, aff_apply, spec_identity, placement_wf};
use crate::canvas::Canvas;
use crate::world::{World, world_ok, spec_color_ok, ray_renderable};
use vstd::arithmetic::div_mod::{
    lemma_div_pos_is_pos, lemma_div_is_ordered_by_denominator, lemma_div_is_ordered,
};

verus! {

/// The tangent of half the field of view.
pub open spec fn spec_half_view(fov: int) -> int {
    spec_tan(sdiv(fov, 2))
}

/// Horizontal pixels over vertical pixels.
pub open spec fn spec_aspect(h: int, v: int) -> int {
    fx_div(h * (SCALE as int), v * (SCALE as int))
}

pub open spec fn spec_half_width(h: int, v: int, fov: int) -> int {
    if spec_aspect(h, v) >= SCALE as int {
        spec_half_view(fov)
    } else {
        fx_mul(spec_half_view(fov), spec_aspect(h, v))
    }
}

pub open spec fn spec_half_height(h: int, v: int, fov: int) -> int {
    if spec_aspect(h, v) >= SCALE as int {
        fx_div(spec_half_view(fov), spec_aspect(h, v))
    } else {
        spec_half_view(fov)
    }
}

/// Construction succeeds: grid and field of view in range, the half view
/// representable, and the placement within the machine's scale.
pub open spec fn spec_camera_ok(h: int, v: int, fov: int, m: AffV, inv: AffV) -> bool {
    0 < h <= 10_000 && 0 < v <= 10_000 && 0 < fov <= 3_141_592 && spec_cos(sdiv(fov, 2)) >= 1 && 1
        <= spec_half_view(fov) <= 1_000_000_000 && 0 <= spec_half_width(h, v, fov)
        <= 1_000_000_000 && 0 <= spec_half_height(h, v, fov) <= 1_000_000_000 && aff_ok(m)
        && aff_ok(inv)
}

/// The placement a construction call names: the given one, or identity.
pub open spec fn spec_chosen(transform: Option<Transform>) -> (AffV, AffV) {
    match transform {
        Some(t) => (t.m@, t.inv@),
        None => (spec_identity(), spec_identity()),
    }
}

/// A camera: a pixel grid of `hsize` by `vsize`, a field of view, a
/// placement in world space, and the derived pixel dimensions, computed
/// once at construction.
pub struct Camera {
    pub hsize: usize,
    pub vsize: usize,
    pub field_of_view: i64,
    pub pixel_size: i64,
    pub transform: Transform,
    pub half_width: i64,
    pub half_height: i64,
}

impl Camera {
    pub open spec fn half_w(&self) -> int {
        self.half_width as int
    }

    pub open spec fn half_h(&self) -> int {
        self.half_height as int
    }

    /// The construction invariant: grid in range, half extents within
    /// 1000 world units, `pixel_size` exactly `2 half_width / hsize`, and
    /// a placement within the machine's scale.
    pub open spec fn wf(&self) -> bool {
        0 < self.hsize <= 10_000 && 0 < self.vsize <= 10_000 && 0 <= self.half_w()
            <= 1_000_000_000 && 0 <= self.half_h() <= 1_000_000_000 && self.pixel_size as int
            == sdiv(2 * self.half_w(), self.hsize as int) && 0 <= self.pixel_size
            <= 2_000_000_000 && aff_ok(self.transform.m@) && aff_ok(self.transform.inv@)
            && placement_wf(self.transform)
    }

    /// Builds a camera, computing the half extents of the canvas one
    /// world unit in front of it and the size of a square pixel. Rejects
    /// a grid or field of view outside the machine's range, rather than
    /// produce degraded fixed-point values downstream.
    pub fn new(hsize: usize, vsize: usize, field_of_view: i64, transform: Option<Transform>) -> (r:
        Option<Camera>)
        requires
            match transform {
                Some(t) => placement_wf(t),
                None => true,
            },
        ensures
            match r {
                Some(c) => {
                    &&& c.wf()
                    &&& c.hsize == hsize
                    &&& c.vsize == vsize
                    &&& c.field_of_view == field_of_view
                    &&& (match transform {
                        Some(t) => c.transform == t,
                        None => c.transform.m@ == spec_identity() && c.transform.inv@
                            == spec_identity(),
                    })
                    &&& c.half_w() == spec_half_width(hsize as int, vsize as int,
                        field_of_view as int)
                    &&& c.half_h() == spec_half_height(hsize as int, vsize as int,
                        field_of_view as int)
                    &&& c.pixel_size as int == sdiv(
                        2 * spec_half_width(hsize as int, vsize as int, field_of_view as int),
                        hsize as int,
                    )
                    &&& spec_camera_ok(
                        hsize as int,
                        vsize as int,
                        field_of_view as int,
                        spec_chosen(transform).0,
                        spec_chosen(transform).1,
                    )
                },
                None => !spec_camera_ok(
                    hsize as int,
                    vsize as int,
                    field_of_view as int,
                    spec_chosen(transform).0,
                    spec_chosen(transform).1,
                ),
            },
    {
        let tr = match transform {
            Some(t) => t,
            None => Transform::identity(),
        };
        if hsize == 0 || hsize > 10_000 || vsize == 0 || vsize > 10_000 {
            return None;
        }
        if field_of_view <= 0 || field_of_view > 3_141_592 {
            return None;
        }
        if !tr.m.in_range() || !tr.inv.in_range() {
            return None;
        }
        let half_angle = field_of_view / 2;
        proof {
            lemma_sdiv_mag(field_of_view as int, 2);
        }
        let hv = match tan_fx(half_angle) {
            None => {
                return None;
            },
            Some(t) => t,
        };
        if hv < 1 || hv > 1_000_000_000 {
            return None;
        }
        let hfx = (hsize as i64) * SCALE;
        let vfx = (vsize as i64) * SCALE;
        let aspect = div_fx(hfx, vfx);
        proof {
            lemma_div_pos_is_pos(hfx as int * SCALE as int, vfx as int);
            lemma_div_is_ordered_by_denominator(hfx as int * SCALE as int, SCALE as int,
                vfx as int);
            lemma_div_pos_is_pos(hfx as int * SCALE as int, SCALE as int);
            lemma_div_is_ordered(hfx as int * SCALE as int, 10_000_000_000_000_000int,
                SCALE as int);
        }
        let (half_width, half_height): (i64, i64) = if aspect >= SCALE {
            (hv, div_fx(hv, aspect))
        } else {
            proof {
                lemma_fx_mul_bound(hv as int, aspect as int, 1_000_000_000int,
                    10_000_000_000int);
            }
            (mul_fx(hv, aspect), hv)
        };
        if half_width < 0 || half_width > 1_000_000_000 || half_height < 0 || half_height
            > 1_000_000_000 {
            return None;
        }
        let pixel_size = (2 * half_width) / (hsize as i64);
        proof {
            lemma_sdiv_mag(2 * half_width as int, hsize as int);
        }
        Some(
            Camera {
                hsize,
                vsize,
                field_of_view,
                pixel_size,
                transform: tr,
                half_width,
                half_height,
            },
        )
    }

    /// The untransformed canvas point a pixel's center maps to, one world
    /// unit in front of the camera; x grows leftward, y downward.
    pub open spec fn spec_target(&self, px: int, py: int) -> V4 {
        V4 {
            x: self.half_w() - fx_mul(px * (SCALE as int) + (SCALE as int) / 2,
                self.pixel_size as int),
            y: self.half_h() - fx_mul(py * (SCALE as int) + (SCALE as int) / 2,
                self.pixel_size as int),
            z: -(SCALE as int),
            w: SCALE as int,
        }
    }

    /// Where the camera's placement puts the eye.
    pub open spec fn spec_ray_origin(&self) -> V4 {
        aff_apply(self.transform.inv@, V4 { x: 0int, y: 0int, z: 0int, w: SCALE as int })
    }

    /// The unnormalized direction from the eye through the pixel.
    pub open spec fn spec_ray_dir_raw(&self, px: int, py: int) -> V4 {
        v4_sub(aff_apply(self.transform.inv@, self.spec_target(px, py)), self.spec_ray_origin())
    }

    /// The pixel's ray is representable: the canvas point and direction
    /// stay within the machine's scale and the direction is not
    /// degenerate.
    pub open spec fn pixel_ray_ok(&self, px: int, py: int) -> bool {
        within_units(self.spec_target(px, py), 1_000_000_000int) && within_units(
            self.spec_ray_dir_raw(px, py),
            1_000_000_000int,
        ) && v4_dot(self.spec_ray_dir_raw(px, py), self.spec_ray_dir_raw(px, py)) >= SCALE as int
            / 4
    }

    /// Pixel `(xi, yi)` of `img` holds a correct color for its ray.
    pub open spec fn pixel_rendered(&self, w: &World, img: Seq<crate::color::Color>, xi: int, yi: int) -> bool {
        self.pixel_ray_ok(xi, yi) && spec_color_ok(
            w,
            crate::ray::RayV {
                origin: self.spec_ray_origin(),
                direction: v4_norm(self.spec_ray_dir_raw(xi, yi)),
            },
            img[yi * self.hsize as int + xi]@,
        )
    }

    /// The world-space ray through the center of pixel `(px, py)`: the
    /// inverse placement carries the eye and the canvas point into world
    /// space, and the direction is normalized. `None` only when the
    /// placement pushes the pixel outside the machine's scale.
    pub fn ray_for_pixel(&self, px: usize, py: usize) -> (r: Option<Ray>)
        requires
            self.wf(),
            px < self.hsize,
            py < self.vsize,
        ensures
            r is Some <==> self.pixel_ray_ok(px as int, py as int),
            r is Some ==> r->0.origin@ == self.spec_ray_origin() && r->0.direction@ == v4_norm(
                self.spec_ray_dir_raw(px as int, py as int),
            ) && within_units(r->0.origin@, 1_000_000_000int) && within_units(
                r->0.direction@,
                3 * SCALE as int,
            ) && 3 * (SCALE as int) / 4 <= v4_dot(r->0.direction@, r->0.direction@) <= 2
                * SCALE as int,
    {
        let pxf = (px as i64) * SCALE + 500_000;
        let pyf = (py as i64) * SCALE + 500_000;
        proof {
            lemma_fx_mul_bound(pxf as int, self.pixel_size as int, 10_000_500_000int,
                2_000_000_000int);
            lemma_fx_mul_bound(pyf as int, self.pixel_size as int, 10_000_500_000int,
                2_000_000_000int);
        }
        let xoffset = mul_fx(pxf, self.pixel_size);
        let yoffset = mul_fx(pyf, self.pixel_size);
        let world_x = self.half_width - xoffset;
        let world_y = self.half_height - yoffset;
        if world_x < -1_000_000_000 || world_x > 1_000_000_000 || world_y < -1_000_000_000
            || world_y > 1_000_000_000 {
            return None;
        }
        let target = Tuple { x: world_x, y: world_y, z: -SCALE, w: SCALE };
        let pixel = self.transform.inv.apply(&target);
        let origin = self.transform.inv.apply(&Tuple { x: 0, y: 0, z: 0, w: SCALE });
        let d = pixel.minus(&origin);
        if d.x < -1_000_000_000 || d.x > 1_000_000_000 || d.y < -1_000_000_000 || d.y
            > 1_000_000_000 || d.z < -1_000_000_000 || d.z > 1_000_000_000 || d.w
            < -1_000_000_000 || d.w > 1_000_000_000 {
            return None;
        }
        if d.dot(&d) < SCALE / 4 {
            return None;
        }
        let direction = d.normalize();
        proof {
            lemma_origin_within(self.transform.inv@);
        }
        Some(Ray::new(origin, direction))
    }

    /// A full render is owed: every pixel's ray is representable and the
    /// world owes an answer along it.
    pub open spec fn render_ok(&self, w: &World) -> bool {
        forall|x: int, y: int|
            0 <= x < self.hsize && 0 <= y < self.vsize ==> #[trigger] self.pixel_ray_ok(x, y)
                && ray_renderable(
                w,
                crate::ray::RayV {
                    origin: self.spec_ray_origin(),
                    direction: v4_norm(self.spec_ray_dir_raw(x, y)),
                },
            )
    }

    /// Renders the scene: every pixel of the grid gets the color the
    /// world answers for that pixel's ray. `None` when some pixel's ray
    /// or hit falls outside the scale the machine renders exactly.
    #[verifier::loop_isolation(false)]
    pub fn render(&self, world: &World) -> (r: Option<Canvas>)
        requires
            self.wf(),
            world_ok(world),
        ensures
            match r {
                Some(cv) => {
                    &&& cv.wf()
                    &&& cv.spec_width() == self.hsize
                    &&& cv.spec_height() == self.vsize
                    &&& forall|x: int, y: int|
                        0 <= x < self.hsize && 0 <= y < self.vsize ==> #[trigger] self.pixel_rendered(
                            world,
                            cv@,
                            x,
                            y,
                        )
                },
                None => !self.render_ok(world),
            },
    {
        let mut image = Canvas::new(self.hsize, self.vsize);
        let mut y: usize = 0;
        while y < self.vsize
            invariant
                self.wf(),
                world_ok(world),
                image.wf(),
                image.spec_width() == self.hsize,
                image.spec_height() == self.vsize,
                y <= self.vsize,
                forall|xi: int, yi: int|
                    0 <= xi < self.hsize && 0 <= yi < y ==> #[trigger] self.pixel_rendered(
                        world,
                        image@,
                        xi,
                        yi,
                    ),
            decreases self.vsize - y,
        {
            let mut x: usize = 0;
            while x < self.hsize
                invariant
                    self.wf(),
                    world_ok(world),
                    image.wf(),
                    image.spec_width() == self.hsize,
                    image.spec_height() == self.vsize,
                    y < self.vsize,
                    x <= self.hsize,
                    forall|xi: int, yi: int|
                        0 <= xi < self.hsize && 0 <= yi < y ==> #[trigger] self.pixel_rendered(
                            world,
                            image@,
                            xi,
                            yi,
                        ),
                    forall|xi: int|
                        0 <= xi < x ==> #[trigger] self.pixel_rendered(world, image@, xi, y as int),
                decreases self.hsize - x,
            {
                let ray = match self.ray_for_pixel(x, y) {
                    None => {
                        proof {
                            assert(!self.pixel_ray_ok(x as int, y as int));
                            assert(!self.render_ok(world));
                        }
                        return None;
                    },
                    Some(r) => r,
                };
                let color = match world.color_at(&ray) {
                    None => {
                        proof {
                            assert(ray@ == (crate::ray::RayV {
                                origin: self.spec_ray_origin(),
                                direction: v4_norm(self.spec_ray_dir_raw(x as int, y as int)),
                            }));
                            assert(!ray_renderable(world, ray@));
                            assert(!self.render_ok(world));
                        }
                        return None;
                    },
                    Some(c) => c,
                };
                let ghost before = image@;
                image.write_pixel(x, y, color);
                proof {
                    let w = self.hsize as int;
                    let h = self.vsize as int;
                    assert(image@ == before.update(y as int * w + x as int, color));
                    crate::canvas::lemma_index_in_grid(x as int, y as int, w, h);
                    assert(image@[y as int * w + x as int] == color);
                    assert(ray@ == (crate::ray::RayV {
                        origin: self.spec_ray_origin(),
                        direction: v4_norm(self.spec_ray_dir_raw(x as int, y as int)),
                    }));
                    assert(self.pixel_rendered(world, image@, x as int, y as int));
                    assert forall|xi: int, yi: int|
                        0 <= xi < w && 0 <= yi < y implies #[trigger] self.pixel_rendered(
                        world,
                        image@,
                        xi,
                        yi,
                    ) by {
                        lemma_row_major_distinct(xi, yi, x as int, y as int, w);
                        crate::canvas::lemma_index_in_grid(xi, yi, w, h);
                        assert(image@[yi * w + xi] == before[yi * w + xi]);
                        assert(self.pixel_rendered(world, before, xi, yi));
                    }
                    assert forall|xi: int|
                        0 <= xi < x implies #[trigger] self.pixel_rendered(
                        world,
                        image@,
                        xi,
                        y as int,
                    ) by {
                        lemma_row_major_distinct(xi, y as int, x as int, y as int, w);
                        crate::canvas::lemma_index_in_grid(xi, y as int, w, h);
                        assert(image@[y as int * w + xi] == before[y as int * w + xi]);
                        assert(self.pixel_rendered(world, before, xi, y as int));
                    }
                }
                x = x + 1;
            }
            y = y + 1;
        }
        Some(image)
    }
}

/// The eye point of an in-range placement stays within the machine.
proof fn lemma_origin_within(a: AffV)
    requires
        aff_ok(a),
    ensures
        within_units(
            aff_apply(a, V4 { x: 0int, y: 0int, z: 0int, w: SCALE as int }),
            1_000_000_000int,
        ),
{
    lemma_fx_mul_bound(a.xx, 0int, 1_000_000_000int, 0int);
    lemma_fx_mul_bound(a.xy, 0int, 1_000_000_000int, 0int);
    lemma_fx_mul_bound(a.xz, 0int, 1_000_000_000int, 0int);
    lemma_fx_mul_bound(a.yx, 0int, 1_000_000_000int, 0int);
    lemma_fx_mul_bound(a.yy, 0int, 1_000_000_000int, 0int);
    lemma_fx_mul_bound(a.yz, 0int, 1_000_000_000int, 0int);
    lemma_fx_mul_bound(a.zx, 0int, 1_000_000_000int, 0int);
    lemma_fx_mul_bound(a.zy, 0int, 1_000_000_000int, 0int);
    lemma_fx_mul_bound(a.zz, 0int, 1_000_000_000int, 0int);
    lemma_scale_mul_is_id(a.tx);
    lemma_scale_mul_is_id(a.ty);
    lemma_scale_mul_is_id(a.tz);
}

/// Multiplying by one (SCALE units) is the identity.
proof fn lemma_scale_mul_is_id(e: int)
    ensures
        fx_mul(e, SCALE as int) == e,
{
    if e >= 0 {
        vstd::arithmetic::div_mod::lemma_div_by_multiple(e, SCALE as int);
    } else {
        vstd::arithmetic::div_mod::lemma_div_by_multiple(-e, SCALE as int);
        assert((-e) * (SCALE as int) == -(e * (SCALE as int))) by (nonlinear_arith);
    }
}

/// Distinct grid cells have distinct row-major indexes.
proof fn lemma_row_major_distinct(x1: int, y1: int, x2: int, y2: int, w: int)
    requires
        0 <= x1 < w,
        0 <= x2 < w,
        0 <= y1,
        0 <= y2,
        x1 != x2 || y1 != y2,
    ensures
        y1 * w + x1 != y2 * w + x2,
{
    assert(y1 * w + x1 != y2 * w + x2) by (nonlinear_arith)
        requires
            0 <= x1 < w,
            0 <= x2 < w,
            0 <= y1,
            0 <= y2,
            x1 != x2 || y1 != y2,
    ;
}

} // verus!
