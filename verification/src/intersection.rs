//! Intersection records and selection of the visible hit.

use vstd::prelude::*;
use vstd::seq_lib::{
    lemma_multiset_commutative, group_to_multiset_ensures, to_multiset_insert,
};
use vstd::arithmetic::div_mod::{
    lemma_fundamental_div_mod, lemma_mod_bound, lemma_div_is_ordered, lemma_hoist_over_denominator,
};
use crate::fixed::{SCALE, EPSILON, sdiv, lemma_sdiv_vs_floor, lemma_fx_mul_bound};
use crate::tuple::{
    Tuple, V4, v4_add, v4_neg, v4_scale, v4_dot, within_units, lemma_dot_neg, lemma_dot_bound,
};
use crate::ray::{Ray, RayV, ray_ok, spec_position};
use crate::shape::{Shape, shape_ok, normal_wf, spec_normal_at};

verus! {

/// One candidate hit: the signed distance `t` along the ray, and the
/// shape that was struck.
#[derive(Clone, Copy, PartialEq, Debug)]
pub struct Intersection {
    pub t: i64,
    pub object: Shape,
}

impl Intersection {
    pub fn new(t: i64, object: Shape) -> (i: Intersection)
        ensures
            i.t == t,
            i.object == object,
    {
        Intersection { t, object }
    }
}

/// The geometric surface normal at the hit point, before any flip.
pub open spec fn spec_raw_normal(i: Intersection, r: RayV) -> V4 {
    spec_normal_at(i.object, spec_position(r, i.t as int))
}

/// Whether the hit lies on the inside of the surface: the raw normal
/// points away from the eye.
pub open spec fn spec_inside(i: Intersection, r: RayV) -> bool {
    v4_dot(spec_raw_normal(i, r), v4_neg(r.direction)) < 0
}

/// The shading normal: the raw normal, flipped toward the eye if needed.
pub open spec fn spec_facing_normal(i: Intersection, r: RayV) -> V4 {
    if spec_inside(i, r) {
        v4_neg(spec_raw_normal(i, r))
    } else {
        spec_raw_normal(i, r)
    }
}

/// Shading inputs derived once from a chosen intersection.
#[derive(Clone, Copy, PartialEq, Debug)]
pub struct PrecomputedData {
    pub t: i64,
    pub object: Shape,
    pub point: Tuple,
    pub eyev: Tuple,
    pub normalv: Tuple,
    pub inside: bool,
    pub over_point: Tuple,
}

impl Intersection {
    /// Derives the shading inputs for this hit along `ray`: the world
    /// point, the eye vector, the normal flipped to face the eye, the
    /// inside flag, and the point nudged off the surface along the
    /// normal by EPSILON against shadow acne.
    pub fn prepare_computations(&self, ray: &Ray) -> (r: PrecomputedData)
        requires
            shape_ok(self.object),
            ray_ok(ray@),
            -1_000_000_000 <= self.t <= 1_000_000_000,
            within_units(spec_position(ray@, self.t as int), 500_000_000int),
            normal_wf(self.object, spec_position(ray@, self.t as int)),
        ensures
            r.t == self.t,
            r.object == self.object,
            r.point@ == spec_position(ray@, self.t as int),
            r.eyev@ == v4_neg(ray@.direction),
            r.inside == spec_inside(*self, ray@),
            r.normalv@ == spec_facing_normal(*self, ray@),
            r.over_point@ == v4_add(r.point@, v4_scale(r.normalv@, EPSILON as int)),
            within_units(r.normalv@, 3 * SCALE as int),
            v4_dot(r.normalv@, r.eyev@) >= 0,
            3 * (SCALE as int) / 4 <= v4_dot(r.normalv@, r.normalv@) <= 2 * SCALE as int,
            v4_dot(r.over_point@, r.normalv@) >= v4_dot(r.point@, r.normalv@) + (
            EPSILON as int) / 2,
    {
        let point = ray.position(self.t);
        let eyev = ray.direction.negate();
        let normalv0 = self.object.normal_at(&point);
        let d = normalv0.dot(&eyev);
        let (normalv, inside): (Tuple, bool) = if d < 0 {
            proof {
                lemma_dot_neg(normalv0@, eyev@);
                crate::tuple::lemma_dot_neg_self(normalv0@);
            }
            (normalv0.negate(), true)
        } else {
            (normalv0, false)
        };
        proof {
            lemma_fx_mul_bound(normalv@.x, EPSILON as int, 3_000_000int, 100int);
            lemma_fx_mul_bound(normalv@.y, EPSILON as int, 3_000_000int, 100int);
            lemma_fx_mul_bound(normalv@.z, EPSILON as int, 3_000_000int, 100int);
            lemma_fx_mul_bound(normalv@.w, EPSILON as int, 3_000_000int, 100int);
        }
        let shift = normalv.scale(EPSILON);
        let over_point = point.plus(&shift);
        proof {
            lemma_over_point_bias(point@, normalv@, over_point@);
        }
        PrecomputedData {
            t: self.t,
            object: self.object,
            point,
            eyev,
            normalv,
            inside,
            over_point,
        }
    }
}

/// One component's share of the bias: nudging along the normal gains at
/// least the component's squared share, less one rounding step.
proof fn lemma_bias_term(u: int)
    requires
        -3_000_000 <= u <= 3_000_000,
    ensures
        (SCALE as int) * (u * sdiv(u * (EPSILON as int), SCALE as int)) >= (EPSILON as int) * (u
            * u) - (SCALE as int) * (if u < 0 {
            -u
        } else {
            u
        }),
{
    let sc = SCALE as int;
    let e = EPSILON as int;
    let x = u * e;
    if u >= 0 {
        lemma_fundamental_div_mod(x, sc);
        lemma_mod_bound(x, sc);
        let q = x / sc;
        let r = x % sc;
        assert(x >= 0) by (nonlinear_arith)
            requires
                u >= 0,
                x == u * e,
                e == 100int,
        ;
        assert(sc * (u * q) >= e * (u * u) - sc * u) by (nonlinear_arith)
            requires
                x == q * sc + r,
                0 <= r < sc,
                u >= 0,
                x == u * e,
                sc == 1000000int,
                e == 100int,
        ;
    } else {
        assert(x < 0) by (nonlinear_arith)
            requires
                u < 0,
                x == u * e,
                e == 100int,
        ;
        lemma_fundamental_div_mod(-x, sc);
        lemma_mod_bound(-x, sc);
        let q = (-x) / sc;
        let r = (-x) % sc;
        assert(sc * (u * (-q)) >= e * (u * u) - sc * (-u)) by (nonlinear_arith)
            requires
                -x == q * sc + r,
                0 <= r < sc,
                u < 0,
                x == u * e,
                sc == 1000000int,
                e == 100int,
        ;
    }
}

/// Nudging a point by EPSILON along a near-unit normal moves it at least
/// half of EPSILON further along that normal.
proof fn lemma_over_point_bias(p: V4, n: V4, q: V4)
    requires
        within_units(n, 3 * SCALE as int),
        q == v4_add(p, v4_scale(n, EPSILON as int)),
        3 * (SCALE as int) / 4 <= v4_dot(n, n) <= 2 * SCALE as int,
    ensures
        v4_dot(q, n) >= v4_dot(p, n) + (EPSILON as int) / 2,
{
    let sc = SCALE as int;
    let e = EPSILON as int;
    let sp = p.x * n.x + p.y * n.y + p.z * n.z + p.w * n.w;
    let sn = n.x * n.x + n.y * n.y + n.z * n.z + n.w * n.w;
    let sq = q.x * n.x + q.y * n.y + q.z * n.z + q.w * n.w;
    // The squared-norm sum is at least what its fixed-point dot shows.
    crate::tuple::lemma_self_dot_nonneg(n);
    lemma_fundamental_div_mod(sn, sc);
    lemma_mod_bound(sn, sc);
    assert(sn >= v4_dot(n, n) * sc);
    // Expand each component of q against n.
    assert((p.x + sdiv(n.x * e, sc)) * n.x == p.x * n.x + n.x * sdiv(n.x * e, sc) && (p.y + sdiv(
        n.y * e,
        sc,
    )) * n.y == p.y * n.y + n.y * sdiv(n.y * e, sc) && (p.z + sdiv(n.z * e, sc)) * n.z == p.z * n.z
        + n.z * sdiv(n.z * e, sc) && (p.w + sdiv(n.w * e, sc)) * n.w == p.w * n.w + n.w * sdiv(
        n.w * e,
        sc,
    )) by (nonlinear_arith);
    lemma_bias_term(n.x);
    lemma_bias_term(n.y);
    lemma_bias_term(n.z);
    lemma_bias_term(n.w);
    // Sum the four component shares: sc * (sq - sp) >= e * sn - 12 sc^2.
    assert(sc * (sq - sp) >= e * sn - sc * (12 * sc)) by {
        assert(sc * (sq - sp) == sc * (n.x * sdiv(n.x * e, sc)) + sc * (n.y * sdiv(n.y * e, sc))
            + sc * (n.z * sdiv(n.z * e, sc)) + sc * (n.w * sdiv(n.w * e, sc))) by (nonlinear_arith)
            requires
                sq - sp == n.x * sdiv(n.x * e, sc) + n.y * sdiv(n.y * e, sc) + n.z * sdiv(
                    n.z * e,
                    sc,
                ) + n.w * sdiv(n.w * e, sc),
                sc == 1000000int,
        ;
        assert(e * (n.x * n.x) + e * (n.y * n.y) + e * (n.z * n.z) + e * (n.w * n.w) == e * sn)
            by (nonlinear_arith)
            requires
                sn == n.x * n.x + n.y * n.y + n.z * n.z + n.w * n.w,
                e == 100int,
        ;
        assert((if n.x < 0 { -n.x } else { n.x }) + (if n.y < 0 { -n.y } else { n.y }) + (if n.z
            < 0 {
            -n.z
        } else {
            n.z
        }) + (if n.w < 0 {
            -n.w
        } else {
            n.w
        }) <= 12 * sc);
    };
    // e * sn >= 100 * 750000 * sc, so sq >= sp + 63 sc.
    assert(e * sn >= 75 * (sc * sc)) by (nonlinear_arith)
        requires
            sn >= v4_dot(n, n) * sc,
            v4_dot(n, n) >= 3 * sc / 4,
            sc == 1000000int,
            e == 100int,
    ;
    assert(sc * (sq - sp) >= 63 * (sc * sc)) by (nonlinear_arith)
        requires
            sc * (sq - sp) >= e * sn - sc * (12 * sc),
            e * sn >= 75 * (sc * sc),
            sc == 1000000int,
    ;
    assert(sq - sp >= 63 * sc) by (nonlinear_arith)
        requires
            sc * (sq - sp) >= 63 * (sc * sc),
            sc == 1000000int,
    ;
    // Pass from exact sums to the truncating fixed-point dots.
    lemma_sdiv_vs_floor(sq, sc);
    lemma_sdiv_vs_floor(sp, sc);
    lemma_div_is_ordered(sp + 63 * sc, sq, sc);
    lemma_hoist_over_denominator(sp, 63, SCALE as nat);
}

/// Ascending by `t`; ties in `t` fall in no set order.
pub open spec fn sorted_by_t(s: Seq<Intersection>) -> bool {
    forall|i: int, j: int| 0 <= i < j < s.len() ==> s[i].t <= s[j].t
}

/// What a correct hit for the contents `s` is: none exactly when every
/// distance is negative, else an element with the least nonnegative `t`.
pub open spec fn hit_of(s: Seq<Intersection>, r: Option<Intersection>) -> bool {
    match r {
        None => forall|i: int| 0 <= i < s.len() ==> s[i].t < 0,
        Some(h) => s.contains(h) && h.t >= 0 && forall|i: int|
            0 <= i < s.len() && s[i].t >= 0 ==> h.t <= s[i].t,
    }
}

/// An ordered set of intersections, kept sorted ascending by `t`, with
/// the visible hit cached and recomputed on every mutation.
#[derive(Debug)]
pub struct Intersections {
    inner: Vec<Intersection>,
    current_hit: Option<Intersection>,
}

impl View for Intersections {
    type V = Seq<Intersection>;

    closed spec fn view(&self) -> Seq<Intersection> {
        self.inner@
    }
}

/// Sorts by `t`, keeping the contents as a multiset.
fn sort_by_t(input: Vec<Intersection>) -> (out: Vec<Intersection>)
    ensures
        sorted_by_t(out@),
        out@.to_multiset() == input@.to_multiset(),
{
    broadcast use group_to_multiset_ensures, to_multiset_insert;

    let mut out: Vec<Intersection> = Vec::new();
    let mut k: usize = 0;
    proof {
        assert(input@.subrange(0, 0) =~= Seq::<Intersection>::empty());
        assert(out@.to_multiset() =~= input@.subrange(0, 0).to_multiset());
    }
    while k < input.len()
        invariant
            k <= input.len(),
            sorted_by_t(out@),
            out@.to_multiset() == input@.subrange(0, k as int).to_multiset(),
        decreases input.len() - k,
    {
        let x = input[k];
        let ghost prefix = input@.subrange(0, k as int);
        let mut pos: usize = 0;
        while pos < out.len() && out[pos].t <= x.t
            invariant
                pos <= out.len(),
                sorted_by_t(out@),
                forall|i: int| 0 <= i < pos ==> out@[i].t <= x.t,
            decreases out.len() - pos,
        {
            pos = pos + 1;
        }
        let ghost before = out@;
        out.insert(pos, x);
        proof {
            assert(sorted_by_t(out@)) by {
                assert forall|i: int, j: int| 0 <= i < j < out@.len() implies out@[i].t
                    <= out@[j].t by {
                    if j < pos {
                    } else if i >= pos + 1 {
                        assert(out@[i] == before[i - 1] && out@[j] == before[j - 1]);
                    } else if i < pos && j == pos {
                        assert(out@[i] == before[i]);
                    } else if i == pos && j > pos {
                        assert(out@[j] == before[j - 1]);
                        assert(before[pos as int].t > x.t);
                    } else if i < pos && j > pos {
                        assert(out@[i] == before[i] && out@[j] == before[j - 1]);
                    }
                }
            }
            assert(input@.subrange(0, k + 1int) =~= prefix.push(x));
            to_multiset_insert(before, pos as int, x);
            vstd::seq_lib::to_multiset_build(prefix, x);
            assert(out@.to_multiset() =~= before.to_multiset().insert(x));
            assert(prefix.push(x).to_multiset() =~= prefix.to_multiset().insert(x));
            assert(out@.to_multiset() =~= input@.subrange(0, k + 1int).to_multiset());
        }
        k = k + 1;
    }
    proof {
        assert(input@.subrange(0, input@.len() as int) =~= input@);
    }
    out
}

/// The first intersection with nonnegative `t` in a sorted sequence is
/// the visible hit, if any is.
fn find_hit(v: &Vec<Intersection>) -> (r: Option<Intersection>)
    requires
        sorted_by_t(v@),
    ensures
        hit_of(v@, r),
{
    let mut i: usize = 0;
    while i < v.len()
        invariant
            i <= v.len(),
            sorted_by_t(v@),
            forall|j: int| 0 <= j < i ==> v@[j].t < 0,
        decreases v.len() - i,
    {
        if v[i].t >= 0 {
            let h = v[i];
            proof {
                assert(v@.contains(h)) by {
                    assert(v@[i as int] == h);
                }
            }
            return Some(h);
        }
        i = i + 1;
    }
    None
}

impl Intersections {
    /// Well-formed: sorted ascending by `t`, cached hit consistent.
    pub closed spec fn wf(&self) -> bool {
        sorted_by_t(self.inner@) && hit_of(self.inner@, self.current_hit)
    }

    /// Gathers candidate hits, sorts them by `t`, and caches the visible
    /// hit: the intersection of least nonnegative `t`, if one exists.
    pub fn new(range: Vec<Intersection>) -> (xs: Intersections)
        ensures
            xs.wf(),
            sorted_by_t(xs@),
            xs@.to_multiset() == range@.to_multiset(),
    {
        let inner = sort_by_t(range);
        let current_hit = find_hit(&inner);
        Intersections { inner, current_hit }
    }

    /// Merges another set into this one, keeping the sort order and
    /// recomputing the cached hit from the merged contents.
    pub fn extend(&mut self, range: Intersections)
        ensures
            final(self).wf(),
            sorted_by_t(final(self)@),
            final(self)@.to_multiset() == old(self)@.to_multiset().add(range@.to_multiset()),
    {
        let mut merged = Vec::new();
        core::mem::swap(&mut merged, &mut self.inner);
        let ghost left = merged@;
        let mut tail = range.inner;
        merged.append(&mut tail);
        proof {
            lemma_multiset_commutative(left, range.inner@);
        }
        let sorted = sort_by_t(merged);
        let current_hit = find_hit(&sorted);
        self.inner = sorted;
        self.current_hit = current_hit;
    }

    /// How many intersections the set holds.
    pub fn len(&self) -> (n: usize)
        ensures
            n == self@.len(),
    {
        self.inner.len()
    }

    /// The intersection at sorted rank `i`.
    pub fn get(&self, i: usize) -> (r: Intersection)
        requires
            i < self@.len(),
        ensures
            r == self@[i as int],
    {
        self.inner[i]
    }

    /// The visible hit: the intersection with the least nonnegative `t`,
    /// or none when every `t` is negative or the set is empty.
    pub fn hit(&self) -> (r: Option<Intersection>)
        requires
            self.wf(),
        ensures
            hit_of(self@, r),
            r is None ==> forall|i: int| 0 <= i < self@.len() ==> self@[i].t < 0,
            r is Some ==> self@.contains(r->0) && r->0.t >= 0 && forall|i: int|
                0 <= i < self@.len() && self@[i].t >= 0 ==> r->0.t <= self@[i].t,
    {
        self.current_hit
    }
}

/// The two distances at which a ray meets a sphere, by the quadratic
/// formula over fixed-point scalars; none when the discriminant is
/// negative and the ray misses.
pub open spec fn spec_sphere_ts(c: V4, radius: int, r: RayV) -> Option<(int, int)> {
    let sr = crate::tuple::v4_sub(r.origin, c);
    let a = v4_dot(r.direction, r.direction);
    let b = 2 * v4_dot(r.direction, sr);
    let cc = v4_dot(sr, sr) - crate::fixed::fx_mul(radius, radius);
    let disc = crate::fixed::fx_mul(b, b) - 4 * crate::fixed::fx_mul(a, cc);
    if disc < 0 {
        None
    } else {
        Some(
            (
                crate::fixed::fx_div(-b - crate::fixed::fx_sqrt(disc), 2 * a),
                crate::fixed::fx_div(-b + crate::fixed::fx_sqrt(disc), 2 * a),
            ),
        )
    }
}

/// The distance at which a ray meets the plane `y == 0`; none when the
/// ray runs parallel to it, within EPSILON.
pub open spec fn spec_plane_t(r: RayV) -> Option<int> {
    if -(EPSILON as int) < r.direction.y < EPSILON as int {
        None
    } else {
        Some(crate::fixed::fx_div(-r.origin.y, r.direction.y))
    }
}

/// The scale on which ray casting stays within the machine: the scene
/// within 100 world units of the origin, a near-unit ray direction.
pub open spec fn cast_ok(s: Shape, r: RayV) -> bool {
    within_units(r.origin, 100_000_000int) && within_units(r.direction, 10_000_000int) && v4_dot(
        r.direction,
        r.direction,
    ) >= 1 && match s {
        Shape::Sphere { center, .. } => within_units(center@, 100_000_000int),
        Shape::Plane { .. } => true,
    }
}

impl Shape {
    /// The intersections of `ray` with this shape, as a sorted set with
    /// its hit cached: two for a sphere it meets, one for a plane not
    /// parallel to it, none otherwise.
    pub fn intersect(&self, ray: &Ray) -> (xs: Intersections)
        requires
            shape_ok(*self),
            cast_ok(*self, ray@),
        ensures
            xs.wf(),
            sorted_by_t(xs@),
            forall|i: int| 0 <= i < xs@.len() ==> xs@[i].object == *self,
            match *self {
                Shape::Sphere { center, radius, .. } => match spec_sphere_ts(
                    center@,
                    radius as int,
                    ray@,
                ) {
                    None => xs@.len() == 0,
                    Some(ts) => xs@.len() == 2 && xs@[0].t as int == ts.0 && xs@[1].t as int
                        == ts.1,
                },
                Shape::Plane { .. } => match spec_plane_t(ray@) {
                    None => xs@.len() == 0,
                    Some(t) => xs@.len() == 1 && xs@[0].t as int == t,
                },
            },
    {
        match self {
            Shape::Sphere { center, radius, .. } => {
                let sr = ray.origin.minus(center);
                let a = ray.direction.dot(&ray.direction);
                proof {
                    lemma_dot_bound(ray@.direction, ray@.direction, 10_000_000int);
                    lemma_dot_bound(ray@.direction, sr@, 200_000_000int);
                }
                let b = 2 * ray.direction.dot(&sr);
                proof {
                    lemma_dot_bound(sr@, sr@, 200_000_000int);
                    lemma_fx_mul_bound(*radius as int, *radius as int, 1_000_000_000int,
                        1_000_000_000int);
                }
                let cc = sr.dot(&sr) - crate::fixed::mul_fx(*radius, *radius);
                proof {
                    lemma_fx_mul_bound(b as int, b as int, 320_000_000_000int, 320_000_000_000int);
                    lemma_fx_mul_bound(a as int, cc as int, 400_000_000int, 1_160_000_000_000int);
                }
                let b2 = crate::fixed::mul_fx(b, b);
                let ac = crate::fixed::mul_fx(a, cc);
                let disc = b2 - 4 * ac;
                if disc < 0 {
                    Intersections { inner: Vec::new(), current_hit: None }
                } else {
                    let sq = crate::fixed::sqrt_fx(disc);
                    proof {
                        crate::fixed::lemma_sqrt_floor(disc as int * SCALE as int);
                        assert(sq as int <= 350_000_000_000int) by (nonlinear_arith)
                            requires
                                (sq as int) * (sq as int) <= disc as int * SCALE as int,
                                0 <= disc as int <= 110_000_000_000_000_000int,
                                sq as int >= 0,
                                SCALE as int == 1000000int,
                        ;
                    }
                    let t1 = crate::fixed::div_fx(-b - sq, 2 * a);
                    let t2 = crate::fixed::div_fx(-b + sq, 2 * a);
                    proof {
                        crate::fixed::lemma_sdiv_ordered(
                            (-b - sq) as int * SCALE as int,
                            (-b + sq) as int * SCALE as int,
                            2 * a as int,
                        );
                    }
                    let i1 = Intersection { t: t1, object: *self };
                    let i2 = Intersection { t: t2, object: *self };
                    let inner = vec![i1, i2];
                    let current_hit = find_hit(&inner);
                    Intersections { inner, current_hit }
                }
            },
            Shape::Plane { .. } => {
                if -EPSILON < ray.direction.y && ray.direction.y < EPSILON {
                    Intersections { inner: Vec::new(), current_hit: None }
                } else {
                    let t = crate::fixed::div_fx(-ray.origin.y, ray.direction.y);
                    let i1 = Intersection { t, object: *self };
                    let inner = vec![i1];
                    let current_hit = find_hit(&inner);
                    Intersections { inner, current_hit }
                }
            },
        }
    }
}

/// The visible hit is determined, up to its distance, by the contents
/// alone: sets holding the same intersections agree on whether a hit
/// exists, on its `t`, and on their length, whatever their order.
pub proof fn lemma_hit_by_contents(
    s1: Seq<Intersection>,
    s2: Seq<Intersection>,
    r1: Option<Intersection>,
    r2: Option<Intersection>,
)
    requires
        s1.to_multiset() == s2.to_multiset(),
        hit_of(s1, r1),
        hit_of(s2, r2),
    ensures
        s1.len() == s2.len(),
        r1 is Some <==> r2 is Some,
        r1 is Some && r2 is Some ==> r1->0.t == r2->0.t,
{
    broadcast use group_to_multiset_ensures;

    assert(s1.len() == s1.to_multiset().len());
    assert(s2.len() == s2.to_multiset().len());
    if r1 is Some {
        let h = r1->0;
        assert(s2.to_multiset().count(h) > 0);
        assert(s2.contains(h));
        let i = choose|i: int| 0 <= i < s2.len() && s2[i] == h;
        assert(r2 is Some);
    }
    if r2 is Some {
        let h = r2->0;
        assert(s1.to_multiset().count(h) > 0);
        assert(s1.contains(h));
        let i = choose|i: int| 0 <= i < s1.len() && s1[i] == h;
        assert(r1 is Some);
    }
    if r1 is Some && r2 is Some {
        let h1 = r1->0;
        let h2 = r2->0;
        assert(s2.to_multiset().count(h1) > 0);
        assert(s1.to_multiset().count(h2) > 0);
        assert(s2.contains(h1));
        assert(s1.contains(h2));
        let i1 = choose|i: int| 0 <= i < s1.len() && s1[i] == h2;
        let i2 = choose|i: int| 0 <= i < s2.len() && s2[i] == h1;
        assert(h1.t <= s1[i1].t);
        assert(h2.t <= s2[i2].t);
    }
}

/// Merging A into B or B into A yields the same length and the same hit
/// distance, whichever order the merge runs in.
pub proof fn lemma_extend_commutes(
    a: Seq<Intersection>,
    b: Seq<Intersection>,
    sab: Seq<Intersection>,
    sba: Seq<Intersection>,
    rab: Option<Intersection>,
    rba: Option<Intersection>,
)
    requires
        sab.to_multiset() == a.to_multiset().add(b.to_multiset()),
        sba.to_multiset() == b.to_multiset().add(a.to_multiset()),
        hit_of(sab, rab),
        hit_of(sba, rba),
    ensures
        sab.len() == sba.len(),
        rab is Some <==> rba is Some,
        rab is Some && rba is Some ==> rab->0.t == rba->0.t,
{
    broadcast use vstd::multiset::group_multiset_axioms;

    assert(a.to_multiset().add(b.to_multiset()) =~= b.to_multiset().add(a.to_multiset()));
    lemma_hit_by_contents(sab, sba, rab, rba);
}

} // verus!
