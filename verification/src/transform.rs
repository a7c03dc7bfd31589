//! Affine world transforms, each carried together with its inverse.

use vstd::prelude::*;
use crate::fixed::{SCALE, fx_mul, fx_div, mul_fx, div_fx, lemma_fx_mul_bound};
use crate::tuple::{Tuple, V4, v4_sub, v4_norm, v4_cross, v4_dot, within_units};

verus! {

/// Model of an affine map: a 3x3 linear part and a translation column.
pub ghost struct AffV {
    pub xx: int, pub xy: int, pub xz: int, pub tx: int,
    pub yx: int, pub yy: int, pub yz: int, pub ty: int,
    pub zx: int, pub zy: int, pub zz: int, pub tz: int,
}

/// An affine map over fixed-point scalars. The bottom row is implicitly
/// `(0, 0, 0, 1)`: points translate, vectors do not.
#[derive(Clone, Copy, PartialEq, Eq, Structural, Debug)]
pub struct Affine {
    pub xx: i64, pub xy: i64, pub xz: i64, pub tx: i64,
    pub yx: i64, pub yy: i64, pub yz: i64, pub ty: i64,
    pub zx: i64, pub zy: i64, pub zz: i64, pub tz: i64,
}

impl View for Affine {
    type V = AffV;

    open spec fn view(&self) -> AffV {
        AffV {
            xx: self.xx as int, xy: self.xy as int, xz: self.xz as int, tx: self.tx as int,
            yx: self.yx as int, yy: self.yy as int, yz: self.yz as int, ty: self.ty as int,
            zx: self.zx as int, zy: self.zy as int, zz: self.zz as int, tz: self.tz as int,
        }
    }
}

/// All entries within 1000 world units: the scale the machine admits.
pub open spec fn aff_ok(a: AffV) -> bool {
    -1_000_000_000 <= a.xx <= 1_000_000_000 && -1_000_000_000 <= a.xy <= 1_000_000_000
        && -1_000_000_000 <= a.xz <= 1_000_000_000 && -1_000_000_000 <= a.tx <= 1_000_000_000
        && -1_000_000_000 <= a.yx <= 1_000_000_000 && -1_000_000_000 <= a.yy <= 1_000_000_000
        && -1_000_000_000 <= a.yz <= 1_000_000_000 && -1_000_000_000 <= a.ty <= 1_000_000_000
        && -1_000_000_000 <= a.zx <= 1_000_000_000 && -1_000_000_000 <= a.zy <= 1_000_000_000
        && -1_000_000_000 <= a.zz <= 1_000_000_000 && -1_000_000_000 <= a.tz <= 1_000_000_000
}

/// The map applied to a tuple; the translation column scales with `w`.
pub open spec fn aff_apply(a: AffV, p: V4) -> V4 {
    V4 {
        x: fx_mul(a.xx, p.x) + fx_mul(a.xy, p.y) + fx_mul(a.xz, p.z) + fx_mul(a.tx, p.w),
        y: fx_mul(a.yx, p.x) + fx_mul(a.yy, p.y) + fx_mul(a.yz, p.z) + fx_mul(a.ty, p.w),
        z: fx_mul(a.zx, p.x) + fx_mul(a.zy, p.y) + fx_mul(a.zz, p.z) + fx_mul(a.tz, p.w),
        w: p.w,
    }
}

/// One row of a linear combination: `a1 b1 + a2 b2 + a3 b3`, each product
/// rounded once.
pub open spec fn spec_row3(a1: int, a2: int, a3: int, b1: int, b2: int, b3: int) -> int {
    fx_mul(a1, b1) + fx_mul(a2, b2) + fx_mul(a3, b3)
}

/// The composition `a` after `b`, entry by entry.
pub open spec fn aff_compose(a: AffV, b: AffV) -> AffV {
    AffV {
        xx: spec_row3(a.xx, a.xy, a.xz, b.xx, b.yx, b.zx),
        xy: spec_row3(a.xx, a.xy, a.xz, b.xy, b.yy, b.zy),
        xz: spec_row3(a.xx, a.xy, a.xz, b.xz, b.yz, b.zz),
        tx: spec_row3(a.xx, a.xy, a.xz, b.tx, b.ty, b.tz) + a.tx,
        yx: spec_row3(a.yx, a.yy, a.yz, b.xx, b.yx, b.zx),
        yy: spec_row3(a.yx, a.yy, a.yz, b.xy, b.yy, b.zy),
        yz: spec_row3(a.yx, a.yy, a.yz, b.xz, b.yz, b.zz),
        ty: spec_row3(a.yx, a.yy, a.yz, b.tx, b.ty, b.tz) + a.ty,
        zx: spec_row3(a.zx, a.zy, a.zz, b.xx, b.yx, b.zx),
        zy: spec_row3(a.zx, a.zy, a.zz, b.xy, b.yy, b.zy),
        zz: spec_row3(a.zx, a.zy, a.zz, b.xz, b.yz, b.zz),
        tz: spec_row3(a.zx, a.zy, a.zz, b.tx, b.ty, b.tz) + a.tz,
    }
}

/// One row of a linear combination, executable.
fn row3(a1: i64, a2: i64, a3: i64, b1: i64, b2: i64, b3: i64) -> (r: i64)
    requires
        -1_000_000_000 <= a1 <= 1_000_000_000,
        -1_000_000_000 <= a2 <= 1_000_000_000,
        -1_000_000_000 <= a3 <= 1_000_000_000,
        -1_000_000_000 <= b1 <= 1_000_000_000,
        -1_000_000_000 <= b2 <= 1_000_000_000,
        -1_000_000_000 <= b3 <= 1_000_000_000,
    ensures
        r as int == spec_row3(a1 as int, a2 as int, a3 as int, b1 as int, b2 as int, b3 as int),
        -3_000_000_000_000 <= r <= 3_000_000_000_000,
{
    proof {
        lemma_fx_mul_bound(a1 as int, b1 as int, 1_000_000_000int, 1_000_000_000int);
        lemma_fx_mul_bound(a2 as int, b2 as int, 1_000_000_000int, 1_000_000_000int);
        lemma_fx_mul_bound(a3 as int, b3 as int, 1_000_000_000int, 1_000_000_000int);
    }
    mul_fx(a1, b1) + mul_fx(a2, b2) + mul_fx(a3, b3)
}

impl Affine {
    pub fn identity() -> (a: Affine)
        ensures
            a@ == spec_identity(),
    {
        Affine {
            xx: SCALE, xy: 0, xz: 0, tx: 0,
            yx: 0, yy: SCALE, yz: 0, ty: 0,
            zx: 0, zy: 0, zz: SCALE, tz: 0,
        }
    }

    /// Applies the map to a tuple.
    pub fn apply(&self, p: &Tuple) -> (r: Tuple)
        requires
            aff_ok(self@),
            within_units(p@, 1_000_000_000int),
        ensures
            r@ == aff_apply(self@, p@),
            within_units(r@, 4_000_000_000_000int),
    {
        proof {
            lemma_row_bounds(self@, p@);
        }
        Tuple {
            x: row3(self.xx, self.xy, self.xz, p.x, p.y, p.z) + mul_fx(self.tx, p.w),
            y: row3(self.yx, self.yy, self.yz, p.x, p.y, p.z) + mul_fx(self.ty, p.w),
            z: row3(self.zx, self.zy, self.zz, p.x, p.y, p.z) + mul_fx(self.tz, p.w),
            w: p.w,
        }
    }

    /// The composition of this map after `o`.
    pub fn compose(&self, o: &Affine) -> (r: Affine)
        requires
            aff_ok(self@),
            aff_ok(o@),
        ensures
            r@ == aff_compose(self@, o@),
    {
        Affine {
            xx: row3(self.xx, self.xy, self.xz, o.xx, o.yx, o.zx),
            xy: row3(self.xx, self.xy, self.xz, o.xy, o.yy, o.zy),
            xz: row3(self.xx, self.xy, self.xz, o.xz, o.yz, o.zz),
            tx: row3(self.xx, self.xy, self.xz, o.tx, o.ty, o.tz) + self.tx,
            yx: row3(self.yx, self.yy, self.yz, o.xx, o.yx, o.zx),
            yy: row3(self.yx, self.yy, self.yz, o.xy, o.yy, o.zy),
            yz: row3(self.yx, self.yy, self.yz, o.xz, o.yz, o.zz),
            ty: row3(self.yx, self.yy, self.yz, o.tx, o.ty, o.tz) + self.ty,
            zx: row3(self.zx, self.zy, self.zz, o.xx, o.yx, o.zx),
            zy: row3(self.zx, self.zy, self.zz, o.xy, o.yy, o.zy),
            zz: row3(self.zx, self.zy, self.zz, o.xz, o.yz, o.zz),
            tz: row3(self.zx, self.zy, self.zz, o.tx, o.ty, o.tz) + self.tz,
        }
    }

    /// Whether every entry stays within 1000 world units.
    pub fn in_range(&self) -> (b: bool)
        ensures
            b == aff_ok(self@),
    {
        self.xx >= -1_000_000_000 && self.xx <= 1_000_000_000 && self.xy >= -1_000_000_000
            && self.xy <= 1_000_000_000 && self.xz >= -1_000_000_000 && self.xz <= 1_000_000_000
            && self.tx >= -1_000_000_000 && self.tx <= 1_000_000_000 && self.yx >= -1_000_000_000
            && self.yx <= 1_000_000_000 && self.yy >= -1_000_000_000 && self.yy <= 1_000_000_000
            && self.yz >= -1_000_000_000 && self.yz <= 1_000_000_000 && self.ty >= -1_000_000_000
            && self.ty <= 1_000_000_000 && self.zx >= -1_000_000_000 && self.zx <= 1_000_000_000
            && self.zy >= -1_000_000_000 && self.zy <= 1_000_000_000 && self.zz >= -1_000_000_000
            && self.zz <= 1_000_000_000 && self.tz >= -1_000_000_000 && self.tz <= 1_000_000_000
    }
}

pub open spec fn spec_identity() -> AffV {
    AffV {
        xx: SCALE as int, xy: 0int, xz: 0int, tx: 0int,
        yx: 0int, yy: SCALE as int, yz: 0int, ty: 0int,
        zx: 0int, zy: 0int, zz: SCALE as int, tz: 0int,
    }
}

/// Term bounds for `apply`: every product stays within the machine.
proof fn lemma_row_bounds(a: AffV, p: V4)
    requires
        aff_ok(a),
        within_units(p, 1_000_000_000int),
    ensures
        -1_000_000_000_000 <= fx_mul(a.tx, p.w) <= 1_000_000_000_000,
        -1_000_000_000_000 <= fx_mul(a.ty, p.w) <= 1_000_000_000_000,
        -1_000_000_000_000 <= fx_mul(a.tz, p.w) <= 1_000_000_000_000,
{
    lemma_fx_mul_bound(a.tx, p.w, 1_000_000_000int, 1_000_000_000int);
    lemma_fx_mul_bound(a.ty, p.w, 1_000_000_000int, 1_000_000_000int);
    lemma_fx_mul_bound(a.tz, p.w, 1_000_000_000int, 1_000_000_000int);
}

/// An invertible placement in world space: the map and its inverse,
/// carried together so that no inversion runs at render time.
#[derive(Clone, Copy, PartialEq, Eq, Structural, Debug)]
pub struct Transform {
    pub m: Affine,
    pub inv: Affine,
}

impl Transform {
    pub fn identity() -> (t: Transform)
        ensures
            t.m@ == spec_identity(),
            t.inv@ == spec_identity(),
            placement_wf(t),
    {
        let t = Transform { m: Affine::identity(), inv: Affine::identity() };
        proof {
            assert(form_pair(PlacementForm::Identity) == (t.m@, t.inv@));
        }
        t
    }

    /// Translation by `(x, y, z)`; its inverse translates back.
    pub fn translation(x: i64, y: i64, z: i64) -> (t: Transform)
        requires
            -1_000_000_000 <= x <= 1_000_000_000,
            -1_000_000_000 <= y <= 1_000_000_000,
            -1_000_000_000 <= z <= 1_000_000_000,
        ensures
            t.m@ == (AffV { tx: x as int, ty: y as int, tz: z as int, ..spec_identity() }),
            t.inv@ == (AffV { tx: -(x as int), ty: -(y as int), tz: -(z as int), ..spec_identity() }),
            placement_wf(t),
    {
        let mut m = Affine::identity();
        let mut inv = Affine::identity();
        m.tx = x;
        m.ty = y;
        m.tz = z;
        inv.tx = -x;
        inv.ty = -y;
        inv.tz = -z;
        let t = Transform { m, inv };
        proof {
            assert(form_pair(
                PlacementForm::Translation { x: x as int, y: y as int, z: z as int },
            ) == (t.m@, t.inv@));
        }
        t
    }

    /// Scaling by `(x, y, z)`; its inverse divides, rounded once.
    pub fn scaling(x: i64, y: i64, z: i64) -> (t: Transform)
        requires
            x != 0 && y != 0 && z != 0,
            -1_000_000_000 <= x <= 1_000_000_000,
            -1_000_000_000 <= y <= 1_000_000_000,
            -1_000_000_000 <= z <= 1_000_000_000,
        ensures
            t.m@ == (AffV { xx: x as int, yy: y as int, zz: z as int, ..spec_identity() }),
            t.inv@ == (AffV {
                xx: fx_div(SCALE as int, x as int),
                yy: fx_div(SCALE as int, y as int),
                zz: fx_div(SCALE as int, z as int),
                ..spec_identity()
            }),
            placement_wf(t),
    {
        let mut m = Affine::identity();
        let mut inv = Affine::identity();
        m.xx = x;
        m.yy = y;
        m.zz = z;
        inv.xx = div_fx(SCALE, x);
        inv.yy = div_fx(SCALE, y);
        inv.zz = div_fx(SCALE, z);
        let t = Transform { m, inv };
        proof {
            assert(form_pair(
                PlacementForm::Scaling { x: x as int, y: y as int, z: z as int },
            ) == (t.m@, t.inv@));
        }
        t
    }

    /// Rotation about the y axis, given the sine and cosine of the angle;
    /// its inverse is the transpose.
    pub fn rotation_y(sin: i64, cos: i64) -> (t: Transform)
        requires
            -1_000_000_000 <= sin <= 1_000_000_000,
            -1_000_000_000 <= cos <= 1_000_000_000,
        ensures
            t.m@ == (AffV { xx: cos as int, xz: sin as int, zx: -(sin as int), zz: cos as int, ..spec_identity() }),
            t.inv@ == (AffV { xx: cos as int, xz: -(sin as int), zx: sin as int, zz: cos as int, ..spec_identity() }),
            placement_wf(t),
    {
        let mut m = Affine::identity();
        let mut inv = Affine::identity();
        m.xx = cos;
        m.xz = sin;
        m.zx = -sin;
        m.zz = cos;
        inv.xx = cos;
        inv.xz = -sin;
        inv.zx = sin;
        inv.zz = cos;
        let t = Transform { m, inv };
        proof {
            assert(form_pair(
                PlacementForm::RotationY { sin: sin as int, cos: cos as int },
            ) == (t.m@, t.inv@));
        }
        t
    }

    /// The composition of this placement after `o`: maps compose forward,
    /// inverses compose in reverse.
    pub fn compose(&self, o: &Transform) -> (t: Transform)
        requires
            aff_ok(self.m@),
            aff_ok(self.inv@),
            aff_ok(o.m@),
            aff_ok(o.inv@),
            placement_wf(*self),
            placement_wf(*o),
        ensures
            t.m@ == aff_compose(self.m@, o.m@),
            t.inv@ == aff_compose(o.inv@, self.inv@),
            placement_wf(t),
    {
        let t = Transform { m: self.m.compose(&o.m), inv: o.inv.compose(&self.inv) };
        proof {
            let f1 = choose|f: PlacementForm| form_pair(f) == (self.m@, self.inv@);
            let f2 = choose|f: PlacementForm| form_pair(f) == (o.m@, o.inv@);
            assert(form_pair(
                PlacementForm::Composed { first: Box::new(f1), second: Box::new(f2) },
            ) == (t.m@, t.inv@));
        }
        t
    }

    /// The camera placement looking from `from` toward `to` with `up`
    /// overhead: an orientation, whose inverse is its transpose, composed
    /// with a translation to the eye.
    pub fn view_transform(from: Tuple, to: Tuple, up: Tuple) -> (t: Transform)
        requires
            within_units(from@, 500_000_000int),
            within_units(to@, 500_000_000int),
            within_units(up@, 500_000_000int),
            v4_dot(v4_sub(to@, from@), v4_sub(to@, from@)) >= SCALE as int / 4,
            v4_dot(up@, up@) >= SCALE as int / 4,
        ensures
            t.m@ == aff_compose(
                spec_orientation(from@, to@, up@),
                AffV { tx: -from@.x, ty: -from@.y, tz: -from@.z, ..spec_identity() },
            ),
            t.inv@ == aff_compose(
                AffV { tx: from@.x, ty: from@.y, tz: from@.z, ..spec_identity() },
                spec_transpose(spec_orientation(from@, to@, up@)),
            ),
            placement_wf(t),
    {
        let fv = to.minus(&from);
        let forward = fv.normalize();
        let upn = up.normalize();
        let left = forward.cross(&upn);
        proof {
            crate::tuple::lemma_cross_bound(forward@, upn@, 3_000_000int, 3_000_000int);
        }
        let true_up = left.cross(&forward);
        proof {
            crate::tuple::lemma_cross_bound(left@, forward@, 18_000_000int, 3_000_000int);
        }
        let orient = Affine {
            xx: left.x, xy: left.y, xz: left.z, tx: 0,
            yx: true_up.x, yy: true_up.y, yz: true_up.z, ty: 0,
            zx: -forward.x, zy: -forward.y, zz: -forward.z, tz: 0,
        };
        let orient_t = Affine {
            xx: left.x, xy: true_up.x, xz: -forward.x, tx: 0,
            yx: left.y, yy: true_up.y, yz: -forward.y, ty: 0,
            zx: left.z, zy: true_up.z, zz: -forward.z, tz: 0,
        };
        let back = Transform::translation(-from.x, -from.y, -from.z);
        let fwd = Transform::translation(from.x, from.y, from.z);
        let t = Transform { m: orient.compose(&back.m), inv: fwd.m.compose(&orient_t) };
        proof {
            assert(form_pair(PlacementForm::View { from: from@, to: to@, up: up@ }) == (
                t.m@,
                t.inv@,
            ));
        }
        t
    }
}

/// The orientation rows of a view transform: left, true up, minus forward.
pub open spec fn spec_orientation(from: V4, to: V4, up: V4) -> AffV {
    let forward = v4_norm(v4_sub(to, from));
    let upn = v4_norm(up);
    let left = v4_cross(forward, upn);
    let true_up = v4_cross(left, forward);
    AffV {
        xx: left.x, xy: left.y, xz: left.z, tx: 0int,
        yx: true_up.x, yy: true_up.y, yz: true_up.z, ty: 0int,
        zx: -forward.x, zy: -forward.y, zz: -forward.z, tz: 0int,
    }
}

/// Rows and columns exchanged; the translation column is kept.
pub open spec fn spec_transpose(a: AffV) -> AffV {
    AffV {
        xx: a.xx, xy: a.yx, xz: a.zx, tx: a.tx,
        yx: a.xy, yy: a.yy, yz: a.zy, ty: a.ty,
        zx: a.xz, zy: a.yz, zz: a.zz, tz: a.tz,
    }
}

/// How a placement pair can have been built: the algebra of constructors
/// this module offers. Each form's inverse is fixed by its map.
pub ghost enum PlacementForm {
    Identity,
    Translation { x: int, y: int, z: int },
    Scaling { x: int, y: int, z: int },
    RotationY { sin: int, cos: int },
    View { from: V4, to: V4, up: V4 },
    Composed { first: Box<PlacementForm>, second: Box<PlacementForm> },
}

/// The map and inverse a placement form denotes.
pub open spec fn form_pair(f: PlacementForm) -> (AffV, AffV)
    decreases f,
{
    match f {
        PlacementForm::Identity => (spec_identity(), spec_identity()),
        PlacementForm::Translation { x, y, z } => (
            AffV { tx: x, ty: y, tz: z, ..spec_identity() },
            AffV { tx: -x, ty: -y, tz: -z, ..spec_identity() },
        ),
        PlacementForm::Scaling { x, y, z } => (
            AffV { xx: x, yy: y, zz: z, ..spec_identity() },
            AffV {
                xx: fx_div(SCALE as int, x),
                yy: fx_div(SCALE as int, y),
                zz: fx_div(SCALE as int, z),
                ..spec_identity()
            },
        ),
        PlacementForm::RotationY { sin, cos } => (
            AffV { xx: cos, xz: sin, zx: -sin, zz: cos, ..spec_identity() },
            AffV { xx: cos, xz: -sin, zx: sin, zz: cos, ..spec_identity() },
        ),
        PlacementForm::View { from, to, up } => (
            aff_compose(
                spec_orientation(from, to, up),
                AffV { tx: -from.x, ty: -from.y, tz: -from.z, ..spec_identity() },
            ),
            aff_compose(
                AffV { tx: from.x, ty: from.y, tz: from.z, ..spec_identity() },
                spec_transpose(spec_orientation(from, to, up)),
            ),
        ),
        PlacementForm::Composed { first, second } => (
            aff_compose(form_pair(*first).0, form_pair(*second).0),
            aff_compose(form_pair(*second).1, form_pair(*first).1),
        ),
    }
}

/// The pair was built by the placement algebra: `inv` is the rounded
/// inverse the algebra assigns to `m`.
pub open spec fn placement_wf(t: Transform) -> bool {
    exists|f: PlacementForm| #[trigger] form_pair(f) == (t.m@, t.inv@)
}

} // verus!
