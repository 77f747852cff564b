//! Geometric primitives and their affine operations.
//!
//! The four primitive shapes are a closed set; generic operations pattern
//! match on the variant. Coordinates are fixed-point (`i64`, 10^-6 mm).
//! Arcs carry their start and end points together with the turn direction;
//! a front end derives start and sweep angles from them. Every executable
//! operation has a spec twin that states its result exactly.

use vstd::prelude::*;
use crate::fixed::{
    div_trunc, sat_i64, spec_fix_mul, spec_sat_add, spec_sat_sub, fix_mul, sat_add, sat_sub,
    sat_i64_exec, isqrt, FIX_ONE,
};
use crate::trig::{spec_sin_mdeg, spec_cos_mdeg, sin_mdeg, cos_mdeg};

verus! {

/// A point in fixed-point millimetres.
#[verifier::ext_equal]
#[derive(Clone, Copy, Debug, PartialEq, Eq, Structural)]
pub struct Point {
    pub x: i64,
    pub y: i64,
}

/// A vectorized primitive shape.
///
/// `exposure` is true for material added (positive), false for material
/// removed (negative). Holes on triangles and circles are round cut-outs
/// realized by the fragment stage; `hole_radius == 0` means no hole.
#[verifier::ext_equal]
#[derive(Clone, Copy, Debug, PartialEq, Eq, Structural)]
pub enum Primitive {
    Triangle {
        v1: Point,
        v2: Point,
        v3: Point,
        exposure: bool,
        hole_x: i64,
        hole_y: i64,
        hole_radius: i64,
    },
    Circle {
        x: i64,
        y: i64,
        radius: i64,
        exposure: bool,
        hole_x: i64,
        hole_y: i64,
        hole_radius: i64,
    },
    Arc {
        x: i64,
        y: i64,
        radius: i64,
        start_x: i64,
        start_y: i64,
        end_x: i64,
        end_y: i64,
        clockwise: bool,
        thickness: i64,
        exposure: bool,
    },
    Thermal {
        x: i64,
        y: i64,
        outer_diameter: i64,
        inner_diameter: i64,
        gap_thickness: i64,
        rotation_mdeg: i64,
        exposure: bool,
    },
}

pub open spec fn prim_exposure(p: Primitive) -> bool {
    match p {
        Primitive::Triangle { exposure, .. } => exposure,
        Primitive::Circle { exposure, .. } => exposure,
        Primitive::Arc { exposure, .. } => exposure,
        Primitive::Thermal { exposure, .. } => exposure,
    }
}

/// Whether a primitive removes material.
pub fn is_negative(p: &Primitive) -> (r: bool)
    ensures
        r == !prim_exposure(*p),
{
    match p {
        Primitive::Triangle { exposure, .. } => !*exposure,
        Primitive::Circle { exposure, .. } => !*exposure,
        Primitive::Arc { exposure, .. } => !*exposure,
        Primitive::Thermal { exposure, .. } => !*exposure,
    }
}

/// A point rotated by `a` milli-degrees around `(cx, cy)`.
pub open spec fn spec_rotate_point(p: Point, a: int, cx: int, cy: int) -> Point {
    let c = spec_cos_mdeg(a);
    let s = spec_sin_mdeg(a);
    let dx = spec_sat_sub(p.x as int, cx);
    let dy = spec_sat_sub(p.y as int, cy);
    Point {
        x: spec_sat_add(cx, spec_sat_sub(spec_fix_mul(dx, c), spec_fix_mul(dy, s))) as i64,
        y: spec_sat_add(cy, spec_sat_add(spec_fix_mul(dx, s), spec_fix_mul(dy, c))) as i64,
    }
}

/// The quarter-wave interpolation at the two ends of the table.
proof fn lemma_interp_ends()
    ensures
        crate::trig::interp_quarter(0) == 0,
        crate::trig::interp_quarter(90_000) == FIX_ONE as int,
{
    assert(0int / 10_000 == 0);
    assert(0int % 10_000 == 0);
    assert(crate::trig::sin_table(0) == 0);
    assert(crate::trig::sin_table(1) == 173_648);
    assert((crate::trig::sin_table(1) - crate::trig::sin_table(0)) * 0 / 10_000 == 0)
        by (nonlinear_arith);
    assert(90_000int / 10_000 == 9) by (nonlinear_arith);
}

/// Rotation by zero is the identity (away from the saturation boundary):
/// the table gives cosine one and sine zero exactly, and the fixed-point
/// products collapse.
pub proof fn lemma_rotate_zero_identity(p: Point, cx: int, cy: int)
    requires
        -0x1000_0000_0000_0000 <= p.x as int <= 0x1000_0000_0000_0000,
        -0x1000_0000_0000_0000 <= p.y as int <= 0x1000_0000_0000_0000,
        -0x1000_0000_0000_0000 <= cx <= 0x1000_0000_0000_0000,
        -0x1000_0000_0000_0000 <= cy <= 0x1000_0000_0000_0000,
    ensures
        spec_rotate_point(p, 0, cx, cy) == p,
{
    lemma_interp_ends();
    assert(crate::trig::norm_mdeg(0) == 0);
    assert(crate::trig::norm_mdeg(90_000) == 90_000);
    assert(spec_sin_mdeg(90_000) == FIX_ONE as int);
    assert(spec_cos_mdeg(0) == FIX_ONE as int);
    assert(spec_sin_mdeg(0) == 0);
    let dx = spec_sat_sub(p.x as int, cx);
    let dy = spec_sat_sub(p.y as int, cy);
    lemma_fix_mul_identity(dx);
    lemma_fix_mul_identity(dy);
    assert(spec_fix_mul(dx, 0) == 0) by {
        assert(crate::fixed::div_trunc(dx * 0, FIX_ONE as int) == 0) by (nonlinear_arith);
    }
    assert(spec_fix_mul(dy, 0) == 0) by {
        assert(crate::fixed::div_trunc(dy * 0, FIX_ONE as int) == 0) by (nonlinear_arith);
    }
}

/// Rotation by a quarter turn is exact (away from the saturation
/// boundary): the table holds cosine zero and sine one at ninety degrees,
/// so the point maps to the exact perpendicular.
pub proof fn lemma_rotate_quarter_exact(p: Point, cx: int, cy: int)
    requires
        -0x1000_0000_0000_0000 <= p.x as int <= 0x1000_0000_0000_0000,
        -0x1000_0000_0000_0000 <= p.y as int <= 0x1000_0000_0000_0000,
        -0x1000_0000_0000_0000 <= cx <= 0x1000_0000_0000_0000,
        -0x1000_0000_0000_0000 <= cy <= 0x1000_0000_0000_0000,
    ensures
        spec_rotate_point(p, 90_000, cx, cy) == (Point {
            x: (cx - (p.y as int - cy)) as i64,
            y: (cy + (p.x as int - cx)) as i64,
        }),
{
    lemma_interp_ends();
    assert(crate::trig::norm_mdeg(90_000) == 90_000);
    assert(crate::trig::norm_mdeg(180_000) == 180_000);
    assert(spec_sin_mdeg(180_000) == 0);
    assert(spec_cos_mdeg(90_000) == 0);
    assert(spec_sin_mdeg(90_000) == FIX_ONE as int);
    let dx = spec_sat_sub(p.x as int, cx);
    let dy = spec_sat_sub(p.y as int, cy);
    lemma_fix_mul_identity(dx);
    lemma_fix_mul_identity(dy);
    assert(spec_fix_mul(dx, 0) == 0) by {
        assert(crate::fixed::div_trunc(dx * 0, FIX_ONE as int) == 0) by (nonlinear_arith);
    }
    assert(spec_fix_mul(dy, 0) == 0) by {
        assert(crate::fixed::div_trunc(dy * 0, FIX_ONE as int) == 0) by (nonlinear_arith);
    }
}

/// Rotate a point by `a` milli-degrees around `(cx, cy)`.
pub fn rotate_point(p: Point, a: i64, cx: i64, cy: i64) -> (r: Point)
    ensures
        r == spec_rotate_point(p, a as int, cx as int, cy as int),
{
    let c: i64 = cos_mdeg(a);
    let s: i64 = sin_mdeg(a);
    let dx: i64 = sat_sub(p.x, cx);
    let dy: i64 = sat_sub(p.y, cy);
    Point {
        x: sat_add(cx, sat_sub(fix_mul(dx, c), fix_mul(dy, s))),
        y: sat_add(cy, sat_add(fix_mul(dx, s), fix_mul(dy, c))),
    }
}

/// A primitive scaled by the fixed-point factor `s`: radii, thicknesses and
/// triangle vertices scale; circle, arc and thermal centers do not move.
pub open spec fn spec_scale_prim(p: Primitive, s: int) -> Primitive {
    match p {
        Primitive::Circle { x, y, radius, exposure, hole_x, hole_y, hole_radius } => {
            Primitive::Circle {
                x,
                y,
                radius: spec_fix_mul(radius as int, s) as i64,
                exposure,
                hole_x,
                hole_y,
                hole_radius: spec_fix_mul(hole_radius as int, s) as i64,
            }
        },
        Primitive::Triangle { v1, v2, v3, exposure, hole_x, hole_y, hole_radius } => {
            Primitive::Triangle {
                v1: spec_scale_point(v1, s),
                v2: spec_scale_point(v2, s),
                v3: spec_scale_point(v3, s),
                exposure,
                hole_x,
                hole_y,
                hole_radius: spec_fix_mul(hole_radius as int, s) as i64,
            }
        },
        Primitive::Arc {
            x, y, radius, start_x, start_y, end_x, end_y, clockwise, thickness, exposure,
        } => {
            Primitive::Arc {
                x,
                y,
                radius: spec_fix_mul(radius as int, s) as i64,
                start_x,
                start_y,
                end_x,
                end_y,
                clockwise,
                thickness: spec_fix_mul(thickness as int, s) as i64,
                exposure,
            }
        },
        Primitive::Thermal {
            x, y, outer_diameter, inner_diameter, gap_thickness, rotation_mdeg, exposure,
        } => {
            Primitive::Thermal {
                x,
                y,
                outer_diameter: spec_fix_mul(outer_diameter as int, s) as i64,
                inner_diameter: spec_fix_mul(inner_diameter as int, s) as i64,
                gap_thickness: spec_fix_mul(gap_thickness as int, s) as i64,
                rotation_mdeg,
                exposure,
            }
        },
    }
}

pub open spec fn spec_scale_point(p: Point, s: int) -> Point {
    Point {
        x: spec_fix_mul(p.x as int, s) as i64,
        y: spec_fix_mul(p.y as int, s) as i64,
    }
}

/// Scale a primitive by the fixed-point factor `scale`.
pub fn scale_primitive(p: &Primitive, scale: i64) -> (r: Primitive)
    ensures
        r == spec_scale_prim(*p, scale as int),
{
    if scale == FIX_ONE {
        proof {
            lemma_scale_identity(*p);
        }
        return *p;
    }
    match p {
        Primitive::Circle { x, y, radius, exposure, hole_x, hole_y, hole_radius } => {
            Primitive::Circle {
                x: *x,
                y: *y,
                radius: fix_mul(*radius, scale),
                exposure: *exposure,
                hole_x: *hole_x,
                hole_y: *hole_y,
                hole_radius: fix_mul(*hole_radius, scale),
            }
        },
        Primitive::Triangle { v1, v2, v3, exposure, hole_x, hole_y, hole_radius } => {
            Primitive::Triangle {
                v1: scale_point(*v1, scale),
                v2: scale_point(*v2, scale),
                v3: scale_point(*v3, scale),
                exposure: *exposure,
                hole_x: *hole_x,
                hole_y: *hole_y,
                hole_radius: fix_mul(*hole_radius, scale),
            }
        },
        Primitive::Arc {
            x, y, radius, start_x, start_y, end_x, end_y, clockwise, thickness, exposure,
        } => {
            Primitive::Arc {
                x: *x,
                y: *y,
                radius: fix_mul(*radius, scale),
                start_x: *start_x,
                start_y: *start_y,
                end_x: *end_x,
                end_y: *end_y,
                clockwise: *clockwise,
                thickness: fix_mul(*thickness, scale),
                exposure: *exposure,
            }
        },
        Primitive::Thermal {
            x, y, outer_diameter, inner_diameter, gap_thickness, rotation_mdeg, exposure,
        } => {
            Primitive::Thermal {
                x: *x,
                y: *y,
                outer_diameter: fix_mul(*outer_diameter, scale),
                inner_diameter: fix_mul(*inner_diameter, scale),
                gap_thickness: fix_mul(*gap_thickness, scale),
                rotation_mdeg: *rotation_mdeg,
                exposure: *exposure,
            }
        },
    }
}

fn scale_point(p: Point, s: i64) -> (r: Point)
    ensures
        r == spec_scale_point(p, s as int),
{
    Point { x: fix_mul(p.x, s), y: fix_mul(p.y, s) }
}

proof fn lemma_fix_mul_identity(a: int)
    requires
        i64::MIN as int <= a <= i64::MAX as int,
    ensures
        spec_fix_mul(a, FIX_ONE as int) == a,
{
    let f = FIX_ONE as int;
    if a >= 0 {
        assert(a * f / f == a) by (nonlinear_arith)
            requires a >= 0 && f == 1_000_000;
    } else {
        assert((-(a * f)) == (-a) * f) by (nonlinear_arith);
        assert((-a) * f / f == -a) by (nonlinear_arith)
            requires -a >= 0 && f == 1_000_000;
    }
}

proof fn lemma_scale_identity(p: Primitive)
    ensures
        spec_scale_prim(p, FIX_ONE as int) == p,
{
    match p {
        Primitive::Circle { radius, hole_radius, .. } => {
            lemma_fix_mul_identity(radius as int);
            lemma_fix_mul_identity(hole_radius as int);
        },
        Primitive::Triangle { v1, v2, v3, hole_radius, .. } => {
            lemma_fix_mul_identity(v1.x as int);
            lemma_fix_mul_identity(v1.y as int);
            lemma_fix_mul_identity(v2.x as int);
            lemma_fix_mul_identity(v2.y as int);
            lemma_fix_mul_identity(v3.x as int);
            lemma_fix_mul_identity(v3.y as int);
            lemma_fix_mul_identity(hole_radius as int);
        },
        Primitive::Arc { radius, thickness, .. } => {
            lemma_fix_mul_identity(radius as int);
            lemma_fix_mul_identity(thickness as int);
        },
        Primitive::Thermal { outer_diameter, inner_diameter, gap_thickness, .. } => {
            lemma_fix_mul_identity(outer_diameter as int);
            lemma_fix_mul_identity(inner_diameter as int);
            lemma_fix_mul_identity(gap_thickness as int);
        },
    }
}

/// A primitive translated by `(dx, dy)`; triangle hole centers move with
/// the shape.
pub open spec fn spec_offset_prim(p: Primitive, dx: int, dy: int) -> Primitive {
    match p {
        Primitive::Circle { x, y, radius, exposure, hole_x, hole_y, hole_radius } => {
            Primitive::Circle {
                x: spec_sat_add(x as int, dx) as i64,
                y: spec_sat_add(y as int, dy) as i64,
                radius,
                exposure,
                hole_x: spec_sat_add(hole_x as int, dx) as i64,
                hole_y: spec_sat_add(hole_y as int, dy) as i64,
                hole_radius,
            }
        },
        Primitive::Triangle { v1, v2, v3, exposure, hole_x, hole_y, hole_radius } => {
            Primitive::Triangle {
                v1: spec_offset_point(v1, dx, dy),
                v2: spec_offset_point(v2, dx, dy),
                v3: spec_offset_point(v3, dx, dy),
                exposure,
                hole_x: spec_sat_add(hole_x as int, dx) as i64,
                hole_y: spec_sat_add(hole_y as int, dy) as i64,
                hole_radius,
            }
        },
        Primitive::Arc {
            x, y, radius, start_x, start_y, end_x, end_y, clockwise, thickness, exposure,
        } => {
            Primitive::Arc {
                x: spec_sat_add(x as int, dx) as i64,
                y: spec_sat_add(y as int, dy) as i64,
                radius,
                start_x: spec_sat_add(start_x as int, dx) as i64,
                start_y: spec_sat_add(start_y as int, dy) as i64,
                end_x: spec_sat_add(end_x as int, dx) as i64,
                end_y: spec_sat_add(end_y as int, dy) as i64,
                clockwise,
                thickness,
                exposure,
            }
        },
        Primitive::Thermal {
            x, y, outer_diameter, inner_diameter, gap_thickness, rotation_mdeg, exposure,
        } => {
            Primitive::Thermal {
                x: spec_sat_add(x as int, dx) as i64,
                y: spec_sat_add(y as int, dy) as i64,
                outer_diameter,
                inner_diameter,
                gap_thickness,
                rotation_mdeg,
                exposure,
            }
        },
    }
}

pub open spec fn spec_offset_point(p: Point, dx: int, dy: int) -> Point {
    Point {
        x: spec_sat_add(p.x as int, dx) as i64,
        y: spec_sat_add(p.y as int, dy) as i64,
    }
}

/// Translate a primitive by `(dx, dy)`.
pub fn offset_primitive_by(p: &Primitive, dx: i64, dy: i64) -> (r: Primitive)
    ensures
        r == spec_offset_prim(*p, dx as int, dy as int),
{
    match p {
        Primitive::Circle { x, y, radius, exposure, hole_x, hole_y, hole_radius } => {
            Primitive::Circle {
                x: sat_add(*x, dx),
                y: sat_add(*y, dy),
                radius: *radius,
                exposure: *exposure,
                hole_x: sat_add(*hole_x, dx),
                hole_y: sat_add(*hole_y, dy),
                hole_radius: *hole_radius,
            }
        },
        Primitive::Triangle { v1, v2, v3, exposure, hole_x, hole_y, hole_radius } => {
            Primitive::Triangle {
                v1: offset_point(*v1, dx, dy),
                v2: offset_point(*v2, dx, dy),
                v3: offset_point(*v3, dx, dy),
                exposure: *exposure,
                hole_x: sat_add(*hole_x, dx),
                hole_y: sat_add(*hole_y, dy),
                hole_radius: *hole_radius,
            }
        },
        Primitive::Arc {
            x, y, radius, start_x, start_y, end_x, end_y, clockwise, thickness, exposure,
        } => {
            Primitive::Arc {
                x: sat_add(*x, dx),
                y: sat_add(*y, dy),
                radius: *radius,
                start_x: sat_add(*start_x, dx),
                start_y: sat_add(*start_y, dy),
                end_x: sat_add(*end_x, dx),
                end_y: sat_add(*end_y, dy),
                clockwise: *clockwise,
                thickness: *thickness,
                exposure: *exposure,
            }
        },
        Primitive::Thermal {
            x, y, outer_diameter, inner_diameter, gap_thickness, rotation_mdeg, exposure,
        } => {
            Primitive::Thermal {
                x: sat_add(*x, dx),
                y: sat_add(*y, dy),
                outer_diameter: *outer_diameter,
                inner_diameter: *inner_diameter,
                gap_thickness: *gap_thickness,
                rotation_mdeg: *rotation_mdeg,
                exposure: *exposure,
            }
        },
    }
}

fn offset_point(p: Point, dx: i64, dy: i64) -> (r: Point)
    ensures
        r == spec_offset_point(p, dx as int, dy as int),
{
    Point { x: sat_add(p.x, dx), y: sat_add(p.y, dy) }
}

/// A coordinate difference clamped into `[-2^62, 2^62]` so its square fits
/// the square-root domain.
pub open spec fn clamp62(n: int) -> int {
    if n > 0x4000_0000_0000_0000 {
        0x4000_0000_0000_0000
    } else if n < -0x4000_0000_0000_0000 {
        -0x4000_0000_0000_0000
    } else {
        n
    }
}

pub open spec fn sqrt_prop(n: int, r: int) -> bool {
    0 <= r && r * r <= n && n < (r + 1) * (r + 1)
}

/// The integer square root, as the unique value below the root.
pub open spec fn isqrt_spec(n: int) -> int {
    choose|r: int| sqrt_prop(n, r)
}

proof fn lemma_sqrt_unique(n: int, r1: int, r2: int)
    requires
        sqrt_prop(n, r1),
        sqrt_prop(n, r2),
    ensures
        r1 == r2,
{
    if r1 < r2 {
        assert((r1 + 1) * (r1 + 1) <= r2 * r2) by (nonlinear_arith)
            requires 0 <= r1 && r1 + 1 <= r2;
    }
    if r2 < r1 {
        assert((r2 + 1) * (r2 + 1) <= r1 * r1) by (nonlinear_arith)
            requires 0 <= r2 && r2 + 1 <= r1;
    }
}

/// The rounded-down Euclidean length of the (clamped) vector `(dx, dy)`.
pub open spec fn spec_dist(dx: int, dy: int) -> int {
    let cx = clamp62(dx);
    let cy = clamp62(dy);
    isqrt_spec(cx * cx + cy * cy)
}

fn clamp62_exec(n: i64) -> (r: i64)
    ensures
        r as int == clamp62(n as int),
        -0x4000_0000_0000_0000 <= r <= 0x4000_0000_0000_0000,
{
    if n > 0x4000_0000_0000_0000 {
        0x4000_0000_0000_0000
    } else if n < -0x4000_0000_0000_0000 {
        -0x4000_0000_0000_0000
    } else {
        n
    }
}

/// A zero vector has zero length.
pub proof fn lemma_dist_zero()
    ensures
        spec_dist(0, 0) == 0,
{
    assert(sqrt_prop(0, 0)) by (nonlinear_arith);
    assert(sqrt_prop(0, isqrt_spec(0))) by {
        assert(exists|r: int| sqrt_prop(0, r));
    }
    lemma_sqrt_unique(0, 0, isqrt_spec(0));
    assert(clamp62(0) * clamp62(0) + clamp62(0) * clamp62(0) == 0) by (nonlinear_arith);
}

/// Euclidean length of the vector `(dx, dy)`, rounded down; components
/// beyond `2^62` in magnitude are clamped first.
pub fn dist(dx: i64, dy: i64) -> (r: i64)
    ensures
        r as int == spec_dist(dx as int, dy as int),
        r >= 0,
        r == 0 <==> clamp62(dx as int) == 0 && clamp62(dy as int) == 0,
{
    let cx: i64 = clamp62_exec(dx);
    let cy: i64 = clamp62_exec(dy);
    proof {
        assert((cx as int) * (cx as int) <= 0x4000_0000_0000_0000 * 0x4000_0000_0000_0000
            && (cx as int) * (cx as int) >= 0) by (nonlinear_arith)
            requires -0x4000_0000_0000_0000 <= cx as int <= 0x4000_0000_0000_0000;
        assert((cy as int) * (cy as int) <= 0x4000_0000_0000_0000 * 0x4000_0000_0000_0000
            && (cy as int) * (cy as int) >= 0) by (nonlinear_arith)
            requires -0x4000_0000_0000_0000 <= cy as int <= 0x4000_0000_0000_0000;
    }
    proof {
        assert((cx as int) * (cx as int) >= 0 && (cy as int) * (cy as int) >= 0)
            by (nonlinear_arith);
    }
    let sumw: i128 = (cx as i128) * (cx as i128) + (cy as i128) * (cy as i128);
    let sq: u128 = sumw as u128;
    proof {
        assert(sq as int == (cx as int) * (cx as int) + (cy as int) * (cy as int));
        assert(sq < crate::fixed::SQRT_CAP);
    }
    let root: u64 = isqrt(sq);
    proof {
        assert(sqrt_prop(sq as int, root as int));
        assert(((root as int) * (root as int) < 0x8000_0000_0000_0000 * 0x8000_0000_0000_0000)
            ==> ((root as int) < 0x8000_0000_0000_0000)) by (nonlinear_arith);
        assert(sqrt_prop(sq as int, isqrt_spec(sq as int))) by {
            assert(exists|r: int| sqrt_prop(sq as int, r));
        }
        lemma_sqrt_unique(sq as int, root as int, isqrt_spec(sq as int));
        if root == 0 {
            assert(((root as int) + 1) * ((root as int) + 1) == 1) by (nonlinear_arith)
                requires root as int == 0;
            assert((sq as int) < 1);
            assert(cx as int == 0 && cy as int == 0) by (nonlinear_arith)
                requires (cx as int) * (cx as int) + (cy as int) * (cy as int) < 1;
        }
        if cx as int == 0 && cy as int == 0 {
            assert(sq == 0);
            assert(root as int * (root as int) <= 0);
            assert(root == 0) by (nonlinear_arith)
                requires (root as int) * (root as int) <= 0, root as int >= 0;
        }
    }
    root as i64
}

/// The two triangles of a stroked segment, or nothing when the segment is
/// degenerate (both clamped components zero).
pub open spec fn spec_line_triangles(
    sx: int,
    sy: int,
    ex: int,
    ey: int,
    width: int,
    exposure: bool,
) -> Seq<Primitive> {
    let dx = spec_sat_sub(ex, sx);
    let dy = spec_sat_sub(ey, sy);
    let len = spec_dist(dx, dy);
    if len == 0 {
        Seq::<Primitive>::empty()
    } else {
        let hw = div_trunc(width, 2);
        let px = sat_i64(div_trunc(-clamp62(dy) * hw, len));
        let py = sat_i64(div_trunc(clamp62(dx) * hw, len));
        let v1 = Point { x: spec_sat_add(sx, px) as i64, y: spec_sat_add(sy, py) as i64 };
        let v2 = Point { x: spec_sat_sub(sx, px) as i64, y: spec_sat_sub(sy, py) as i64 };
        let v3 = Point { x: spec_sat_add(ex, px) as i64, y: spec_sat_add(ey, py) as i64 };
        let v4 = Point { x: spec_sat_sub(ex, px) as i64, y: spec_sat_sub(ey, py) as i64 };
        seq![
            Primitive::Triangle {
                v1,
                v2,
                v3,
                exposure,
                hole_x: 0,
                hole_y: 0,
                hole_radius: 0,
            },
            Primitive::Triangle {
                v1: v2,
                v2: v4,
                v3,
                exposure,
                hole_x: 0,
                hole_y: 0,
                hole_radius: 0,
            },
        ]
    }
}

/// Expand a stroked segment of the given width into two triangles; a
/// zero-length segment yields no triangles.
pub fn line_to_triangles(
    start_x: i64,
    start_y: i64,
    end_x: i64,
    end_y: i64,
    width: i64,
    exposure: bool,
) -> (r: Vec<Primitive>)
    ensures
        r@ == spec_line_triangles(
            start_x as int,
            start_y as int,
            end_x as int,
            end_y as int,
            width as int,
            exposure,
        ),
{
    let dx: i64 = sat_sub(end_x, start_x);
    let dy: i64 = sat_sub(end_y, start_y);
    let len: i64 = dist(dx, dy);
    let mut out: Vec<Primitive> = Vec::new();
    if len == 0 {
        proof {
            assert(out@ =~= spec_line_triangles(
                start_x as int, start_y as int, end_x as int, end_y as int,
                width as int, exposure));
        }
        return out;
    }
    let hw: i64 = crate::fixed::div_trunc_wide(width as i128, 2) as i64;
    let cdx: i64 = clamp62_exec(dx);
    let cdy: i64 = clamp62_exec(dy);
    proof {
        assert(-0x4000_0000_0000_0000 <= (cdy as int) * (hw as int) / 1
            || true);
        assert((cdy as int) * (hw as int) < i128::MAX as int
            && (cdy as int) * (hw as int) > i128::MIN as int
            && (cdx as int) * (hw as int) < i128::MAX as int
            && (cdx as int) * (hw as int) > i128::MIN as int) by (nonlinear_arith)
            requires
                -0x4000_0000_0000_0000 <= cdx as int <= 0x4000_0000_0000_0000,
                -0x4000_0000_0000_0000 <= cdy as int <= 0x4000_0000_0000_0000,
                -0x8000_0000_0000_0000 <= hw as int <= 0x8000_0000_0000_0000;
    }
    proof {
        assert(-((cdy as int) * (hw as int)) == (-(cdy as int)) * (hw as int))
            by (nonlinear_arith);
    }
    let px: i64 = sat_i64_exec(crate::fixed::div_trunc_wide(
        -((cdy as i128) * (hw as i128)), len as i128));
    let py: i64 = sat_i64_exec(crate::fixed::div_trunc_wide(
        (cdx as i128) * (hw as i128), len as i128));
    let v1 = Point { x: sat_add(start_x, px), y: sat_add(start_y, py) };
    let v2 = Point { x: sat_sub(start_x, px), y: sat_sub(start_y, py) };
    let v3 = Point { x: sat_add(end_x, px), y: sat_add(end_y, py) };
    let v4 = Point { x: sat_sub(end_x, px), y: sat_sub(end_y, py) };
    out.push(Primitive::Triangle {
        v1,
        v2,
        v3,
        exposure,
        hole_x: 0,
        hole_y: 0,
        hole_radius: 0,
    });
    out.push(Primitive::Triangle {
        v1: v2,
        v2: v4,
        v3,
        exposure,
        hole_x: 0,
        hole_y: 0,
        hole_radius: 0,
    });
    proof {
        assert(out@ =~= spec_line_triangles(
            start_x as int, start_y as int, end_x as int, end_y as int,
            width as int, exposure));
    }
    out
}

} // verus!
