//! Polygon approximation, Boolean operations and triangulation.
//!
//! A contour is a closed ring of points; a shape is one outer contour
//! (counter-clockwise) followed by hole contours (clockwise); a shape set is
//! a list of shapes. Apertures with negative primitives are flashed through
//! this pipeline: primitives become shapes, the shapes are combined by union
//! and difference, and the result is triangulated with its holes.
//!
//! The Boolean kernel and the triangulator are outside libraries working on
//! integer points; their results are named (`overlay_of`, `triangulation_of`)
//! and everything around the two calls is verified against those names.

use vstd::prelude::*;
use crate::fixed::{div_trunc, spec_sat_add, sat_add, FIX_ONE};
use crate::trig::{spec_cos_mdeg, spec_sin_mdeg};
use crate::geom::{Point, Primitive, spec_rotate_point, rotate_point, prim_exposure};
use i_overlay::i_float::int::point::IntPoint;
use i_overlay::i_shape::int::shape::{IntShape, IntShapes};
use i_triangle::int::triangulatable::IntTriangulatable;

verus! {

/// The largest coordinate magnitude the integer Boolean kernel accepts
/// (strictly inside `2^62`).
pub const SAFE_COORD: i64 = 0x3FFF_FFFF_FFFF_FFFF;

pub open spec fn spec_clamp_safe(n: int) -> int {
    if n > SAFE_COORD as int {
        SAFE_COORD as int
    } else if n < -(SAFE_COORD as int) {
        -(SAFE_COORD as int)
    } else {
        n
    }
}

pub open spec fn spec_safe_point(p: Point) -> Point {
    Point { x: spec_clamp_safe(p.x as int) as i64, y: spec_clamp_safe(p.y as int) as i64 }
}

pub open spec fn point_safe(p: Point) -> bool {
    -(SAFE_COORD as int) <= p.x as int <= SAFE_COORD as int
        && -(SAFE_COORD as int) <= p.y as int <= SAFE_COORD as int
}

pub open spec fn contour_safe(c: Seq<Point>) -> bool {
    forall|i: int| 0 <= i < c.len() ==> point_safe(#[trigger] c[i])
}

pub open spec fn shape_safe(s: Seq<Seq<Point>>) -> bool {
    forall|i: int| 0 <= i < s.len() ==> contour_safe(#[trigger] s[i])
}

pub open spec fn shapes_safe(s: Seq<Seq<Seq<Point>>>) -> bool {
    forall|i: int| 0 <= i < s.len() ==> shape_safe(#[trigger] s[i])
}

/// The view of one contour.
pub open spec fn contour_view(c: Vec<Point>) -> Seq<Point> {
    c@
}

/// The view of a shape (a vector of contours) as nested sequences.
pub open spec fn shape_view(s: &Vec<Vec<Point>>) -> Seq<Seq<Point>> {
    s@.map_values(|c: Vec<Point>| contour_view(c))
}

/// The view of a shape set as nested sequences.
pub open spec fn shapes_view(s: &Vec<Vec<Vec<Point>>>) -> Seq<Seq<Seq<Point>>> {
    s@.map_values(|sh: Vec<Vec<Point>>| shape_view(&sh))
}

fn clamp_safe(n: i64) -> (r: i64)
    ensures
        r as int == spec_clamp_safe(n as int),
{
    if n > SAFE_COORD {
        SAFE_COORD
    } else if n < -SAFE_COORD {
        -SAFE_COORD
    } else {
        n
    }
}

fn safe_point(p: Point) -> (r: Point)
    ensures
        r == spec_safe_point(p),
        point_safe(r),
{
    Point { x: clamp_safe(p.x), y: clamp_safe(p.y) }
}

/// What the Boolean overlay of two integer shape sets returns: the union
/// (`union` true) or the difference subject-minus-clip, non-zero fill rule.
pub uninterp spec fn overlay_of(
    subj: Seq<Seq<Seq<Point>>>,
    clip: Seq<Seq<Seq<Point>>>,
    union: bool,
) -> Seq<Seq<Seq<Point>>>;

/// Relies on i_overlay's `SingleIntOverlay::overlay` on `IntShapes<i64>`:
/// one Boolean operation (union or difference) of two integer shape sets
/// under the non-zero fill rule (the library's `FillRule` default).
/// Coordinates must stay strictly inside `2^62`, the library's safe
/// arithmetic range.
#[verifier::external_body]
fn overlay_shapes(
    subj: &Vec<Vec<Vec<Point>>>,
    clip: &Vec<Vec<Vec<Point>>>,
    union: bool,
) -> (r: Vec<Vec<Vec<Point>>>)
    requires
        shapes_safe(shapes_view(subj)),
        shapes_safe(shapes_view(clip)),
    ensures
        shapes_view(&r) == overlay_of(shapes_view(subj), shapes_view(clip), union),
{
    let conv = |v: &[Vec<Vec<Point>>]| -> IntShapes<i64> {
        v.iter().map(|s| s.iter().map(|c| c.iter().map(|p| IntPoint::new(p.x, p.y))
            .collect()).collect()).collect()
    };
    i_overlay::core::single::SingleIntOverlay::overlay(
        &conv(subj),
        &conv(clip),
        if union {
            i_overlay::core::overlay_rule::OverlayRule::Union
        } else {
            i_overlay::core::overlay_rule::OverlayRule::Difference
        },
        Default::default(),
    ).into_iter().map(|s| s.into_iter().map(|c| c.into_iter().map(
        |p| Point { x: p.x, y: p.y }).collect()).collect()).collect()
}

/// What the constrained Delaunay triangulation of one integer shape (outer
/// contour plus holes) returns: its point buffer and its flat index buffer,
/// three indices per triangle.
pub uninterp spec fn triangulation_of(shape: Seq<Seq<Point>>) -> (Seq<Point>, Seq<u32>);

/// Relies on i_triangle's `IntTriangulatable::triangulate` for `IntShape<i64>`
/// and `RawIntTriangulation::into_triangulation::<u32>`: triangulates one
/// shape with holes into a point buffer and index triples. Coordinates must
/// stay strictly inside `2^62`, the library's safe arithmetic range. The
/// index conversion panics only when the triangulation holds more than
/// `u32::MAX` points, which would take an input of tens of gigabytes.
#[verifier::external_body]
fn triangulate_int_shape(shape: &Vec<Vec<Point>>) -> (r: (Vec<Point>, Vec<u32>))
    requires
        shape_safe(shape_view(shape)),
    ensures
        (r.0@, r.1@) == triangulation_of(shape_view(shape)),
{
    let sh: IntShape<i64> = shape.iter().map(
        |c| c.iter().map(|p| IntPoint::new(p.x, p.y)).collect(),
    ).collect();
    let t = sh.triangulate().into_triangulation::<u32>();
    (t.points.into_iter().map(|p| Point { x: p.x, y: p.y }).collect(), t.indices)
}

/// One contour with every coordinate clamped into the safe range.
pub open spec fn sanitize_contour(c: Seq<Point>) -> Seq<Point> {
    c.map_values(|p: Point| spec_safe_point(p))
}

/// One shape with every coordinate clamped into the safe range.
pub open spec fn sanitize_shape(sh: Seq<Seq<Point>>) -> Seq<Seq<Point>> {
    sh.map_values(|c: Seq<Point>| sanitize_contour(c))
}

/// Every coordinate of every shape clamped into the kernel's safe range.
pub open spec fn spec_sanitize(s: Seq<Seq<Seq<Point>>>) -> Seq<Seq<Seq<Point>>> {
    s.map_values(|sh: Seq<Seq<Point>>| sanitize_shape(sh))
}

proof fn lemma_view_index(s: &Vec<Vec<Vec<Point>>>, i: int)
    requires
        0 <= i < s@.len(),
    ensures
        shapes_view(s).len() == s@.len(),
        shapes_view(s)[i] == shape_view(&s@[i]),
{
}

proof fn lemma_shape_view_index(s: &Vec<Vec<Point>>, i: int)
    requires
        0 <= i < s@.len(),
    ensures
        shape_view(s).len() == s@.len(),
        shape_view(s)[i] == s@[i]@,
{
}

proof fn lemma_sanitize_index(s: Seq<Seq<Seq<Point>>>, i: int)
    requires
        0 <= i < s.len(),
    ensures
        spec_sanitize(s).len() == s.len(),
        spec_sanitize(s)[i] == sanitize_shape(s[i]),
{
}

proof fn lemma_sanitize_shape_index(sh: Seq<Seq<Point>>, i: int)
    requires
        0 <= i < sh.len(),
    ensures
        sanitize_shape(sh).len() == sh.len(),
        sanitize_shape(sh)[i] == sanitize_contour(sh[i]),
{
}

proof fn lemma_sanitize_contour_index(c: Seq<Point>, i: int)
    requires
        0 <= i < c.len(),
    ensures
        sanitize_contour(c).len() == c.len(),
        sanitize_contour(c)[i] == spec_safe_point(c[i]),
{
}

/// Clamp every coordinate of one contour into the kernel's safe range.
fn sanitize_contour_exec(c: &Vec<Point>) -> (r: Vec<Point>)
    ensures
        r@ == sanitize_contour(c@),
        contour_safe(r@),
{
    let mut oc: Vec<Point> = Vec::new();
    let mut k: usize = 0;
    while k < c.len()
        invariant
            0 <= k <= c@.len(),
            oc@.len() == k,
            forall|d: int| 0 <= d < k ==> oc@[d] == spec_safe_point(c@[d]),
            contour_safe(oc@),
        decreases c@.len() - k,
    {
        oc.push(safe_point(c[k]));
        k = k + 1;
    }
    proof {
        assert forall|d: int| 0 <= d < c@.len() implies
            oc@[d] == sanitize_contour(c@)[d] by {
            lemma_sanitize_contour_index(c@, d);
        }
        lemma_sanitize_contour_len(c@);
        assert(oc@ =~= sanitize_contour(c@));
    }
    oc
}

/// Clamp every coordinate of one shape into the kernel's safe range.
fn sanitize_shape_exec(sh: &Vec<Vec<Point>>) -> (r: Vec<Vec<Point>>)
    ensures
        shape_view(&r) == sanitize_shape(shape_view(sh)),
        shape_safe(shape_view(&r)),
{
    let mut osh: Vec<Vec<Point>> = Vec::new();
    let mut j: usize = 0;
    while j < sh.len()
        invariant
            0 <= j <= sh@.len(),
            osh@.len() == j,
            forall|b: int| 0 <= b < j ==> osh@[b]@ == sanitize_shape(shape_view(sh))[b],
            forall|b: int| 0 <= b < j ==> contour_safe(#[trigger] osh@[b]@),
        decreases sh@.len() - j,
    {
        proof {
            lemma_sanitize_shape_index(shape_view(sh), j as int);
            lemma_shape_view_index(sh, j as int);
        }
        osh.push(sanitize_contour_exec(&sh[j]));
        j = j + 1;
    }
    proof {
        lemma_shape_view_len(&osh);
        lemma_sanitize_shape_len(shape_view(sh));
        lemma_shape_view_len(sh);
        assert forall|b: int| 0 <= b < sh@.len() implies
            shape_view(&osh)[b] == sanitize_shape(shape_view(sh))[b] by {
            lemma_shape_view_index(&osh, b);
        }
        assert(shape_view(&osh) =~= sanitize_shape(shape_view(sh)));
        assert forall|b: int| 0 <= b < shape_view(&osh).len() implies
            contour_safe(#[trigger] shape_view(&osh)[b]) by {
            lemma_shape_view_index(&osh, b);
        }
    }
    osh
}

/// Clamp every coordinate of a shape set into the kernel's safe range.
fn sanitize_shapes(s: &Vec<Vec<Vec<Point>>>) -> (r: Vec<Vec<Vec<Point>>>)
    ensures
        shapes_view(&r) == spec_sanitize(shapes_view(s)),
        shapes_safe(shapes_view(&r)),
{
    let mut out: Vec<Vec<Vec<Point>>> = Vec::new();
    let mut i: usize = 0;
    while i < s.len()
        invariant
            0 <= i <= s@.len(),
            out@.len() == i,
            forall|a: int| 0 <= a < i ==> shape_view(&out@[a])
                == spec_sanitize(shapes_view(s))[a],
            forall|a: int| 0 <= a < i ==> shape_safe(#[trigger] shape_view(&out@[a])),
        decreases s@.len() - i,
    {
        proof {
            lemma_sanitize_index(shapes_view(s), i as int);
            lemma_view_index(s, i as int);
        }
        out.push(sanitize_shape_exec(&s[i]));
        i = i + 1;
    }
    proof {
        lemma_shapes_view_len(&out);
        lemma_shapes_view_len(s);
        lemma_sanitize_len(shapes_view(s));
        assert forall|a: int| 0 <= a < out@.len() implies
            shapes_view(&out)[a] == spec_sanitize(shapes_view(s))[a] by {
            lemma_view_index(&out, a);
        }
        assert(shapes_view(&out) =~= spec_sanitize(shapes_view(s)));
        assert forall|a: int| 0 <= a < shapes_view(&out).len() implies
            shape_safe(#[trigger] shapes_view(&out)[a]) by {
            lemma_view_index(&out, a);
        }
    }
    out
}

proof fn lemma_shape_view_len(s: &Vec<Vec<Point>>)
    ensures
        shape_view(s).len() == s@.len(),
{
}

proof fn lemma_shapes_view_len(s: &Vec<Vec<Vec<Point>>>)
    ensures
        shapes_view(s).len() == s@.len(),
{
}

proof fn lemma_sanitize_len(s: Seq<Seq<Seq<Point>>>)
    ensures
        spec_sanitize(s).len() == s.len(),
{
}

proof fn lemma_sanitize_shape_len(sh: Seq<Seq<Point>>)
    ensures
        sanitize_shape(sh).len() == sh.len(),
{
}

proof fn lemma_sanitize_contour_len(c: Seq<Point>)
    ensures
        sanitize_contour(c).len() == c.len(),
{
}


/// One vertex of the 36-gon ring around `(cx, cy)` with radius `r`, at
/// `k * 10` degrees, clamped into the safe range.
pub open spec fn ring_pt(cx: int, cy: int, r: int, k: int) -> Point {
    spec_safe_point(
        Point {
            x: spec_sat_add(cx, crate::fixed::spec_fix_mul(r, spec_cos_mdeg(k * 10_000))) as i64,
            y: spec_sat_add(cy, crate::fixed::spec_fix_mul(r, spec_sin_mdeg(k * 10_000))) as i64,
        },
    )
}

/// The counter-clockwise 36-gon approximating a circle.
pub open spec fn circle_ring(cx: int, cy: int, r: int) -> Seq<Point> {
    Seq::new(36, |k: int| ring_pt(cx, cy, r, k))
}

/// The same ring in clockwise order, used for hole contours.
pub open spec fn circle_ring_rev(cx: int, cy: int, r: int) -> Seq<Point> {
    Seq::new(36, |k: int| ring_pt(cx, cy, r, 35 - k))
}

/// One corner of a thermal gap rectangle: the local corner rotated by the
/// thermal's rotation (plus `extra`), translated to the center, clamped.
pub open spec fn gap_corner(
    lx: int,
    ly: int,
    rot: int,
    cx: int,
    cy: int,
) -> Point {
    let p = spec_rotate_point(
        Point { x: crate::fixed::sat_i64(lx) as i64, y: crate::fixed::sat_i64(ly) as i64 },
        rot,
        0,
        0,
    );
    spec_safe_point(
        Point {
            x: spec_sat_add(p.x as int, cx) as i64,
            y: spec_sat_add(p.y as int, cy) as i64,
        },
    )
}

/// A thermal gap rectangle as a clockwise hole contour: a bar of length
/// `span` and height `gap` through the center, rotated by `rot`.
pub open spec fn gap_rect(cx: int, cy: int, span: int, gap: int, rot: int) -> Seq<Point> {
    let hs = div_trunc(span, 2);
    let hg = div_trunc(gap, 2);
    seq![
        gap_corner(-hs, -hg, rot, cx, cy),
        gap_corner(-hs, hg, rot, cx, cy),
        gap_corner(hs, hg, rot, cx, cy),
        gap_corner(hs, -hg, rot, cx, cy),
    ]
}

/// The polygon approximation of one primitive, as a shape: an outer contour
/// followed by hole contours.
///
/// Circles become 36-gons. Triangles are already polygons. An arc is covered
/// conservatively by the 36-gon of its outer annulus circle: in the endpoint
/// form an arc carries no angles, so a per-ten-degree subdivision of the
/// sweep is not expressible here, and arcs never occur inside apertures, so
/// this path is not reached by flashes. A thermal is its outer 36-gon with
/// the inner disc and the two orthogonal gap bars as holes, all rotated by
/// the thermal's rotation.
pub open spec fn spec_prim_shape(p: Primitive) -> Seq<Seq<Point>> {
    match p {
        Primitive::Circle { x, y, radius, .. } => {
            seq![circle_ring(x as int, y as int, radius as int)]
        },
        Primitive::Triangle { v1, v2, v3, .. } => {
            seq![seq![spec_safe_point(v1), spec_safe_point(v2), spec_safe_point(v3)]]
        },
        Primitive::Arc { x, y, radius, thickness, .. } => {
            seq![
                circle_ring(
                    x as int,
                    y as int,
                    spec_sat_add(radius as int, div_trunc(thickness as int, 2)),
                ),
            ]
        },
        Primitive::Thermal {
            x, y, outer_diameter, inner_diameter, gap_thickness, rotation_mdeg, ..
        } => {
            seq![
                circle_ring(x as int, y as int, div_trunc(outer_diameter as int, 2)),
                circle_ring_rev(x as int, y as int, div_trunc(inner_diameter as int, 2)),
                gap_rect(
                    x as int,
                    y as int,
                    outer_diameter as int,
                    gap_thickness as int,
                    rotation_mdeg as int,
                ),
                gap_rect(
                    x as int,
                    y as int,
                    outer_diameter as int,
                    gap_thickness as int,
                    crate::fixed::spec_sat_add(rotation_mdeg as int, 90_000),
                ),
            ]
        },
    }
}

proof fn lemma_safe_point_is_safe(p: Point)
    ensures
        point_safe(spec_safe_point(p)),
{
}

fn ring_pt_exec(cx: i64, cy: i64, r: i64, k: i64) -> (p: Point)
    requires
        0 <= k < 36,
    ensures
        p == ring_pt(cx as int, cy as int, r as int, k as int),
        point_safe(p),
{
    let c: i64 = crate::trig::cos_mdeg(k * 10_000);
    let sn: i64 = crate::trig::sin_mdeg(k * 10_000);
    safe_point(
        Point {
            x: sat_add(cx, crate::fixed::fix_mul(r, c)),
            y: sat_add(cy, crate::fixed::fix_mul(r, sn)),
        },
    )
}

fn circle_ring_exec(cx: i64, cy: i64, r: i64) -> (out: Vec<Point>)
    ensures
        out@ == circle_ring(cx as int, cy as int, r as int),
        contour_safe(out@),
{
    let mut out: Vec<Point> = Vec::new();
    let mut k: i64 = 0;
    while k < 36
        invariant
            0 <= k <= 36,
            out@.len() == k,
            forall|d: int| 0 <= d < k ==> out@[d]
                == ring_pt(cx as int, cy as int, r as int, d),
            contour_safe(out@),
        decreases 36 - k,
    {
        out.push(ring_pt_exec(cx, cy, r, k));
        k = k + 1;
    }
    proof {
        assert(out@ =~= circle_ring(cx as int, cy as int, r as int));
    }
    out
}

fn circle_ring_rev_exec(cx: i64, cy: i64, r: i64) -> (out: Vec<Point>)
    ensures
        out@ == circle_ring_rev(cx as int, cy as int, r as int),
        contour_safe(out@),
{
    let mut out: Vec<Point> = Vec::new();
    let mut k: i64 = 0;
    while k < 36
        invariant
            0 <= k <= 36,
            out@.len() == k,
            forall|d: int| 0 <= d < k ==> out@[d]
                == ring_pt(cx as int, cy as int, r as int, 35 - d),
            contour_safe(out@),
        decreases 36 - k,
    {
        out.push(ring_pt_exec(cx, cy, r, 35 - k));
        k = k + 1;
    }
    proof {
        assert(out@ =~= circle_ring_rev(cx as int, cy as int, r as int));
    }
    out
}

fn gap_rect_exec(cx: i64, cy: i64, span: i64, gap: i64, rot: i64) -> (out: Vec<Point>)
    ensures
        out@ == gap_rect(cx as int, cy as int, span as int, gap as int, rot as int),
        contour_safe(out@),
{
    let hs: i64 = crate::fixed::div_trunc_wide(span as i128, 2) as i64;
    let hg: i64 = crate::fixed::div_trunc_wide(gap as i128, 2) as i64;
    let mut out: Vec<Point> = Vec::new();
    out.push(gap_corner_exec(-(hs as i128), -(hg as i128), rot, cx, cy));
    out.push(gap_corner_exec(-(hs as i128), hg as i128, rot, cx, cy));
    out.push(gap_corner_exec(hs as i128, hg as i128, rot, cx, cy));
    out.push(gap_corner_exec(hs as i128, -(hg as i128), rot, cx, cy));
    proof {
        assert(out@ =~= gap_rect(cx as int, cy as int, span as int, gap as int, rot as int));
    }
    out
}

fn gap_corner_exec(lx: i128, ly: i128, rot: i64, cx: i64, cy: i64) -> (p: Point)
    ensures
        p == gap_corner(lx as int, ly as int, rot as int, cx as int, cy as int),
        point_safe(p),
{
    let q: Point = rotate_point(
        Point { x: crate::fixed::sat_i64_exec(lx), y: crate::fixed::sat_i64_exec(ly) },
        rot,
        0,
        0,
    );
    safe_point(Point { x: sat_add(q.x, cx), y: sat_add(q.y, cy) })
}

/// Approximate one primitive by a polygonal shape with holes.
#[verifier::rlimit(50)]
pub fn primitive_to_shape(p: &Primitive) -> (r: Vec<Vec<Point>>)
    ensures
        shape_view(&r) == spec_prim_shape(*p),
        shape_safe(shape_view(&r)),
{
    let mut out: Vec<Vec<Point>> = Vec::new();
    match p {
        Primitive::Circle { x, y, radius, .. } => {
            out.push(circle_ring_exec(*x, *y, *radius));
        },
        Primitive::Triangle { v1, v2, v3, .. } => {
            let mut c: Vec<Point> = Vec::new();
            c.push(safe_point(*v1));
            c.push(safe_point(*v2));
            c.push(safe_point(*v3));
            proof {
                assert(c@ =~= spec_prim_shape(*p)[0]);
                assert(contour_safe(c@));
            }
            out.push(c);
        },
        Primitive::Arc { x, y, radius, thickness, .. } => {
            let outer: i64 = sat_add(
                *radius,
                crate::fixed::div_trunc_wide(*thickness as i128, 2) as i64,
            );
            out.push(circle_ring_exec(*x, *y, outer));
        },
        Primitive::Thermal {
            x, y, outer_diameter, inner_diameter, gap_thickness, rotation_mdeg, ..
        } => {
            let half_out: i64 = crate::fixed::div_trunc_wide(*outer_diameter as i128, 2) as i64;
            let half_in: i64 = crate::fixed::div_trunc_wide(*inner_diameter as i128, 2) as i64;
            out.push(circle_ring_exec(*x, *y, half_out));
            out.push(circle_ring_rev_exec(*x, *y, half_in));
            out.push(gap_rect_exec(*x, *y, *outer_diameter, *gap_thickness, *rotation_mdeg));
            out.push(gap_rect_exec(
                *x, *y, *outer_diameter, *gap_thickness, sat_add(*rotation_mdeg, 90_000)));
        },
    }
    proof {
        lemma_shape_view_len(&out);
        assert forall|b: int| 0 <= b < out@.len() implies
            #[trigger] shape_view(&out)[b] == spec_prim_shape(*p)[b] by {
            lemma_shape_view_index(&out, b);
        }
        assert(shape_view(&out) =~~= spec_prim_shape(*p));
        assert forall|b: int| 0 <= b < shape_view(&out).len() implies
            contour_safe(#[trigger] shape_view(&out)[b]) by {
            lemma_shape_view_index(&out, b);
        }
    }
    out
}


/// The triangles assembled from a point buffer and an index buffer, three
/// indices at a time; a triple with an index out of range contributes
/// nothing.
pub open spec fn spec_assemble(points: Seq<Point>, indices: Seq<u32>, exposure: bool)
    -> Seq<Primitive>
    decreases indices.len(),
{
    if indices.len() < 3 {
        Seq::<Primitive>::empty()
    } else {
        let head = if (indices[0] as int) < points.len() && (indices[1] as int) < points.len()
            && (indices[2] as int) < points.len() {
            seq![
                Primitive::Triangle {
                    v1: points[indices[0] as int],
                    v2: points[indices[1] as int],
                    v3: points[indices[2] as int],
                    exposure,
                    hole_x: 0,
                    hole_y: 0,
                    hole_radius: 0,
                },
            ]
        } else {
            Seq::<Primitive>::empty()
        };
        head + spec_assemble(points, indices.skip(3), exposure)
    }
}

/// Assemble index triples into triangle primitives.
fn assemble_triangles(points: &Vec<Point>, indices: &Vec<u32>, exposure: bool)
    -> (out: Vec<Primitive>)
    ensures
        out@ == spec_assemble(points@, indices@, exposure),
{
    let mut out: Vec<Primitive> = Vec::new();
    let mut i: usize = 0;
    proof {
        assert(indices@.skip(0) =~= indices@);
    }
    while indices.len() - i >= 3
        invariant
            0 <= i <= indices@.len(),
            i % 3 == 0,
            spec_assemble(points@, indices@, exposure) =~= out@ + spec_assemble(
                points@,
                indices@.skip(i as int),
                exposure,
            ),
        decreases indices@.len() - i,
    {
        let i0: usize = indices[i] as usize;
        let i1: usize = indices[i + 1] as usize;
        let i2: usize = indices[i + 2] as usize;
        let ghost rest = indices@.skip(i as int);
        proof {
            assert(rest.len() >= 3);
            assert(rest[0] == indices@[i as int]);
            assert(rest[1] == indices@[i as int + 1]);
            assert(rest[2] == indices@[i as int + 2]);
            assert(rest.skip(3) =~= indices@.skip(i as int + 3));
        }
        if i0 < points.len() && i1 < points.len() && i2 < points.len() {
            out.push(Primitive::Triangle {
                v1: points[i0],
                v2: points[i1],
                v3: points[i2],
                exposure,
                hole_x: 0,
                hole_y: 0,
                hole_radius: 0,
            });
        }
        i = i + 3;
    }
    proof {
        assert(spec_assemble(points@, indices@.skip(i as int), exposure)
            =~= Seq::<Primitive>::empty());
        assert(out@ =~= spec_assemble(points@, indices@, exposure));
    }
    out
}

/// Why a contour set cannot be triangulated.
#[derive(Clone, Copy, Debug, PartialEq, Eq, Structural)]
pub enum TriangulateError {
    /// The outer boundary has fewer than three vertices.
    TooFewVertices,
}

/// The result of triangulating one shape with holes: `None` when the outer
/// contour has fewer than three vertices, otherwise the assembled triangles
/// of the sanitized shape's triangulation.
pub open spec fn spec_triangulate_shape(contours: Seq<Seq<Point>>, exposure: bool)
    -> Option<Seq<Primitive>>
{
    if contours.len() == 0 {
        Some(Seq::<Primitive>::empty())
    } else if contours[0].len() < 3 {
        None
    } else {
        let t = triangulation_of(sanitize_shape(contours));
        Some(spec_assemble(t.0, t.1, exposure))
    }
}

/// Triangulate a shape whose first contour is the outer boundary and whose
/// remaining contours are holes.
pub fn triangulate_shape_with_holes(contours: &Vec<Vec<Point>>, exposure: bool)
    -> (r: Result<Vec<Primitive>, TriangulateError>)
    ensures
        r is Ok <==> (contours@.len() == 0 || contours@[0]@.len() >= 3),
        r is Ok ==> Some(r->Ok_0@) == spec_triangulate_shape(shape_view(contours), exposure),
{
    if contours.len() == 0 {
        let empty: Vec<Primitive> = Vec::new();
        proof {
            assert(empty@ =~= Seq::<Primitive>::empty());
        }
        return Ok(empty);
    }
    proof {
        lemma_shape_view_index(contours, 0);
    }
    if contours[0].len() < 3 {
        return Err(TriangulateError::TooFewVertices);
    }
    let safe: Vec<Vec<Point>> = sanitize_shape_exec(contours);
    let (pts, idx): (Vec<Point>, Vec<u32>) = triangulate_int_shape(&safe);
    Ok(assemble_triangles(&pts, &idx, exposure))
}

/// Triangulate a single outline contour.
pub fn triangulate_outline(vertices: &Vec<Point>, exposure: bool)
    -> (r: Result<Vec<Primitive>, TriangulateError>)
    ensures
        r is Ok <==> vertices@.len() >= 3,
        r is Ok ==> Some(r->Ok_0@) == spec_triangulate_shape(seq![vertices@], exposure),
{
    if vertices.len() < 3 {
        return Err(TriangulateError::TooFewVertices);
    }
    let mut shape: Vec<Vec<Point>> = Vec::new();
    shape.push(sanitize_contour_exec(vertices));
    proof {
        lemma_shape_view_len(&shape);
        lemma_shape_view_index(&shape, 0);
        lemma_sanitize_shape_len(seq![vertices@]);
        lemma_sanitize_shape_index(seq![vertices@], 0);
        lemma_sanitize_shape_len(shape_view(&shape));
        lemma_sanitize_shape_index(shape_view(&shape), 0);
        lemma_sanitize_contour_idempotent(vertices@);
        assert(shape_view(&shape) =~~= sanitize_shape(seq![vertices@]));
        assert(sanitize_shape(shape_view(&shape)) =~~= sanitize_shape(seq![vertices@]));
        lemma_sanitize_contour_len(vertices@);
    }
    let (pts, idx): (Vec<Point>, Vec<u32>) = triangulate_int_shape(&shape);
    Ok(assemble_triangles(&pts, &idx, exposure))
}

proof fn lemma_sanitize_contour_idempotent(c: Seq<Point>)
    ensures
        sanitize_contour(sanitize_contour(c)) == sanitize_contour(c),
{
    lemma_sanitize_contour_len(c);
    lemma_sanitize_contour_len(sanitize_contour(c));
    assert forall|d: int| 0 <= d < c.len() implies
        sanitize_contour(sanitize_contour(c))[d] == sanitize_contour(c)[d] by {
        lemma_sanitize_contour_index(c, d);
        lemma_sanitize_contour_index(sanitize_contour(c), d);
    }
    assert(sanitize_contour(sanitize_contour(c)) =~= sanitize_contour(c));
}

/// The index of the first positive shape at or after `i`, or `-1`.
pub open spec fn first_pos_from(s: Seq<(Seq<Seq<Point>>, bool)>, i: int) -> int
    decreases s.len() - i,
{
    if i < 0 || i >= s.len() {
        -1
    } else if s[i].1 {
        i
    } else {
        first_pos_from(s, i + 1)
    }
}

/// The accumulator after folding the Boolean operations of the shapes from
/// `i` on (skipping the seed at `skip`): union for positive shapes,
/// difference for negative ones; an empty accumulator stays empty.
pub open spec fn fold_shapes(
    s: Seq<(Seq<Seq<Point>>, bool)>,
    i: int,
    skip: int,
    acc: Seq<Seq<Seq<Point>>>,
) -> Seq<Seq<Seq<Point>>>
    decreases s.len() - i,
{
    if i < 0 || i >= s.len() {
        acc
    } else if i == skip {
        fold_shapes(s, i + 1, skip, acc)
    } else if acc.len() == 0 {
        Seq::<Seq<Seq<Point>>>::empty()
    } else {
        fold_shapes(
            s,
            i + 1,
            skip,
            spec_sanitize(overlay_of(acc, spec_sanitize(seq![s[i].0]), s[i].1)),
        )
    }
}

/// The concatenated triangulations of the shapes from `i` on; shapes that
/// are empty or whose outer contour is degenerate contribute nothing.
pub open spec fn triangulate_all(s: Seq<Seq<Seq<Point>>>, i: int) -> Seq<Primitive>
    decreases s.len() - i,
{
    if i < 0 || i >= s.len() {
        Seq::<Primitive>::empty()
    } else {
        let head = if s[i].len() == 0 || s[i][0].len() < 3 {
            Seq::<Primitive>::empty()
        } else {
            match spec_triangulate_shape(s[i], true) {
                Some(t) => t,
                None => Seq::<Primitive>::empty(),
            }
        };
        head + triangulate_all(s, i + 1)
    }
}

/// The whole Boolean pipeline over `(shape, exposure)` pairs: seed with the
/// first positive shape, union or subtract the others in order, then
/// triangulate the result with holes. No positive shape means no output.
pub open spec fn spec_boolean_ops(s: Seq<(Seq<Seq<Point>>, bool)>) -> Seq<Primitive> {
    let fp = first_pos_from(s, 0);
    if fp < 0 {
        Seq::<Primitive>::empty()
    } else {
        triangulate_all(fold_shapes(s, 0, fp, spec_sanitize(seq![s[fp].0])), 0)
    }
}

/// The view of an exposure-tagged shape list.
pub open spec fn tagged_view(s: &Vec<(Vec<Vec<Point>>, bool)>) -> Seq<(Seq<Seq<Point>>, bool)> {
    s@.map_values(|t: (Vec<Vec<Point>>, bool)| (shape_view(&t.0), t.1))
}

pub proof fn lemma_tagged_view_index_pub(s: &Vec<(Vec<Vec<Point>>, bool)>, i: int)
    requires
        0 <= i < s@.len(),
    ensures
        tagged_view(s).len() == s@.len(),
        tagged_view(s)[i] == (shape_view(&s@[i].0), s@[i].1),
{
}

proof fn lemma_fold_empty(s: Seq<(Seq<Seq<Point>>, bool)>, i: int, skip: int)
    ensures
        fold_shapes(s, i, skip, Seq::<Seq<Seq<Point>>>::empty()).len() == 0,
    decreases s.len() - i,
{
    if 0 <= i < s.len() && i == skip {
        lemma_fold_empty(s, i + 1, skip);
    }
}

/// Append every element of `src` to `dst`.
pub fn extend_primitives(dst: &mut Vec<Primitive>, src: &Vec<Primitive>)
    ensures
        final(dst)@ == old(dst)@ + src@,
{
    let mut t: usize = 0;
    while t < src.len()
        invariant
            0 <= t <= src@.len(),
            dst@ =~= old(dst)@ + src@.take(t as int),
        decreases src@.len() - t,
    {
        dst.push(src[t]);
        t = t + 1;
        proof {
            assert(dst@ =~= old(dst)@ + src@.take(t as int));
        }
    }
    proof {
        assert(old(dst)@ + src@.take(src@.len() as int) =~= old(dst)@ + src@);
    }
}

/// The tagged view has the list's length.
pub proof fn lemma_tagged_view_len(s: &Vec<(Vec<Vec<Point>>, bool)>)
    ensures
        tagged_view(s).len() == s@.len(),
{
}

/// Combine exposure-tagged shapes by sequential Boolean operations and
/// triangulate the result.
pub fn apply_boolean_operations(shapes: &Vec<(Vec<Vec<Point>>, bool)>) -> (out: Vec<Primitive>)
    ensures
        out@ == spec_boolean_ops(tagged_view(shapes)),
{
    let ghost sv = tagged_view(shapes);
    // Find the first positive shape.
    let mut fp: usize = 0;
    while fp < shapes.len() && !shapes[fp].1
        invariant
            0 <= fp <= shapes@.len(),
            forall|a: int| 0 <= a < fp ==> !tagged_view(shapes)[a].1,
            first_pos_from(tagged_view(shapes), 0) == first_pos_from(
                tagged_view(shapes),
                fp as int,
            ),
        decreases shapes@.len() - fp,
    {
        proof {
            lemma_tagged_view_index_pub(shapes, fp as int);
        }
        fp = fp + 1;
    }
    if fp >= shapes.len() {
        proof {
            assert(first_pos_from(sv, fp as int) == -1);
        }
        return Vec::new();
    }
    proof {
        lemma_tagged_view_index_pub(shapes, fp as int);
        assert(first_pos_from(sv, 0) == fp as int);
    }
    // Seed with the first positive shape and fold the rest.
    let mut acc: Vec<Vec<Vec<Point>>> = Vec::new();
    acc.push(sanitize_shape_exec(&shapes[fp].0));
    proof {
        lemma_shapes_view_len(&acc);
        lemma_view_index(&acc, 0);
        lemma_sanitize_len(seq![sv[fp as int].0]);
        lemma_sanitize_index(seq![sv[fp as int].0], 0);
        assert(shapes_view(&acc) =~~= spec_sanitize(seq![sv[fp as int].0]));
    }
    let ghost fold_target = fold_shapes(sv, 0, fp as int, spec_sanitize(seq![sv[fp as int].0]));
    let mut i: usize = 0;
    while i < shapes.len()
        invariant
            0 <= i <= shapes@.len(),
            fp < shapes@.len(),
            sv == tagged_view(shapes),
            first_pos_from(sv, 0) == fp as int,
            fold_target == fold_shapes(sv, 0, fp as int, spec_sanitize(seq![sv[fp as int].0])),
            shapes_safe(shapes_view(&acc)),
            acc@.len() > 0,
            fold_target == fold_shapes(sv, i as int, fp as int, shapes_view(&acc)),
        decreases shapes@.len() - i,
    {
        if i != fp {
            proof {
                lemma_tagged_view_index_pub(shapes, i as int);
            }
            let clip_shape: Vec<Vec<Point>> = sanitize_shape_exec(&shapes[i].0);
            let mut clip: Vec<Vec<Vec<Point>>> = Vec::new();
            clip.push(clip_shape);
            proof {
                lemma_shapes_view_len(&clip);
                lemma_view_index(&clip, 0);
                lemma_sanitize_len(seq![sv[i as int].0]);
                lemma_sanitize_index(seq![sv[i as int].0], 0);
                assert(shapes_view(&clip) =~~= spec_sanitize(seq![sv[i as int].0]));
                assert(shapes_safe(shapes_view(&clip)));
            }
            let merged: Vec<Vec<Vec<Point>>> = overlay_shapes(&acc, &clip, shapes[i].1);
            let next: Vec<Vec<Vec<Point>>> = sanitize_shapes(&merged);
            proof {
                assert(shapes_view(&next) =~~= spec_sanitize(overlay_of(
                    shapes_view(&acc),
                    spec_sanitize(seq![sv[i as int].0]),
                    sv[i as int].1,
                )));
                assert(fold_shapes(sv, i as int, fp as int, shapes_view(&acc))
                    == fold_shapes(sv, i as int + 1, fp as int, shapes_view(&next)));
            }
            if next.len() == 0 {
                proof {
                    lemma_shapes_view_len(&next);
                    assert(shapes_view(&next) =~~= Seq::<Seq<Seq<Point>>>::empty());
                    lemma_fold_empty(sv, i as int + 1, fp as int);
                    assert(fold_target.len() == 0);
                    assert(spec_boolean_ops(sv) =~= Seq::<Primitive>::empty());
                }
                return Vec::new();
            }
            acc = next;
        } else {
            proof {
                assert(fold_shapes(sv, i as int, fp as int, shapes_view(&acc))
                    == fold_shapes(sv, i as int + 1, fp as int, shapes_view(&acc)));
            }
        }
        i = i + 1;
    }
    // Triangulate the folded result.
    proof {
        assert(fold_target == shapes_view(&acc));
    }
    let mut out: Vec<Primitive> = Vec::new();
    let mut k: usize = 0;
    while k < acc.len()
        invariant
            0 <= k <= acc@.len(),
            fold_target == shapes_view(&acc),
            triangulate_all(shapes_view(&acc), 0) =~= out@ + triangulate_all(
                shapes_view(&acc),
                k as int,
            ),
        decreases acc@.len() - k,
    {
        proof {
            lemma_view_index(&acc, k as int);
        }
        let shape: &Vec<Vec<Point>> = &acc[k];
        if shape.len() > 0 {
            proof {
                lemma_shape_view_index(shape, 0);
            }
            if shape[0].len() >= 3 {
                match triangulate_shape_with_holes(shape, true) {
                    Ok(tris) => {
                        extend_primitives(&mut out, &tris);
                    },
                    Err(_) => {
                    },
                }
            }
        }
        k = k + 1;
    }
    proof {
        assert(out@ =~= triangulate_all(shapes_view(&acc), 0));
    }
    out
}

} // verus!
