//! Struct-of-arrays primitive buffers and the sublayer boundary.
//!
//! Each sublayer's primitive list is transposed into four parallel
//! containers, one per shape, holding equal-length arrays of scalar fields,
//! together with a bounding box over all geometry. The boundary provably
//! contains every primitive's extent, and no primitive is gained or lost in
//! the transposition.

use vstd::prelude::*;
use crate::fixed::{spec_sat_add, spec_sat_sub, sat_add, sat_sub, div_trunc};
use crate::geom::{Point, Primitive};

verus! {

/// Triangle mesh arrays: interleaved vertices, index triples, and
/// per-vertex hole data.
pub struct Triangles {
    pub vertices: Vec<i64>,
    pub indices: Vec<u32>,
    pub hole_x: Vec<i64>,
    pub hole_y: Vec<i64>,
    pub hole_radius: Vec<i64>,
}

/// Circle instance arrays.
pub struct Circles {
    pub x: Vec<i64>,
    pub y: Vec<i64>,
    pub radius: Vec<i64>,
    pub hole_x: Vec<i64>,
    pub hole_y: Vec<i64>,
    pub hole_radius: Vec<i64>,
}

/// Arc instance arrays: center, radius, start and end points, direction
/// and stroke thickness.
pub struct Arcs {
    pub x: Vec<i64>,
    pub y: Vec<i64>,
    pub radius: Vec<i64>,
    pub start_x: Vec<i64>,
    pub start_y: Vec<i64>,
    pub end_x: Vec<i64>,
    pub end_y: Vec<i64>,
    pub clockwise: Vec<bool>,
    pub thickness: Vec<i64>,
}

/// Thermal instance arrays.
pub struct Thermals {
    pub x: Vec<i64>,
    pub y: Vec<i64>,
    pub outer_diameter: Vec<i64>,
    pub inner_diameter: Vec<i64>,
    pub gap_thickness: Vec<i64>,
    pub rotation_mdeg: Vec<i64>,
}

/// The bounding box of one sublayer.
#[derive(Clone, Copy, Debug, PartialEq, Eq, Structural)]
pub struct Boundary {
    pub min_x: i64,
    pub max_x: i64,
    pub min_y: i64,
    pub max_y: i64,
}

impl Boundary {
    /// A boundary from its four edges.
    pub fn new(min_x: i64, max_x: i64, min_y: i64, max_y: i64) -> (r: Boundary)
        ensures
            r == (Boundary { min_x, max_x, min_y, max_y }),
    {
        Boundary { min_x, max_x, min_y, max_y }
    }
}

/// One polarity sublayer, transposed for upload.
pub struct GerberData {
    pub triangles: Triangles,
    pub circles: Circles,
    pub arcs: Arcs,
    pub thermals: Thermals,
    pub boundary: Boundary,
}

impl GerberData {
    /// Whether the sublayer holds any geometry.
    pub fn has_geometry(&self) -> (r: bool)
        ensures
            r == (self.triangles.indices@.len() > 0 || self.circles.x@.len() > 0
                || self.arcs.x@.len() > 0 || self.thermals.x@.len() > 0),
    {
        self.triangles.indices.len() > 0 || self.circles.x.len() > 0 || self.arcs.x.len() > 0
            || self.thermals.x.len() > 0
    }
}

/// The triangle primitives of a list, in order.
pub open spec fn tri_of(prims: Seq<Primitive>) -> Seq<Primitive>
    decreases prims.len(),
{
    if prims.len() == 0 {
        Seq::<Primitive>::empty()
    } else {
        tri_of(prims.drop_last()) + (if prims.last() is Triangle {
            seq![prims.last()]
        } else {
            Seq::<Primitive>::empty()
        })
    }
}

/// The circle primitives of a list, in order.
pub open spec fn circles_of(prims: Seq<Primitive>) -> Seq<Primitive>
    decreases prims.len(),
{
    if prims.len() == 0 {
        Seq::<Primitive>::empty()
    } else {
        circles_of(prims.drop_last()) + (if prims.last() is Circle {
            seq![prims.last()]
        } else {
            Seq::<Primitive>::empty()
        })
    }
}

/// The arc primitives of a list, in order.
pub open spec fn arcs_of(prims: Seq<Primitive>) -> Seq<Primitive>
    decreases prims.len(),
{
    if prims.len() == 0 {
        Seq::<Primitive>::empty()
    } else {
        arcs_of(prims.drop_last()) + (if prims.last() is Arc {
            seq![prims.last()]
        } else {
            Seq::<Primitive>::empty()
        })
    }
}

/// The thermal primitives of a list, in order.
pub open spec fn thermals_of(prims: Seq<Primitive>) -> Seq<Primitive>
    decreases prims.len(),
{
    if prims.len() == 0 {
        Seq::<Primitive>::empty()
    } else {
        thermals_of(prims.drop_last()) + (if prims.last() is Thermal {
            seq![prims.last()]
        } else {
            Seq::<Primitive>::empty()
        })
    }
}

/// Every primitive is exactly one of the four shapes, so the four
/// projections partition the list.
pub proof fn lemma_projection_partition(prims: Seq<Primitive>)
    ensures
        tri_of(prims).len() + circles_of(prims).len() + arcs_of(prims).len() + thermals_of(
            prims,
        ).len() == prims.len(),
    decreases prims.len(),
{
    if prims.len() > 0 {
        lemma_projection_partition(prims.drop_last());
    }
}

/// The saturated left extent of a primitive.
pub open spec fn ext_min_x(p: Primitive) -> int {
    match p {
        Primitive::Triangle { v1, v2, v3, .. } => min3(v1.x as int, v2.x as int, v3.x as int),
        Primitive::Circle { x, radius, .. } => spec_sat_sub(x as int, radius as int),
        Primitive::Arc { x, radius, thickness, .. } => spec_sat_sub(
            x as int,
            spec_sat_add(radius as int, div_trunc(thickness as int, 2)),
        ),
        Primitive::Thermal { x, outer_diameter, .. } => spec_sat_sub(
            x as int,
            div_trunc(outer_diameter as int, 2),
        ),
    }
}

pub open spec fn ext_max_x(p: Primitive) -> int {
    match p {
        Primitive::Triangle { v1, v2, v3, .. } => max3(v1.x as int, v2.x as int, v3.x as int),
        Primitive::Circle { x, radius, .. } => spec_sat_add(x as int, radius as int),
        Primitive::Arc { x, radius, thickness, .. } => spec_sat_add(
            x as int,
            spec_sat_add(radius as int, div_trunc(thickness as int, 2)),
        ),
        Primitive::Thermal { x, outer_diameter, .. } => spec_sat_add(
            x as int,
            div_trunc(outer_diameter as int, 2),
        ),
    }
}

pub open spec fn ext_min_y(p: Primitive) -> int {
    match p {
        Primitive::Triangle { v1, v2, v3, .. } => min3(v1.y as int, v2.y as int, v3.y as int),
        Primitive::Circle { y, radius, .. } => spec_sat_sub(y as int, radius as int),
        Primitive::Arc { y, radius, thickness, .. } => spec_sat_sub(
            y as int,
            spec_sat_add(radius as int, div_trunc(thickness as int, 2)),
        ),
        Primitive::Thermal { y, outer_diameter, .. } => spec_sat_sub(
            y as int,
            div_trunc(outer_diameter as int, 2),
        ),
    }
}

pub open spec fn ext_max_y(p: Primitive) -> int {
    match p {
        Primitive::Triangle { v1, v2, v3, .. } => max3(v1.y as int, v2.y as int, v3.y as int),
        Primitive::Circle { y, radius, .. } => spec_sat_add(y as int, radius as int),
        Primitive::Arc { y, radius, thickness, .. } => spec_sat_add(
            y as int,
            spec_sat_add(radius as int, div_trunc(thickness as int, 2)),
        ),
        Primitive::Thermal { y, outer_diameter, .. } => spec_sat_add(
            y as int,
            div_trunc(outer_diameter as int, 2),
        ),
    }
}

pub open spec fn min3(a: int, b: int, c: int) -> int {
    if a <= b && a <= c {
        a
    } else if b <= c {
        b
    } else {
        c
    }
}

pub open spec fn max3(a: int, b: int, c: int) -> int {
    if a >= b && a >= c {
        a
    } else if b >= c {
        b
    } else {
        c
    }
}

/// The least left edge over a non-empty primitive list.
pub open spec fn bbox_min_x(prims: Seq<Primitive>) -> int
    decreases prims.len(),
{
    if prims.len() <= 1 {
        ext_min_x(prims.last())
    } else {
        let rest = bbox_min_x(prims.drop_last());
        if ext_min_x(prims.last()) < rest {
            ext_min_x(prims.last())
        } else {
            rest
        }
    }
}

/// The greatest right edge over a non-empty primitive list.
pub open spec fn bbox_max_x(prims: Seq<Primitive>) -> int
    decreases prims.len(),
{
    if prims.len() <= 1 {
        ext_max_x(prims.last())
    } else {
        let rest = bbox_max_x(prims.drop_last());
        if ext_max_x(prims.last()) > rest {
            ext_max_x(prims.last())
        } else {
            rest
        }
    }
}

/// The least bottom edge over a non-empty primitive list.
pub open spec fn bbox_min_y(prims: Seq<Primitive>) -> int
    decreases prims.len(),
{
    if prims.len() <= 1 {
        ext_min_y(prims.last())
    } else {
        let rest = bbox_min_y(prims.drop_last());
        if ext_min_y(prims.last()) < rest {
            ext_min_y(prims.last())
        } else {
            rest
        }
    }
}

/// The greatest top edge over a non-empty primitive list.
pub open spec fn bbox_max_y(prims: Seq<Primitive>) -> int
    decreases prims.len(),
{
    if prims.len() <= 1 {
        ext_max_y(prims.last())
    } else {
        let rest = bbox_max_y(prims.drop_last());
        if ext_max_y(prims.last()) > rest {
            ext_max_y(prims.last())
        } else {
            rest
        }
    }
}

/// The boundary of a sublayer contains every primitive's extent.
pub open spec fn boundary_contains_all(b: Boundary, prims: Seq<Primitive>) -> bool {
    forall|k: int| 0 <= k < prims.len() ==> b.min_x as int <= ext_min_x(#[trigger] prims[k])
        && ext_max_x(prims[k]) <= b.max_x as int && b.min_y as int <= ext_min_y(prims[k])
        && ext_max_y(prims[k]) <= b.max_y as int
}

fn ext_of(p: &Primitive) -> (r: (i64, i64, i64, i64))
    ensures
        r.0 as int == ext_min_x(*p),
        r.1 as int == ext_max_x(*p),
        r.2 as int == ext_min_y(*p),
        r.3 as int == ext_max_y(*p),
{
    match p {
        Primitive::Triangle { v1, v2, v3, .. } => {
            let min_x: i64 = min3_exec(v1.x, v2.x, v3.x);
            let max_x: i64 = max3_exec(v1.x, v2.x, v3.x);
            let min_y: i64 = min3_exec(v1.y, v2.y, v3.y);
            let max_y: i64 = max3_exec(v1.y, v2.y, v3.y);
            (min_x, max_x, min_y, max_y)
        },
        Primitive::Circle { x, y, radius, .. } => {
            (sat_sub(*x, *radius), sat_add(*x, *radius), sat_sub(*y, *radius), sat_add(
                *y, *radius))
        },
        Primitive::Arc { x, y, radius, thickness, .. } => {
            let half: i64 = crate::fixed::div_trunc_wide(*thickness as i128, 2) as i64;
            let outer: i64 = sat_add(*radius, half);
            (sat_sub(*x, outer), sat_add(*x, outer), sat_sub(*y, outer), sat_add(*y, outer))
        },
        Primitive::Thermal { x, y, outer_diameter, .. } => {
            let half: i64 = crate::fixed::div_trunc_wide(*outer_diameter as i128, 2) as i64;
            (sat_sub(*x, half), sat_add(*x, half), sat_sub(*y, half), sat_add(*y, half))
        },
    }
}

fn min3_exec(a: i64, b: i64, c: i64) -> (r: i64)
    ensures
        r as int == min3(a as int, b as int, c as int),
{
    if a <= b && a <= c {
        a
    } else if b <= c {
        b
    } else {
        c
    }
}

fn max3_exec(a: i64, b: i64, c: i64) -> (r: i64)
    ensures
        r as int == max3(a as int, b as int, c as int),
{
    if a >= b && a >= c {
        a
    } else if b >= c {
        b
    } else {
        c
    }
}

/// Everything the transposition guarantees about one sublayer: the four
/// shape streams keep exactly the primitives of each kind, in order; the
/// boundary is the tight bounding box over every primitive's extent (and
/// so contains each); an empty list yields the zero boundary.
pub open spec fn gerber_data_matches(g: GerberData, prims: Seq<Primitive>) -> bool {
    &&& g.circles.x@.len() == circles_of(prims).len()
    &&& g.triangles.indices@.len() == 3 * tri_of(prims).len()
    &&& g.triangles.vertices@.len() == 6 * tri_of(prims).len()
    &&& g.arcs.x@.len() == arcs_of(prims).len()
    &&& g.thermals.x@.len() == thermals_of(prims).len()
    &&& (forall|k: int| 0 <= k < circles_of(prims).len()
        ==> ((#[trigger] circles_of(prims)[k]) matches Primitive::Circle {
            x, y, radius, hole_x, hole_y, hole_radius, .. }
        && g.circles.x@[k] == x && g.circles.y@[k] == y && g.circles.radius@[k] == radius
        && g.circles.hole_x@[k] == hole_x && g.circles.hole_y@[k] == hole_y
        && g.circles.hole_radius@[k] == hole_radius))
    &&& (forall|k: int| 0 <= k < tri_of(prims).len()
        ==> ((#[trigger] tri_of(prims)[k]) matches Primitive::Triangle {
            v1, v2, v3, hole_x, hole_y, hole_radius, .. }
        && g.triangles.vertices@[6 * k] == v1.x && g.triangles.vertices@[6 * k + 1] == v1.y
        && g.triangles.vertices@[6 * k + 2] == v2.x
        && g.triangles.vertices@[6 * k + 3] == v2.y
        && g.triangles.vertices@[6 * k + 4] == v3.x
        && g.triangles.vertices@[6 * k + 5] == v3.y
        && g.triangles.hole_x@[3 * k] == hole_x && g.triangles.hole_y@[3 * k] == hole_y
        && g.triangles.hole_radius@[3 * k] == hole_radius))
    &&& (forall|k: int| 0 <= k < 3 * tri_of(prims).len()
        ==> #[trigger] g.triangles.indices@[k] == k as u32)
    &&& (forall|k: int| 0 <= k < arcs_of(prims).len()
        ==> ((#[trigger] arcs_of(prims)[k]) matches Primitive::Arc {
            x, y, radius, start_x, start_y, end_x, end_y, clockwise, thickness, .. }
        && g.arcs.x@[k] == x && g.arcs.y@[k] == y && g.arcs.radius@[k] == radius
        && g.arcs.start_x@[k] == start_x && g.arcs.start_y@[k] == start_y
        && g.arcs.end_x@[k] == end_x && g.arcs.end_y@[k] == end_y
        && g.arcs.clockwise@[k] == clockwise && g.arcs.thickness@[k] == thickness))
    &&& (forall|k: int| 0 <= k < thermals_of(prims).len()
        ==> ((#[trigger] thermals_of(prims)[k]) matches Primitive::Thermal {
            x, y, outer_diameter, inner_diameter, gap_thickness, rotation_mdeg, .. }
        && g.thermals.x@[k] == x && g.thermals.y@[k] == y
        && g.thermals.outer_diameter@[k] == outer_diameter
        && g.thermals.inner_diameter@[k] == inner_diameter
        && g.thermals.gap_thickness@[k] == gap_thickness
        && g.thermals.rotation_mdeg@[k] == rotation_mdeg))
    &&& boundary_contains_all(g.boundary, prims)
    &&& (prims.len() > 0 ==> g.boundary == (Boundary {
        min_x: bbox_min_x(prims) as i64,
        max_x: bbox_max_x(prims) as i64,
        min_y: bbox_min_y(prims) as i64,
        max_y: bbox_max_y(prims) as i64,
    }))
    &&& (prims.len() == 0 ==> g.boundary == (Boundary {
        min_x: 0,
        max_x: 0,
        min_y: 0,
        max_y: 0,
    }))
}

/// Transpose a primitive list into struct-of-arrays buffers and compute
/// its bounding box.
///
/// No primitive is gained or lost: the four shape streams keep exactly the
/// primitives of each kind, in order, and the boundary is the tight
/// bounding box of every primitive's extent. An empty list yields the zero
/// boundary.
#[verifier::rlimit(80)]
pub fn primitives_to_gerber_data(primitives: &Vec<Primitive>) -> (r: GerberData)
    ensures
        gerber_data_matches(r, primitives@),
{
    let mut tv: Vec<i64> = Vec::new();
    let mut ti: Vec<u32> = Vec::new();
    let mut thx: Vec<i64> = Vec::new();
    let mut thy: Vec<i64> = Vec::new();
    let mut thr: Vec<i64> = Vec::new();
    let mut cx: Vec<i64> = Vec::new();
    let mut cy: Vec<i64> = Vec::new();
    let mut cr: Vec<i64> = Vec::new();
    let mut chx: Vec<i64> = Vec::new();
    let mut chy: Vec<i64> = Vec::new();
    let mut chr: Vec<i64> = Vec::new();
    let mut ax: Vec<i64> = Vec::new();
    let mut ay: Vec<i64> = Vec::new();
    let mut ar: Vec<i64> = Vec::new();
    let mut asx: Vec<i64> = Vec::new();
    let mut asy: Vec<i64> = Vec::new();
    let mut aex: Vec<i64> = Vec::new();
    let mut aey: Vec<i64> = Vec::new();
    let mut acw: Vec<bool> = Vec::new();
    let mut ath: Vec<i64> = Vec::new();
    let mut mx: Vec<i64> = Vec::new();
    let mut my: Vec<i64> = Vec::new();
    let mut mo: Vec<i64> = Vec::new();
    let mut mi: Vec<i64> = Vec::new();
    let mut mg: Vec<i64> = Vec::new();
    let mut mr: Vec<i64> = Vec::new();
    let mut has_any: bool = false;
    let mut min_x: i64 = 0;
    let mut max_x: i64 = 0;
    let mut min_y: i64 = 0;
    let mut max_y: i64 = 0;
    let mut i: usize = 0;
    proof {
        assert(primitives@.take(0) =~= Seq::<Primitive>::empty());
    }
    while i < primitives.len()
        invariant
            0 <= i <= primitives@.len(),
            ({
                let pre = primitives@.take(i as int);
                &&& cx@.len() == circles_of(pre).len()
                &&& cy@.len() == cx@.len() && cr@.len() == cx@.len() && chx@.len() == cx@.len()
                &&& chy@.len() == cx@.len() && chr@.len() == cx@.len()
                &&& tv@.len() == 6 * tri_of(pre).len()
                &&& ti@.len() == 3 * tri_of(pre).len()
                &&& thx@.len() == 3 * tri_of(pre).len() && thy@.len() == thx@.len()
                    && thr@.len() == thx@.len()
                &&& ax@.len() == arcs_of(pre).len()
                &&& ay@.len() == ax@.len() && ar@.len() == ax@.len() && asx@.len() == ax@.len()
                &&& asy@.len() == ax@.len() && aex@.len() == ax@.len() && aey@.len()
                    == ax@.len() && acw@.len() == ax@.len() && ath@.len() == ax@.len()
                &&& mx@.len() == thermals_of(pre).len()
                &&& my@.len() == mx@.len() && mo@.len() == mx@.len() && mi@.len() == mx@.len()
                    && mg@.len() == mx@.len() && mr@.len() == mx@.len()
                &&& (forall|k: int| 0 <= k < circles_of(pre).len()
                    ==> ((#[trigger] circles_of(pre)[k]) matches Primitive::Circle {
                        x, y, radius, hole_x, hole_y, hole_radius, .. }
                    && cx@[k] == x && cy@[k] == y && cr@[k] == radius && chx@[k] == hole_x
                    && chy@[k] == hole_y && chr@[k] == hole_radius))
                &&& (forall|k: int| 0 <= k < tri_of(pre).len()
                    ==> ((#[trigger] tri_of(pre)[k]) matches Primitive::Triangle {
                        v1, v2, v3, hole_x, hole_y, hole_radius, .. }
                    && tv@[6 * k] == v1.x && tv@[6 * k + 1] == v1.y && tv@[6 * k + 2] == v2.x
                    && tv@[6 * k + 3] == v2.y && tv@[6 * k + 4] == v3.x && tv@[6 * k + 5]
                        == v3.y
                    && thx@[3 * k] == hole_x && thy@[3 * k] == hole_y && thr@[3 * k]
                        == hole_radius))
                &&& (forall|k: int| 0 <= k < ti@.len() ==> #[trigger] ti@[k] == k as u32)
                &&& (forall|k: int| 0 <= k < arcs_of(pre).len()
                    ==> ((#[trigger] arcs_of(pre)[k]) matches Primitive::Arc {
                        x, y, radius, start_x, start_y, end_x, end_y, clockwise, thickness,
                        .. }
                    && ax@[k] == x && ay@[k] == y && ar@[k] == radius && asx@[k] == start_x
                    && asy@[k] == start_y && aex@[k] == end_x && aey@[k] == end_y
                    && acw@[k] == clockwise && ath@[k] == thickness))
                &&& (forall|k: int| 0 <= k < thermals_of(pre).len()
                    ==> ((#[trigger] thermals_of(pre)[k]) matches Primitive::Thermal {
                        x, y, outer_diameter, inner_diameter, gap_thickness, rotation_mdeg,
                        .. }
                    && mx@[k] == x && my@[k] == y && mo@[k] == outer_diameter
                    && mi@[k] == inner_diameter && mg@[k] == gap_thickness
                    && mr@[k] == rotation_mdeg))
                &&& (forall|k: int| 0 <= k < pre.len()
                    ==> min_x as int <= ext_min_x(#[trigger] pre[k])
                    && ext_max_x(pre[k]) <= max_x as int
                    && min_y as int <= ext_min_y(pre[k])
                    && ext_max_y(pre[k]) <= max_y as int)
                &&& (pre.len() > 0 ==> min_x as int == bbox_min_x(pre)
                    && max_x as int == bbox_max_x(pre)
                    && min_y as int == bbox_min_y(pre)
                    && max_y as int == bbox_max_y(pre))
                &&& (has_any == (pre.len() > 0))
                &&& (!has_any ==> min_x == 0 && max_x == 0 && min_y == 0 && max_y == 0)
            }),
        decreases primitives@.len() - i,
    {
        let ghost pre = primitives@.take(i as int);
        let p: &Primitive = &primitives[i];
        proof {
            assert(primitives@.take(i as int + 1).drop_last() =~= pre);
            assert(primitives@.take(i as int + 1).last() == primitives@[i as int]);
        }
        let e: (i64, i64, i64, i64) = ext_of(p);
        if !has_any {
            has_any = true;
            min_x = e.0;
            max_x = e.1;
            min_y = e.2;
            max_y = e.3;
        } else {
            if e.0 < min_x {
                min_x = e.0;
            }
            if e.1 > max_x {
                max_x = e.1;
            }
            if e.2 < min_y {
                min_y = e.2;
            }
            if e.3 > max_y {
                max_y = e.3;
            }
        }
        match p {
            Primitive::Triangle { v1, v2, v3, hole_x, hole_y, hole_radius, .. } => {
                let b0: u32 = #[verifier::truncate] (ti.len() as u32);
                let b1: u32 = #[verifier::truncate] ((ti.len() as u128 + 1) as u32);
                let b2: u32 = #[verifier::truncate] ((ti.len() as u128 + 2) as u32);
                tv.push(v1.x);
                tv.push(v1.y);
                tv.push(v2.x);
                tv.push(v2.y);
                tv.push(v3.x);
                tv.push(v3.y);
                ti.push(b0);
                ti.push(b1);
                ti.push(b2);
                thx.push(*hole_x);
                thx.push(*hole_x);
                thx.push(*hole_x);
                thy.push(*hole_y);
                thy.push(*hole_y);
                thy.push(*hole_y);
                thr.push(*hole_radius);
                thr.push(*hole_radius);
                thr.push(*hole_radius);
            },
            Primitive::Circle { x, y, radius, hole_x, hole_y, hole_radius, .. } => {
                cx.push(*x);
                cy.push(*y);
                cr.push(*radius);
                chx.push(*hole_x);
                chy.push(*hole_y);
                chr.push(*hole_radius);
            },
            Primitive::Arc {
                x, y, radius, start_x, start_y, end_x, end_y, clockwise, thickness, ..
            } => {
                ax.push(*x);
                ay.push(*y);
                ar.push(*radius);
                asx.push(*start_x);
                asy.push(*start_y);
                aex.push(*end_x);
                aey.push(*end_y);
                acw.push(*clockwise);
                ath.push(*thickness);
            },
            Primitive::Thermal {
                x, y, outer_diameter, inner_diameter, gap_thickness, rotation_mdeg, ..
            } => {
                mx.push(*x);
                my.push(*y);
                mo.push(*outer_diameter);
                mi.push(*inner_diameter);
                mg.push(*gap_thickness);
                mr.push(*rotation_mdeg);
            },
        }
        i = i + 1;
    }
    proof {
        assert(primitives@.take(primitives@.len() as int) =~= primitives@);
    }
    GerberData {
        triangles: Triangles { vertices: tv, indices: ti, hole_x: thx, hole_y: thy,
            hole_radius: thr },
        circles: Circles { x: cx, y: cy, radius: cr, hole_x: chx, hole_y: chy,
            hole_radius: chr },
        arcs: Arcs { x: ax, y: ay, radius: ar, start_x: asx, start_y: asy, end_x: aex,
            end_y: aey, clockwise: acw, thickness: ath },
        thermals: Thermals { x: mx, y: my, outer_diameter: mo, inner_diameter: mi,
            gap_thickness: mg, rotation_mdeg: mr },
        boundary: Boundary { min_x, max_x, min_y, max_y },
    }
}

} // verus!
