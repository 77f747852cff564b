//! Aperture macros.
//!
//! A macro is an ordered list of textual statements kept verbatim until it
//! is instantiated with numeric parameters. A statement either binds a
//! variable (`$k=expr`) or emits a primitive (`code,arg,arg,...`). Whether
//! a macro can remove material (`has_negative`) is precomputed from the
//! exposure literal of each primitive line.

use vstd::prelude::*;
use vstd::string::*;
use crate::fixed::{div_trunc, sat_i64, spec_sat_add, FIX_ONE};
use crate::text::{
    spec_trim, spec_trim_end, spec_trim_start, spec_split, spec_starts_with, all_digits,
    spec_parse_digits, has_byte, first_occ, trim, trim_end_byte, split_bytes, starts_with,
    bytes_eq, find_byte, lemma_first_occ_bounds,
};
use crate::expr::{
    spec_evaluate, evaluate_expression, spec_vars_set, vars_lookup, VarTable, EvalError,
    var_index,
};
use crate::geom::{Point, Primitive, spec_rotate_point, rotate_point, spec_line_triangles,
    line_to_triangles};
use crate::trig::{spec_cos_mdeg, spec_sin_mdeg, cos_mdeg, sin_mdeg};
use crate::boolean::{spec_triangulate_shape, triangulate_outline, TriangulateError};

verus! {

/// An aperture macro: its statements, verbatim, and whether any primitive
/// line has exposure zero.
#[derive(Clone, Debug)]
pub struct ApertureMacro {
    pub statements: Vec<Vec<u8>>,
    pub has_negative: bool,
}

/// The view of a statement list.
pub open spec fn stmts_view(v: Vec<Vec<u8>>) -> Seq<Seq<u8>> {
    v@.map_values(|b: Vec<u8>| b@)
}

impl ApertureMacro {
    /// An empty macro.
    pub fn new() -> (r: ApertureMacro)
        ensures
            r.statements@.len() == 0,
            r.has_negative == false,
    {
        ApertureMacro { statements: Vec::new(), has_negative: false }
    }
}

/// Whether a trimmed statement is a comment (`0` or `0 ...`).
pub open spec fn stmt_is_comment(t: Seq<u8>) -> bool {
    t =~= seq![48u8] || spec_starts_with(t, seq![48u8, 32u8])
}

/// Whether a trimmed statement is a variable assignment (`$k=expr`).
pub open spec fn stmt_is_assignment(t: Seq<u8>) -> bool {
    t.len() > 0 && t[0] == 36 && has_byte(t, 61)
}

/// Whether a primitive statement's exposure literal reads `0` or `0.0`.
pub open spec fn stmt_is_negative(s: Seq<u8>) -> bool {
    let t = spec_trim(s);
    if t.len() == 0 || stmt_is_comment(t) || stmt_is_assignment(t) {
        false
    } else {
        let parts = spec_split(t, 44);
        parts.len() >= 2 && {
            let e = spec_trim(parts[1]);
            e =~= seq![48u8] || e =~= seq![48u8, 46u8, 48u8]
        }
    }
}

/// Whether any statement emits a primitive with exposure zero.
pub open spec fn spec_has_negative(stmts: Seq<Seq<u8>>) -> bool {
    exists|i: int| 0 <= i < stmts.len() && stmt_is_negative(#[trigger] stmts[i])
}

/// Decide whether one statement reads as a negative primitive line.
fn stmt_negative_exec(s: &[u8]) -> (r: bool)
    ensures
        r == stmt_is_negative(s@),
{
    let t: &[u8] = trim(s);
    if t.len() == 0 {
        return false;
    }
    let zero: [u8; 1] = [48];
    let zero_sp: [u8; 2] = [48, 32];
    if bytes_eq(t, zero.as_slice()) {
        proof {
            assert(t@ =~= seq![48u8]);
        }
        return false;
    }
    if starts_with(t, zero_sp.as_slice()) {
        proof {
            assert(zero_sp@ =~= seq![48u8, 32u8]);
        }
        return false;
    }
    proof {
        assert(zero@ =~= seq![48u8]);
        assert(zero_sp@ =~= seq![48u8, 32u8]);
        assert(!stmt_is_comment(t@));
    }
    if t[0] == 36 {
        match find_byte(t, 61) {
            Some(_) => {
                return false;
            },
            None => {
            },
        }
    }
    proof {
        assert(!stmt_is_assignment(t@));
    }
    let parts: Vec<Vec<u8>> = split_bytes(t, 44);
    proof {
        assert(parts@.map_values(|v: Vec<u8>| v@).len() == parts@.len());
    }
    if parts.len() < 2 {
        return false;
    }
    let e: &[u8] = trim(parts[1].as_slice());
    proof {
        assert(parts@.map_values(|v: Vec<u8>| v@)[1] == parts@[1]@);
    }
    let zz: [u8; 3] = [48, 46, 48];
    let r: bool = bytes_eq(e, zero.as_slice()) || bytes_eq(e, zz.as_slice());
    proof {
        assert(zz@ =~= seq![48u8, 46u8, 48u8]);
        if e@ == zero@ {
            assert(e@ =~= seq![48u8]);
        }
        if e@ == zz@ {
            assert(e@ =~= seq![48u8, 46u8, 48u8]);
        }
        if r == false {
            assert(!(e@ =~= seq![48u8]) && !(e@ =~= seq![48u8, 46u8, 48u8]));
        }
    }
    r
}

/// Whether any statement of the list emits a primitive with exposure zero.
pub fn check_macro_has_negative(statements: &Vec<Vec<u8>>) -> (r: bool)
    ensures
        r == spec_has_negative(stmts_view(*statements)),
{
    let mut i: usize = 0;
    while i < statements.len()
        invariant
            0 <= i <= statements@.len(),
            forall|a: int| 0 <= a < i ==> !stmt_is_negative(
                #[trigger] stmts_view(*statements)[a],
            ),
        decreases statements@.len() - i,
    {
        proof {
            assert(stmts_view(*statements)[i as int] == statements@[i as int]@);
        }
        if stmt_negative_exec(statements[i].as_slice()) {
            return true;
        }
        i = i + 1;
    }
    false
}


/// The value of argument `j`, under the variable table.
pub open spec fn arg(parts: Seq<Seq<u8>>, j: int, vars: Seq<(u32, i64)>)
    -> Result<int, EvalError>
{
    spec_evaluate(parts[j], vars)
}

/// An exposure value of at least one half reads as positive.
pub open spec fn exposure_of(v: int) -> bool {
    v >= 500_000
}

/// A rotation argument in fixed-point degrees, as milli-degrees.
pub open spec fn mdeg_of(v: int) -> int {
    div_trunc(v, 1000)
}

/// A count argument: the integer part of a non-negative value, saturated
/// at `u32::MAX` vertices.
pub open spec fn count_of(v: int) -> int {
    if v < 0 {
        0
    } else if v / (FIX_ONE as int) > u32::MAX as int {
        u32::MAX as int
    } else {
        v / (FIX_ONE as int)
    }
}

/// The largest outline vertex count a code-4 statement accepts.
pub const OUTLINE_CAP: u64 = 100_000_000;

/// A triangle with its corners rotated by `rot` milli-degrees around
/// `(cx, cy)`; other primitives pass through unchanged.
pub open spec fn spec_rotate_tri(p: Primitive, rot: int, cx: int, cy: int) -> Primitive {
    match p {
        Primitive::Triangle { v1, v2, v3, exposure, hole_x, hole_y, hole_radius } => {
            Primitive::Triangle {
                v1: spec_rotate_point(v1, rot, cx, cy),
                v2: spec_rotate_point(v2, rot, cx, cy),
                v3: spec_rotate_point(v3, rot, cx, cy),
                exposure,
                hole_x,
                hole_y,
                hole_radius,
            }
        },
        _ => p,
    }
}

/// Every triangle of the list rotated; the identity when `rot` is zero.
pub open spec fn spec_rotate_tris(tris: Seq<Primitive>, rot: int, cx: int, cy: int)
    -> Seq<Primitive>
{
    if rot == 0 {
        tris
    } else {
        tris.map_values(|p: Primitive| spec_rotate_tri(p, rot, cx, cy))
    }
}

fn rotate_tri_exec(p: Primitive, rot: i64, cx: i64, cy: i64) -> (r: Primitive)
    ensures
        r == spec_rotate_tri(p, rot as int, cx as int, cy as int),
{
    match p {
        Primitive::Triangle { v1, v2, v3, exposure, hole_x, hole_y, hole_radius } => {
            Primitive::Triangle {
                v1: rotate_point(v1, rot, cx, cy),
                v2: rotate_point(v2, rot, cx, cy),
                v3: rotate_point(v3, rot, cx, cy),
                exposure,
                hole_x,
                hole_y,
                hole_radius,
            }
        },
        _ => p,
    }
}

fn rotate_tris_exec(tris: Vec<Primitive>, rot: i64, cx: i64, cy: i64) -> (r: Vec<Primitive>)
    ensures
        r@ == spec_rotate_tris(tris@, rot as int, cx as int, cy as int),
{
    if rot == 0 {
        return tris;
    }
    let mut out: Vec<Primitive> = Vec::new();
    let mut i: usize = 0;
    while i < tris.len()
        invariant
            0 <= i <= tris@.len(),
            out@.len() == i,
            forall|a: int| 0 <= a < i ==> out@[a] == spec_rotate_tri(
                #[trigger] tris@[a], rot as int, cx as int, cy as int),
        decreases tris@.len() - i,
    {
        out.push(rotate_tri_exec(tris[i], rot, cx, cy));
        i = i + 1;
    }
    proof {
        assert(out@ =~= tris@.map_values(
            |p: Primitive| spec_rotate_tri(p, rot as int, cx as int, cy as int)));
    }
    out
}

/// The outline vertices of a code-4 statement: pairs of evaluated
/// coordinates, `None` when an index is out of range or an argument fails.
pub open spec fn collect_verts(
    parts: Seq<Seq<u8>>,
    vars: Seq<(u32, i64)>,
    j: int,
    n: int,
) -> Option<Seq<Point>>
    decreases n - j,
{
    if j >= n {
        Some(Seq::<Point>::empty())
    } else {
        let xi = 3 + 2 * j;
        if xi + 1 >= parts.len() {
            None
        } else {
            match arg(parts, xi, vars) {
                Err(_) => None,
                Ok(x) => match arg(parts, xi + 1, vars) {
                    Err(_) => None,
                    Ok(y) => match collect_verts(parts, vars, j + 1, n) {
                        None => None,
                        Some(rest) => Some(
                            seq![Point { x: x as i64, y: y as i64 }] + rest,
                        ),
                    },
                },
            }
        }
    }
}

/// One vertex of the code-5 regular polygon.
pub open spec fn poly_vertex(cx: int, cy: int, r: int, step: int, k: int) -> Point {
    Point {
        x: spec_sat_add(cx, crate::fixed::spec_fix_mul(r, spec_cos_mdeg(step * k))) as i64,
        y: spec_sat_add(cy, crate::fixed::spec_fix_mul(r, spec_sin_mdeg(step * k))) as i64,
    }
}

/// One fan triangle of the code-5 regular polygon.
pub open spec fn poly_tri(
    cx: int,
    cy: int,
    r: int,
    step: int,
    k: int,
    n: int,
    exposure: bool,
) -> Primitive {
    Primitive::Triangle {
        v1: Point { x: cx as i64, y: cy as i64 },
        v2: poly_vertex(cx, cy, r, step, k),
        v3: poly_vertex(cx, cy, r, step, if k + 1 == n { 0 } else { k + 1 }),
        exposure,
        hole_x: 0,
        hole_y: 0,
        hole_radius: 0,
    }
}

/// The primitives of one macro statement, by leading code, or `None` when
/// the statement is malformed or an argument fails to evaluate.
pub open spec fn spec_prim_stmt(stmt: Seq<u8>, vars: Seq<(u32, i64)>)
    -> Option<(u32, Seq<Primitive>)>
{
    let t = spec_trim_end(stmt, 42);
    let parts = spec_split(t, 44);
    match spec_parse_digits(parts[0]) {
        None => None,
        Some(code) => if code > u32::MAX as int {
            None
        } else if code == 0 {
            Some((0u32, Seq::<Primitive>::empty()))
        } else if code == 1 {
            spec_code1(parts, vars)
        } else if code == 4 {
            spec_code4(parts, vars)
        } else if code == 5 {
            spec_code5(parts, vars)
        } else if code == 7 {
            spec_code7(parts, vars)
        } else if code == 20 {
            spec_code20(parts, vars)
        } else if code == 21 {
            spec_code21(parts, vars)
        } else {
            None
        },
    }
}

/// Code 1: a circle `1,exposure,diameter,cx,cy`.
pub open spec fn spec_code1(parts: Seq<Seq<u8>>, vars: Seq<(u32, i64)>)
    -> Option<(u32, Seq<Primitive>)>
{
    if parts.len() < 5 {
        None
    } else {
        match (arg(parts, 1, vars), arg(parts, 2, vars), arg(parts, 3, vars), arg(
            parts, 4, vars)) {
            (Ok(e), Ok(d), Ok(cx), Ok(cy)) => Some(
                (1u32, seq![
                    Primitive::Circle {
                        x: cx as i64,
                        y: cy as i64,
                        radius: div_trunc(d, 2) as i64,
                        exposure: exposure_of(e),
                        hole_x: cx as i64,
                        hole_y: cy as i64,
                        hole_radius: 0,
                    },
                ]),
            ),
            _ => None,
        }
    }
}

/// Code 4: an outline `4,exposure,n,x1,y1,..,xn,yn[,rot]`, triangulated and
/// rotated around the origin.
pub open spec fn spec_code4(parts: Seq<Seq<u8>>, vars: Seq<(u32, i64)>)
    -> Option<(u32, Seq<Primitive>)>
{
    if parts.len() < 4 {
        None
    } else {
        match (arg(parts, 1, vars), arg(parts, 2, vars)) {
            (Ok(e), Ok(nv)) => {
                let n = count_of(nv);
                if n > OUTLINE_CAP as int {
                    None
                } else {
                let rot_idx = 3 + 2 * n;
                let rot = if parts.len() > rot_idx {
                    match arg(parts, rot_idx, vars) {
                        Ok(rv) => Some(mdeg_of(rv)),
                        Err(_) => None,
                    }
                } else {
                    Some(0int)
                };
                match rot {
                    None => None,
                    Some(rmd) => match collect_verts(parts, vars, 0, n) {
                        None => None,
                        Some(verts) => if verts.len() >= 3 {
                            match spec_triangulate_shape(seq![verts], exposure_of(e)) {
                                Some(tris) => Some(
                                    (4u32, spec_rotate_tris(tris, rmd, 0, 0)),
                                ),
                                None => None,
                            }
                        } else {
                            None
                        },
                    },
                }
                }
            },
            _ => None,
        }
    }
}

/// Code 5: a regular polygon `5,exposure,n,cx,cy,d[,rot]`, fan-triangulated
/// from the center and rotated around the origin.
pub open spec fn spec_code5(parts: Seq<Seq<u8>>, vars: Seq<(u32, i64)>)
    -> Option<(u32, Seq<Primitive>)>
{
    if parts.len() < 6 {
        None
    } else {
        match (arg(parts, 1, vars), arg(parts, 2, vars), arg(parts, 3, vars), arg(
            parts, 4, vars), arg(parts, 5, vars)) {
            (Ok(e), Ok(nv), Ok(cx), Ok(cy), Ok(d)) => {
                let rot = if parts.len() > 6 {
                    match arg(parts, 6, vars) {
                        Ok(rv) => Some(mdeg_of(rv)),
                        Err(_) => None,
                    }
                } else {
                    Some(0int)
                };
                match rot {
                    None => None,
                    Some(rmd) => {
                        let n = count_of(nv);
                        if n == 0 {
                            Some((5u32, Seq::<Primitive>::empty()))
                        } else {
                            let r = div_trunc(d, 2);
                            let step = 360_000int / n;
                            Some(
                                (5u32, spec_rotate_tris(
                                    Seq::new(
                                        n as nat,
                                        |k: int| poly_tri(cx, cy, r, step, k, n, exposure_of(e)),
                                    ),
                                    rmd,
                                    0,
                                    0,
                                )),
                            )
                        }
                    },
                }
            },
            _ => None,
        }
    }
}

/// Code 7: a thermal `7,cx,cy,outer,inner,gap[,rot]` (always positive).
pub open spec fn spec_code7(parts: Seq<Seq<u8>>, vars: Seq<(u32, i64)>)
    -> Option<(u32, Seq<Primitive>)>
{
    if parts.len() < 6 {
        None
    } else {
        match (arg(parts, 1, vars), arg(parts, 2, vars), arg(parts, 3, vars), arg(
            parts, 4, vars), arg(parts, 5, vars)) {
            (Ok(cx), Ok(cy), Ok(od), Ok(id), Ok(gap)) => {
                let rot = if parts.len() > 6 {
                    match arg(parts, 6, vars) {
                        Ok(rv) => Some(mdeg_of(rv)),
                        Err(_) => None,
                    }
                } else {
                    Some(0int)
                };
                match rot {
                    None => None,
                    Some(rmd) => Some(
                        (7u32, seq![
                            Primitive::Thermal {
                                x: cx as i64,
                                y: cy as i64,
                                outer_diameter: od as i64,
                                inner_diameter: id as i64,
                                gap_thickness: gap as i64,
                                rotation_mdeg: rmd as i64,
                                exposure: true,
                            },
                        ]),
                    ),
                }
            },
            _ => None,
        }
    }
}

/// Code 20: a vector line `20,exposure,width,x1,y1,x2,y2[,rot]`, expanded
/// to two triangles and rotated around the origin.
pub open spec fn spec_code20(parts: Seq<Seq<u8>>, vars: Seq<(u32, i64)>)
    -> Option<(u32, Seq<Primitive>)>
{
    if parts.len() < 7 {
        None
    } else {
        match (arg(parts, 1, vars), arg(parts, 2, vars), arg(parts, 3, vars), arg(
            parts, 4, vars), arg(parts, 5, vars), arg(parts, 6, vars)) {
            (Ok(e), Ok(w), Ok(sx), Ok(sy), Ok(ex), Ok(ey)) => {
                let rot = if parts.len() > 7 {
                    match arg(parts, 7, vars) {
                        Ok(rv) => Some(mdeg_of(rv)),
                        Err(_) => None,
                    }
                } else {
                    Some(0int)
                };
                match rot {
                    None => None,
                    Some(rmd) => Some(
                        (20u32, spec_rotate_tris(
                            spec_line_triangles(sx, sy, ex, ey, w, exposure_of(e)),
                            rmd,
                            0,
                            0,
                        )),
                    ),
                }
            },
            _ => None,
        }
    }
}

/// Code 21: a centered rectangle `21,exposure,w,h,cx,cy[,rot]`, two
/// triangles rotated around the rectangle's center.
pub open spec fn spec_code21(parts: Seq<Seq<u8>>, vars: Seq<(u32, i64)>)
    -> Option<(u32, Seq<Primitive>)>
{
    if parts.len() < 6 {
        None
    } else {
        match (arg(parts, 1, vars), arg(parts, 2, vars), arg(parts, 3, vars), arg(
            parts, 4, vars), arg(parts, 5, vars)) {
            (Ok(e), Ok(w), Ok(h), Ok(cx), Ok(cy)) => {
                let rot = if parts.len() > 6 {
                    match arg(parts, 6, vars) {
                        Ok(rv) => Some(mdeg_of(rv)),
                        Err(_) => None,
                    }
                } else {
                    Some(0int)
                };
                match rot {
                    None => None,
                    Some(rmd) => {
                        let hw = div_trunc(w, 2);
                        let hh = div_trunc(h, 2);
                        let v1 = Point {
                            x: crate::fixed::spec_sat_sub(cx, hw) as i64,
                            y: crate::fixed::spec_sat_sub(cy, hh) as i64,
                        };
                        let v2 = Point {
                            x: spec_sat_add(cx, hw) as i64,
                            y: crate::fixed::spec_sat_sub(cy, hh) as i64,
                        };
                        let v3 = Point {
                            x: spec_sat_add(cx, hw) as i64,
                            y: spec_sat_add(cy, hh) as i64,
                        };
                        let v4 = Point {
                            x: crate::fixed::spec_sat_sub(cx, hw) as i64,
                            y: spec_sat_add(cy, hh) as i64,
                        };
                        let t1 = Primitive::Triangle {
                            v1,
                            v2,
                            v3,
                            exposure: exposure_of(e),
                            hole_x: 0,
                            hole_y: 0,
                            hole_radius: 0,
                        };
                        let t2 = Primitive::Triangle {
                            v1,
                            v2: v3,
                            v3: v4,
                            exposure: exposure_of(e),
                            hole_x: 0,
                            hole_y: 0,
                            hole_radius: 0,
                        };
                        Some((21u32, spec_rotate_tris(seq![t1, t2], rmd, cx, cy)))
                    },
                }
            },
            _ => None,
        }
    }
}


/// Evaluate arguments `lo..hi` of a statement into a vector; `None` when
/// one fails.
fn eval_args(parts: &Vec<Vec<u8>>, lo: usize, hi: usize, vars: &VarTable)
    -> (r: Option<Vec<i64>>)
    requires
        lo <= hi <= parts@.len(),
    ensures
        r is Some ==> r->0@.len() == hi - lo && forall|j: int| lo <= j < hi
            ==> arg(stmts_view(*parts), j, vars.entries@)
                == Ok::<int, EvalError>(r->0@[j - lo] as int),
        r is None ==> exists|j: int| lo <= j < hi
            && arg(stmts_view(*parts), #[trigger] (j * 1), vars.entries@) is Err
            && forall|a: int| lo <= a < j ==> arg(stmts_view(*parts), a, vars.entries@) is Ok,
{
    let mut out: Vec<i64> = Vec::new();
    let mut j: usize = lo;
    while j < hi
        invariant
            lo <= j <= hi <= parts@.len(),
            out@.len() == j - lo,
            forall|a: int| lo <= a < j ==> arg(stmts_view(*parts), a, vars.entries@)
                == Ok::<int, EvalError>(out@[a - lo] as int),
        decreases hi - j,
    {
        proof {
            assert(stmts_view(*parts)[j as int] == parts@[j as int]@);
        }
        match evaluate_expression(parts[j].as_slice(), vars) {
            Ok(v) => {
                out.push(v);
            },
            Err(_) => {
                proof {
                    assert(arg(stmts_view(*parts), j as int * 1, vars.entries@) is Err);
                }
                return None;
            },
        }
        j = j + 1;
    }
    Some(out)
}

/// Evaluate the optional rotation argument at `idx` as milli-degrees.
fn eval_rot(parts: &Vec<Vec<u8>>, idx: usize, vars: &VarTable) -> (r: Option<i64>)
    ensures
        ({
            let sr = if stmts_view(*parts).len() > idx {
                match arg(stmts_view(*parts), idx as int, vars.entries@) {
                    Ok(rv) => Some(mdeg_of(rv)),
                    Err(_) => None,
                }
            } else {
                Some(0int)
            };
            match r {
                Some(v) => sr == Some(v as int),
                None => sr is None,
            }
        }),
{
    if parts.len() > idx {
        proof {
            assert(stmts_view(*parts)[idx as int] == parts@[idx as int]@);
        }
        match evaluate_expression(parts[idx].as_slice(), vars) {
            Ok(rv) => Some(crate::fixed::div_trunc_wide(rv as i128, 1000) as i64),
            Err(_) => None,
        }
    } else {
        Some(0)
    }
}

/// Parse one primitive statement and append its primitives; the returned
/// code identifies the shape, `None` reports a malformed or failed
/// statement that emits nothing.
pub fn parse_primitive_statement(
    stmt: &[u8],
    vars: &VarTable,
    primitives: &mut Vec<Primitive>,
) -> (r: Option<u32>)
    ensures
        match spec_prim_stmt(stmt@, vars.entries@) {
            Some(cp) => r == Some(cp.0) && final(primitives)@ == old(
                primitives)@ + cp.1,
            None => r is None && final(primitives)@ == old(primitives)@,
        },
{
    let t: &[u8] = trim_end_byte(stmt, 42);
    let parts: Vec<Vec<u8>> = split_bytes(t, 44);
    let ghost pv = stmts_view(parts);
    proof {
        assert(pv == spec_split(t@, 44));
        assert(spec_split(t@, 44).len() >= 1) by {
            if crate::text::has_byte(t@, 44) {
                lemma_first_occ_bounds(t@, 44);
            }
        }
        assert(pv[0] == parts@[0]@);
    }
    let code: u32 = {
        let mut c: Option<u32> = None;
        let p0: &[u8] = parts[0].as_slice();
        match crate::text::parse_int(p0) {
            Some(v) => {
                if v >= 0 && v <= u32::MAX as i64 && p0.len() > 0 && p0[0] != 43 && p0[0] != 45 {
                    c = Some(v as u32);
                }
            },
            None => {
            },
        }
        match c {
            Some(v) => v,
            None => {
                proof {
                    lemma_digits_parse_disagree(pv[0]);
                }
                return None;
            },
        }
    };
    proof {
        lemma_digits_parse_agree(pv[0], code);
    }
    if code == 0 {
        Some(0)
    } else if code == 1 {
        run_code1(&parts, vars, primitives)
    } else if code == 4 {
        run_code4(&parts, vars, primitives)
    } else if code == 5 {
        run_code5(&parts, vars, primitives)
    } else if code == 7 {
        run_code7(&parts, vars, primitives)
    } else if code == 20 {
        run_code20(&parts, vars, primitives)
    } else if code == 21 {
        run_code21(&parts, vars, primitives)
    } else {
        None
    }
}

fn run_code1(parts: &Vec<Vec<u8>>, vars: &VarTable, primitives: &mut Vec<Primitive>)
    -> (r: Option<u32>)
    ensures
        match spec_code1(stmts_view(*parts), vars.entries@) {
            Some(cp) => r == Some(cp.0) && final(primitives)@ == old(primitives)@ + cp.1,
            None => r is None && final(primitives)@ == old(primitives)@,
        },
{
    let ghost pv = stmts_view(*parts);
    if parts.len() < 5 {
        return None;
    }
    match eval_args(&parts, 1, 5, vars) {
        Some(vals) => {
            let cx: i64 = vals[2];
            let cy: i64 = vals[3];
            primitives.push(Primitive::Circle {
                x: cx,
                y: cy,
                radius: crate::fixed::div_trunc_wide(vals[1] as i128, 2) as i64,
                exposure: vals[0] >= 500_000,
                hole_x: cx,
                hole_y: cy,
                hole_radius: 0,
            });
            proof {
                assert(final(primitives)@ =~= old(primitives)@
                    + (spec_code1(pv, vars.entries@)->0).1);
            }
            Some(1)
        },
        None => None,
    }
}


#[verifier::rlimit(80)]
fn run_code4(parts: &Vec<Vec<u8>>, vars: &VarTable, primitives: &mut Vec<Primitive>)
    -> (r: Option<u32>)
    ensures
        match spec_code4(stmts_view(*parts), vars.entries@) {
            Some(cp) => r == Some(cp.0) && final(primitives)@ == old(primitives)@ + cp.1,
            None => r is None && final(primitives)@ == old(primitives)@,
        },
{
    let ghost pv = stmts_view(*parts);
    if parts.len() < 4 {
        return None;
    }
    match eval_args(&parts, 1, 3, vars) {
        Some(vals) => {
            let e: i64 = vals[0];
            let mut n: u64 = if vals[1] < 0 {
                0
            } else {
                (vals[1] / FIX_ONE) as u64
            };
            if n > u32::MAX as u64 {
                n = u32::MAX as u64;
            }
            if n > OUTLINE_CAP {
                return None;
            }
            let rot_idx: usize = 3 + 2 * (n as usize);
            let rmd: i64 = match eval_rot(&parts, rot_idx, vars) {
                Some(v) => v,
                None => {
                    return None;
                },
            };
            let verts: Vec<Point> = match collect_verts_exec(&parts, vars, n) {
                Some(v) => v,
                None => {
                    return None;
                },
            };
            if verts.len() < 3 {
                return None;
            }
            match triangulate_outline(&verts, e >= 500_000) {
                Ok(tris) => {
                    let rotated: Vec<Primitive> = rotate_tris_exec(tris, rmd, 0, 0);
                    crate::boolean::extend_primitives(primitives, &rotated);
                    proof {
                        assert(final(primitives)@ =~= old(primitives)@
                            + (spec_code4(pv, vars.entries@)->0).1);
                    }
                    Some(4)
                },
                Err(_) => None,
            }
        },
        None => None,
    }
}


#[verifier::rlimit(80)]
fn run_code5(parts: &Vec<Vec<u8>>, vars: &VarTable, primitives: &mut Vec<Primitive>)
    -> (r: Option<u32>)
    ensures
        match spec_code5(stmts_view(*parts), vars.entries@) {
            Some(cp) => r == Some(cp.0) && final(primitives)@ == old(primitives)@ + cp.1,
            None => r is None && final(primitives)@ == old(primitives)@,
        },
{
    let ghost pv = stmts_view(*parts);
    if parts.len() < 6 {
        return None;
    }
    match eval_args(&parts, 1, 6, vars) {
        Some(vals) => {
            let rmd: i64 = match eval_rot(&parts, 6, vars) {
                Some(v) => v,
                None => {
                    return None;
                },
            };
            let e: bool = vals[0] >= 500_000;
            let mut n: u64 = if vals[1] < 0 {
                0
            } else {
                (vals[1] / FIX_ONE) as u64
            };
            if n > u32::MAX as u64 {
                n = u32::MAX as u64;
            }
            if n == 0 {
                proof {
                    assert(final(primitives)@ =~= old(primitives)@
                        + (spec_code5(pv, vars.entries@)->0).1);
                }
                return Some(5);
            }
            let cx: i64 = vals[2];
            let cy: i64 = vals[3];
            let r: i64 = crate::fixed::div_trunc_wide(vals[4] as i128, 2) as i64;
            let step: i64 = (360_000i64 / (n as i64)) as i64;
            let mut tris: Vec<Primitive> = Vec::new();
            let mut k: u64 = 0;
            while k < n
                invariant
                    0 <= k <= n,
                    0 < n,
                    n <= i64::MAX as u64,
                    step as int == 360_000int / n as int,
                    0 <= step <= 360_000,
                    tris@.len() == k,
                    forall|a: int| 0 <= a < k ==> tris@[a] == poly_tri(
                        cx as int, cy as int, r as int, step as int, a, n as int, e),
                decreases n - k,
            {
                let next: u64 = if k + 1 == n {
                    0
                } else {
                    k + 1
                };
                proof {
                    vstd::arithmetic::div_mod::lemma_fundamental_div_mod(360_000, n as int);
                    assert(0 <= (step as int) * (n as int) <= 360_000) by (nonlinear_arith)
                        requires
                            step as int == 360_000int / (n as int),
                            360_000int == (360_000int / (n as int)) * (n as int)
                                + 360_000int % (n as int),
                            0 <= 360_000int % (n as int),
                            0 < n as int;
                    assert((step as int) * (k as int) <= (step as int) * (n as int)
                        && (step as int) * (next as int) <= (step as int) * (n as int)
                        && 0 <= (step as int) * (k as int)
                        && 0 <= (step as int) * (next as int)) by (nonlinear_arith)
                        requires
                            0 <= step as int,
                            0 <= k as int <= n as int,
                            0 <= next as int <= n as int;
                }
                let v2: Point = poly_vertex_exec(cx, cy, r, step, k as i64);
                let v3: Point = poly_vertex_exec(cx, cy, r, step, next as i64);
                tris.push(Primitive::Triangle {
                    v1: Point { x: cx, y: cy },
                    v2,
                    v3,
                    exposure: e,
                    hole_x: 0,
                    hole_y: 0,
                    hole_radius: 0,
                });
                k = k + 1;
            }
            proof {
                assert(tris@ =~= Seq::new(
                    n as nat,
                    |a: int| poly_tri(cx as int, cy as int, r as int, step as int, a,
                        n as int, e),
                ));
            }
            let rotated: Vec<Primitive> = rotate_tris_exec(tris, rmd, 0, 0);
            crate::boolean::extend_primitives(primitives, &rotated);
            proof {
                assert(final(primitives)@ =~= old(primitives)@
                    + (spec_code5(pv, vars.entries@)->0).1);
            }
            Some(5)
        },
        None => None,
    }
}


fn run_code7(parts: &Vec<Vec<u8>>, vars: &VarTable, primitives: &mut Vec<Primitive>)
    -> (r: Option<u32>)
    ensures
        match spec_code7(stmts_view(*parts), vars.entries@) {
            Some(cp) => r == Some(cp.0) && final(primitives)@ == old(primitives)@ + cp.1,
            None => r is None && final(primitives)@ == old(primitives)@,
        },
{
    let ghost pv = stmts_view(*parts);
    if parts.len() < 6 {
        return None;
    }
    match eval_args(&parts, 1, 6, vars) {
        Some(vals) => {
            let rmd: i64 = match eval_rot(&parts, 6, vars) {
                Some(v) => v,
                None => {
                    return None;
                },
            };
            primitives.push(Primitive::Thermal {
                x: vals[0],
                y: vals[1],
                outer_diameter: vals[2],
                inner_diameter: vals[3],
                gap_thickness: vals[4],
                rotation_mdeg: rmd,
                exposure: true,
            });
            proof {
                assert(final(primitives)@ =~= old(primitives)@
                    + (spec_code7(pv, vars.entries@)->0).1);
            }
            Some(7)
        },
        None => None,
    }
}


fn run_code20(parts: &Vec<Vec<u8>>, vars: &VarTable, primitives: &mut Vec<Primitive>)
    -> (r: Option<u32>)
    ensures
        match spec_code20(stmts_view(*parts), vars.entries@) {
            Some(cp) => r == Some(cp.0) && final(primitives)@ == old(primitives)@ + cp.1,
            None => r is None && final(primitives)@ == old(primitives)@,
        },
{
    let ghost pv = stmts_view(*parts);
    if parts.len() < 7 {
        return None;
    }
    match eval_args(&parts, 1, 7, vars) {
        Some(vals) => {
            let rmd: i64 = match eval_rot(&parts, 7, vars) {
                Some(v) => v,
                None => {
                    return None;
                },
            };
            let tris: Vec<Primitive> = line_to_triangles(
                vals[1 + 1], vals[3], vals[4], vals[5], vals[1], vals[0] >= 500_000);
            let rotated: Vec<Primitive> = rotate_tris_exec(tris, rmd, 0, 0);
            crate::boolean::extend_primitives(primitives, &rotated);
            proof {
                assert(final(primitives)@ =~= old(primitives)@
                    + (spec_code20(pv, vars.entries@)->0).1);
            }
            Some(20)
        },
        None => None,
    }
}


#[verifier::rlimit(60)]
fn run_code21(parts: &Vec<Vec<u8>>, vars: &VarTable, primitives: &mut Vec<Primitive>)
    -> (r: Option<u32>)
    ensures
        match spec_code21(stmts_view(*parts), vars.entries@) {
            Some(cp) => r == Some(cp.0) && final(primitives)@ == old(primitives)@ + cp.1,
            None => r is None && final(primitives)@ == old(primitives)@,
        },
{
    let ghost pv = stmts_view(*parts);
    if parts.len() < 6 {
        return None;
    }
    match eval_args(&parts, 1, 6, vars) {
        Some(vals) => {
            let rmd: i64 = match eval_rot(&parts, 6, vars) {
                Some(v) => v,
                None => {
                    return None;
                },
            };
            let e: bool = vals[0] >= 500_000;
            let cx: i64 = vals[3];
            let cy: i64 = vals[4];
            let hw: i64 = crate::fixed::div_trunc_wide(vals[1] as i128, 2) as i64;
            let hh: i64 = crate::fixed::div_trunc_wide(vals[2] as i128, 2) as i64;
            let v1 = Point { x: crate::fixed::sat_sub(cx, hw), y: crate::fixed::sat_sub(
                cy, hh) };
            let v2 = Point { x: crate::fixed::sat_add(cx, hw), y: crate::fixed::sat_sub(
                cy, hh) };
            let v3 = Point { x: crate::fixed::sat_add(cx, hw), y: crate::fixed::sat_add(
                cy, hh) };
            let v4 = Point { x: crate::fixed::sat_sub(cx, hw), y: crate::fixed::sat_add(
                cy, hh) };
            let mut tris: Vec<Primitive> = Vec::new();
            tris.push(Primitive::Triangle {
                v1,
                v2,
                v3,
                exposure: e,
                hole_x: 0,
                hole_y: 0,
                hole_radius: 0,
            });
            tris.push(Primitive::Triangle {
                v1,
                v2: v3,
                v3: v4,
                exposure: e,
                hole_x: 0,
                hole_y: 0,
                hole_radius: 0,
            });
            let rotated: Vec<Primitive> = rotate_tris_exec(tris, rmd, cx, cy);
            crate::boolean::extend_primitives(primitives, &rotated);
            proof {
                assert((spec_code21(pv, vars.entries@)->0).1 =~= spec_rotate_tris(
                    seq![
                        Primitive::Triangle {
                            v1, v2, v3, exposure: e, hole_x: 0, hole_y: 0, hole_radius: 0,
                        },
                        Primitive::Triangle {
                            v1, v2: v3, v3: v4, exposure: e, hole_x: 0, hole_y: 0,
                            hole_radius: 0,
                        },
                    ], rmd as int, cx as int, cy as int));
                assert(final(primitives)@ =~= old(primitives)@
                    + (spec_code21(pv, vars.entries@)->0).1);
            }
            Some(21)
        },
        None => None,
    }
}


/// Collect the outline vertex pairs of a code-4 statement.
#[verifier::rlimit(80)]
fn collect_verts_exec(parts: &Vec<Vec<u8>>, vars: &VarTable, n: u64) -> (r: Option<Vec<Point>>)
    requires
        n <= OUTLINE_CAP,
    ensures
        match collect_verts(stmts_view(*parts), vars.entries@, 0, n as int) {
            Some(vs) => r is Some && r->0@ == vs,
            None => r is None,
        },
{
    let ghost pv = stmts_view(*parts);
    let mut verts: Vec<Point> = Vec::new();
    let mut j: usize = 0;
    while j < n as usize
        invariant
            0 <= j <= n,
            n <= OUTLINE_CAP,
            pv == stmts_view(*parts),
            verts@.len() == j,
            collect_verts(pv, vars.entries@, 0, n as int) == (match collect_verts(
                pv, vars.entries@, j as int, n as int) {
                Some(rest) => Some(verts@ + rest),
                None => None::<Seq<Point>>,
            }),
        decreases n - j,
    {
        let xi: usize = 3 + 2 * j;
        if xi + 1 >= parts.len() {
            return None;
        }
        proof {
            assert(pv[xi as int] == parts@[xi as int]@);
            assert(pv[xi as int + 1] == parts@[xi as int + 1]@);
        }
        let x: i64 = match evaluate_expression(parts[xi].as_slice(), vars) {
            Ok(v) => v,
            Err(_) => {
                return None;
            },
        };
        let y: i64 = match evaluate_expression(parts[xi + 1].as_slice(), vars) {
            Ok(v) => v,
            Err(_) => {
                return None;
            },
        };
        let ghost verts_old = verts@;
        let ghost j0 = j as int;
        verts.push(Point { x, y });
        j = j + 1;
        proof {
            let rest1 = collect_verts(pv, vars.entries@, j0 + 1, n as int);
            assert(collect_verts(pv, vars.entries@, j0, n as int) == (
            match rest1 {
                Some(r2) => Some(seq![Point { x, y }] + r2),
                None => None::<Seq<Point>>,
            }));
            match rest1 {
                Some(r2) => {
                    assert(verts_old + (seq![Point { x, y }] + r2)
                        =~= verts@ + r2);
                },
                None => {
                },
            }
        }
    }
    proof {
        assert(collect_verts(pv, vars.entries@, n as int, n as int)
            == Some(Seq::<Point>::empty()));
        assert(verts@ + Seq::<Point>::empty() =~= verts@);
    }
    Some(verts)
}

/// One vertex of a code-5 polygon.
fn poly_vertex_exec(cx: i64, cy: i64, r: i64, step: i64, k: i64) -> (p: Point)
    requires
        (step as int) * (k as int) <= i64::MAX as int,
        (step as int) * (k as int) >= i64::MIN as int,
    ensures
        p == poly_vertex(cx as int, cy as int, r as int, step as int, k as int),
{
    let ang: i64 = step * k;
    Point {
        x: crate::fixed::sat_add(cx, crate::fixed::fix_mul(r, cos_mdeg(ang))),
        y: crate::fixed::sat_add(cy, crate::fixed::fix_mul(r, sin_mdeg(ang))),
    }
}

/// A token that fails the digit parse, or carries a sign or an
/// out-of-range value, yields no code.
pub proof fn lemma_digits_parse_disagree(p0: Seq<u8>)
    requires
        !(crate::text::spec_parse_int(p0) is Some
            && crate::text::spec_parse_int(p0)->0 >= 0
            && crate::text::spec_parse_int(p0)->0 <= u32::MAX as int
            && p0.len() > 0 && p0[0] != 43 && p0[0] != 45),
    ensures
        spec_parse_digits(p0) is None || spec_parse_digits(p0)->0 > u32::MAX as int,
{
    if p0.len() > 0 && (p0[0] == 43 || p0[0] == 45) {
        assert(!crate::text::is_digit(p0[0]));
        assert(!all_digits(p0));
        assert(spec_parse_digits(p0) is None);
    } else if p0.len() == 0 {
        assert(spec_parse_digits(p0) is None);
    } else {
        if spec_parse_digits(p0) is Some {
            crate::text::lemma_digits_val_bound(p0, 18);
        }
    }
}

pub proof fn lemma_digits_parse_agree(p0: Seq<u8>, code: u32)
    requires
        crate::text::spec_parse_int(p0) == Some(code as int),
        p0.len() > 0,
        p0[0] != 43,
        p0[0] != 45,
    ensures
        spec_parse_digits(p0) == Some(code as int),
{
}


/// The initial variable table of an instantiation: `$1..$n` bound to the
/// parameters in order.
pub open spec fn init_vars(params: Seq<i64>) -> Seq<(u32, i64)> {
    Seq::new(params.len(), |i: int| ((i + 1) as u32, params[i]))
}

/// The effect of one statement: the new variable table and the primitives
/// emitted.
pub open spec fn inst_step(stmt: Seq<u8>, vars: Seq<(u32, i64)>)
    -> (Seq<(u32, i64)>, Seq<Primitive>)
{
    let t = spec_trim(stmt);
    if t.len() == 0 || stmt_is_comment(t) {
        (vars, Seq::<Primitive>::empty())
    } else if stmt_is_assignment(t) {
        let eq = first_occ(t, 61);
        let vn = spec_trim(t.take(eq));
        let ex = spec_trim(t.skip(eq + 1));
        if vn.len() >= 2 && vn[0] == 36 && all_digits(vn.skip(1)) {
            match spec_evaluate(ex, vars) {
                Ok(v) => (
                    spec_vars_set(vars, var_index(vn.skip(1)) as u32, v as i64),
                    Seq::<Primitive>::empty(),
                ),
                Err(_) => (vars, Seq::<Primitive>::empty()),
            }
        } else {
            (vars, Seq::<Primitive>::empty())
        }
    } else {
        match spec_prim_stmt(t, vars) {
            Some(cp) => (vars, cp.1),
            None => (vars, Seq::<Primitive>::empty()),
        }
    }
}

/// The primitives of the statements from `i` on, starting from the given
/// variable table and already-emitted primitives.
pub open spec fn inst_from(
    stmts: Seq<Seq<u8>>,
    i: int,
    vars: Seq<(u32, i64)>,
    acc: Seq<Primitive>,
) -> Seq<Primitive>
    decreases stmts.len() - i,
{
    if i < 0 || i >= stmts.len() {
        acc
    } else {
        let sv = inst_step(stmts[i], vars);
        inst_from(stmts, i + 1, sv.0, acc + sv.1)
    }
}

/// The primitives of a macro instantiated with the given parameters.
pub open spec fn spec_instantiate(stmts: Seq<Seq<u8>>, params: Seq<i64>) -> Seq<Primitive> {
    inst_from(stmts, 0, init_vars(params), Seq::<Primitive>::empty())
}

/// A primitive statement that fails (a malformed argument, an undefined
/// variable, a division by zero) cancels only itself: the variable table
/// and every other statement's output are untouched.
pub proof fn lemma_failed_statement_is_isolated(
    stmts: Seq<Seq<u8>>,
    i: int,
    vars: Seq<(u32, i64)>,
    acc: Seq<Primitive>,
)
    requires
        0 <= i < stmts.len(),
        spec_trim(stmts[i]).len() > 0,
        !stmt_is_comment(spec_trim(stmts[i])),
        !stmt_is_assignment(spec_trim(stmts[i])),
        spec_prim_stmt(spec_trim(stmts[i]), vars) is None,
    ensures
        inst_from(stmts, i, vars, acc) == inst_from(stmts, i + 1, vars, acc),
{
    assert(acc + Seq::<Primitive>::empty() =~= acc);
}

impl ApertureMacro {
    /// Instantiate the macro: bind `$1..$n` to the parameters, run the
    /// statements in order, and collect the emitted primitives.
    pub fn instantiate(&self, params: &Vec<i64>) -> (r: Vec<Primitive>)
        requires
            params@.len() <= u32::MAX as int,
        ensures
            r@ == spec_instantiate(stmts_view(self.statements), params@),
    {
        let ghost sv = stmts_view(self.statements);
        let mut vars: VarTable = VarTable::new();
        let mut k: usize = 0;
        while k < params.len()
            invariant
                0 <= k <= params@.len(),
                params@.len() <= u32::MAX as int,
                vars.entries@.len() == k,
                forall|a: int| 0 <= a < k ==> vars.entries@[a]
                    == ((a + 1) as u32, params@[a]),
            decreases params@.len() - k,
        {
            proof {
                assert forall|a: int| 0 <= a < k implies
                    (#[trigger] vars.entries@[a]).0 != ((k + 1) as u32) by {}
            }
            let ghost ve0 = vars.entries@;
            vars.set((k as u32) + 1, params[k]);
            proof {
                crate::expr::lemma_set_fresh_is_push(ve0, ((k + 1) as u32), params@[k as int]);
            }
            k = k + 1;
        }
        proof {
            assert(vars.entries@ =~= init_vars(params@));
        }
        let mut prims: Vec<Primitive> = Vec::new();
        let mut i: usize = 0;
        while i < self.statements.len()
            invariant
                0 <= i <= sv.len(),
                sv == stmts_view(self.statements),
                spec_instantiate(sv, params@) == inst_from(sv, i as int, vars.entries@, prims@),
            decreases sv.len() - i,
        {
            let ghost i0 = i as int;
            let ghost vars0 = vars.entries@;
            let ghost prims0 = prims@;
            proof {
                assert(sv[i0] == self.statements@[i0]@);
            }
            let t: &[u8] = trim(self.statements[i].as_slice());
            if t.len() == 0 {
                i = i + 1;
                proof {
                    assert(prims0 + Seq::<Primitive>::empty() =~= prims0);
                }
                continue;
            }
            let zero: [u8; 1] = [48];
            let zero_sp: [u8; 2] = [48, 32];
            let is_cmt: bool = bytes_eq(t, zero.as_slice()) || starts_with(t, zero_sp.as_slice());
            proof {
                assert(zero@ =~= seq![48u8]);
                assert(zero_sp@ =~= seq![48u8, 32u8]);
                if t@ == zero@ {
                    assert(t@ =~= seq![48u8]);
                }
                assert(is_cmt == stmt_is_comment(t@));
            }
            if is_cmt {
                i = i + 1;
                proof {
                    assert(prims0 + Seq::<Primitive>::empty() =~= prims0);
                }
                continue;
            }
            let mut handled: bool = false;
            if t[0] == 36 {
                match find_byte(t, 61) {
                    Some(eq) => {
                        handled = true;
                        let vn: &[u8] = trim(vstd::slice::slice_subrange(t, 0, eq));
                        let exl: usize = t.len();
                        let ex: &[u8] = trim(vstd::slice::slice_subrange(t, eq + 1, exl));
                        proof {
                            assert(vn@ == spec_trim(t@.take(eq as int)));
                            assert(ex@ == spec_trim(t@.skip(eq as int + 1)));
                        }
                        if vn.len() >= 2 && vn[0] == 36 {
                            let digits: &[u8] = vstd::slice::slice_subrange(vn, 1, vn.len());
                            proof {
                                assert(digits@ =~= vn@.skip(1));
                            }
                            if crate::text::check_digits(digits) {
                                let kv: u32 = crate::expr::digits_to_var_pub(digits);
                                match evaluate_expression(ex, &vars) {
                                    Ok(v) => {
                                        vars.set(kv, v);
                                    },
                                    Err(_) => {
                                    },
                                }
                            }
                        }
                        proof {
                            assert(prims0 + Seq::<Primitive>::empty() =~= prims0);
                            assert(inst_step(sv[i0], vars0)
                                == (vars.entries@, Seq::<Primitive>::empty()));
                        }
                    },
                    None => {
                    },
                }
            }
            if !handled {
                proof {
                    assert(!stmt_is_assignment(t@));
                }
                let _code: Option<u32> = parse_primitive_statement(t, &vars, &mut prims);
                proof {
                    match spec_prim_stmt(t@, vars0) {
                        Some(cp) => {
                            assert(prims@ == prims0 + cp.1);
                        },
                        None => {
                            assert(prims@ == prims0);
                            assert(prims0 + Seq::<Primitive>::empty() =~= prims0);
                        },
                    }
                }
            }
            i = i + 1;
            proof {
                assert(inst_from(sv, i0, vars0, prims0)
                    == inst_from(sv, i as int, vars.entries@, prims@));
            }
        }
        prims
    }
}

/// A named store of aperture macros; a later definition of the same name
/// replaces the earlier one.
pub struct MacroTable {
    pub entries: Vec<(Vec<u8>, ApertureMacro)>,
}

/// The newest entry under `name`, scanning from the back.
pub open spec fn macro_lookup(s: Seq<(Vec<u8>, ApertureMacro)>, name: Seq<u8>)
    -> Option<ApertureMacro>
    decreases s.len(),
{
    if s.len() == 0 {
        None
    } else if s.last().0@ == name {
        Some(s.last().1)
    } else {
        macro_lookup(s.drop_last(), name)
    }
}

impl MacroTable {
    /// An empty store.
    pub fn new() -> (r: MacroTable)
        ensures
            r.entries@.len() == 0,
    {
        MacroTable { entries: Vec::new() }
    }

    /// Look a macro up by name.
    pub fn get(&self, name: &[u8]) -> (r: Option<&ApertureMacro>)
        ensures
            match r {
                Some(m) => macro_lookup(self.entries@, name@) == Some(*m),
                None => macro_lookup(self.entries@, name@) is None,
            },
    {
        let mut i: usize = self.entries.len();
        proof {
            assert(self.entries@.take(i as int) =~= self.entries@);
        }
        while i > 0
            invariant
                0 <= i <= self.entries@.len(),
                macro_lookup(self.entries@, name@) == macro_lookup(
                    self.entries@.take(i as int), name@),
            decreases i,
        {
            proof {
                assert(self.entries@.take(i as int).last() == self.entries@[i as int - 1]);
                assert(self.entries@.take(i as int).drop_last() =~= self.entries@.take(
                    i as int - 1));
            }
            if bytes_eq(self.entries[i - 1].0.as_slice(), name) {
                return Some(&self.entries[i - 1].1);
            }
            i = i - 1;
        }
        proof {
            assert(self.entries@.take(0) =~= Seq::<(Vec<u8>, ApertureMacro)>::empty());
        }
        None
    }

    /// Register a macro under a name, shadowing any earlier definition.
    pub fn insert(&mut self, name: Vec<u8>, m: ApertureMacro)
        ensures
            final(self).entries@ == old(self).entries@.push((name, m)),
    {
        self.entries.push((name, m));
    }
}

/// The ghost view of a macro: its statements and the has-negative flag.
pub open spec fn macro_view(m: ApertureMacro) -> (Seq<Seq<u8>>, bool) {
    (stmts_view(m.statements), m.has_negative)
}

/// The ghost view of the macro store.
pub open spec fn macro_table_view(s: Seq<(Vec<u8>, ApertureMacro)>) -> Seq<(Seq<u8>, (
    Seq<Seq<u8>>, bool))> {
    s.map_values(|e: (Vec<u8>, ApertureMacro)| (e.0@, macro_view(e.1)))
}

/// The newest macro view under `name`, scanning from the back.
pub open spec fn macro_view_lookup(
    s: Seq<(Seq<u8>, (Seq<Seq<u8>>, bool))>,
    name: Seq<u8>,
) -> Option<(Seq<Seq<u8>>, bool)>
    decreases s.len(),
{
    if s.len() == 0 {
        None
    } else if s.last().0 == name {
        Some(s.last().1)
    } else {
        macro_view_lookup(s.drop_last(), name)
    }
}

/// Looking up through the view agrees with looking up the store itself.
pub proof fn lemma_macro_lookup_view(s: Seq<(Vec<u8>, ApertureMacro)>, name: Seq<u8>)
    ensures
        macro_view_lookup(macro_table_view(s), name) == (match macro_lookup(s, name) {
            Some(m) => Some(macro_view(m)),
            None => None::<(Seq<Seq<u8>>, bool)>,
        }),
    decreases s.len(),
{
    if s.len() > 0 {
        assert(macro_table_view(s).last() == (s.last().0@, macro_view(s.last().1)));
        assert(macro_table_view(s).drop_last() =~~= macro_table_view(s.drop_last()));
        lemma_macro_lookup_view(s.drop_last(), name);
    }
}

/// The view of a store extended by one entry.
pub proof fn lemma_macro_view_push(s: Seq<(Vec<u8>, ApertureMacro)>, e: (Vec<u8>,
    ApertureMacro))
    ensures
        macro_table_view(s.push(e)) == macro_table_view(s).push((e.0@, macro_view(e.1))),
{
    assert(macro_table_view(s.push(e)) =~~= macro_table_view(s).push((e.0@, macro_view(
        e.1))));
}

/// `%AM` prefixes stripped from the front, repeatedly.
pub open spec fn strip_am(s: Seq<u8>) -> Seq<u8>
    decreases s.len(),
{
    if spec_starts_with(s, seq![37u8, 65u8, 77u8]) && s.len() >= 3 {
        strip_am(s.skip(3))
    } else {
        s
    }
}

/// The macro name in a `%AMname*...*%` line.
pub open spec fn spec_macro_name(data: Seq<u8>) -> Seq<u8> {
    let content = spec_trim_end(strip_am(data), 37);
    spec_split(content, 42)[0]
}

/// The trimmed, non-empty statements after the name.
pub open spec fn macro_stmts_from(parts: Seq<Seq<u8>>, i: int) -> Seq<Seq<u8>>
    decreases parts.len() - i,
{
    if i < 1 || i >= parts.len() {
        Seq::<Seq<u8>>::empty()
    } else {
        let t = spec_trim(parts[i]);
        if t.len() == 0 {
            macro_stmts_from(parts, i + 1)
        } else {
            seq![t] + macro_stmts_from(parts, i + 1)
        }
    }
}

/// The statement list of a `%AM` line.
pub open spec fn spec_macro_stmts(data: Seq<u8>) -> Seq<Seq<u8>> {
    macro_stmts_from(spec_split(spec_trim_end(strip_am(data), 37), 42), 1)
}

/// Parse a `%AMname*statement*...*%` line and register the macro.
pub fn parse_macro(data: &[u8], macros: &mut MacroTable)
    ensures
        final(macros).entries@.len() == old(macros).entries@.len() + 1,
        final(macros).entries@.drop_last() == old(macros).entries@,
        final(macros).entries@.last().0@ == spec_macro_name(data@),
        stmts_view(final(macros).entries@.last().1.statements)
            == spec_macro_stmts(data@),
        final(macros).entries@.last().1.has_negative == spec_has_negative(
            spec_macro_stmts(data@),
        ),
{
    let mut rest: &[u8] = data;
    let am: [u8; 3] = [37, 65, 77];
    proof {
        assert(am@ =~= seq![37u8, 65u8, 77u8]);
    }
    while rest.len() >= 3 && starts_with(rest, am.as_slice())
        invariant
            am@ == seq![37u8, 65u8, 77u8],
            strip_am(rest@) == strip_am(data@),
        decreases rest@.len(),
    {
        let rl: usize = rest.len();
        let nr: &[u8] = vstd::slice::slice_subrange(rest, 3, rl);
        proof {
            assert(nr@ =~= rest@.skip(3));
        }
        rest = nr;
    }
    proof {
        assert(strip_am(rest@) == rest@);
    }
    let content: &[u8] = trim_end_byte(rest, 37);
    let parts: Vec<Vec<u8>> = split_bytes(content, 42);
    let ghost pv = parts@.map_values(|v: Vec<u8>| v@);
    proof {
        assert(pv.len() >= 1) by {
            if crate::text::has_byte(content@, 42) {
                lemma_first_occ_bounds(content@, 42);
            }
        }
        assert(pv[0] == parts@[0]@);
    }
    let mut name: Vec<u8> = Vec::new();
    crate::text::append_bytes(&mut name, parts[0].as_slice());
    let mut stmts: Vec<Vec<u8>> = Vec::new();
    let mut i: usize = 1;
    while i < parts.len()
        invariant
            1 <= i <= pv.len() || (pv.len() < 1 && i == 1),
            pv == parts@.map_values(|v: Vec<u8>| v@),
            macro_stmts_from(pv, 1) =~~= stmts_view(stmts) + macro_stmts_from(pv, i as int),
        decreases pv.len() - i,
    {
        let ghost s0 = stmts_view(stmts);
        proof {
            assert(pv[i as int] == parts@[i as int]@);
        }
        let t: &[u8] = trim(parts[i].as_slice());
        if t.len() > 0 {
            let mut tv: Vec<u8> = Vec::new();
            crate::text::append_bytes(&mut tv, t);
            stmts.push(tv);
            proof {
                assert(stmts_view(stmts) =~~= s0.push(t@));
                assert(s0 + (seq![t@] + macro_stmts_from(pv, i as int + 1))
                    =~~= stmts_view(stmts) + macro_stmts_from(pv, i as int + 1));
            }
        }
        i = i + 1;
        proof {
            assert(macro_stmts_from(pv, 1) =~~= stmts_view(stmts) + macro_stmts_from(
                pv, i as int));
        }
    }
    proof {
        assert(stmts_view(stmts) + Seq::<Seq<u8>>::empty() =~~= stmts_view(stmts));
        assert(stmts_view(stmts) =~~= spec_macro_stmts(data@));
    }
    let has_negative: bool = check_macro_has_negative(&stmts);
    macros.insert(name, ApertureMacro { statements: stmts, has_negative });
}

} // verus!
