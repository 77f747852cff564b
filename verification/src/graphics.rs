//! The graphics executor: coordinate conversion, flashes and strokes.
//!
//! A flash places the current aperture's primitives at a point, tiled by
//! the step-and-repeat grid; an aperture with negative primitives goes
//! through the Boolean pipeline instead of plain cloning. A linear stroke
//! flashes both ends and spans them with a rectangle; an arc stroke emits
//! an arc primitive whose center is chosen by the quadrant mode.

use vstd::prelude::*;
use crate::fixed::{
    div_trunc, sat_i64, spec_sat_add, spec_sat_sub, spec_fix_mul, spec_mul_div, sat_add,
    sat_sub, fix_mul, mul_div, sat_i64_exec, FIX_ONE,
};
use crate::text::{has_byte, first_occ, is_digit, spec_parse_int, parse_int, find_byte};
use crate::geom::{
    Point, Primitive, prim_exposure, spec_scale_prim, spec_offset_prim, scale_primitive,
    offset_primitive_by, spec_line_triangles, line_to_triangles, spec_dist, dist, clamp62,
};
use crate::boolean::{
    spec_prim_shape, primitive_to_shape, spec_boolean_ops, apply_boolean_operations,
    tagged_view, extend_primitives,
};
use crate::aperture::{Aperture, ApertureTable, aperture_lookup, ap_view, ap_table_view,
    ap_view_lookup, lemma_ap_lookup_view};
use crate::state::{ParserState, FormatSpec, QuadrantMode, Interpolation, CoordinateMode};

verus! {

/// The sign-and-digits run that follows the first `key` in the line: signs
/// flip a pending minus, digits accumulate (a minus sign attaches only
/// before the first digit), anything else stops the scan.
pub open spec fn ev_scan(rest: Seq<u8>, i: int, has_minus: bool, acc: Seq<u8>) -> Seq<u8>
    decreases rest.len() - i,
{
    if i < 0 || i >= rest.len() {
        acc
    } else {
        let c = rest[i];
        if c == 45 || c == 43 {
            ev_scan(rest, i + 1, c == 45, acc)
        } else if is_digit(c) {
            ev_scan(
                rest,
                i + 1,
                has_minus,
                if has_minus && acc.len() == 0 {
                    seq![45u8, c]
                } else {
                    acc.push(c)
                },
            )
        } else {
            acc
        }
    }
}

/// The numeric text after `key`, or `None` when the key is absent or no
/// digit follows.
pub open spec fn spec_extract_value(line: Seq<u8>, key: u8) -> Option<Seq<u8>> {
    if has_byte(line, key) {
        let v = ev_scan(line.skip(first_occ(line, key) + 1), 0, false, Seq::<u8>::empty());
        if v.len() == 0 {
            None
        } else {
            Some(v)
        }
    } else {
        None
    }
}

/// Extract the signed numeric value following the first `key` byte.
pub fn extract_value(line: &[u8], key: u8) -> (r: Option<Vec<u8>>)
    ensures
        match spec_extract_value(line@, key) {
            Some(v) => r is Some && r->0@ == v,
            None => r is None,
        },
{
    match find_byte(line, key) {
        Some(p) => {
            let ll: usize = line.len();
            proof {
                assert(p < ll);
            }
            let rest: &[u8] = vstd::slice::slice_subrange(line, p + 1, ll);
            proof {
                assert(rest@ =~= line@.skip(p as int + 1));
            }
            let mut acc: Vec<u8> = Vec::new();
            let mut has_minus: bool = false;
            let mut i: usize = 0;
            let mut done: bool = false;
            proof {
                assert(acc@ =~= Seq::<u8>::empty());
            }
            while i < rest.len() && !done
                invariant
                    0 <= i <= rest@.len(),
                    ev_scan(rest@, 0, false, Seq::<u8>::empty()) == ev_scan(
                        rest@, i as int, has_minus, acc@),
                    done ==> ev_scan(rest@, i as int, has_minus, acc@) == acc@,
                decreases rest@.len() - i, (if done { 0int } else { 1int }),
            {
                let ghost a0 = acc@;
                let c: u8 = rest[i];
                if c == 45 || c == 43 {
                    has_minus = c == 45;
                    i = i + 1;
                } else if c >= 48 && c <= 57 {
                    if has_minus && acc.len() == 0 {
                        acc.push(45);
                        acc.push(c);
                        proof {
                            assert(acc@ =~= seq![45u8, c]);
                        }
                    } else {
                        acc.push(c);
                    }
                    i = i + 1;
                } else {
                    done = true;
                }
            }
            if acc.len() == 0 {
                None
            } else {
                Some(acc)
            }
        },
        None => None,
    }
}

/// The divisor for one axis, at least one.
pub open spec fn axis_divisor(axis: u8, fs: FormatSpec) -> int {
    let d: int = if axis == 120 {
        fs.x_divisor as int
    } else if axis == 121 {
        fs.y_divisor as int
    } else {
        10_000
    };
    if d < 1 {
        1
    } else {
        d
    }
}

/// The millimetre value of a raw coordinate: the integer divided by the
/// axis divisor and scaled by the unit multiplier (truncating); an
/// unparsable coordinate reads as zero.
pub open spec fn spec_convert_coordinate(
    coord: Seq<u8>,
    axis: u8,
    fs: FormatSpec,
    unit: int,
) -> int {
    match spec_parse_int(coord) {
        Some(v) => spec_mul_div(v, unit, axis_divisor(axis, fs)),
        None => 0,
    }
}

/// Convert a raw coordinate string to fixed-point millimetres.
pub fn convert_coordinate(
    coord: &[u8],
    axis: u8,
    format_spec: &FormatSpec,
    unit_multiplier: i64,
) -> (r: i64)
    ensures
        r as int == spec_convert_coordinate(
            coord@,
            axis,
            *format_spec,
            unit_multiplier as int,
        ),
{
    match parse_int(coord) {
        Some(v) => {
            let d0: i64 = if axis == 120 {
                format_spec.x_divisor
            } else if axis == 121 {
                format_spec.y_divisor
            } else {
                10_000
            };
            let d: i64 = if d0 < 1 {
                1
            } else {
                d0
            };
            mul_div(v, unit_multiplier, d)
        },
        None => 0,
    }
}

/// The aperture's primitives scaled by the layer scale and translated to
/// the flash position.
pub open spec fn placed_prims(prims: Seq<Primitive>, ls: int, x: int, y: int)
    -> Seq<Primitive>
{
    prims.map_values(|p: Primitive| spec_offset_prim(spec_scale_prim(p, ls), x, y))
}

/// One flash of an aperture, without step-and-repeat: plain placement, or
/// the Boolean pipeline when the aperture has negative primitives.
pub open spec fn spec_flash_no_sr(
    prims: Seq<Primitive>,
    has_neg: bool,
    ls: int,
    x: int,
    y: int,
) -> Seq<Primitive> {
    let placed = placed_prims(prims, ls, x, y);
    if has_neg {
        spec_boolean_ops(placed.map_values(
            |p: Primitive| (spec_prim_shape(p), prim_exposure(p)),
        ))
    } else {
        placed
    }
}

proof fn lemma_placed_index(prims: Seq<Primitive>, ls: int, x: int, y: int, k: int)
    requires
        0 <= k < prims.len(),
    ensures
        placed_prims(prims, ls, x, y).len() == prims.len(),
        placed_prims(prims, ls, x, y)[k] == spec_offset_prim(spec_scale_prim(prims[k], ls),
            x, y),
{
}

/// Flash an aperture once at `(x, y)`.
pub fn flash_aperture_no_sr(
    aperture: &Aperture,
    primitives: &mut Vec<Primitive>,
    x: i64,
    y: i64,
    layer_scale: i64,
)
    ensures
        final(primitives)@ == old(primitives)@ + spec_flash_no_sr(
            aperture.primitives@,
            aperture.has_negative,
            layer_scale as int,
            x as int,
            y as int,
        ),
{
    let ghost ap = aperture.primitives@;
    let mut placed: Vec<Primitive> = Vec::new();
    let mut i: usize = 0;
    while i < aperture.primitives.len()
        invariant
            0 <= i <= ap.len(),
            ap == aperture.primitives@,
            placed@.len() == i,
            forall|k: int| 0 <= k < i ==> placed@[k] == spec_offset_prim(
                spec_scale_prim(#[trigger] ap[k], layer_scale as int), x as int, y as int),
        decreases ap.len() - i,
    {
        let scaled: Primitive = scale_primitive(&aperture.primitives[i], layer_scale);
        placed.push(offset_primitive_by(&scaled, x, y));
        i = i + 1;
    }
    proof {
        assert forall|k: int| 0 <= k < ap.len() implies
            placed@[k] == placed_prims(ap, layer_scale as int, x as int, y as int)[k] by {
            lemma_placed_index(ap, layer_scale as int, x as int, y as int, k);
        }
        assert(placed@ =~= placed_prims(ap, layer_scale as int, x as int, y as int));
    }
    if aperture.has_negative {
        let mut tagged: Vec<(Vec<Vec<Point>>, bool)> = Vec::new();
        let mut k: usize = 0;
        while k < placed.len()
            invariant
                0 <= k <= placed@.len(),
                tagged@.len() == k,
                forall|a: int| 0 <= a < k ==> tagged_view(&tagged)[a] == (
                    spec_prim_shape(#[trigger] placed@[a]), prim_exposure(placed@[a])),
            decreases placed@.len() - k,
        {
            let shape: Vec<Vec<Point>> = primitive_to_shape(&placed[k]);
            let neg: bool = !crate::geom::is_negative(&placed[k]);
            tagged.push((shape, neg));
            k = k + 1;
            proof {
                assert forall|a: int| 0 <= a < k as int implies
                    tagged_view(&tagged)[a] == (spec_prim_shape(#[trigger] placed@[a]),
                        prim_exposure(placed@[a])) by {
                    crate::boolean::lemma_tagged_view_index_pub(&tagged, a);
                }
            }
        }
        proof {
            crate::boolean::lemma_tagged_view_len(&tagged);
            assert(tagged_view(&tagged) =~~= placed@.map_values(
                |p: Primitive| (spec_prim_shape(p), prim_exposure(p))));
        }
        let result: Vec<Primitive> = apply_boolean_operations(&tagged);
        extend_primitives(primitives, &result);
    } else {
        extend_primitives(primitives, &placed);
    }
}

/// The flashes of one step-and-repeat row, from column `sx` on.
pub open spec fn flash_row(
    prims: Seq<Primitive>,
    has_neg: bool,
    ls: int,
    x: int,
    y: int,
    sr_x: int,
    sr_i: int,
    sx: int,
    row_y: int,
) -> Seq<Primitive>
    decreases sr_x - sx,
{
    if sx < 0 || sx >= sr_x {
        Seq::<Primitive>::empty()
    } else {
        spec_flash_no_sr(prims, has_neg, ls, spec_sat_add(x, sat_i64(sx * sr_i)), row_y)
            + flash_row(prims, has_neg, ls, x, y, sr_x, sr_i, sx + 1, row_y)
    }
}

/// The flashes of the whole step-and-repeat grid, from row `sy` on.
pub open spec fn flash_grid(
    prims: Seq<Primitive>,
    has_neg: bool,
    ls: int,
    x: int,
    y: int,
    sr_x: int,
    sr_y: int,
    sr_i: int,
    sr_j: int,
    sy: int,
) -> Seq<Primitive>
    decreases sr_y - sy,
{
    if sy < 0 || sy >= sr_y {
        Seq::<Primitive>::empty()
    } else {
        flash_row(prims, has_neg, ls, x, y, sr_x, sr_i, 0, spec_sat_add(y, sat_i64(
            sy * sr_j)))
            + flash_grid(prims, has_neg, ls, x, y, sr_x, sr_y, sr_i, sr_j, sy + 1)
    }
}

/// What one flash command emits: every aperture primitive, placed at every
/// grid offset; nothing when the aperture is unknown.
pub open spec fn spec_flash(
    ap: Option<(int, Seq<Primitive>, bool)>,
    s: ParserState,
    x: int,
    y: int,
) -> Seq<Primitive> {
    match ap {
        Some(a) => flash_grid(
            a.1,
            a.2,
            s.layer_scale as int,
            x,
            y,
            s.sr_x as int,
            s.sr_y as int,
            s.sr_i as int,
            s.sr_j as int,
            0,
        ),
        None => Seq::<Primitive>::empty(),
    }
}

/// Multiply a grid index by a step, saturating.
fn mul_count(n: u32, step: i64) -> (r: i64)
    ensures
        r as int == sat_i64((n as int) * (step as int)),
{
    proof {
        assert((i128::MIN as int) < (n as int) * (step as int)
            && (n as int) * (step as int) < (i128::MAX as int)) by (nonlinear_arith)
            requires
                0 <= n as int <= u32::MAX as int,
                i64::MIN as int <= step as int <= i64::MAX as int;
    }
    sat_i64_exec((n as i128) * (step as i128))
}

/// Flash the current aperture at `(x, y)` under the step-and-repeat grid.
pub fn flash_aperture(
    state: &ParserState,
    apertures: &ApertureTable,
    primitives: &mut Vec<Primitive>,
    x: i64,
    y: i64,
)
    ensures
        final(primitives)@ == old(primitives)@ + spec_flash(
            ap_view_lookup(ap_table_view(apertures.entries@), state.current_aperture),
            *state,
            x as int,
            y as int,
        ),
{
    proof {
        lemma_ap_lookup_view(apertures.entries@, state.current_aperture);
    }
    let ap: &Aperture = match apertures.get(state.current_aperture) {
        Some(a) => a,
        None => {
            proof {
                assert(old(primitives)@ + Seq::<Primitive>::empty() =~= old(primitives)@);
            }
            return;
        },
    };
    let ghost target = spec_flash(
        ap_view_lookup(ap_table_view(apertures.entries@), state.current_aperture), *state,
        x as int, y as int);
    let mut sy: u32 = 0;
    while sy < state.sr_y
        invariant
            0 <= sy <= state.sr_y,
            ap_view_lookup(ap_table_view(apertures.entries@), state.current_aperture)
                == Some(ap_view(*ap)),
            target == spec_flash(Some(ap_view(*ap)), *state, x as int, y as int),
            old(primitives)@ + target =~= primitives@ + flash_grid(
                ap.primitives@,
                ap.has_negative,
                state.layer_scale as int,
                x as int,
                y as int,
                state.sr_x as int,
                state.sr_y as int,
                state.sr_i as int,
                state.sr_j as int,
                sy as int,
            ),
        decreases state.sr_y - sy,
    {
        let row_y: i64 = sat_add(y, mul_count(sy, state.sr_j));
        let mut sx: u32 = 0;
        while sx < state.sr_x
            invariant
                0 <= sx <= state.sr_x,
                ap_view_lookup(ap_table_view(apertures.entries@), state.current_aperture)
                    == Some(ap_view(*ap)),
                row_y as int == spec_sat_add(y as int, sat_i64(sy as int * state.sr_j as int)),
                old(primitives)@ + target =~= primitives@ + flash_row(
                    ap.primitives@,
                    ap.has_negative,
                    state.layer_scale as int,
                    x as int,
                    y as int,
                    state.sr_x as int,
                    state.sr_i as int,
                    sx as int,
                    row_y as int,
                ) + flash_grid(
                    ap.primitives@,
                    ap.has_negative,
                    state.layer_scale as int,
                    x as int,
                    y as int,
                    state.sr_x as int,
                    state.sr_y as int,
                    state.sr_i as int,
                    state.sr_j as int,
                    sy as int + 1,
                ),
            decreases state.sr_x - sx,
        {
            let fx: i64 = sat_add(x, mul_count(sx, state.sr_i));
            flash_aperture_no_sr(ap, primitives, fx, row_y, state.layer_scale);
            sx = sx + 1;
            proof {
                lemma_concat_assoc_prims();
            }
        }
        sy = sy + 1;
    }
    proof {
        assert(primitives@ + Seq::<Primitive>::empty() =~= primitives@);
        assert(old(primitives)@ + target =~= primitives@);
    }
}

/// Sequence concatenation is associative (kept ambient for the grid
/// proofs).
proof fn lemma_concat_assoc_prims()
    ensures
        forall|a: Seq<Primitive>, b: Seq<Primitive>, c: Seq<Primitive>|
            #[trigger] ((a + b) + c) =~= a + (b + c),
{
}

/// When the aperture has no negative primitive, flashing emits exactly one
/// translated copy of each primitive per grid cell: `|primitives| * sr_x *
/// sr_y` in all, and within a cell the `t`-th output is the `t`-th aperture
/// primitive scaled by the layer scale and moved to the cell's position.
pub proof fn lemma_flash_positive_count(
    prims: Seq<Primitive>,
    ls: int,
    x: int,
    y: int,
    sr_x: int,
    sr_y: int,
    sr_i: int,
    sr_j: int,
)
    requires
        sr_x >= 0,
        sr_y >= 0,
    ensures
        flash_grid(prims, false, ls, x, y, sr_x, sr_y, sr_i, sr_j, 0).len()
            == prims.len() * sr_x * sr_y,
        forall|xx: int, yy: int, t: int| 0 <= t < prims.len()
            ==> #[trigger] spec_flash_no_sr(prims, false, ls, xx, yy)[t]
                == spec_offset_prim(spec_scale_prim(prims[t], ls), xx, yy),
{
    lemma_grid_count(prims, ls, x, y, sr_x, sr_y, sr_i, sr_j, 0);
    assert(prims.len() * sr_x * sr_y == (sr_y - 0) * (prims.len() * sr_x))
        by (nonlinear_arith);
}

proof fn lemma_row_count(
    prims: Seq<Primitive>,
    ls: int,
    x: int,
    y: int,
    sr_x: int,
    sr_i: int,
    sx: int,
    row_y: int,
)
    requires
        0 <= sx <= sr_x,
    ensures
        flash_row(prims, false, ls, x, y, sr_x, sr_i, sx, row_y).len()
            == (sr_x - sx) * prims.len(),
    decreases sr_x - sx,
{
    if sx < sr_x {
        lemma_row_count(prims, ls, x, y, sr_x, sr_i, sx + 1, row_y);
        assert((sr_x - sx) * prims.len() == prims.len() + (sr_x - sx - 1) * prims.len())
            by (nonlinear_arith);
    } else {
        assert((sr_x - sx) * prims.len() == 0) by (nonlinear_arith)
            requires sr_x == sx;
    }
}

proof fn lemma_grid_count(
    prims: Seq<Primitive>,
    ls: int,
    x: int,
    y: int,
    sr_x: int,
    sr_y: int,
    sr_i: int,
    sr_j: int,
    sy: int,
)
    requires
        0 <= sy <= sr_y,
        sr_x >= 0,
    ensures
        flash_grid(prims, false, ls, x, y, sr_x, sr_y, sr_i, sr_j, sy).len()
            == (sr_y - sy) * (prims.len() * sr_x),
    decreases sr_y - sy,
{
    if sy < sr_y {
        lemma_grid_count(prims, ls, x, y, sr_x, sr_y, sr_i, sr_j, sy + 1);
        lemma_row_count(prims, ls, x, y, sr_x, sr_i, 0, spec_sat_add(y, sat_i64(sy * sr_j)));
        assert((sr_y - sy) * (prims.len() * sr_x) == sr_x * prims.len() + (sr_y - sy - 1) * (
        prims.len() * sr_x)) by (nonlinear_arith);
    } else {
        assert((sr_y - sy) * (prims.len() * sr_x) == 0) by (nonlinear_arith)
            requires sr_y == sy;
    }
}


/// The stroke width of the current aperture: its diameter scaled by the
/// layer scale.
pub open spec fn stroke_width(rad: int, ls: int) -> int {
    spec_fix_mul(sat_i64(2 * rad), ls)
}

/// One linear stroke tile: flash at the start, the spanning rectangle,
/// flash at the end. A degenerate segment spans nothing but still flashes
/// both ends.
pub open spec fn spec_stroke_tile(
    prims: Seq<Primitive>,
    has_neg: bool,
    rad: int,
    ls: int,
    sx: int,
    sy: int,
    ex: int,
    ey: int,
) -> Seq<Primitive> {
    spec_flash_no_sr(prims, has_neg, ls, sx, sy) + spec_line_triangles(
        sx,
        sy,
        ex,
        ey,
        stroke_width(rad, ls),
        true,
    ) + spec_flash_no_sr(prims, has_neg, ls, ex, ey)
}

/// A degenerate stroke (equal endpoints) emits no rectangle but still
/// flashes both ends.
pub proof fn lemma_degenerate_stroke(
    prims: Seq<Primitive>,
    has_neg: bool,
    rad: int,
    ls: int,
    x: int,
    y: int,
)
    ensures
        spec_stroke_tile(prims, has_neg, rad, ls, x, y, x, y) == spec_flash_no_sr(
            prims, has_neg, ls, x, y) + spec_flash_no_sr(prims, has_neg, ls, x, y),
{
    let w = stroke_width(rad, ls);
    assert(spec_sat_sub(x, x) == 0);
    assert(clamp62(0) == 0);
    crate::geom::lemma_dist_zero();
    assert(spec_line_triangles(x, y, x, y, w, true) =~= Seq::<Primitive>::empty());
    assert(spec_flash_no_sr(prims, has_neg, ls, x, y) + Seq::<Primitive>::empty()
        + spec_flash_no_sr(prims, has_neg, ls, x, y)
        =~= spec_flash_no_sr(prims, has_neg, ls, x, y)
        + spec_flash_no_sr(prims, has_neg, ls, x, y));
}

/// The cross product of the two radius vectors of an arc candidate.
pub open spec fn arc_cross(ux: int, uy: int, vx: int, vy: int) -> int {
    ux * vy - uy * vx
}

/// The dot product of the two radius vectors of an arc candidate.
pub open spec fn arc_dot(ux: int, uy: int, vx: int, vy: int) -> int {
    ux * vx + uy * vy
}

/// Whether the sweep from start to end around `(cx, cy)` stays within a
/// quarter turn in the requested direction.
pub open spec fn sweep_ok(sx: int, sy: int, ex: int, ey: int, cx: int, cy: int, cw: bool)
    -> bool
{
    let ux = clamp62(spec_sat_sub(sx, cx));
    let uy = clamp62(spec_sat_sub(sy, cy));
    let vx = clamp62(spec_sat_sub(ex, cx));
    let vy = clamp62(spec_sat_sub(ey, cy));
    arc_dot(ux, uy, vx, vy) >= 0 && (if cw {
        arc_cross(ux, uy, vx, vy) <= 0
    } else {
        arc_cross(ux, uy, vx, vy) >= 0
    })
}

/// Whether the candidate center is (nearly) equidistant from both ends.
pub open spec fn radii_agree(sx: int, sy: int, ex: int, ey: int, cx: int, cy: int) -> bool {
    let r1 = spec_dist(spec_sat_sub(cx, sx), spec_sat_sub(cy, sy));
    let r2 = spec_dist(spec_sat_sub(cx, ex), spec_sat_sub(cy, ey));
    -1000 < r1 - r2 && r1 - r2 < 1000
}

/// The four single-quadrant center candidates: the absolute offsets applied
/// with all four sign combinations.
pub open spec fn arc_candidate(sx: int, sy: int, i: int, j: int, k: int) -> (int, int) {
    if k == 0 {
        (spec_sat_add(sx, i), spec_sat_add(sy, j))
    } else if k == 1 {
        (spec_sat_sub(sx, i), spec_sat_add(sy, j))
    } else if k == 2 {
        (spec_sat_add(sx, i), spec_sat_sub(sy, j))
    } else {
        (spec_sat_sub(sx, i), spec_sat_sub(sy, j))
    }
}

/// The single-quadrant center: the first candidate whose radii agree and
/// whose sweep stays within a quarter turn, or the first candidate.
pub open spec fn pick_center(
    sx: int,
    sy: int,
    ex: int,
    ey: int,
    i: int,
    j: int,
    cw: bool,
    k: int,
) -> (int, int)
    decreases 4 - k,
{
    if k < 0 || k >= 4 {
        arc_candidate(sx, sy, i, j, 0)
    } else {
        let c = arc_candidate(sx, sy, i, j, k);
        if radii_agree(sx, sy, ex, ey, c.0, c.1) && sweep_ok(sx, sy, ex, ey, c.0, c.1, cw) {
            c
        } else {
            pick_center(sx, sy, ex, ey, i, j, cw, k + 1)
        }
    }
}

/// One arc stroke tile: flash at the start, the arc primitive, flash at
/// the end. In single-quadrant mode the center comes from the candidate
/// search and a sweep beyond a quarter turn is clamped to exactly a quarter
/// turn by turning the start vector ninety degrees.
pub open spec fn spec_arc_tile(
    prims: Seq<Primitive>,
    has_neg: bool,
    rad: int,
    ls: int,
    single: bool,
    cw: bool,
    sx: int,
    sy: int,
    ex: int,
    ey: int,
    i: int,
    j: int,
) -> Seq<Primitive> {
    let c = if single {
        pick_center(sx, sy, ex, ey, i, j, cw, 0)
    } else {
        (spec_sat_add(sx, i), spec_sat_add(sy, j))
    };
    let radius = spec_dist(spec_sat_sub(sx, c.0), spec_sat_sub(sy, c.1));
    let ux = spec_sat_sub(sx, c.0);
    let uy = spec_sat_sub(sy, c.1);
    let e: (int, int) = if single && !sweep_ok(sx, sy, ex, ey, c.0, c.1, cw) {
        if cw {
            (spec_sat_add(c.0, uy), spec_sat_sub(c.1, ux))
        } else {
            (spec_sat_sub(c.0, uy), spec_sat_add(c.1, ux))
        }
    } else {
        (ex, ey)
    };
    spec_flash_no_sr(prims, has_neg, ls, sx, sy) + seq![
        Primitive::Arc {
            x: c.0 as i64,
            y: c.1 as i64,
            radius: radius as i64,
            start_x: sx as i64,
            start_y: sy as i64,
            end_x: e.0 as i64,
            end_y: e.1 as i64,
            clockwise: cw,
            thickness: stroke_width(rad, ls) as i64,
            exposure: true,
        },
    ] + spec_flash_no_sr(prims, has_neg, ls, ex, ey)
}

/// A clamped single-quadrant arc sweeps exactly ninety degrees: the end
/// radius vector is the quarter turn of the start vector, so their dot
/// product is exactly zero, with the cross product on the requested side.
/// (Stated away from the saturation boundary.)
pub proof fn lemma_quarter_turn_exact(cx: int, cy: int, sx: int, sy: int, cw: bool)
    requires
        -0x1000_0000_0000_0000 <= cx <= 0x1000_0000_0000_0000,
        -0x1000_0000_0000_0000 <= cy <= 0x1000_0000_0000_0000,
        -0x1000_0000_0000_0000 <= sx <= 0x1000_0000_0000_0000,
        -0x1000_0000_0000_0000 <= sy <= 0x1000_0000_0000_0000,
    ensures
        ({
            let ux = spec_sat_sub(sx, cx);
            let uy = spec_sat_sub(sy, cy);
            let e = if cw {
                (spec_sat_add(cx, uy), spec_sat_sub(cy, ux))
            } else {
                (spec_sat_sub(cx, uy), spec_sat_add(cy, ux))
            };
            arc_dot(ux, uy, spec_sat_sub(e.0, cx), spec_sat_sub(e.1, cy)) == 0
                && (cw ==> arc_cross(ux, uy, spec_sat_sub(e.0, cx), spec_sat_sub(e.1, cy))
                    <= 0)
                && (!cw ==> arc_cross(ux, uy, spec_sat_sub(e.0, cx), spec_sat_sub(e.1, cy))
                    >= 0)
        }),
{
    let ux = spec_sat_sub(sx, cx);
    let uy = spec_sat_sub(sy, cy);
    if cw {
        let vx = spec_sat_sub(spec_sat_add(cx, uy), cx);
        let vy = spec_sat_sub(spec_sat_sub(cy, ux), cy);
        assert(vx == uy && vy == -ux);
        assert(ux * uy + uy * (-ux) == 0) by (nonlinear_arith);
        assert(ux * (-ux) - uy * uy <= 0) by (nonlinear_arith);
        assert(arc_dot(ux, uy, vx, vy) == ux * uy + uy * (-ux));
        assert(arc_cross(ux, uy, vx, vy) == ux * (-ux) - uy * uy);
    } else {
        let vx = spec_sat_sub(spec_sat_sub(cx, uy), cx);
        let vy = spec_sat_sub(spec_sat_add(cy, ux), cy);
        assert(vx == -uy && vy == ux);
        assert(ux * (-uy) + uy * ux == 0) by (nonlinear_arith);
        assert(ux * ux + uy * uy >= 0) by (nonlinear_arith);
        assert(arc_dot(ux, uy, vx, vy) == ux * (-uy) + uy * ux);
        assert(arc_cross(ux, uy, vx, vy) == ux * ux - uy * (-uy));
        assert(ux * ux - uy * (-uy) == ux * ux + uy * uy) by (nonlinear_arith);
    }
}

/// Decide `sweep_ok` on concrete coordinates.
fn sweep_ok_exec(sx: i64, sy: i64, ex: i64, ey: i64, cx: i64, cy: i64, cw: bool) -> (r: bool)
    ensures
        r == sweep_ok(sx as int, sy as int, ex as int, ey as int, cx as int, cy as int, cw),
{
    let ux: i64 = clamp62_pub(sat_sub(sx, cx));
    let uy: i64 = clamp62_pub(sat_sub(sy, cy));
    let vx: i64 = clamp62_pub(sat_sub(ex, cx));
    let vy: i64 = clamp62_pub(sat_sub(ey, cy));
    proof {
        assert((i128::MIN as int) < (ux as int) * (vy as int)
            && (ux as int) * (vy as int) < (i128::MAX as int)
            && (i128::MIN as int) < (uy as int) * (vx as int)
            && (uy as int) * (vx as int) < (i128::MAX as int)
            && (i128::MIN as int) < (ux as int) * (vx as int)
            && (ux as int) * (vx as int) < (i128::MAX as int)
            && (i128::MIN as int) < (uy as int) * (vy as int)
            && (uy as int) * (vy as int) < (i128::MAX as int)
            && (ux as int) * (vy as int) - (uy as int) * (vx as int) > (i128::MIN as int)
            && (ux as int) * (vy as int) - (uy as int) * (vx as int) < (i128::MAX as int)
            && (ux as int) * (vx as int) + (uy as int) * (vy as int) > (i128::MIN as int)
            && (ux as int) * (vx as int) + (uy as int) * (vy as int) < (i128::MAX as int))
            by (nonlinear_arith)
            requires
                -0x4000_0000_0000_0000 <= ux as int <= 0x4000_0000_0000_0000,
                -0x4000_0000_0000_0000 <= uy as int <= 0x4000_0000_0000_0000,
                -0x4000_0000_0000_0000 <= vx as int <= 0x4000_0000_0000_0000,
                -0x4000_0000_0000_0000 <= vy as int <= 0x4000_0000_0000_0000;
    }
    let cross: i128 = (ux as i128) * (vy as i128) - (uy as i128) * (vx as i128);
    let dot: i128 = (ux as i128) * (vx as i128) + (uy as i128) * (vy as i128);
    dot >= 0 && (if cw {
        cross <= 0
    } else {
        cross >= 0
    })
}

/// Clamp into the safe coordinate range (shared with the distance helper).
fn clamp62_pub(n: i64) -> (r: i64)
    ensures
        r as int == clamp62(n as int),
        -0x4000_0000_0000_0000 <= r <= 0x4000_0000_0000_0000,
{
    if n > 0x4000_0000_0000_0000 {
        0x4000_0000_0000_0000
    } else if n < -0x4000_0000_0000_0000 {
        -0x4000_0000_0000_0000
    } else {
        n
    }
}

fn radii_agree_exec(sx: i64, sy: i64, ex: i64, ey: i64, cx: i64, cy: i64) -> (r: bool)
    ensures
        r == radii_agree(sx as int, sy as int, ex as int, ey as int, cx as int, cy as int),
{
    let r1: i64 = dist(sat_sub(cx, sx), sat_sub(cy, sy));
    let r2: i64 = dist(sat_sub(cx, ex), sat_sub(cy, ey));
    let diff: i128 = (r1 as i128) - (r2 as i128);
    -1000 < diff && diff < 1000
}

fn arc_candidate_exec(sx: i64, sy: i64, i: i64, j: i64, k: u32) -> (r: (i64, i64))
    requires
        k < 4,
    ensures
        (r.0 as int, r.1 as int) == arc_candidate(sx as int, sy as int, i as int, j as int,
            k as int),
{
    if k == 0 {
        (sat_add(sx, i), sat_add(sy, j))
    } else if k == 1 {
        (sat_sub(sx, i), sat_add(sy, j))
    } else if k == 2 {
        (sat_add(sx, i), sat_sub(sy, j))
    } else {
        (sat_sub(sx, i), sat_sub(sy, j))
    }
}

fn pick_center_exec(sx: i64, sy: i64, ex: i64, ey: i64, i: i64, j: i64, cw: bool)
    -> (r: (i64, i64))
    ensures
        (r.0 as int, r.1 as int) == pick_center(sx as int, sy as int, ex as int, ey as int,
            i as int, j as int, cw, 0),
{
    let mut k: u32 = 0;
    while k < 4
        invariant
            0 <= k <= 4,
            pick_center(sx as int, sy as int, ex as int, ey as int, i as int, j as int, cw, 0)
                == pick_center(sx as int, sy as int, ex as int, ey as int, i as int,
                    j as int, cw, k as int),
        decreases 4 - k,
    {
        let c: (i64, i64) = arc_candidate_exec(sx, sy, i, j, k);
        if radii_agree_exec(sx, sy, ex, ey, c.0, c.1) && sweep_ok_exec(
            sx, sy, ex, ey, c.0, c.1, cw) {
            return c;
        }
        k = k + 1;
    }
    arc_candidate_exec(sx, sy, i, j, 0)
}

/// Emit one arc stroke tile.
fn arc_tile_exec(
    aperture: &Aperture,
    primitives: &mut Vec<Primitive>,
    ls: i64,
    single: bool,
    cw: bool,
    sx: i64,
    sy: i64,
    ex: i64,
    ey: i64,
    i: i64,
    j: i64,
)
    ensures
        final(primitives)@ == old(primitives)@ + spec_arc_tile(
            aperture.primitives@,
            aperture.has_negative,
            aperture.radius as int,
            ls as int,
            single,
            cw,
            sx as int,
            sy as int,
            ex as int,
            ey as int,
            i as int,
            j as int,
        ),
{
    flash_aperture_no_sr(aperture, primitives, sx, sy, ls);
    let c: (i64, i64) = if single {
        pick_center_exec(sx, sy, ex, ey, i, j, cw)
    } else {
        (sat_add(sx, i), sat_add(sy, j))
    };
    let radius: i64 = dist(sat_sub(sx, c.0), sat_sub(sy, c.1));
    let ux: i64 = sat_sub(sx, c.0);
    let uy: i64 = sat_sub(sy, c.1);
    let e: (i64, i64) = if single && !sweep_ok_exec(sx, sy, ex, ey, c.0, c.1, cw) {
        if cw {
            (sat_add(c.0, uy), sat_sub(c.1, ux))
        } else {
            (sat_sub(c.0, uy), sat_add(c.1, ux))
        }
    } else {
        (ex, ey)
    };
    let thickness: i64 = fix_mul(sat_add(aperture.radius, aperture.radius), ls);
    proof {
        assert(sat_i64(2 * (aperture.radius as int)) == spec_sat_add(
            aperture.radius as int, aperture.radius as int));
    }
    primitives.push(Primitive::Arc {
        x: c.0,
        y: c.1,
        radius,
        start_x: sx,
        start_y: sy,
        end_x: e.0,
        end_y: e.1,
        clockwise: cw,
        thickness,
        exposure: true,
    });
    flash_aperture_no_sr(aperture, primitives, ex, ey, ls);
    proof {
        assert(final(primitives)@ =~= old(primitives)@ + spec_arc_tile(
            aperture.primitives@, aperture.has_negative, aperture.radius as int, ls as int,
            single, cw, sx as int, sy as int, ex as int, ey as int, i as int, j as int));
    }
}

/// Emit one linear stroke tile.
fn stroke_tile_exec(
    aperture: &Aperture,
    primitives: &mut Vec<Primitive>,
    ls: i64,
    sx: i64,
    sy: i64,
    ex: i64,
    ey: i64,
)
    ensures
        final(primitives)@ == old(primitives)@ + spec_stroke_tile(
            aperture.primitives@,
            aperture.has_negative,
            aperture.radius as int,
            ls as int,
            sx as int,
            sy as int,
            ex as int,
            ey as int,
        ),
{
    flash_aperture_no_sr(aperture, primitives, sx, sy, ls);
    let width: i64 = fix_mul(sat_add(aperture.radius, aperture.radius), ls);
    proof {
        assert(sat_i64(2 * (aperture.radius as int)) == spec_sat_add(
            aperture.radius as int, aperture.radius as int));
    }
    let tris: Vec<Primitive> = line_to_triangles(sx, sy, ex, ey, width, true);
    extend_primitives(primitives, &tris);
    flash_aperture_no_sr(aperture, primitives, ex, ey, ls);
    proof {
        assert(final(primitives)@ =~= old(primitives)@ + spec_stroke_tile(
            aperture.primitives@, aperture.has_negative, aperture.radius as int, ls as int,
            sx as int, sy as int, ex as int, ey as int));
    }
}

/// The stroke tiles of one step-and-repeat row.
pub open spec fn stroke_row(
    prims: Seq<Primitive>,
    has_neg: bool,
    rad: int,
    ls: int,
    arc: bool,
    single: bool,
    cw: bool,
    sx0: int,
    sy0: int,
    ex0: int,
    ey0: int,
    i: int,
    j: int,
    sr_x: int,
    sr_i: int,
    row_dy: int,
    sx: int,
) -> Seq<Primitive>
    decreases sr_x - sx,
{
    if sx < 0 || sx >= sr_x {
        Seq::<Primitive>::empty()
    } else {
        let dx = sat_i64(sx * sr_i);
        let tile = if arc {
            spec_arc_tile(prims, has_neg, rad, ls, single, cw, spec_sat_add(sx0, dx),
                spec_sat_add(sy0, row_dy), spec_sat_add(ex0, dx), spec_sat_add(ey0, row_dy),
                i, j)
        } else {
            spec_stroke_tile(prims, has_neg, rad, ls, spec_sat_add(sx0, dx), spec_sat_add(
                sy0, row_dy), spec_sat_add(ex0, dx), spec_sat_add(ey0, row_dy))
        };
        tile + stroke_row(prims, has_neg, rad, ls, arc, single, cw, sx0, sy0, ex0, ey0, i, j,
            sr_x, sr_i, row_dy, sx + 1)
    }
}

/// The stroke tiles of the whole step-and-repeat grid.
pub open spec fn stroke_grid(
    prims: Seq<Primitive>,
    has_neg: bool,
    rad: int,
    ls: int,
    arc: bool,
    single: bool,
    cw: bool,
    sx0: int,
    sy0: int,
    ex0: int,
    ey0: int,
    i: int,
    j: int,
    sr_x: int,
    sr_y: int,
    sr_i: int,
    sr_j: int,
    sy: int,
) -> Seq<Primitive>
    decreases sr_y - sy,
{
    if sy < 0 || sy >= sr_y {
        Seq::<Primitive>::empty()
    } else {
        stroke_row(prims, has_neg, rad, ls, arc, single, cw, sx0, sy0, ex0, ey0, i, j, sr_x,
            sr_i, sat_i64(sy * sr_j), 0) + stroke_grid(prims, has_neg, rad, ls, arc, single,
            cw, sx0, sy0, ex0, ey0, i, j, sr_x, sr_y, sr_i, sr_j, sy + 1)
    }
}

/// What one interpolation command emits: stroke or arc tiles over the
/// step-and-repeat grid; nothing when the aperture is unknown.
pub open spec fn spec_interpolation(
    ap: Option<(int, Seq<Primitive>, bool)>,
    s: ParserState,
    ex0: int,
    ey0: int,
    i: int,
    j: int,
) -> Seq<Primitive> {
    match ap {
        Some(a) => {
            let arc = s.interpolation_mode == Interpolation::Clockwise
                || s.interpolation_mode == Interpolation::CounterClockwise;
            stroke_grid(
                a.1,
                a.2,
                a.0,
                s.layer_scale as int,
                arc,
                s.quadrant_mode == QuadrantMode::Single,
                s.interpolation_mode == Interpolation::Clockwise,
                s.x as int,
                s.y as int,
                ex0,
                ey0,
                i,
                j,
                s.sr_x as int,
                s.sr_y as int,
                s.sr_i as int,
                s.sr_j as int,
                0,
            )
        },
        None => Seq::<Primitive>::empty(),
    }
}

/// Draw a line or an arc from the current position to `(end_x, end_y)`,
/// tiled by the step-and-repeat grid.
pub fn execute_interpolation(
    state: &ParserState,
    apertures: &ApertureTable,
    primitives: &mut Vec<Primitive>,
    end_x: i64,
    end_y: i64,
    i: i64,
    j: i64,
)
    ensures
        final(primitives)@ == old(primitives)@ + spec_interpolation(
            ap_view_lookup(ap_table_view(apertures.entries@), state.current_aperture),
            *state,
            end_x as int,
            end_y as int,
            i as int,
            j as int,
        ),
{
    proof {
        lemma_ap_lookup_view(apertures.entries@, state.current_aperture);
    }
    let ap: &Aperture = match apertures.get(state.current_aperture) {
        Some(a) => a,
        None => {
            proof {
                assert(old(primitives)@ + Seq::<Primitive>::empty() =~= old(primitives)@);
            }
            return;
        },
    };
    let arc: bool = match state.interpolation_mode {
        Interpolation::Clockwise | Interpolation::CounterClockwise => true,
        _ => false,
    };
    let single: bool = match state.quadrant_mode {
        QuadrantMode::Single => true,
        QuadrantMode::Multi => false,
    };
    let cw: bool = match state.interpolation_mode {
        Interpolation::Clockwise => true,
        _ => false,
    };
    let ghost target = spec_interpolation(
        ap_view_lookup(ap_table_view(apertures.entries@), state.current_aperture), *state,
        end_x as int, end_y as int, i as int, j as int);
    let mut sy: u32 = 0;
    while sy < state.sr_y
        invariant
            0 <= sy <= state.sr_y,
            ap_view_lookup(ap_table_view(apertures.entries@), state.current_aperture)
                == Some(ap_view(*ap)),
            arc == (state.interpolation_mode == Interpolation::Clockwise
                || state.interpolation_mode == Interpolation::CounterClockwise),
            single == (state.quadrant_mode == QuadrantMode::Single),
            cw == (state.interpolation_mode == Interpolation::Clockwise),
            target == spec_interpolation(Some(ap_view(*ap)), *state, end_x as int,
                end_y as int, i as int, j as int),
            old(primitives)@ + target =~= primitives@ + stroke_grid(
                ap.primitives@, ap.has_negative, ap.radius as int, state.layer_scale as int,
                arc, single, cw, state.x as int, state.y as int, end_x as int, end_y as int,
                i as int, j as int, state.sr_x as int, state.sr_y as int, state.sr_i as int,
                state.sr_j as int, sy as int),
        decreases state.sr_y - sy,
    {
        let row_dy: i64 = mul_count(sy, state.sr_j);
        let mut sx: u32 = 0;
        while sx < state.sr_x
            invariant
                0 <= sx <= state.sr_x,
                ap_view_lookup(ap_table_view(apertures.entries@), state.current_aperture)
                    == Some(ap_view(*ap)),
                arc == (state.interpolation_mode == Interpolation::Clockwise
                    || state.interpolation_mode == Interpolation::CounterClockwise),
                single == (state.quadrant_mode == QuadrantMode::Single),
                cw == (state.interpolation_mode == Interpolation::Clockwise),
                row_dy as int == sat_i64(sy as int * state.sr_j as int),
                old(primitives)@ + target =~= primitives@ + stroke_row(
                    ap.primitives@, ap.has_negative, ap.radius as int,
                    state.layer_scale as int, arc, single, cw, state.x as int, state.y as int,
                    end_x as int, end_y as int, i as int, j as int, state.sr_x as int,
                    state.sr_i as int, row_dy as int, sx as int) + stroke_grid(
                    ap.primitives@, ap.has_negative, ap.radius as int,
                    state.layer_scale as int, arc, single, cw, state.x as int, state.y as int,
                    end_x as int, end_y as int, i as int, j as int, state.sr_x as int,
                    state.sr_y as int, state.sr_i as int, state.sr_j as int, sy as int + 1),
            decreases state.sr_x - sx,
        {
            let dx: i64 = mul_count(sx, state.sr_i);
            let tsx: i64 = sat_add(state.x, dx);
            let tsy: i64 = sat_add(state.y, row_dy);
            let tex: i64 = sat_add(end_x, dx);
            let tey: i64 = sat_add(end_y, row_dy);
            if arc {
                arc_tile_exec(ap, primitives, state.layer_scale, single, cw, tsx, tsy, tex,
                    tey, i, j);
            } else {
                stroke_tile_exec(ap, primitives, state.layer_scale, tsx, tsy, tex, tey);
            }
            sx = sx + 1;
            proof {
                lemma_concat_assoc_prims();
            }
        }
        sy = sy + 1;
    }
    proof {
        assert(primitives@ + Seq::<Primitive>::empty() =~= primitives@);
        assert(old(primitives)@ + target =~= primitives@);
    }
}

} // verus!
