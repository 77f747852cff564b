//! The command parser and the parse driver.
//!
//! Lines are dispatched by prefix: `%...%` extended commands (reassembled
//! over physical lines), comments, and graphic commands. Graphic commands
//! mutate the modal state, collect region contours and emit primitives.
//! Polarity changes split the output into sublayers; the final output
//! interleaves them positive-first, so a sublayer's index parity encodes
//! its polarity.

use vstd::prelude::*;
use vstd::string::*;
use crate::fixed::{sat_i64, spec_sat_add, spec_fix_mul, sat_add, fix_mul, sat_i64_exec,
    FIX_ONE};
use crate::text::{spec_parse_int, parse_int, spec_trim_end, spec_trim_start, trim_end_byte,
    spec_trim, trim, spec_starts_with, starts_with, split_bytes, spec_split, append_bytes};
use crate::geom::{Point, Primitive, spec_offset_prim, offset_primitive_by};
use crate::state::{
    ParserState, Polarity, Interpolation, QuadrantMode, CoordinateMode, PenState, parse_mo,
    parse_format_spec, parse_sr, parse_lp, parse_if, parse_lm, parse_lr, parse_ls,
    state_is_default,
};
use crate::aperture::{Aperture, ApertureTable, aperture_lookup, parse_aperture,
    compute_has_negative, any_negative, ap_view, ap_table_view, ap_view_lookup,
    lemma_ap_lookup_view};
use crate::macro_def::{MacroTable, parse_macro};
use crate::graphics::{
    spec_extract_value, extract_value, spec_convert_coordinate, convert_coordinate,
    spec_flash, flash_aperture, spec_interpolation, execute_interpolation,
};
use crate::boolean::{spec_triangulate_shape, triangulate_shape_with_holes, extend_primitives};
use crate::buffers::{GerberData, primitives_to_gerber_data};

verus! {

/// The G-code of a line, when a parsable unsigned number follows `G`.
pub open spec fn g_of(line: Seq<u8>) -> Option<int> {
    match spec_extract_value(line, 71) {
        Some(t) => match spec_parse_int(t) {
            Some(v) => if 0 <= v <= u32::MAX as int {
                Some(v)
            } else {
                None
            },
            None => None,
        },
        None => None,
    }
}

/// The D-code of a line, when a parsable unsigned number follows `D`.
pub open spec fn d_of(line: Seq<u8>) -> Option<int> {
    match spec_extract_value(line, 68) {
        Some(t) => match spec_parse_int(t) {
            Some(v) => if 0 <= v <= u32::MAX as int {
                Some(v)
            } else {
                None
            },
            None => None,
        },
        None => None,
    }
}

/// The modal effect of a G-code (region handling aside).
pub open spec fn apply_g_modal(g: int, s: ParserState) -> ParserState {
    if g == 1 {
        ParserState { interpolation_mode: Interpolation::Linear, scale: FIX_ONE, ..s }
    } else if g == 2 {
        ParserState { interpolation_mode: Interpolation::Clockwise, ..s }
    } else if g == 3 {
        ParserState { interpolation_mode: Interpolation::CounterClockwise, ..s }
    } else if g == 10 {
        ParserState { interpolation_mode: Interpolation::LinearX10, scale: 10_000_000, ..s }
    } else if g == 11 {
        ParserState { interpolation_mode: Interpolation::LinearX01, scale: 100_000, ..s }
    } else if g == 12 {
        ParserState { interpolation_mode: Interpolation::LinearX001, scale: 10_000, ..s }
    } else if g == 36 {
        ParserState { region_mode: true, ..s }
    } else if g == 37 {
        ParserState { region_mode: false, ..s }
    } else if g == 70 {
        ParserState { unit_multiplier: 25_400_000, ..s }
    } else if g == 71 {
        ParserState { unit_multiplier: FIX_ONE, ..s }
    } else if g == 74 {
        ParserState { quadrant_mode: QuadrantMode::Single, ..s }
    } else if g == 75 {
        ParserState { quadrant_mode: QuadrantMode::Multi, ..s }
    } else if g == 90 {
        ParserState { coordinate_mode: CoordinateMode::Absolute, ..s }
    } else if g == 91 {
        ParserState { coordinate_mode: CoordinateMode::Incremental, ..s }
    } else {
        s
    }
}

/// The triangles of one region contour, tiled over the step-and-repeat
/// grid; rows first.
pub open spec fn region_contour_grid(
    tris: Seq<Primitive>,
    sr_x: int,
    sr_y: int,
    sr_i: int,
    sr_j: int,
    sy: int,
) -> Seq<Primitive>
    decreases sr_y - sy,
{
    if sy < 0 || sy >= sr_y {
        Seq::<Primitive>::empty()
    } else {
        region_contour_row(tris, sr_x, sr_i, sat_i64(sy * sr_j), 0) + region_contour_grid(
            tris, sr_x, sr_y, sr_i, sr_j, sy + 1)
    }
}

pub open spec fn region_contour_row(
    tris: Seq<Primitive>,
    sr_x: int,
    sr_i: int,
    dy: int,
    sx: int,
) -> Seq<Primitive>
    decreases sr_x - sx,
{
    if sx < 0 || sx >= sr_x {
        Seq::<Primitive>::empty()
    } else {
        tris.map_values(|p: Primitive| spec_offset_prim(p, sat_i64(sx * sr_i), dy))
            + region_contour_row(tris, sr_x, sr_i, dy, sx + 1)
    }
}

/// The contours of a region that count: those with at least three points,
/// in order. The first is the outer boundary; the rest are holes opened by
/// pen-up moves.
pub open spec fn region_shape(contours: Seq<Seq<Point>>) -> Seq<Seq<Point>>
    decreases contours.len(),
{
    if contours.len() == 0 {
        Seq::<Seq<Point>>::empty()
    } else {
        region_shape(contours.drop_last()) + (if contours.last().len() >= 3 {
            seq![contours.last()]
        } else {
            Seq::<Seq<Point>>::empty()
        })
    }
}

/// What ending a region (`G37`) emits: the counting contours triangulated
/// as one shape — the first as the outer boundary, the rest as holes —
/// and the triangles tiled over the step-and-repeat grid. Regions are
/// always positive.
pub open spec fn region_emit(contours: Seq<Seq<Point>>, s: ParserState) -> Seq<Primitive> {
    match spec_triangulate_shape(region_shape(contours), true) {
        Some(tris) => region_contour_grid(tris, s.sr_x as int, s.sr_y as int, s.sr_i as int,
            s.sr_j as int, 0),
        None => Seq::<Primitive>::empty(),
    }
}

/// The view of the region contours.
pub open spec fn contours_view(c: &Vec<Vec<Point>>) -> Seq<Seq<Point>> {
    c@.map_values(|v: Vec<Point>| v@)
}

proof fn lemma_contours_view_index(c: &Vec<Vec<Point>>, i: int)
    requires
        0 <= i < c@.len(),
    ensures
        contours_view(c).len() == c@.len(),
        contours_view(c)[i] == c@[i]@,
{
}

/// Emit the region's triangles — the counting contours as one shape with
/// holes — under the step-and-repeat grid.
fn emit_region(
    contours: &Vec<Vec<Point>>,
    state: &ParserState,
    primitives: &mut Vec<Primitive>,
)
    ensures
        final(primitives)@ == old(primitives)@ + region_emit(contours_view(contours),
            *state),
{
    let ghost cv = contours_view(contours);
    let mut kept: Vec<Vec<Point>> = Vec::new();
    let mut k: usize = 0;
    proof {
        assert(cv.take(0) =~~= Seq::<Seq<Point>>::empty());
        assert(region_shape(cv.take(0)) =~~= Seq::<Seq<Point>>::empty());
    }
    while k < contours.len()
        invariant
            0 <= k <= cv.len(),
            cv == contours_view(contours),
            crate::boolean::shape_view(&kept) =~~= region_shape(cv.take(k as int)),
            forall|a: int| 0 <= a < kept@.len() ==> (#[trigger] kept@[a])@.len() >= 3,
        decreases cv.len() - k,
    {
        proof {
            lemma_contours_view_index(contours, k as int);
            assert(cv.take(k as int + 1).drop_last() =~~= cv.take(k as int));
            assert(cv.take(k as int + 1).last() == cv[k as int]);
        }
        let ghost kept0 = crate::boolean::shape_view(&kept);
        if contours[k].len() >= 3 {
            let mut c: Vec<Point> = Vec::new();
            crate::text::append_points(&mut c, &contours[k]);
            kept.push(c);
            proof {
                assert(crate::boolean::shape_view(&kept) =~~= kept0.push(cv[k as int]));
                assert(crate::boolean::shape_view(&kept)
                    =~~= region_shape(cv.take(k as int + 1)));
            }
        } else {
            proof {
                assert(region_shape(cv.take(k as int + 1)) =~~= kept0);
            }
        }
        k = k + 1;
    }
    proof {
        assert(cv.take(cv.len() as int) =~~= cv);
    }
    match triangulate_shape_with_holes(&kept, true) {
        Ok(tris) => {
            proof {
                if kept@.len() > 0 {
                    assert(kept@[0]@.len() >= 3);
                    assert(crate::boolean::shape_view(&kept)[0] == kept@[0]@);
                }
            }
            let ghost target_grid = region_contour_grid(tris@, state.sr_x as int,
                state.sr_y as int, state.sr_i as int, state.sr_j as int, 0);
            let ghost base = primitives@;
            let mut sy: u32 = 0;
            while sy < state.sr_y
                invariant
                    0 <= sy <= state.sr_y,
                    base + target_grid =~= primitives@ + region_contour_grid(
                        tris@, state.sr_x as int, state.sr_y as int,
                        state.sr_i as int, state.sr_j as int, sy as int),
                decreases state.sr_y - sy,
            {
                proof {
                    assert((i128::MIN as int) < (sy as int) * (state.sr_j as int)
                        && (sy as int) * (state.sr_j as int) < (i128::MAX as int))
                        by (nonlinear_arith)
                        requires
                            0 <= sy as int <= u32::MAX as int,
                            i64::MIN as int <= state.sr_j as int <= i64::MAX as int;
                }
                let dy: i64 = sat_i64_exec((sy as i128) * (state.sr_j as i128));
                let mut sx: u32 = 0;
                while sx < state.sr_x
                    invariant
                        0 <= sx <= state.sr_x,
                        dy as int == sat_i64(sy as int * state.sr_j as int),
                        base + target_grid =~= primitives@ + region_contour_row(
                            tris@, state.sr_x as int, state.sr_i as int, dy as int,
                            sx as int) + region_contour_grid(
                            tris@, state.sr_x as int, state.sr_y as int,
                            state.sr_i as int, state.sr_j as int, sy as int + 1),
                    decreases state.sr_x - sx,
                {
                    proof {
                        assert((i128::MIN as int) < (sx as int) * (state.sr_i as int)
                            && (sx as int) * (state.sr_i as int) < (i128::MAX as int))
                            by (nonlinear_arith)
                            requires
                                0 <= sx as int <= u32::MAX as int,
                                i64::MIN as int <= state.sr_i as int <= i64::MAX as int;
                    }
                    let dx: i64 = sat_i64_exec((sx as i128) * (state.sr_i as i128));
                    let ghost before = primitives@;
                    let mut t: usize = 0;
                    while t < tris.len()
                        invariant
                            0 <= t <= tris@.len(),
                            primitives@ =~= before + tris@.take(t as int).map_values(
                                |p: Primitive| spec_offset_prim(p, dx as int, dy as int)),
                        decreases tris@.len() - t,
                    {
                        primitives.push(offset_primitive_by(&tris[t], dx, dy));
                        t = t + 1;
                        proof {
                            assert(tris@.take(t as int).map_values(
                                |p: Primitive| spec_offset_prim(p, dx as int, dy as int))
                                =~= tris@.take(t as int - 1).map_values(
                                |p: Primitive| spec_offset_prim(p, dx as int,
                                    dy as int)).push(spec_offset_prim(
                                tris@[t as int - 1], dx as int, dy as int)));
                        }
                    }
                    proof {
                        assert(tris@.take(tris@.len() as int) =~= tris@);
                        assert(primitives@ =~= before + tris@.map_values(
                            |p: Primitive| spec_offset_prim(p, dx as int, dy as int)));
                        lemma_concat_assoc_region();
                    }
                    sx = sx + 1;
                }
                sy = sy + 1;
            }
            proof {
                assert(primitives@ + Seq::<Primitive>::empty() =~= primitives@);
                assert(primitives@ =~= base + target_grid);
            }
        },
        Err(_) => {
            proof {
                assert(false);
            }
        },
    }
}

proof fn lemma_concat_assoc_region()
    ensures
        forall|a: Seq<Primitive>, b: Seq<Primitive>, c: Seq<Primitive>|
            #[trigger] ((a + b) + c) =~= a + (b + c),
{
}


/// `|v|`, saturating.
pub open spec fn spec_sat_abs(v: int) -> int {
    if v < 0 {
        sat_i64(-v)
    } else {
        v
    }
}

fn sat_abs(v: i64) -> (r: i64)
    ensures
        r as int == spec_sat_abs(v as int),
{
    if v < 0 {
        crate::fixed::sat_neg(v)
    } else {
        v
    }
}

/// One axis value of a graphic command: converted, scaled by the modal and
/// layer scales, mirrored, and made absolute or incremental.
pub open spec fn axis_value(
    t: Option<Seq<u8>>,
    axis: u8,
    s: ParserState,
    mirrored: bool,
    base: int,
) -> int {
    match t {
        Some(txt) => {
            let v = spec_fix_mul(spec_fix_mul(spec_convert_coordinate(txt, axis,
                s.format_spec, s.unit_multiplier as int), s.scale as int),
                s.layer_scale as int);
            let v2 = if mirrored {
                sat_i64(-v)
            } else {
                v
            };
            if s.coordinate_mode == CoordinateMode::Absolute {
                v2
            } else {
                spec_sat_add(base, v2)
            }
        },
        None => base,
    }
}

/// One arc offset of a graphic command: converted and scaled like an axis,
/// mirrored, and made non-negative in single-quadrant mode.
pub open spec fn offset_value(
    t: Option<Seq<u8>>,
    axis: u8,
    s: ParserState,
    mirrored: bool,
) -> int {
    match t {
        Some(txt) => {
            let v = spec_fix_mul(spec_fix_mul(spec_convert_coordinate(txt, axis,
                s.format_spec, s.unit_multiplier as int), s.scale as int),
                s.layer_scale as int);
            let v2 = if mirrored {
                sat_i64(-v)
            } else {
                v
            };
            if s.quadrant_mode == QuadrantMode::Single {
                spec_sat_abs(v2)
            } else {
                v2
            }
        },
        None => 0,
    }
}

/// The modal state, region contours and emitted primitives after one
/// graphic command line.
pub open spec fn spec_graphic(
    line: Seq<u8>,
    s0: ParserState,
    aps: Seq<(u32, (int, Seq<Primitive>, bool))>,
    contours0: Seq<Seq<Point>>,
) -> (ParserState, Seq<Seq<Point>>, Seq<Primitive>) {
    let clean = spec_trim_end(line, 42);
    // G-code handling, including region bracketing.
    let g = g_of(clean);
    let s1 = match g {
        Some(gv) => apply_g_modal(gv, s0),
        None => s0,
    };
    let contours1 = if g == Some(36int) {
        seq![Seq::<Point>::empty()]
    } else if g == Some(37int) {
        Seq::<Seq<Point>>::empty()
    } else {
        contours0
    };
    let emitted_g: Seq<Primitive> = if g == Some(37int) {
        region_emit(contours0, s1)
    } else {
        Seq::<Primitive>::empty()
    };
    // Coordinates.
    let xt = spec_extract_value(clean, 88);
    let yt = spec_extract_value(clean, 89);
    let x = axis_value(xt, 120, s1, s1.mirror_x, s1.x as int);
    let y = axis_value(yt, 121, s1, s1.mirror_y, s1.y as int);
    let i = offset_value(spec_extract_value(clean, 73), 120, s1, s1.mirror_x);
    let j = offset_value(spec_extract_value(clean, 74), 121, s1, s1.mirror_y);
    // D-code handling.
    let act = spec_dcode_action(clean, s1, aps, contours1, xt, yt, x, y, i, j);
    (ParserState { x: x as i64, y: y as i64, i: i as i64, j: j as i64, ..act.0 }, act.1,
        emitted_g + act.2)
}

/// The D-code action of a line, given the post-G state `s1` and the
/// computed coordinates.
pub open spec fn spec_dcode_action(
    clean: Seq<u8>,
    s1: ParserState,
    aps: Seq<(u32, (int, Seq<Primitive>, bool))>,
    contours1: Seq<Seq<Point>>,
    xt: Option<Seq<u8>>,
    yt: Option<Seq<u8>>,
    x: int,
    y: int,
    i: int,
    j: int,
) -> (ParserState, Seq<Seq<Point>>, Seq<Primitive>) {
    match spec_extract_value(clean, 68) {
        Some(dtxt) => match spec_parse_int(dtxt) {
            Some(pv) => if 0 <= pv <= u32::MAX as int {
                spec_dcode_arm(pv, s1, aps, contours1, x, y, i, j)
            } else {
                (s1, contours1, Seq::<Primitive>::empty())
            },
            None => (s1, contours1, Seq::<Primitive>::empty()),
        },
        None => {
            if (xt is Some || yt is Some) && s1.pen_state == PenState::Down {
                if s1.region_mode {
                    (s1, region_vertex(contours1, x, y), Seq::<Primitive>::empty())
                } else {
                    (s1, contours1, spec_interpolation(ap_view_lookup(
                        aps, s1.current_aperture), s1, x, y, i, j))
                }
            } else {
                (s1, contours1, Seq::<Primitive>::empty())
            }
        },
    }
}

/// The action of one in-range D-code.
pub open spec fn spec_dcode_arm(
    dv: int,
    s1: ParserState,
    aps: Seq<(u32, (int, Seq<Primitive>, bool))>,
    contours1: Seq<Seq<Point>>,
    x: int,
    y: int,
    i: int,
    j: int,
) -> (ParserState, Seq<Seq<Point>>, Seq<Primitive>) {
    {
        if dv == 1 {
            let s2 = ParserState { pen_state: PenState::Down, ..s1 };
            if s1.region_mode {
                (s2, region_vertex(contours1, x, y), Seq::<Primitive>::empty())
            } else {
                (s2, contours1, spec_interpolation(ap_view_lookup(aps, s1.current_aperture),
                    s1, x, y, i, j))
            }
        } else if dv == 2 {
            let s2 = ParserState { pen_state: PenState::Up, ..s1 };
            if s1.region_mode && contours1.len() > 0 && contours1.last().len() > 0 {
                (s2, contours1.push(Seq::<Point>::empty()), Seq::<Primitive>::empty())
            } else {
                (s2, contours1, Seq::<Primitive>::empty())
            }
        } else if dv == 3 {
            if !s1.region_mode {
                (s1, contours1, spec_flash(ap_view_lookup(aps, s1.current_aperture), s1, x,
                    y))
            } else {
                (s1, contours1, Seq::<Primitive>::empty())
            }
        } else {
            if 10 <= dv <= 9999 {
                (ParserState { current_aperture: dv as u32, ..s1 }, contours1,
                    Seq::<Primitive>::empty())
            } else {
                (s1, contours1, Seq::<Primitive>::empty())
            }
        }
    }
}


/// A pen-down vertex appended to the last open contour, if one exists.
pub open spec fn region_vertex(contours: Seq<Seq<Point>>, x: int, y: int)
    -> Seq<Seq<Point>>
{
    if contours.len() > 0 {
        contours.update(contours.len() - 1, contours.last().push(
            Point { x: x as i64, y: y as i64 }))
    } else {
        contours
    }
}

/// Apply the G-code of a line: modal updates and region bracketing.
fn apply_gcode(
    clean: &[u8],
    state: &mut ParserState,
    primitives: &mut Vec<Primitive>,
    region_contours: &mut Vec<Vec<Point>>,
)
    ensures
        ({
            let g = g_of(clean@);
            *final(state) == (match g {
                Some(gv) => apply_g_modal(gv, *old(state)),
                None => *old(state),
            }) && contours_view(final(region_contours)) == (if g == Some(36int) {
                seq![Seq::<Point>::empty()]
            } else if g == Some(37int) {
                Seq::<Seq<Point>>::empty()
            } else {
                contours_view(old(region_contours))
            }) && final(primitives)@ == old(primitives)@ + (if g == Some(37int) {
                region_emit(contours_view(old(region_contours)), *final(state))
            } else {
                Seq::<Primitive>::empty()
            })
        }),
{
    let mut emitted: bool = false;
    match extract_value(clean, 71) {
        Some(txt) => {
            match parse_int(txt.as_slice()) {
                Some(v) => {
                    if v >= 0 && v <= u32::MAX as i64 {
                        let g: u32 = v as u32;
                        if g == 1 {
                            state.interpolation_mode = Interpolation::Linear;
                            state.scale = FIX_ONE;
                        } else if g == 2 {
                            state.interpolation_mode = Interpolation::Clockwise;
                        } else if g == 3 {
                            state.interpolation_mode = Interpolation::CounterClockwise;
                        } else if g == 10 {
                            state.interpolation_mode = Interpolation::LinearX10;
                            state.scale = 10_000_000;
                        } else if g == 11 {
                            state.interpolation_mode = Interpolation::LinearX01;
                            state.scale = 100_000;
                        } else if g == 12 {
                            state.interpolation_mode = Interpolation::LinearX001;
                            state.scale = 10_000;
                        } else if g == 36 {
                            state.region_mode = true;
                            region_contours.clear();
                            region_contours.push(Vec::new());
                            proof {
                                assert(contours_view(region_contours) =~~= seq![
                                    Seq::<Point>::empty()]);
                            }
                        } else if g == 37 {
                            state.region_mode = false;
                            emit_region(region_contours, state, primitives);
                            region_contours.clear();
                            emitted = true;
                            proof {
                                assert(contours_view(region_contours)
                                    =~~= Seq::<Seq<Point>>::empty());
                            }
                        } else if g == 70 {
                            state.unit_multiplier = 25_400_000;
                        } else if g == 71 {
                            state.unit_multiplier = FIX_ONE;
                        } else if g == 74 {
                            state.quadrant_mode = QuadrantMode::Single;
                        } else if g == 75 {
                            state.quadrant_mode = QuadrantMode::Multi;
                        } else if g == 90 {
                            state.coordinate_mode = CoordinateMode::Absolute;
                        } else if g == 91 {
                            state.coordinate_mode = CoordinateMode::Incremental;
                        }
                    }
                },
                None => {
                },
            }
        },
        None => {
        },
    }
    proof {
        if !emitted {
            assert(old(primitives)@ + Seq::<Primitive>::empty() =~= old(primitives)@);
        }
    }
}

/// Compute one axis value of a graphic command.
fn compute_axis(
    t: &Option<Vec<u8>>,
    axis: u8,
    state: &ParserState,
    mirrored: bool,
    base: i64,
) -> (r: i64)
    ensures
        r as int == axis_value(
            match t {
                Some(v) => Some(v@),
                None => None,
            },
            axis,
            *state,
            mirrored,
            base as int,
        ),
{
    match t {
        Some(txt) => {
            let v: i64 = fix_mul(fix_mul(convert_coordinate(txt.as_slice(), axis,
                &state.format_spec, state.unit_multiplier), state.scale), state.layer_scale);
            let v2: i64 = if mirrored {
                crate::fixed::sat_neg(v)
            } else {
                v
            };
            match state.coordinate_mode {
                CoordinateMode::Absolute => v2,
                CoordinateMode::Incremental => sat_add(base, v2),
            }
        },
        None => base,
    }
}

/// Compute one arc offset of a graphic command.
fn compute_offset(t: &Option<Vec<u8>>, axis: u8, state: &ParserState, mirrored: bool)
    -> (r: i64)
    ensures
        r as int == offset_value(
            match t {
                Some(v) => Some(v@),
                None => None,
            },
            axis,
            *state,
            mirrored,
        ),
{
    match t {
        Some(txt) => {
            let v: i64 = fix_mul(fix_mul(convert_coordinate(txt.as_slice(), axis,
                &state.format_spec, state.unit_multiplier), state.scale), state.layer_scale);
            let v2: i64 = if mirrored {
                crate::fixed::sat_neg(v)
            } else {
                v
            };
            match state.quadrant_mode {
                QuadrantMode::Single => sat_abs(v2),
                QuadrantMode::Multi => v2,
            }
        },
        None => 0,
    }
}

/// Parse one graphic command line (`G`, `D`, `X`, `Y`, `I`, `J` codes):
/// update the modal state, collect region geometry, and emit primitives.
#[verifier::rlimit(100)]
#[verifier::spinoff_prover]
pub fn parse_graphic_command(
    line: &[u8],
    state: &mut ParserState,
    apertures: &ApertureTable,
    primitives: &mut Vec<Primitive>,
    region_contours: &mut Vec<Vec<Point>>,
)
    ensures
        ({
            let r = spec_graphic(line@, *old(state), ap_table_view(apertures.entries@),
                contours_view(old(region_contours)));
            *final(state) == r.0 && contours_view(final(region_contours)) == r.1 && final(
                primitives)@ == old(primitives)@ + r.2
        }),
{
    let ghost r = spec_graphic(line@, *old(state), ap_table_view(apertures.entries@),
        contours_view(old(region_contours)));
    let clean: &[u8] = trim_end_byte(line, 42);
    apply_gcode(clean, state, primitives, region_contours);
    let xt: Option<Vec<u8>> = extract_value(clean, 88);
    let yt: Option<Vec<u8>> = extract_value(clean, 89);
    let it: Option<Vec<u8>> = extract_value(clean, 73);
    let jt: Option<Vec<u8>> = extract_value(clean, 74);
    let x: i64 = compute_axis(&xt, 120, state, state.mirror_x, state.x);
    let y: i64 = compute_axis(&yt, 121, state, state.mirror_y, state.y);
    let i: i64 = compute_offset(&it, 120, state, state.mirror_x);
    let j: i64 = compute_offset(&jt, 121, state, state.mirror_y);
    apply_dcode(clean, state, apertures, primitives, region_contours, &xt, &yt, x, y, i,
        j);
    state.x = x;
    state.y = y;
    state.i = i;
    state.j = j;
    proof {
        lemma_concat_assoc_region();
        assert(final(primitives)@ =~= old(primitives)@ + r.2);
    }
}


/// Apply the D-code of a line (or the implicit pen-down move).
fn apply_dcode(
    clean: &[u8],
    state: &mut ParserState,
    apertures: &ApertureTable,
    primitives: &mut Vec<Primitive>,
    region_contours: &mut Vec<Vec<Point>>,
    xt: &Option<Vec<u8>>,
    yt: &Option<Vec<u8>>,
    x: i64,
    y: i64,
    i: i64,
    j: i64,
)
    ensures
        ({
            let act = spec_dcode_action(
                clean@,
                *old(state),
                ap_table_view(apertures.entries@),
                contours_view(old(region_contours)),
                match xt {
                    Some(v) => Some(v@),
                    None => None,
                },
                match yt {
                    Some(v) => Some(v@),
                    None => None,
                },
                x as int,
                y as int,
                i as int,
                j as int,
            );
            *final(state) == act.0 && contours_view(final(region_contours)) == act.1
                && final(primitives)@ == old(primitives)@ + act.2
        }),
{
    let ghost act = spec_dcode_action(clean@, *old(state), ap_table_view(apertures.entries@),
        contours_view(old(region_contours)),
        match xt { Some(v) => Some(v@), None => None },
        match yt { Some(v) => Some(v@), None => None },
        x as int, y as int, i as int, j as int);
    let mut emitted: bool = false;
    match extract_value(clean, 68) {
        Some(txt) => {
            match parse_int(txt.as_slice()) {
                Some(v) => {
                    if v >= 0 && v <= u32::MAX as i64 {
                        let d: u32 = v as u32;
                        if d == 1 {
                            state.pen_state = PenState::Down;
                            if state.region_mode {
                                push_region_vertex(region_contours, x, y);
                            } else {
                                execute_interpolation(state, apertures, primitives, x, y, i,
                                    j);
                                emitted = true;
                            }
                        } else if d == 2 {
                            state.pen_state = PenState::Up;
                            if state.region_mode && region_contours.len() > 0 {
                                proof {
                                    lemma_contours_view_index(region_contours,
                                        region_contours@.len() - 1);
                                }
                                if region_contours[region_contours.len() - 1].len() > 0 {
                                    let ghost c0 = contours_view(region_contours);
                                    region_contours.push(Vec::new());
                                    proof {
                                        assert(contours_view(region_contours)
                                            =~~= c0.push(Seq::<Point>::empty()));
                                    }
                                }
                            }
                        } else if d == 3 {
                            if !state.region_mode {
                                flash_aperture(state, apertures, primitives, x, y);
                                emitted = true;
                            }
                        } else if d >= 10 && d <= 9999 {
                            state.current_aperture = d;
                        }
                    }
                },
                None => {
                },
            }
        },
        None => {
            let has_xy: bool = match (xt, yt) {
                (None, None) => false,
                _ => true,
            };
            let down: bool = match state.pen_state {
                PenState::Down => true,
                PenState::Up => false,
            };
            if has_xy && down {
                if state.region_mode {
                    push_region_vertex(region_contours, x, y);
                } else {
                    execute_interpolation(state, apertures, primitives, x, y, i, j);
                    emitted = true;
                }
            }
        },
    }
    proof {
        if !emitted {
            assert(old(primitives)@ + Seq::<Primitive>::empty() =~= old(primitives)@);
        }
    }
}

/// Append a vertex to the last open region contour.
fn push_region_vertex(region_contours: &mut Vec<Vec<Point>>, x: i64, y: i64)
    ensures
        contours_view(final(region_contours)) == region_vertex(contours_view(
            old(region_contours)), x as int, y as int),
{
    if region_contours.len() > 0 {
        let last: usize = region_contours.len() - 1;
        let mut c: Vec<Point> = Vec::new();
        core::mem::swap(&mut c, &mut region_contours[last]);
        c.push(Point { x, y });
        core::mem::swap(&mut c, &mut region_contours[last]);
        proof {
            lemma_contours_view_index(old(region_contours), last as int);
            assert forall|a: int| 0 <= a < region_contours@.len() implies
                #[trigger] contours_view(region_contours)[a] == region_vertex(
                    contours_view(old(region_contours)), x as int, y as int)[a] by {
                lemma_contours_view_index(region_contours, a);
            }
            assert(contours_view(region_contours) =~~= region_vertex(contours_view(
                old(region_contours)), x as int, y as int));
        }
    }
}


/// The interleaved sublayer order from index `k` on: the `k`-th positive
/// list (if any), then the `k`-th negative list (if any).
pub open spec fn interleave_from(
    pos: Seq<Seq<Primitive>>,
    neg: Seq<Seq<Primitive>>,
    k: int,
) -> Seq<Seq<Primitive>>
    decreases (if pos.len() >= neg.len() { pos.len() } else { neg.len() }) - k,
{
    let m: int = if pos.len() >= neg.len() {
        pos.len() as int
    } else {
        neg.len() as int
    };
    if k < 0 || k >= m {
        Seq::<Seq<Primitive>>::empty()
    } else {
        (if k < pos.len() {
            seq![pos[k]]
        } else {
            Seq::<Seq<Primitive>>::empty()
        }) + (if k < neg.len() {
            seq![neg[k]]
        } else {
            Seq::<Seq<Primitive>>::empty()
        }) + interleave_from(pos, neg, k + 1)
    }
}

/// The polarity-ordered sublayers: positive and negative lists interleaved.
pub open spec fn interleave_layers(pos: Seq<Seq<Primitive>>, neg: Seq<Seq<Primitive>>)
    -> Seq<Seq<Primitive>>
{
    interleave_from(pos, neg, 0)
}

/// The total primitive count of a sublayer list.
pub open spec fn sum_lens(s: Seq<Seq<Primitive>>) -> int
    decreases s.len(),
{
    if s.len() == 0 {
        0
    } else {
        sum_lens(s.drop_last()) + s.last().len()
    }
}

proof fn lemma_sum_lens_concat(a: Seq<Seq<Primitive>>, b: Seq<Seq<Primitive>>)
    ensures
        sum_lens(a + b) == sum_lens(a) + sum_lens(b),
    decreases b.len(),
{
    if b.len() == 0 {
        assert(a + b =~= a);
    } else {
        assert((a + b).drop_last() =~= a + b.drop_last());
        lemma_sum_lens_concat(a, b.drop_last());
    }
}

/// No primitive is gained or lost by the polarity split: the interleaved
/// output holds exactly as many primitives as the positive and negative
/// sublayer lists together.
pub proof fn lemma_interleave_count(pos: Seq<Seq<Primitive>>, neg: Seq<Seq<Primitive>>)
    ensures
        sum_lens(interleave_layers(pos, neg)) == sum_lens(pos) + sum_lens(neg),
{
    lemma_interleave_count_from(pos, neg, 0);
    lemma_sum_take_all(pos);
    lemma_sum_take_all(neg);
}

proof fn lemma_sum_take_all(s: Seq<Seq<Primitive>>)
    ensures
        sum_lens(s.skip(s.len() as int)) == 0,
        s.skip(0) =~= s,
{
    assert(s.skip(s.len() as int) =~= Seq::<Seq<Primitive>>::empty());
}

proof fn lemma_interleave_count_from(
    pos: Seq<Seq<Primitive>>,
    neg: Seq<Seq<Primitive>>,
    k: int,
)
    requires
        0 <= k,
    ensures
        sum_lens(interleave_from(pos, neg, k)) == sum_lens(pos.skip(
            if k <= pos.len() {
                k
            } else {
                pos.len() as int
            },
        )) + sum_lens(neg.skip(
            if k <= neg.len() {
                k
            } else {
                neg.len() as int
            },
        )),
    decreases (if pos.len() >= neg.len() { pos.len() } else { neg.len() }) - k,
{
    let m: int = if pos.len() >= neg.len() {
        pos.len() as int
    } else {
        neg.len() as int
    };
    if k >= m {
        assert(sum_lens(pos.skip(pos.len() as int)) == 0) by {
            assert(pos.skip(pos.len() as int) =~= Seq::<Seq<Primitive>>::empty());
        }
        assert(sum_lens(neg.skip(neg.len() as int)) == 0) by {
            assert(neg.skip(neg.len() as int) =~= Seq::<Seq<Primitive>>::empty());
        }
    } else {
        lemma_interleave_count_from(pos, neg, k + 1);
        let ph = if k < pos.len() {
            seq![pos[k]]
        } else {
            Seq::<Seq<Primitive>>::empty()
        };
        let nh = if k < neg.len() {
            seq![neg[k]]
        } else {
            Seq::<Seq<Primitive>>::empty()
        };
        lemma_sum_lens_concat(ph + nh, interleave_from(pos, neg, k + 1));
        lemma_sum_lens_concat(ph, nh);
        if k < pos.len() {
            assert(sum_lens(seq![pos[k]]) == pos[k].len()) by {
                assert(seq![pos[k]].drop_last() =~= Seq::<Seq<Primitive>>::empty());
                assert(sum_lens(Seq::<Seq<Primitive>>::empty()) == 0);
                assert(seq![pos[k]].last() == pos[k]);
            }
            assert(pos.skip(k) =~= seq![pos[k]] + pos.skip(k + 1));
            lemma_sum_lens_concat_any(seq![pos[k]], pos.skip(k + 1));
        }
        if k < neg.len() {
            assert(sum_lens(seq![neg[k]]) == neg[k].len()) by {
                assert(seq![neg[k]].drop_last() =~= Seq::<Seq<Primitive>>::empty());
                assert(sum_lens(Seq::<Seq<Primitive>>::empty()) == 0);
                assert(seq![neg[k]].last() == neg[k]);
            }
            assert(neg.skip(k) =~= seq![neg[k]] + neg.skip(k + 1));
            lemma_sum_lens_concat_any(seq![neg[k]], neg.skip(k + 1));
        }
    }
}

proof fn lemma_sum_lens_concat_any(a: Seq<Seq<Primitive>>, b: Seq<Seq<Primitive>>)
    ensures
        sum_lens(a + b) == sum_lens(a) + sum_lens(b),
{
    lemma_sum_lens_concat(a, b);
}

/// Sublayer index parity encodes polarity: with at most one more positive
/// than negative list (and never fewer), the interleaved output holds the
/// positive lists at even indices and the negative lists at odd ones.
pub proof fn lemma_interleave_parity(pos: Seq<Seq<Primitive>>, neg: Seq<Seq<Primitive>>)
    requires
        neg.len() <= pos.len() <= neg.len() + 1,
    ensures
        interleave_layers(pos, neg).len() == pos.len() + neg.len(),
        forall|idx: int| 0 <= idx < pos.len() + neg.len() ==> #[trigger] interleave_layers(
            pos, neg)[idx] == (if idx % 2 == 0 {
            pos[idx / 2]
        } else {
            neg[idx / 2]
        }),
{
    lemma_interleave_parity_from(pos, neg, 0);
}

proof fn lemma_interleave_parity_from(
    pos: Seq<Seq<Primitive>>,
    neg: Seq<Seq<Primitive>>,
    k: int,
)
    requires
        neg.len() <= pos.len() <= neg.len() + 1,
        0 <= k,
    ensures
        interleave_from(pos, neg, k).len() == (if k <= pos.len() {
            pos.len() - k
        } else {
            0
        }) + (if k <= neg.len() {
            neg.len() - k
        } else {
            0
        }),
        forall|a: int| 0 <= a < interleave_from(pos, neg, k).len()
            ==> #[trigger] interleave_from(pos, neg, k)[a] == (if a % 2 == 0 {
            pos[k + a / 2]
        } else {
            neg[k + a / 2]
        }),
    decreases pos.len() - k,
{
    let m: int = if pos.len() >= neg.len() {
        pos.len() as int
    } else {
        neg.len() as int
    };
    if k < m {
        lemma_interleave_parity_from(pos, neg, k + 1);
        let rest = interleave_from(pos, neg, k + 1);
        if k < neg.len() {
            assert(interleave_from(pos, neg, k) =~~= seq![pos[k], neg[k]] + rest);
            assert forall|a: int| 0 <= a < interleave_from(pos, neg, k).len() implies
                #[trigger] interleave_from(pos, neg, k)[a] == (if a % 2 == 0 {
                pos[k + a / 2]
            } else {
                neg[k + a / 2]
            }) by {
                if a >= 2 {
                    assert(interleave_from(pos, neg, k)[a] == rest[a - 2]);
                    assert((a - 2) % 2 == a % 2 && (a - 2) / 2 == a / 2 - 1);
                }
            }
        } else {
            assert(pos.len() == neg.len() + 1 && k == neg.len());
            assert(interleave_from(pos, neg, k) =~~= seq![pos[k]] + rest);
            assert(rest.len() == 0);
        }
    }
}

/// Interleave the positive and negative sublayer lists.
pub fn segment_layers(pos: &Vec<Vec<Primitive>>, neg: &Vec<Vec<Primitive>>)
    -> (r: Vec<Vec<Primitive>>)
    ensures
        layers_view(&r) == interleave_layers(layers_view(pos), layers_view(neg)),
{
    let ghost pv = layers_view(pos);
    let ghost nv = layers_view(neg);
    let mut out: Vec<Vec<Primitive>> = Vec::new();
    let mut k: usize = 0;
    let max: usize = if pos.len() >= neg.len() {
        pos.len()
    } else {
        neg.len()
    };
    while k < max
        invariant
            0 <= k <= max,
            max as int == (if pv.len() >= nv.len() { pv.len() as int } else {
                nv.len() as int }),
            pv == layers_view(pos),
            nv == layers_view(neg),
            interleave_layers(pv, nv) =~~= layers_view(&out) + interleave_from(pv, nv,
                k as int),
        decreases max - k,
    {
        let ghost o0 = layers_view(&out);
        if k < pos.len() {
            proof {
                lemma_layers_view_index(pos, k as int);
            }
            let mut c: Vec<Primitive> = Vec::new();
            crate::boolean::extend_primitives(&mut c, &pos[k]);
            proof {
                assert(c@ =~= pv[k as int]);
            }
            out.push(c);
        }
        if k < neg.len() {
            proof {
                lemma_layers_view_index(neg, k as int);
            }
            let mut c: Vec<Primitive> = Vec::new();
            crate::boolean::extend_primitives(&mut c, &neg[k]);
            proof {
                assert(c@ =~= nv[k as int]);
            }
            out.push(c);
        }
        k = k + 1;
        proof {
            assert forall|a: int| 0 <= a < layers_view(&out).len() implies
                #[trigger] layers_view(&out)[a] == (o0 + (if k as int - 1 < pv.len() {
                seq![pv[k as int - 1]]
            } else {
                Seq::<Seq<Primitive>>::empty()
            }) + (if k as int - 1 < nv.len() {
                seq![nv[k as int - 1]]
            } else {
                Seq::<Seq<Primitive>>::empty()
            }))[a] by {
                lemma_layers_view_index(&out, a);
            }
            assert(layers_view(&out) =~~= o0 + (if k as int - 1 < pv.len() {
                seq![pv[k as int - 1]]
            } else {
                Seq::<Seq<Primitive>>::empty()
            }) + (if k as int - 1 < nv.len() {
                seq![nv[k as int - 1]]
            } else {
                Seq::<Seq<Primitive>>::empty()
            }));
            lemma_concat_assoc_layers();
        }
    }
    proof {
        assert(layers_view(&out) + Seq::<Seq<Primitive>>::empty() =~~= layers_view(&out));
        assert(layers_view(&out) =~~= interleave_layers(pv, nv));
    }
    out
}

/// Pushing one sublayer extends the view by its contents.
proof fn lemma_layers_push(before: Vec<Vec<Primitive>>, after: Vec<Vec<Primitive>>)
    requires
        after@.len() == before@.len() + 1,
        after@.drop_last() == before@,
    ensures
        layers_view(&after) == layers_view(&before).push(after@.last()@),
{
    assert forall|a: int| 0 <= a < after@.len() implies
        #[trigger] layers_view(&after)[a] == layers_view(&before).push(
            after@.last()@)[a] by {
        if a < before@.len() {
            assert(after@[a] == after@.drop_last()[a]);
        }
    }
    assert(layers_view(&after) =~~= layers_view(&before).push(after@.last()@));
}

/// The view of a sublayer list.
pub open spec fn layers_view(v: &Vec<Vec<Primitive>>) -> Seq<Seq<Primitive>> {
    v@.map_values(|c: Vec<Primitive>| c@)
}

proof fn lemma_layers_view_index(v: &Vec<Vec<Primitive>>, i: int)
    requires
        0 <= i < v@.len(),
    ensures
        layers_view(v).len() == v@.len(),
        layers_view(v)[i] == v@[i]@,
{
}

proof fn lemma_concat_assoc_layers()
    ensures
        forall|a: Seq<Seq<Primitive>>, b: Seq<Seq<Primitive>>, c: Seq<Seq<Primitive>>|
            #[trigger] ((a + b) + c) =~~= a + (b + c),
{
}


/// The greatest distance from the origin any primitive of a block reaches,
/// used as the block aperture's bounding radius.
pub open spec fn block_radius(prims: Seq<Primitive>) -> int
    decreases prims.len(),
{
    if prims.len() == 0 {
        0
    } else {
        let rest = block_radius(prims.drop_last());
        let d = prim_reach(prims.last());
        if d >= rest {
            d
        } else {
            rest
        }
    }
}

/// How far from the origin one primitive reaches.
pub open spec fn prim_reach(p: Primitive) -> int {
    match p {
        Primitive::Circle { x, y, radius, .. } => spec_sat_add(crate::geom::spec_dist(
            x as int, y as int), radius as int),
        Primitive::Triangle { v1, v2, v3, .. } => {
            let d1 = crate::geom::spec_dist(v1.x as int, v1.y as int);
            let d2 = crate::geom::spec_dist(v2.x as int, v2.y as int);
            let d3 = crate::geom::spec_dist(v3.x as int, v3.y as int);
            if d1 >= d2 && d1 >= d3 {
                d1
            } else if d2 >= d3 {
                d2
            } else {
                d3
            }
        },
        Primitive::Arc { x, y, radius, .. } => spec_sat_add(crate::geom::spec_dist(
            x as int, y as int), radius as int),
        Primitive::Thermal { x, y, outer_diameter, .. } => spec_sat_add(
            crate::geom::spec_dist(x as int, y as int),
            crate::fixed::div_trunc(outer_diameter as int, 2),
        ),
    }
}

fn prim_reach_exec(p: &Primitive) -> (r: i64)
    ensures
        r as int == prim_reach(*p),
{
    match p {
        Primitive::Circle { x, y, radius, .. } => sat_add(crate::geom::dist(*x, *y), *radius),
        Primitive::Triangle { v1, v2, v3, .. } => {
            let d1: i64 = crate::geom::dist(v1.x, v1.y);
            let d2: i64 = crate::geom::dist(v2.x, v2.y);
            let d3: i64 = crate::geom::dist(v3.x, v3.y);
            if d1 >= d2 && d1 >= d3 {
                d1
            } else if d2 >= d3 {
                d2
            } else {
                d3
            }
        },
        Primitive::Arc { x, y, radius, .. } => sat_add(crate::geom::dist(*x, *y), *radius),
        Primitive::Thermal { x, y, outer_diameter, .. } => sat_add(crate::geom::dist(*x, *y),
            crate::fixed::div_trunc_wide(*outer_diameter as i128, 2) as i64),
    }
}

/// Replay the buffered commands of a block aperture on a scratch state
/// seeded from the current one (position reset to the origin) and an
/// aperture table seeded from the global one; the resulting primitives
/// form the new aperture, with the farthest reach as its radius.
/// Execute one buffered block command on the scratch state.
#[verifier::rlimit(60)]
fn block_step_exec(
    raw: &[u8],
    temp_state: &mut ParserState,
    local_apertures: &mut ApertureTable,
    temp_primitives: &mut Vec<Primitive>,
    temp_contours: &mut Vec<Vec<Point>>,
    dummy_pos: &mut Vec<Vec<Primitive>>,
    dummy_neg: &mut Vec<Vec<Primitive>>,
    macros: &MacroTable,
)
    ensures
        ({
            let stepped = spec_block_step(*old(temp_state),
                ap_table_view(old(local_apertures).entries@), old(temp_primitives)@,
                contours_view(old(temp_contours)),
                crate::macro_def::macro_table_view(macros.entries@), raw@);
            *final(temp_state) == stepped.0 && ap_table_view(final(
                local_apertures).entries@) == stepped.1 && final(temp_primitives)@
                == stepped.2 && contours_view(final(temp_contours)) == stepped.3
        }),
{
    let ghost mv = crate::macro_def::macro_table_view(macros.entries@);
    let cmd: &[u8] = trim(raw);
    if cmd.len() > 0 {
        if cmd[0] == 37 {
            let add_p: [u8; 4] = [37, 65, 68, 68];
            let lp_p: [u8; 3] = [37, 76, 80];
            proof {
                assert(add_p@ =~= seq![37u8, 65u8, 68u8, 68u8]);
                assert(lp_p@ =~= seq![37u8, 76u8, 80u8]);
            }
            if starts_with(cmd, add_p.as_slice()) {
                let ghost le0 = local_apertures.entries@;
                parse_aperture(cmd, local_apertures, macros, temp_state.unit_multiplier);
                proof {
                    match crate::aperture::spec_parse_aperture(cmd@, mv,
                        temp_state.unit_multiplier as int) {
                        Some(ap) => {
                            crate::aperture::lemma_ap_view_push(le0,
                                (local_apertures.entries@.last().0,
                                local_apertures.entries@.last().1));
                            assert(local_apertures.entries@ =~= le0.push(
                                local_apertures.entries@.last()));
                            assert(ap_table_view(local_apertures.entries@)
                                =~~= ap_table_view(le0).push((ap.0, (ap.1, ap.2,
                                any_negative(ap.2)))));
                        },
                        None => {
                        },
                    }
                }
            } else if starts_with(cmd, lp_p.as_slice()) {
                parse_lp(cmd, temp_state, temp_primitives, dummy_pos, dummy_neg);
            }
        } else if cmd[0] == 71 || cmd[0] == 68 || cmd[0] == 88 || cmd[0] == 89
            || cmd[0] == 73 || cmd[0] == 74 {
            parse_graphic_command(cmd, temp_state, local_apertures, temp_primitives,
                temp_contours);
        }
    }
}

/// Copy an aperture store (the scratch table of a block definition seeds
/// from the global one).
fn copy_aperture_table(src: &ApertureTable) -> (r: ApertureTable)
    ensures
        ap_table_view(r.entries@) == ap_table_view(src.entries@),
{
    let ghost aps0 = ap_table_view(src.entries@);
    let mut out: ApertureTable = ApertureTable { entries: Vec::new() };
    let mut ci: usize = 0;
    while ci < src.entries.len()
        invariant
            0 <= ci <= src.entries@.len(),
            aps0 == ap_table_view(src.entries@),
            out.entries@.len() == ci,
            forall|a: int| 0 <= a < ci ==> ap_table_view(out.entries@)[a] == aps0[a],
        decreases src.entries@.len() - ci,
    {
        let code: u32 = src.entries[ci].0;
        let a: &Aperture = &src.entries[ci].1;
        let mut prims: Vec<Primitive> = Vec::new();
        extend_primitives(&mut prims, &a.primitives);
        let ghost le0 = out.entries@;
        let copied: Aperture = Aperture {
            radius: a.radius,
            primitives: prims,
            has_negative: a.has_negative,
        };
        proof {
            assert(ap_view(copied) == ap_view(src.entries@[ci as int].1));
        }
        out.insert(code, copied);
        ci = ci + 1;
        proof {
            crate::aperture::lemma_ap_view_push(le0, (code, copied));
            assert forall|a: int| 0 <= a < ci as int implies
                #[trigger] ap_table_view(out.entries@)[a] == aps0[a] by {}
        }
    }
    proof {
        assert(ap_table_view(out.entries@) =~~= aps0);
    }
    out
}

/// The farthest reach over a primitive list.
fn compute_block_radius(prims: &Vec<Primitive>) -> (r: i64)
    ensures
        r as int == block_radius(prims@),
{
    let mut max_radius: i64 = 0;
    let mut t: usize = 0;
    proof {
        assert(prims@.take(0) =~= Seq::<Primitive>::empty());
    }
    while t < prims.len()
        invariant
            0 <= t <= prims@.len(),
            max_radius as int == block_radius(prims@.take(t as int)),
        decreases prims@.len() - t,
    {
        proof {
            assert(prims@.take(t as int + 1).drop_last() =~= prims@.take(t as int));
            assert(prims@.take(t as int + 1).last() == prims@[t as int]);
        }
        let d: i64 = prim_reach_exec(&prims[t]);
        if d >= max_radius {
            max_radius = d;
        }
        t = t + 1;
    }
    proof {
        assert(prims@.take(prims@.len() as int) =~= prims@);
    }
    max_radius
}

/// Replay the buffered commands of a block aperture on a scratch state
/// seeded from the current one (position reset to the origin) and an
/// aperture table seeded from the global one; the resulting primitives
/// form the new aperture, with the farthest reach as its radius.
#[verifier::rlimit(100)]
#[verifier::spinoff_prover]
pub fn create_block_aperture(
    block_commands: &Vec<Vec<u8>>,
    state: &ParserState,
    apertures: &ApertureTable,
    macros: &MacroTable,
) -> (r: Aperture)
    ensures
        ap_view(r) == spec_block_aperture(
            crate::macro_def::stmts_view(*block_commands),
            *state,
            ap_table_view(apertures.entries@),
            crate::macro_def::macro_table_view(macros.entries@),
        ),
        r.has_negative == any_negative(r.primitives@),
        r.radius as int == block_radius(r.primitives@),
{
    let ghost cmds = crate::macro_def::stmts_view(*block_commands);
    let ghost aps0 = ap_table_view(apertures.entries@);
    let ghost mv = crate::macro_def::macro_table_view(macros.entries@);
    let mut temp_state: ParserState = ParserState {
        x: 0,
        y: 0,
        i: state.i,
        j: state.j,
        current_aperture: state.current_aperture,
        interpolation_mode: state.interpolation_mode,
        quadrant_mode: state.quadrant_mode,
        region_mode: state.region_mode,
        coordinate_mode: state.coordinate_mode,
        scale: state.scale,
        unit_multiplier: state.unit_multiplier,
        pen_state: state.pen_state,
        polarity: state.polarity,
        format_spec: state.format_spec,
        sr_x: state.sr_x,
        sr_y: state.sr_y,
        sr_i: state.sr_i,
        sr_j: state.sr_j,
        layer_scale: state.layer_scale,
        mirror_x: state.mirror_x,
        mirror_y: state.mirror_y,
        layer_rotation_mdeg: state.layer_rotation_mdeg,
        in_aperture_block: false,
        block_aperture_code: 0,
    };
    let mut local_apertures: ApertureTable = copy_aperture_table(apertures);
    let ghost st0 = temp_state;
    proof {
        assert(st0 == ParserState {
            x: 0,
            y: 0,
            in_aperture_block: false,
            block_aperture_code: 0,
            ..*state
        });
    }
    let ghost blk = spec_block_run(cmds, 0, st0, aps0, Seq::<Primitive>::empty(),
        Seq::<Seq<Point>>::empty(), mv);
    let mut temp_primitives: Vec<Primitive> = Vec::new();
    let mut temp_contours: Vec<Vec<Point>> = Vec::new();
    let mut dummy_pos: Vec<Vec<Primitive>> = Vec::new();
    let mut dummy_neg: Vec<Vec<Primitive>> = Vec::new();
    proof {
        assert(temp_primitives@ =~= Seq::<Primitive>::empty());
        assert(contours_view(&temp_contours) =~~= Seq::<Seq<Point>>::empty());
    }
    let mut k: usize = 0;
    while k < block_commands.len()
        invariant
            0 <= k <= cmds.len(),
            cmds == crate::macro_def::stmts_view(*block_commands),
            mv == crate::macro_def::macro_table_view(macros.entries@),
            blk == spec_block_run(cmds, 0, st0, aps0, Seq::<Primitive>::empty(),
                Seq::<Seq<Point>>::empty(), mv),
            blk == spec_block_run(cmds, k as int, temp_state,
                ap_table_view(local_apertures.entries@), temp_primitives@,
                contours_view(&temp_contours), mv),
        decreases cmds.len() - k,
    {
        let ghost pre = (temp_state, ap_table_view(local_apertures.entries@),
            temp_primitives@, contours_view(&temp_contours));
        proof {
            assert(cmds[k as int] == block_commands@[k as int]@);
        }
        block_step_exec(block_commands[k].as_slice(), &mut temp_state,
            &mut local_apertures, &mut temp_primitives, &mut temp_contours,
            &mut dummy_pos, &mut dummy_neg, macros);
        k = k + 1;
        proof {
            assert(spec_block_run(cmds, k as int - 1, pre.0, pre.1, pre.2, pre.3, mv)
                == spec_block_run(cmds, k as int, temp_state,
                ap_table_view(local_apertures.entries@), temp_primitives@,
                contours_view(&temp_contours), mv));
        }
    }
    proof {
        assert(blk.2 =~= temp_primitives@);
    }
    let max_radius: i64 = compute_block_radius(&temp_primitives);
    let has_negative: bool = compute_has_negative(&temp_primitives);
    Aperture { radius: max_radius, primitives: temp_primitives, has_negative }
}

/// A stateful Gerber parser: aperture and macro stores, the modal state,
/// and the polarity-split output under construction.
pub struct GerberParser {
    pub apertures: ApertureTable,
    pub macros: MacroTable,
    pub current_state: ParserState,
    pub positive_layers: Vec<Vec<Primitive>>,
    pub negative_layers: Vec<Vec<Primitive>>,
    pub current_primitives: Vec<Primitive>,
    pub region_contours: Vec<Vec<Point>>,
    pub block_commands: Vec<Vec<u8>>,
}

impl GerberParser {
    /// A fresh parser.
    pub fn new() -> (r: GerberParser)
        ensures
            r.apertures.entries@.len() == 0,
            r.macros.entries@.len() == 0,
            state_is_default(r.current_state),
            r.positive_layers@.len() == 0,
            r.negative_layers@.len() == 0,
            r.current_primitives@.len() == 0,
            r.region_contours@.len() == 0,
            r.block_commands@.len() == 0,
    {
        GerberParser {
            apertures: ApertureTable::new(),
            macros: MacroTable::new(),
            current_state: ParserState::new_default(),
            positive_layers: Vec::new(),
            negative_layers: Vec::new(),
            current_primitives: Vec::new(),
            region_contours: Vec::new(),
            block_commands: Vec::new(),
        }
    }

    /// Handle a `%AB` bracketing command.
    #[verifier::rlimit(100)]
    #[verifier::spinoff_prover]
    fn handle_ab_command(&mut self, line: &[u8])
        requires
            crate::text::spec_starts_with(line@, seq![37u8, 65u8, 66u8]),
        ensures
            parser_model(*final(self)) == spec_extended(parser_model(*old(self)), line@),
    {
        let ghost m0 = parser_model(*old(self));
        let content: &[u8] = trim_end_byte(trim_end_byte(crate::text::trim_start_byte(
            line, 37), 37), 42);
        let ab: [u8; 2] = [65, 66];
        let abd: [u8; 3] = [65, 66, 68];
        proof {
            assert(ab@ =~= seq![65u8, 66u8]);
            assert(abd@ =~= seq![65u8, 66u8, 68u8]);
            assert(content@ == spec_ab_content(line@));
        }
        if crate::text::bytes_eq(content, ab.as_slice()) {
            if self.current_state.in_aperture_block {
                let block: Aperture = create_block_aperture(
                    &self.block_commands, &self.current_state,
                    &self.apertures, &self.macros);
                let ghost ae0 = self.apertures.entries@;
                let code: u32 = self.current_state.block_aperture_code;
                self.apertures.insert(code, block);
                self.current_state.in_aperture_block = false;
                self.block_commands = Vec::new();
                proof {
                    crate::aperture::lemma_ap_view_push(ae0, (code, block));
                    assert(crate::macro_def::stmts_view(self.block_commands)
                        =~~= Seq::<Seq<u8>>::empty());
                    assert(parser_model(*self) =~~= spec_extended(m0, line@));
                }
            } else {
                proof {
                    assert(parser_model(*self) =~~= spec_extended(m0, line@));
                }
            }
        } else if starts_with(content, abd.as_slice()) {
            let cl: usize = content.len();
            let dcode: &[u8] = vstd::slice::slice_subrange(content, 3, cl);
            proof {
                assert(dcode@ =~= content@.skip(3));
            }
            let code: u32 = match parse_int(dcode) {
                Some(v) => if v >= 0 && v <= u32::MAX as i64 {
                    v as u32
                } else {
                    0
                },
                None => 0,
            };
            self.current_state.in_aperture_block = true;
            self.current_state.block_aperture_code = code;
            self.block_commands = Vec::new();
            proof {
                assert(crate::macro_def::stmts_view(self.block_commands)
                    =~~= Seq::<Seq<u8>>::empty());
                assert(parser_model(*self) =~~= spec_extended(m0, line@));
            }
        } else {
            proof {
                assert(parser_model(*self) =~~= spec_extended(m0, line@));
            }
        }
    }

    /// Dispatch one assembled `%...%` command.
    #[verifier::rlimit(100)]
    #[verifier::spinoff_prover]
    fn parse_command(&mut self, line: &[u8])
        requires
            line@.len() > 0,
            line@[0] == 37,
        ensures
            parser_model(*final(self)) == spec_extended(parser_model(*old(self)), line@),
    {
        let ghost m0 = parser_model(*old(self));
        let am_p: [u8; 3] = [37, 65, 77];
        let add_p: [u8; 4] = [37, 65, 68, 68];
        let mo_p: [u8; 3] = [37, 77, 79];
        let fs_p: [u8; 3] = [37, 70, 83];
        let lp_p: [u8; 3] = [37, 76, 80];
        let sr_p: [u8; 3] = [37, 83, 82];
        let if_p: [u8; 3] = [37, 73, 70];
        let ab_p: [u8; 3] = [37, 65, 66];
        let lm_p: [u8; 3] = [37, 76, 77];
        let lr_p: [u8; 3] = [37, 76, 82];
        let ls_p: [u8; 3] = [37, 76, 83];
        proof {
            assert(am_p@ =~= seq![37u8, 65u8, 77u8]);
            assert(add_p@ =~= seq![37u8, 65u8, 68u8, 68u8]);
            assert(mo_p@ =~= seq![37u8, 77u8, 79u8]);
            assert(fs_p@ =~= seq![37u8, 70u8, 83u8]);
            assert(lp_p@ =~= seq![37u8, 76u8, 80u8]);
            assert(sr_p@ =~= seq![37u8, 83u8, 82u8]);
            assert(if_p@ =~= seq![37u8, 73u8, 70u8]);
            assert(ab_p@ =~= seq![37u8, 65u8, 66u8]);
            assert(lm_p@ =~= seq![37u8, 76u8, 77u8]);
            assert(lr_p@ =~= seq![37u8, 76u8, 82u8]);
            assert(ls_p@ =~= seq![37u8, 76u8, 83u8]);
        }
        if starts_with(line, ab_p.as_slice()) {
            self.handle_ab_command(line);
        } else if self.current_state.in_aperture_block {
            // Buffer every other command until the block closes.
            let mut saved: Vec<u8> = Vec::new();
            append_bytes(&mut saved, line);
            let ghost b0 = crate::macro_def::stmts_view(self.block_commands);
            self.block_commands.push(saved);
            proof {
                assert(crate::macro_def::stmts_view(self.block_commands)
                    =~~= b0.push(line@));
                assert(parser_model(*self) =~~= spec_extended(m0, line@));
            }
        } else if starts_with(line, am_p.as_slice()) {
            let ghost me0 = self.macros.entries@;
            parse_macro(line, &mut self.macros);
            proof {
                crate::macro_def::lemma_macro_view_push(me0, self.macros.entries@.last());
                assert(self.macros.entries@ =~= me0.push(self.macros.entries@.last()));
                assert(parser_model(*self) =~~= spec_extended(m0, line@));
            }
        } else if starts_with(line, add_p.as_slice()) {
            let ghost ae0 = self.apertures.entries@;
            parse_aperture(line, &mut self.apertures, &self.macros,
                self.current_state.unit_multiplier);
            proof {
                match crate::aperture::spec_parse_aperture(line@,
                    crate::macro_def::macro_table_view(self.macros.entries@),
                    self.current_state.unit_multiplier as int) {
                    Some(ap) => {
                        crate::aperture::lemma_ap_view_push(ae0,
                            self.apertures.entries@.last());
                        assert(self.apertures.entries@ =~= ae0.push(
                            self.apertures.entries@.last()));
                    },
                    None => {
                    },
                }
                assert(parser_model(*self) =~~= spec_extended(m0, line@));
            }
        } else if starts_with(line, mo_p.as_slice()) {
            parse_mo(line, &mut self.current_state);
            proof {
                assert(parser_model(*self) =~~= spec_extended(m0, line@));
            }
        } else if starts_with(line, fs_p.as_slice()) {
            parse_format_spec(line, &mut self.current_state);
            proof {
                assert(parser_model(*self) =~~= spec_extended(m0, line@));
            }
        } else if starts_with(line, lp_p.as_slice()) {
            parse_lp(line, &mut self.current_state, &mut self.current_primitives,
                &mut self.positive_layers, &mut self.negative_layers);
            proof {
                match crate::state::spec_lp_polarity(line@) {
                    Some(pol) => {
                        if pol != m0.state.polarity && m0.current.len() > 0 {
                            if m0.state.polarity == Polarity::Positive {
                                assert(self.positive_layers@.drop_last()
                                    =~= old(self).positive_layers@);
                                lemma_layers_push(old(self).positive_layers,
                                    self.positive_layers);
                                assert(layers_view(&self.positive_layers)
                                    =~~= m0.pos.push(m0.current));
                            } else {
                                assert(self.negative_layers@.drop_last()
                                    =~= old(self).negative_layers@);
                                lemma_layers_push(old(self).negative_layers,
                                    self.negative_layers);
                                assert(layers_view(&self.negative_layers)
                                    =~~= m0.neg.push(m0.current));
                            }
                        }
                    },
                    None => {
                    },
                }
                assert(parser_model(*self) =~~= spec_extended(m0, line@));
            }
        } else if starts_with(line, sr_p.as_slice()) {
            parse_sr(line, &mut self.current_state);
            proof {
                assert(parser_model(*self) =~~= spec_extended(m0, line@));
            }
        } else if starts_with(line, if_p.as_slice()) {
            parse_if(line, &mut self.current_state);
            proof {
                assert(parser_model(*self) =~~= spec_extended(m0, line@));
            }
        } else if starts_with(line, lm_p.as_slice()) {
            parse_lm(line, &mut self.current_state);
            proof {
                assert(parser_model(*self) =~~= spec_extended(m0, line@));
            }
        } else if starts_with(line, lr_p.as_slice()) {
            parse_lr(line, &mut self.current_state);
            proof {
                assert(parser_model(*self) =~~= spec_extended(m0, line@));
            }
        } else if starts_with(line, ls_p.as_slice()) {
            parse_ls(line, &mut self.current_state);
            proof {
                assert(parser_model(*self) =~~= spec_extended(m0, line@));
            }
        } else {
            proof {
                assert(parser_model(*self) =~~= spec_extended(m0, line@));
            }
        }
    }

    /// Run one assembled command.
    #[verifier::rlimit(100)]
    #[verifier::spinoff_prover]
    fn step_command(&mut self, cmd: &[u8])
        ensures
            parser_model(*final(self)) == spec_command_step(parser_model(*old(self)), cmd@),
    {
        let ghost m0 = parser_model(*old(self));
        if cmd.len() == 0 {
            proof {
                assert(parser_model(*self) =~~= spec_command_step(m0, cmd@));
            }
        } else if cmd[0] == 37 {
            self.parse_command(cmd);
        } else if self.current_state.in_aperture_block {
            let mut saved: Vec<u8> = Vec::new();
            append_bytes(&mut saved, cmd);
            let ghost b0 = crate::macro_def::stmts_view(self.block_commands);
            self.block_commands.push(saved);
            proof {
                assert(crate::macro_def::stmts_view(self.block_commands)
                    =~~= b0.push(cmd@));
                assert(parser_model(*self) =~~= spec_command_step(m0, cmd@));
            }
        } else {
            let g04: [u8; 3] = [71, 48, 52];
            proof {
                assert(g04@ =~= seq![71u8, 48u8, 52u8]);
            }
            if starts_with(cmd, g04.as_slice()) {
                // A comment.
                proof {
                    assert(parser_model(*self) =~~= spec_command_step(m0, cmd@));
                }
            } else if cmd[0] == 71 || cmd[0] == 68 || cmd[0] == 88 || cmd[0] == 89
                || cmd[0] == 73 || cmd[0] == 74 {
                parse_graphic_command(cmd, &mut self.current_state, &self.apertures,
                    &mut self.current_primitives, &mut self.region_contours);
                proof {
                    assert(parser_model(*self) =~~= spec_command_step(m0, cmd@));
                }
            } else {
                proof {
                    assert(parser_model(*self) =~~= spec_command_step(m0, cmd@));
                }
            }
        }
    }

    /// Parse a whole Gerber stream into polarity-ordered sublayers, each
    /// transposed into buffers.
    ///
    /// The final parser state is fixed by the input: it is the spec-level
    /// run of the assembled command stream over the starting state, with
    /// any pending primitives flushed to the list of the final polarity.
    /// The returned sublayers interleave the positive and negative lists of
    /// that run, and each satisfies the transposition contract (tight
    /// boundary included) against its primitive list.
    pub fn parse(&mut self, data: &str) -> (r: Vec<GerberData>)
        ensures
            ({
                let m = spec_final_flush(spec_run(parser_model(*old(self)), spec_assemble(
                    crate::text::spec_split(data.spec_bytes(), 10), 0), 0));
                &&& parser_model(*final(self)) == m
                &&& r@.len() == interleave_layers(m.pos, m.neg).len()
                &&& forall|k: int| 0 <= k < r@.len()
                    ==> crate::buffers::gerber_data_matches(#[trigger] r@[k],
                        interleave_layers(m.pos, m.neg)[k])
            }),
    {
        let ghost m0 = parser_model(*old(self));
        let bytes: &[u8] = data.as_bytes();
        let lines: Vec<Vec<u8>> = split_bytes(bytes, 10);
        proof {
            assert forall|a: int| 0 <= a < lines@.len() implies
                #[trigger] crate::macro_def::stmts_view(lines)[a]
                == crate::text::spec_split(data.spec_bytes(), 10)[a] by {
                assert(crate::macro_def::stmts_view(lines)[a] == lines@[a]@);
                assert(lines@.map_values(|v: Vec<u8>| v@)[a] == lines@[a]@);
            }
            assert(crate::macro_def::stmts_view(lines) =~~= crate::text::spec_split(
                data.spec_bytes(), 10));
        }
        let cmds: Vec<Vec<u8>> = assemble_commands(&lines);
        let ghost cv = crate::macro_def::stmts_view(cmds);
        let ghost target = spec_run(m0, cv, 0);
        let mut i: usize = 0;
        while i < cmds.len()
            invariant
                0 <= i <= cv.len(),
                cv == crate::macro_def::stmts_view(cmds),
                target == spec_run(m0, cv, 0),
                target == spec_run(parser_model(*self), cv, i as int),
            decreases cv.len() - i,
        {
            proof {
                assert(cv[i as int] == cmds@[i as int]@);
            }
            self.step_command(cmds[i].as_slice());
            i = i + 1;
        }
        proof {
            assert(parser_model(*self) == target);
        }
        // Flush the pending primitives into the sublayer of the final
        // polarity.
        if self.current_primitives.len() > 0 {
            let mut taken: Vec<Primitive> = Vec::new();
            core::mem::swap(&mut taken, &mut self.current_primitives);
            let keep_pos: bool = match self.current_state.polarity {
                Polarity::Positive => true,
                Polarity::Negative => false,
            };
            if keep_pos {
                let ghost p0 = self.positive_layers;
                self.positive_layers.push(taken);
                proof {
                    assert(self.positive_layers@.drop_last() =~= p0@);
                    lemma_layers_push(p0, self.positive_layers);
                }
            } else {
                let ghost n0 = self.negative_layers;
                self.negative_layers.push(taken);
                proof {
                    assert(self.negative_layers@.drop_last() =~= n0@);
                    lemma_layers_push(n0, self.negative_layers);
                }
            }
        }
        let ghost m = spec_final_flush(target);
        proof {
            assert(parser_model(*self) =~~= m);
        }
        let sublayers: Vec<Vec<Primitive>> = segment_layers(&self.positive_layers,
            &self.negative_layers);
        let ghost inter = interleave_layers(layers_view(&self.positive_layers),
            layers_view(&self.negative_layers));
        let mut out: Vec<GerberData> = Vec::new();
        let mut k: usize = 0;
        while k < sublayers.len()
            invariant
                0 <= k <= sublayers@.len(),
                layers_view(&sublayers) == inter,
                out@.len() == k,
                forall|a: int| 0 <= a < k ==> crate::buffers::gerber_data_matches(
                    #[trigger] out@[a], inter[a]),
            decreases sublayers@.len() - k,
        {
            proof {
                lemma_layers_view_index(&sublayers, k as int);
            }
            out.push(primitives_to_gerber_data(&sublayers[k]));
            k = k + 1;
        }
        proof {
            lemma_layers_view_index_len(&sublayers);
        }
        out
    }
}

/// The end-of-stream flush: pending primitives join the sublayer list of
/// the final polarity.
pub open spec fn spec_final_flush(m: ParseModel) -> ParseModel {
    if m.current.len() > 0 {
        ParseModel {
            pos: if m.state.polarity == Polarity::Positive {
                m.pos.push(m.current)
            } else {
                m.pos
            },
            neg: if m.state.polarity == Polarity::Negative {
                m.neg.push(m.current)
            } else {
                m.neg
            },
            current: Seq::<Primitive>::empty(),
            ..m
        }
    } else {
        m
    }
}

proof fn lemma_layers_view_index_len(v: &Vec<Vec<Primitive>>)
    ensures
        layers_view(v).len() == v@.len(),
{
}

/// The polarity split loses and duplicates nothing, end to end: after the
/// final flush, the interleaved sublayers of a parse model hold exactly
/// the primitives of its positive and negative lists plus the pending
/// ones. With the transposition's stream lengths, this carries the count
/// through to the returned buffers.
pub proof fn lemma_parse_count_preserved(m: ParseModel)
    ensures
        ({
            let f = spec_final_flush(m);
            sum_lens(interleave_layers(f.pos, f.neg)) == sum_lens(m.pos) + sum_lens(m.neg)
                + m.current.len()
        }),
{
    let f = spec_final_flush(m);
    lemma_interleave_count(f.pos, f.neg);
    if m.current.len() > 0 {
        if m.state.polarity == Polarity::Positive {
            assert(sum_lens(m.pos.push(m.current)) == sum_lens(m.pos) + m.current.len())
                by {
                assert(m.pos.push(m.current).drop_last() =~~= m.pos);
                assert(m.pos.push(m.current).last() == m.current);
            }
        } else {
            assert(sum_lens(m.neg.push(m.current)) == sum_lens(m.neg) + m.current.len())
                by {
                assert(m.neg.push(m.current).drop_last() =~~= m.neg);
                assert(m.neg.push(m.current).last() == m.current);
            }
        }
    }
}

/// The model of a fresh parser.
pub open spec fn fresh_model() -> ParseModel {
    ParseModel {
        state: crate::state::spec_default_state(),
        apertures: Seq::<(u32, (int, Seq<Primitive>, bool))>::empty(),
        macros: Seq::<(Seq<u8>, (Seq<Seq<u8>>, bool))>::empty(),
        pos: Seq::<Seq<Primitive>>::empty(),
        neg: Seq::<Seq<Primitive>>::empty(),
        current: Seq::<Primitive>::empty(),
        contours: Seq::<Seq<Point>>::empty(),
        block: Seq::<Seq<u8>>::empty(),
    }
}

/// Parse a Gerber stream with a fresh parser: the returned sublayers are
/// fixed by the input text alone.
pub fn parse_gerber(data: &str) -> (r: Vec<GerberData>)
    ensures
        ({
            let m = spec_final_flush(spec_run(fresh_model(), spec_assemble(
                crate::text::spec_split(data.spec_bytes(), 10), 0), 0));
            &&& r@.len() == interleave_layers(m.pos, m.neg).len()
            &&& forall|k: int| 0 <= k < r@.len()
                ==> crate::buffers::gerber_data_matches(#[trigger] r@[k],
                    interleave_layers(m.pos, m.neg)[k])
        }),
{
    let mut p: GerberParser = GerberParser::new();
    proof {
        assert(parser_model(p) =~~= fresh_model());
    }
    p.parse(data)
}


/// The ghost model of a parse in flight: the modal state, the views of the
/// aperture and macro stores, the finished sublayer lists, the pending
/// primitives, the open region contours, and the buffered block commands.
#[verifier::ext_equal]
pub struct ParseModel {
    pub state: ParserState,
    pub apertures: Seq<(u32, (int, Seq<Primitive>, bool))>,
    pub macros: Seq<(Seq<u8>, (Seq<Seq<u8>>, bool))>,
    pub pos: Seq<Seq<Primitive>>,
    pub neg: Seq<Seq<Primitive>>,
    pub current: Seq<Primitive>,
    pub contours: Seq<Seq<Point>>,
    pub block: Seq<Seq<u8>>,
}

/// The model a parser value denotes.
pub open spec fn parser_model(p: GerberParser) -> ParseModel {
    ParseModel {
        state: p.current_state,
        apertures: ap_table_view(p.apertures.entries@),
        macros: crate::macro_def::macro_table_view(p.macros.entries@),
        pos: layers_view(&p.positive_layers),
        neg: layers_view(&p.negative_layers),
        current: p.current_primitives@,
        contours: contours_view(&p.region_contours),
        block: crate::macro_def::stmts_view(p.block_commands),
    }
}

/// One step of an aperture-block replay: the scratch state, the local
/// aperture views, the collected primitives and the region contours.
pub open spec fn spec_block_step(
    st: ParserState,
    aps: Seq<(u32, (int, Seq<Primitive>, bool))>,
    prims: Seq<Primitive>,
    contours: Seq<Seq<Point>>,
    macros: Seq<(Seq<u8>, (Seq<Seq<u8>>, bool))>,
    cmd: Seq<u8>,
) -> (ParserState, Seq<(u32, (int, Seq<Primitive>, bool))>, Seq<Primitive>, Seq<Seq<
    Point>>) {
    let t = spec_trim(cmd);
    if t.len() == 0 {
        (st, aps, prims, contours)
    } else if t[0] == 37 {
        if spec_starts_with(t, seq![37u8, 65u8, 68u8, 68u8]) {
            match crate::aperture::spec_parse_aperture(t, macros, st.unit_multiplier as int) {
                Some(ap) => (st, aps.push((ap.0, (ap.1, ap.2, any_negative(ap.2)))), prims,
                    contours),
                None => (st, aps, prims, contours),
            }
        } else if spec_starts_with(t, seq![37u8, 76u8, 80u8]) {
            match crate::state::spec_lp_polarity(t) {
                Some(pol) => {
                    let flushed = if pol != st.polarity && prims.len() > 0 {
                        Seq::<Primitive>::empty()
                    } else {
                        prims
                    };
                    (ParserState { polarity: pol, ..st }, aps, flushed, contours)
                },
                None => (st, aps, prims, contours),
            }
        } else {
            (st, aps, prims, contours)
        }
    } else if t[0] == 71 || t[0] == 68 || t[0] == 88 || t[0] == 89 || t[0] == 73
        || t[0] == 74 {
        let g = spec_graphic(t, st, aps, contours);
        (g.0, aps, prims + g.2, g.1)
    } else {
        (st, aps, prims, contours)
    }
}

/// The replay of a block's buffered commands from command `i` on.
pub open spec fn spec_block_run(
    cmds: Seq<Seq<u8>>,
    i: int,
    st: ParserState,
    aps: Seq<(u32, (int, Seq<Primitive>, bool))>,
    prims: Seq<Primitive>,
    contours: Seq<Seq<Point>>,
    macros: Seq<(Seq<u8>, (Seq<Seq<u8>>, bool))>,
) -> (ParserState, Seq<(u32, (int, Seq<Primitive>, bool))>, Seq<Primitive>, Seq<Seq<
    Point>>)
    decreases cmds.len() - i,
{
    if i < 0 || i >= cmds.len() {
        (st, aps, prims, contours)
    } else {
        let n = spec_block_step(st, aps, prims, contours, macros, cmds[i]);
        spec_block_run(cmds, i + 1, n.0, n.1, n.2, n.3, macros)
    }
}

/// The aperture view a finished block definition produces: the replayed
/// primitives, the farthest reach as the radius, and the has-negative
/// flag, starting from the current state with the position reset to the
/// origin and the aperture store seeded from the global one.
pub open spec fn spec_block_aperture(
    cmds: Seq<Seq<u8>>,
    state: ParserState,
    aps: Seq<(u32, (int, Seq<Primitive>, bool))>,
    macros: Seq<(Seq<u8>, (Seq<Seq<u8>>, bool))>,
) -> (int, Seq<Primitive>, bool) {
    let st0 = ParserState {
        x: 0,
        y: 0,
        in_aperture_block: false,
        block_aperture_code: 0,
        ..state
    };
    let r = spec_block_run(cmds, 0, st0, aps, Seq::<Primitive>::empty(), Seq::<Seq<
        Point>>::empty(), macros);
    (block_radius(r.2), r.2, any_negative(r.2))
}

/// The body of a `%AB` line with `%` and trailing `*` stripped.
pub open spec fn spec_ab_content(line: Seq<u8>) -> Seq<u8> {
    spec_trim_end(spec_trim_end(spec_trim_start(line, 37), 37), 42)
}

/// The aperture code an `%ABDnn*%` opener reserves (zero when unparsable).
pub open spec fn spec_ab_code(content: Seq<u8>) -> u32 {
    match spec_parse_int(content.skip(3)) {
        Some(v) => if 0 <= v <= u32::MAX as int {
            v as u32
        } else {
            0
        },
        None => 0,
    }
}

/// The effect of one assembled `%...%` command on the model.
pub open spec fn spec_extended(m: ParseModel, line: Seq<u8>) -> ParseModel {
    if spec_starts_with(line, seq![37u8, 65u8, 66u8]) {
        let content = spec_ab_content(line);
        if content =~= seq![65u8, 66u8] {
            if m.state.in_aperture_block {
                let ap = spec_block_aperture(m.block, m.state, m.apertures, m.macros);
                ParseModel {
                    apertures: m.apertures.push((m.state.block_aperture_code, ap)),
                    state: ParserState { in_aperture_block: false, ..m.state },
                    block: Seq::<Seq<u8>>::empty(),
                    ..m
                }
            } else {
                m
            }
        } else if spec_starts_with(content, seq![65u8, 66u8, 68u8]) {
            ParseModel {
                state: ParserState {
                    in_aperture_block: true,
                    block_aperture_code: spec_ab_code(content),
                    ..m.state
                },
                block: Seq::<Seq<u8>>::empty(),
                ..m
            }
        } else {
            m
        }
    } else if m.state.in_aperture_block {
        ParseModel { block: m.block.push(line), ..m }
    } else if spec_starts_with(line, seq![37u8, 65u8, 77u8]) {
        let stmts = crate::macro_def::spec_macro_stmts(line);
        ParseModel {
            macros: m.macros.push(
                (crate::macro_def::spec_macro_name(line), (stmts,
                    crate::macro_def::spec_has_negative(stmts))),
            ),
            ..m
        }
    } else if spec_starts_with(line, seq![37u8, 65u8, 68u8, 68u8]) {
        match crate::aperture::spec_parse_aperture(line, m.macros,
            m.state.unit_multiplier as int) {
            Some(ap) => ParseModel {
                apertures: m.apertures.push((ap.0, (ap.1, ap.2, any_negative(ap.2)))),
                ..m
            },
            None => m,
        }
    } else if spec_starts_with(line, seq![37u8, 77u8, 79u8]) {
        match crate::state::spec_mo_mult(line) {
            Some(u) => ParseModel { state: ParserState { unit_multiplier: u, ..m.state },
                ..m },
            None => m,
        }
    } else if spec_starts_with(line, seq![37u8, 70u8, 83u8]) {
        match crate::state::spec_fs(line, m.state.format_spec) {
            Some(fm) => ParseModel {
                state: ParserState { format_spec: fm.0, coordinate_mode: fm.1, ..m.state },
                ..m
            },
            None => m,
        }
    } else if spec_starts_with(line, seq![37u8, 76u8, 80u8]) {
        match crate::state::spec_lp_polarity(line) {
            Some(pol) => {
                let flush = pol != m.state.polarity && m.current.len() > 0;
                ParseModel {
                    state: ParserState { polarity: pol, ..m.state },
                    pos: if flush && m.state.polarity == Polarity::Positive {
                        m.pos.push(m.current)
                    } else {
                        m.pos
                    },
                    neg: if flush && m.state.polarity == Polarity::Negative {
                        m.neg.push(m.current)
                    } else {
                        m.neg
                    },
                    current: if flush {
                        Seq::<Primitive>::empty()
                    } else {
                        m.current
                    },
                    ..m
                }
            },
            None => m,
        }
    } else if spec_starts_with(line, seq![37u8, 83u8, 82u8]) {
        match crate::state::spec_sr(line, m.state) {
            Some(v) => ParseModel {
                state: ParserState { sr_x: v.0, sr_y: v.1, sr_i: v.2, sr_j: v.3, ..m.state },
                ..m
            },
            None => m,
        }
    } else if spec_starts_with(line, seq![37u8, 73u8, 70u8]) {
        match crate::state::spec_if_polarity(line) {
            Some(pol) => ParseModel { state: ParserState { polarity: pol, ..m.state }, ..m },
            None => m,
        }
    } else if spec_starts_with(line, seq![37u8, 76u8, 77u8]) {
        match crate::state::spec_lm_mirror(line) {
            Some(mm) => ParseModel {
                state: ParserState { mirror_x: mm.0, mirror_y: mm.1, ..m.state },
                ..m
            },
            None => m,
        }
    } else if spec_starts_with(line, seq![37u8, 76u8, 82u8]) {
        match crate::state::spec_lr_rotation(line) {
            Some(v) => ParseModel {
                state: ParserState { layer_rotation_mdeg: v, ..m.state },
                ..m
            },
            None => m,
        }
    } else if spec_starts_with(line, seq![37u8, 76u8, 83u8]) {
        match crate::state::spec_ls_scale(line) {
            Some(v) => ParseModel { state: ParserState { layer_scale: v, ..m.state }, ..m },
            None => m,
        }
    } else {
        m
    }
}

/// The effect of one assembled command line on the model: extended
/// commands dispatch by prefix, buffered commands accumulate inside a
/// block, comments vanish, graphic commands run the executor.
pub open spec fn spec_command_step(m: ParseModel, cmd: Seq<u8>) -> ParseModel {
    if cmd.len() == 0 {
        m
    } else if cmd[0] == 37 {
        spec_extended(m, cmd)
    } else if m.state.in_aperture_block {
        ParseModel { block: m.block.push(cmd), ..m }
    } else if spec_starts_with(cmd, seq![71u8, 48u8, 52u8]) {
        m
    } else if cmd[0] == 71 || cmd[0] == 68 || cmd[0] == 88 || cmd[0] == 89 || cmd[0] == 73
        || cmd[0] == 74 {
        let g = spec_graphic(cmd, m.state, m.apertures, m.contours);
        ParseModel { state: g.0, contours: g.1, current: m.current + g.2, ..m }
    } else {
        m
    }
}

/// The model after running the commands from index `i` on.
pub open spec fn spec_run(m: ParseModel, cmds: Seq<Seq<u8>>, i: int) -> ParseModel
    decreases cmds.len() - i,
{
    if i < 0 || i >= cmds.len() {
        m
    } else {
        spec_run(spec_command_step(m, cmds[i]), cmds, i + 1)
    }
}

/// The index of the line that closes a multi-line `%` command: the first
/// line at or after `i` whose trimmed text ends in `%`, or the line count.
pub open spec fn gather_end(lines: Seq<Seq<u8>>, i: int) -> int
    decreases lines.len() - i,
{
    if i < 0 || i >= lines.len() {
        lines.len() as int
    } else {
        let t = spec_trim(lines[i]);
        if t.len() > 0 && t.last() == 37 {
            i
        } else {
            gather_end(lines, i + 1)
        }
    }
}

proof fn lemma_gather_end_bounds(lines: Seq<Seq<u8>>, i: int)
    requires
        0 <= i <= lines.len(),
    ensures
        i <= gather_end(lines, i) <= lines.len(),
    decreases lines.len() - i,
{
    if i < lines.len() {
        let t = spec_trim(lines[i]);
        if !(t.len() > 0 && t.last() == 37) {
            lemma_gather_end_bounds(lines, i + 1);
        }
    }
}

/// The trimmed lines `i..j` concatenated.
pub open spec fn concat_trims(lines: Seq<Seq<u8>>, i: int, j: int) -> Seq<u8>
    decreases j - i,
{
    if i < 0 || i >= j || i >= lines.len() {
        Seq::<u8>::empty()
    } else {
        spec_trim(lines[i]) + concat_trims(lines, i + 1, j)
    }
}

/// The logical command stream of the physical lines from `i` on: blanks
/// vanish, a `%` line that does not close on itself absorbs the following
/// lines up to the closing `%`, and every other line stands alone.
pub open spec fn spec_assemble(lines: Seq<Seq<u8>>, i: int) -> Seq<Seq<u8>>
    decreases lines.len() - i,
    via spec_assemble_dec
{
    if i < 0 || i >= lines.len() {
        Seq::<Seq<u8>>::empty()
    } else {
        let t = spec_trim(lines[i]);
        if t.len() == 0 {
            spec_assemble(lines, i + 1)
        } else if t[0] == 37 && t.last() == 37 {
            seq![t] + spec_assemble(lines, i + 1)
        } else if t[0] == 37 {
            let e = gather_end(lines, i + 1);
            let stop = if e < lines.len() {
                e + 1
            } else {
                lines.len() as int
            };
            seq![concat_trims(lines, i, stop)] + spec_assemble(lines, stop)
        } else {
            seq![t] + spec_assemble(lines, i + 1)
        }
    }
}

#[via_fn]
proof fn spec_assemble_dec(lines: Seq<Seq<u8>>, i: int) {
    if 0 <= i < lines.len() {
        lemma_gather_end_bounds(lines, i + 1);
    }
}

/// Assemble the physical lines into logical commands.
fn assemble_commands(lines: &Vec<Vec<u8>>) -> (r: Vec<Vec<u8>>)
    ensures
        crate::macro_def::stmts_view(r) == spec_assemble(crate::macro_def::stmts_view(
            *lines), 0),
{
    let ghost lv = crate::macro_def::stmts_view(*lines);
    let mut out: Vec<Vec<u8>> = Vec::new();
    let mut i: usize = 0;
    while i < lines.len()
        invariant
            0 <= i <= lv.len(),
            lv == crate::macro_def::stmts_view(*lines),
            spec_assemble(lv, 0) =~~= crate::macro_def::stmts_view(out)
                + spec_assemble(lv, i as int),
        decreases lv.len() - i,
    {
        let ghost o0 = crate::macro_def::stmts_view(out);
        proof {
            assert(lv[i as int] == lines@[i as int]@);
        }
        let t: &[u8] = trim(lines[i].as_slice());
        if t.len() == 0 {
            i = i + 1;
        } else if t[0] == 37 && t[t.len() - 1] == 37 {
            let mut cmd: Vec<u8> = Vec::new();
            append_bytes(&mut cmd, t);
            out.push(cmd);
            i = i + 1;
            proof {
                assert(crate::macro_def::stmts_view(out) =~~= o0.push(t@));
            }
        } else if t[0] == 37 {
            let mut buffer: Vec<u8> = Vec::new();
            append_bytes(&mut buffer, t);
            let ghost i0 = i as int;
            proof {
                lemma_concat_trims_snoc(lv, i0, i0);
                assert(buffer@ =~= concat_trims(lv, i0, i0 + 1));
            }
            let mut j: usize = i + 1;
            let mut closed: bool = false;
            while j < lines.len() && !closed
                invariant
                    0 <= i0 < lv.len(),
                    i0 + 1 <= j <= lv.len(),
                    lv == crate::macro_def::stmts_view(*lines),
                    buffer@ =~= concat_trims(lv, i0, j as int),
                    closed ==> j >= 1 && gather_end(lv, i0 + 1) == j - 1,
                    !closed ==> gather_end(lv, i0 + 1) == gather_end(lv, j as int),
                decreases lv.len() - j, (if closed { 0int } else { 1int }),
            {
                proof {
                    assert(lv[j as int] == lines@[j as int]@);
                }
                let next: &[u8] = trim(lines[j].as_slice());
                append_bytes(&mut buffer, next);
                proof {
                    lemma_concat_trims_snoc(lv, i0, j as int);
                }
                if next.len() > 0 && next[next.len() - 1] == 37 {
                    closed = true;
                }
                j = j + 1;
            }
            proof {
                if !closed {
                    assert(gather_end(lv, i0 + 1) == lv.len());
                } else {
                    assert(gather_end(lv, i0 + 1) == j as int - 1);
                }
            }
            out.push(buffer);
            i = j;
            proof {
                let e = gather_end(lv, i0 + 1);
                let stop: int = if e < lv.len() {
                    e + 1
                } else {
                    lv.len() as int
                };
                assert(stop == j as int);
                assert(crate::macro_def::stmts_view(out) =~~= o0.push(concat_trims(
                    lv, i0, stop)));
            }
        } else {
            let mut cmd: Vec<u8> = Vec::new();
            append_bytes(&mut cmd, t);
            out.push(cmd);
            i = i + 1;
            proof {
                assert(crate::macro_def::stmts_view(out) =~~= o0.push(t@));
            }
        }
    }
    proof {
        assert(spec_assemble(lv, lv.len() as int) =~~= Seq::<Seq<u8>>::empty());
        assert(crate::macro_def::stmts_view(out) + Seq::<Seq<u8>>::empty()
            =~~= crate::macro_def::stmts_view(out));
        assert(crate::macro_def::stmts_view(out) =~~= spec_assemble(lv, 0));
    }
    out
}

/// Extending a trim concatenation by one line.
proof fn lemma_concat_trims_snoc(lines: Seq<Seq<u8>>, i: int, j: int)
    requires
        0 <= i <= j < lines.len(),
    ensures
        concat_trims(lines, i, j + 1) == concat_trims(lines, i, j) + spec_trim(lines[j]),
    decreases j - i,
{
    if i < j {
        lemma_concat_trims_snoc(lines, i + 1, j);
        assert(concat_trims(lines, i, j + 1) =~= concat_trims(lines, i, j) + spec_trim(
            lines[j]));
    } else {
        assert(concat_trims(lines, i, i) =~= Seq::<u8>::empty());
        assert(concat_trims(lines, i + 1, i + 1) =~= Seq::<u8>::empty());
        assert(concat_trims(lines, i, i + 1) =~= spec_trim(lines[i]));
        assert(Seq::<u8>::empty() + spec_trim(lines[i]) =~= spec_trim(lines[i]));
    }
}

} // verus!
