//! Aperture definitions (`%ADD...`).
//!
//! An aperture is a bounding radius, a list of primitives in local
//! coordinates around the origin, and a flag telling whether any primitive
//! removes material (which routes flashes through the Boolean pipeline).
//! The standard shapes are a circle, a rectangle, an obround and a regular
//! polygon; any other shape name refers to an aperture macro.

use vstd::prelude::*;
use vstd::string::*;
use crate::fixed::{div_trunc, spec_fix_mul, fix_mul, FIX_ONE};
use crate::text::{
    spec_trim, spec_trim_end, spec_trim_start, spec_split, spec_split2, spec_parse_decimal,
    spec_parse_digits, trim, trim_end_byte, trim_start_byte, split_bytes, split_bytes2,
    starts_with, parse_decimal, bytes_eq, has_byte, find_byte, lemma_first_occ_bounds,
    lemma_first_either_bounds, all_digits, is_digit,
};
use crate::geom::{Point, Primitive, prim_exposure, is_negative};
use crate::macro_def::{
    ApertureMacro, MacroTable, macro_lookup, stmts_view, spec_instantiate, count_of,
    poly_vertex,
};

verus! {

/// A reusable shape: its bounding radius, primitives around the origin,
/// and whether any primitive has exposure zero.
#[derive(Clone, Debug)]
pub struct Aperture {
    pub radius: i64,
    pub primitives: Vec<Primitive>,
    pub has_negative: bool,
}

impl Aperture {
    /// An empty aperture with the given bounding radius.
    pub fn new(radius: i64) -> (r: Aperture)
        ensures
            r.radius == radius,
            r.primitives@.len() == 0,
            r.has_negative == false,
    {
        Aperture { radius, primitives: Vec::new(), has_negative: false }
    }
}

/// Whether any primitive of the list removes material.
pub open spec fn any_negative(prims: Seq<Primitive>) -> bool {
    exists|k: int| 0 <= k < prims.len() && !prim_exposure(#[trigger] prims[k])
}

/// Decide `any_negative` by scanning.
pub fn compute_has_negative(prims: &Vec<Primitive>) -> (r: bool)
    ensures
        r == any_negative(prims@),
{
    let mut i: usize = 0;
    while i < prims.len()
        invariant
            0 <= i <= prims@.len(),
            forall|k: int| 0 <= k < i ==> prim_exposure(#[trigger] prims@[k]),
        decreases prims@.len() - i,
    {
        if is_negative(&prims[i]) {
            return true;
        }
        i = i + 1;
    }
    false
}

/// The aperture store of one parse, keyed by numeric D-code; a later
/// definition of the same code replaces the earlier one.
pub struct ApertureTable {
    pub entries: Vec<(u32, Aperture)>,
}

/// The newest aperture under `code`, scanning from the back.
pub open spec fn aperture_lookup(s: Seq<(u32, Aperture)>, code: u32) -> Option<Aperture>
    decreases s.len(),
{
    if s.len() == 0 {
        None
    } else if s.last().0 == code {
        Some(s.last().1)
    } else {
        aperture_lookup(s.drop_last(), code)
    }
}

impl ApertureTable {
    /// An empty store.
    pub fn new() -> (r: ApertureTable)
        ensures
            r.entries@.len() == 0,
    {
        ApertureTable { entries: Vec::new() }
    }

    /// Look an aperture up by code.
    pub fn get(&self, code: u32) -> (r: Option<&Aperture>)
        ensures
            match r {
                Some(a) => aperture_lookup(self.entries@, code) == Some(*a),
                None => aperture_lookup(self.entries@, code) is None,
            },
    {
        let mut i: usize = self.entries.len();
        proof {
            assert(self.entries@.take(i as int) =~= self.entries@);
        }
        while i > 0
            invariant
                0 <= i <= self.entries@.len(),
                aperture_lookup(self.entries@, code) == aperture_lookup(
                    self.entries@.take(i as int), code),
            decreases i,
        {
            proof {
                assert(self.entries@.take(i as int).last() == self.entries@[i as int - 1]);
                assert(self.entries@.take(i as int).drop_last() =~= self.entries@.take(
                    i as int - 1));
            }
            if self.entries[i - 1].0 == code {
                return Some(&self.entries[i - 1].1);
            }
            i = i - 1;
        }
        proof {
            assert(self.entries@.take(0) =~= Seq::<(u32, Aperture)>::empty());
        }
        None
    }

    /// Register an aperture, shadowing any earlier one under the code.
    pub fn insert(&mut self, code: u32, a: Aperture)
        ensures
            final(self).entries@ == old(self).entries@.push((code, a)),
    {
        self.entries.push((code, a));
    }
}

/// The ghost view of an aperture: bounding radius, primitive list, and
/// the has-negative flag.
pub open spec fn ap_view(a: Aperture) -> (int, Seq<Primitive>, bool) {
    (a.radius as int, a.primitives@, a.has_negative)
}

/// The ghost view of the aperture store.
pub open spec fn ap_table_view(s: Seq<(u32, Aperture)>) -> Seq<(u32, (int, Seq<Primitive>,
    bool))> {
    s.map_values(|e: (u32, Aperture)| (e.0, ap_view(e.1)))
}

/// The newest aperture view under `code`, scanning from the back.
pub open spec fn ap_view_lookup(
    s: Seq<(u32, (int, Seq<Primitive>, bool))>,
    code: u32,
) -> Option<(int, Seq<Primitive>, bool)>
    decreases s.len(),
{
    if s.len() == 0 {
        None
    } else if s.last().0 == code {
        Some(s.last().1)
    } else {
        ap_view_lookup(s.drop_last(), code)
    }
}

/// Looking up through the view agrees with looking up the store itself.
pub proof fn lemma_ap_lookup_view(s: Seq<(u32, Aperture)>, code: u32)
    ensures
        ap_view_lookup(ap_table_view(s), code) == (match aperture_lookup(s, code) {
            Some(a) => Some(ap_view(a)),
            None => None::<(int, Seq<Primitive>, bool)>,
        }),
    decreases s.len(),
{
    if s.len() > 0 {
        assert(ap_table_view(s).last() == (s.last().0, ap_view(s.last().1)));
        assert(ap_table_view(s).drop_last() =~~= ap_table_view(s.drop_last()));
        lemma_ap_lookup_view(s.drop_last(), code);
    }
}

/// The view of a store extended by one entry.
pub proof fn lemma_ap_view_push(s: Seq<(u32, Aperture)>, e: (u32, Aperture))
    ensures
        ap_table_view(s.push(e)) == ap_table_view(s).push((e.0, ap_view(e.1))),
{
    assert(ap_table_view(s.push(e)) =~~= ap_table_view(s).push((e.0, ap_view(e.1))));
}

/// `%` then `ADD` prefixes stripped, then trailing `%` stripped.
pub open spec fn spec_ad_content(data: Seq<u8>) -> Seq<u8> {
    spec_trim_end(strip_add(spec_trim_start(data, 37)), 37)
}

/// `ADD` prefixes stripped from the front, repeatedly.
pub open spec fn strip_add(s: Seq<u8>) -> Seq<u8>
    decreases s.len(),
{
    if crate::text::spec_starts_with(s, seq![65u8, 68u8, 68u8]) && s.len() >= 3 {
        strip_add(s.skip(3))
    } else {
        s
    }
}

/// The leading digit run of the content: the aperture code text.
pub open spec fn code_run(s: Seq<u8>) -> int
    decreases s.len(),
{
    if s.len() == 0 || !is_digit(s[0]) {
        0
    } else {
        1 + code_run(s.skip(1))
    }
}

proof fn lemma_code_run_from_scan(s: Seq<u8>, n: int)
    requires
        0 <= n <= s.len(),
        forall|i: int| 0 <= i < n ==> is_digit(#[trigger] s[i]),
        n < s.len() ==> !is_digit(s[n]),
    ensures
        code_run(s) == n,
    decreases n,
{
    if n > 0 {
        assert forall|i: int| 0 <= i < n - 1 implies is_digit(#[trigger] s.skip(1)[i]) by {
            assert(s.skip(1)[i] == s[i + 1]);
        }
        if n - 1 < s.skip(1).len() {
            assert(s.skip(1)[n - 1] == s[n]);
        }
        lemma_code_run_from_scan(s.skip(1), n - 1);
    }
}

/// The `j`-th `X`-separated parameter of a segment, trimmed and parsed.
pub open spec fn param_val(ps: Seq<Seq<u8>>, j: int) -> Option<int> {
    if 0 <= j < ps.len() {
        spec_parse_decimal(spec_trim(ps[j]))
    } else {
        None
    }
}

/// A parameter scaled into millimetres by the unit multiplier.
pub open spec fn mm_of(v: int, unit: int) -> int {
    spec_fix_mul(v, unit)
}

/// The hole radius from an optional hole-diameter parameter.
pub open spec fn hole_of(ps: Seq<Seq<u8>>, j: int, unit: int) -> int {
    match param_val(ps, j) {
        Some(h) => div_trunc(mm_of(h, unit), 2),
        None => 0,
    }
}

/// A standard circle aperture: one circle primitive, radius half the
/// diameter, with an optional round hole.
pub open spec fn spec_ap_circle(ps: Seq<Seq<u8>>, unit: int) -> (int, Seq<Primitive>) {
    match param_val(ps, 0) {
        Some(d) => {
            let dmm = mm_of(d, unit);
            let hole = hole_of(ps, 1, unit);
            (div_trunc(dmm, 2), seq![
                Primitive::Circle {
                    x: 0,
                    y: 0,
                    radius: div_trunc(dmm, 2) as i64,
                    exposure: true,
                    hole_x: 0,
                    hole_y: 0,
                    hole_radius: hole as i64,
                },
            ])
        },
        None => (0, Seq::<Primitive>::empty()),
    }
}

/// A standard rectangle aperture: two triangles, radius half the longer
/// side.
pub open spec fn spec_ap_rect(ps: Seq<Seq<u8>>, unit: int) -> (int, Seq<Primitive>) {
    match (param_val(ps, 0), param_val(ps, 1)) {
        (Some(w), Some(h)) => {
            let wmm = mm_of(w, unit);
            let hmm = mm_of(h, unit);
            let hole = hole_of(ps, 2, unit);
            let hw = div_trunc(wmm, 2);
            let hh = div_trunc(hmm, 2);
            let v1 = Point { x: -hw as i64, y: -hh as i64 };
            let v2 = Point { x: hw as i64, y: -hh as i64 };
            let v3 = Point { x: hw as i64, y: hh as i64 };
            let v4 = Point { x: -hw as i64, y: hh as i64 };
            let radius = if wmm >= hmm {
                div_trunc(wmm, 2)
            } else {
                div_trunc(hmm, 2)
            };
            (radius, seq![
                Primitive::Triangle {
                    v1,
                    v2,
                    v3,
                    exposure: true,
                    hole_x: 0,
                    hole_y: 0,
                    hole_radius: hole as i64,
                },
                Primitive::Triangle {
                    v1,
                    v2: v3,
                    v3: v4,
                    exposure: true,
                    hole_x: 0,
                    hole_y: 0,
                    hole_radius: hole as i64,
                },
            ])
        },
        _ => (0, Seq::<Primitive>::empty()),
    }
}

/// A standard obround aperture: two end circles and a middle rectangle
/// along the longer axis; radius half the shorter side.
pub open spec fn spec_ap_obround(ps: Seq<Seq<u8>>, unit: int) -> (int, Seq<Primitive>) {
    match (param_val(ps, 0), param_val(ps, 1)) {
        (Some(w), Some(h)) => {
            let wmm = mm_of(w, unit);
            let hmm = mm_of(h, unit);
            let hole = hole_of(ps, 2, unit);
            let short = if wmm <= hmm { wmm } else { hmm };
            let long = if wmm <= hmm { hmm } else { wmm };
            let radius = div_trunc(short, 2);
            if wmm > hmm {
                let hrw = div_trunc(long - short, 2);
                let hh = div_trunc(hmm, 2);
                (radius, seq![
                    ob_circle(-hrw, 0, radius, hole),
                    ob_circle(hrw, 0, radius, hole),
                    ob_tri(
                        Point { x: -hrw as i64, y: -hh as i64 },
                        Point { x: hrw as i64, y: -hh as i64 },
                        Point { x: -hrw as i64, y: hh as i64 },
                        hole,
                    ),
                    ob_tri(
                        Point { x: hrw as i64, y: -hh as i64 },
                        Point { x: hrw as i64, y: hh as i64 },
                        Point { x: -hrw as i64, y: hh as i64 },
                        hole,
                    ),
                ])
            } else {
                let hrh = div_trunc(long - short, 2);
                let hw = div_trunc(wmm, 2);
                (radius, seq![
                    ob_circle(0, -hrh, radius, hole),
                    ob_circle(0, hrh, radius, hole),
                    ob_tri(
                        Point { x: -hw as i64, y: -hrh as i64 },
                        Point { x: hw as i64, y: -hrh as i64 },
                        Point { x: -hw as i64, y: hrh as i64 },
                        hole,
                    ),
                    ob_tri(
                        Point { x: hw as i64, y: -hrh as i64 },
                        Point { x: hw as i64, y: hrh as i64 },
                        Point { x: -hw as i64, y: hrh as i64 },
                        hole,
                    ),
                ])
            }
        },
        _ => (0, Seq::<Primitive>::empty()),
    }
}

pub open spec fn ob_circle(cx: int, cy: int, r: int, hole: int) -> Primitive {
    Primitive::Circle {
        x: cx as i64,
        y: cy as i64,
        radius: r as i64,
        exposure: true,
        hole_x: 0,
        hole_y: 0,
        hole_radius: hole as i64,
    }
}

pub open spec fn ob_tri(v1: Point, v2: Point, v3: Point, hole: int) -> Primitive {
    Primitive::Triangle {
        v1,
        v2,
        v3,
        exposure: true,
        hole_x: 0,
        hole_y: 0,
        hole_radius: hole as i64,
    }
}

/// One fan triangle of a polygon aperture, with the aperture's hole.
pub open spec fn ap_poly_tri(r: int, step: int, k: int, n: int, hole: int) -> Primitive {
    Primitive::Triangle {
        v1: Point { x: 0, y: 0 },
        v2: poly_vertex(0, 0, r, step, k),
        v3: poly_vertex(0, 0, r, step, if k + 1 == n { 0 } else { k + 1 }),
        exposure: true,
        hole_x: 0,
        hole_y: 0,
        hole_radius: hole as i64,
    }
}

/// A standard polygon aperture: `diameter X vertices [X rotation]
/// [X hole]`, fan-triangulated from the center (the rotation parameter is
/// accepted but not applied, as in the engine's dialect).
pub open spec fn spec_ap_poly(ps: Seq<Seq<u8>>, unit: int) -> (int, Seq<Primitive>) {
    match (param_val(ps, 0), param_val(ps, 1)) {
        (Some(d), Some(nv)) => {
            let dmm = mm_of(d, unit);
            let hole = if ps.len() > 3 {
                hole_of(ps, 3, unit)
            } else if ps.len() > 2 {
                hole_of(ps, 2, unit)
            } else {
                0
            };
            let n = count_of(nv);
            let r = div_trunc(dmm, 2);
            if n == 0 {
                (r, Seq::<Primitive>::empty())
            } else {
                (r, Seq::new(n as nat, |k: int| ap_poly_tri(r, 360_000int / n, k, n, hole)))
            }
        },
        _ => (0, Seq::<Primitive>::empty()),
    }
}

/// The numeric parameters of a macro reference: every `X`-separated piece
/// of every segment after the shape name that parses as a decimal, scaled
/// by the unit multiplier.
pub open spec fn macro_params_from(parts: Seq<Seq<u8>>, i: int, unit: int) -> Seq<i64>
    decreases parts.len() - i,
{
    if i < 1 || i >= parts.len() {
        Seq::<i64>::empty()
    } else {
        let t = spec_trim(parts[i]);
        if t.len() == 0 {
            macro_params_from(parts, i + 1, unit)
        } else {
            seg_param_vals(spec_split(t, 88), 0, unit) + macro_params_from(parts, i + 1, unit)
        }
    }
}

/// The parseable values of the pieces of one segment.
pub open spec fn seg_param_vals(ps: Seq<Seq<u8>>, j: int, unit: int) -> Seq<i64>
    decreases ps.len() - j,
{
    if j < 0 || j >= ps.len() {
        Seq::<i64>::empty()
    } else {
        match spec_parse_decimal(spec_trim(ps[j])) {
            Some(v) => seq![spec_fix_mul(v, unit) as i64] + seg_param_vals(ps, j + 1, unit),
            None => seg_param_vals(ps, j + 1, unit),
        }
    }
}


/// What a `%ADD` line defines: the code and the aperture's radius and
/// primitives, or nothing when the line is unusable.
pub open spec fn spec_parse_aperture(
    data: Seq<u8>,
    macros: Seq<(Seq<u8>, (Seq<Seq<u8>>, bool))>,
    unit: int,
) -> Option<(u32, int, Seq<Primitive>)> {
    let content = spec_ad_content(data);
    let dr = code_run(content);
    if dr == 0 || dr >= content.len() {
        None
    } else {
        match spec_parse_digits(content.take(dr)) {
            None => None,
            Some(cv) => if cv > u32::MAX as int {
                None
            } else {
                let parts = spec_split2(content.skip(dr), 44, 42);
                let shape = spec_trim(parts[0]);
                let rp = spec_shape_prims(shape, parts, macros, unit);
                Some((cv as u32, rp.0, rp.1))
            },
        }
    }
}

/// The radius and primitives of one shape section.
pub open spec fn spec_shape_prims(
    shape: Seq<u8>,
    parts: Seq<Seq<u8>>,
    macros: Seq<(Seq<u8>, (Seq<Seq<u8>>, bool))>,
    unit: int,
) -> (int, Seq<Primitive>) {
    if shape =~= seq![67u8] {
        if parts.len() > 1 {
            spec_ap_circle(spec_split(parts[1], 88), unit)
        } else {
            (0, Seq::<Primitive>::empty())
        }
    } else if shape =~= seq![82u8] {
        if parts.len() > 1 {
            spec_ap_rect(spec_split(parts[1], 88), unit)
        } else {
            (0, Seq::<Primitive>::empty())
        }
    } else if shape =~= seq![79u8] {
        if parts.len() > 1 {
            spec_ap_obround(spec_split(parts[1], 88), unit)
        } else {
            (0, Seq::<Primitive>::empty())
        }
    } else if shape =~= seq![80u8] {
        if parts.len() > 1 {
            spec_ap_poly(spec_split(parts[1], 88), unit)
        } else {
            (0, Seq::<Primitive>::empty())
        }
    } else {
        match crate::macro_def::macro_view_lookup(macros, shape) {
            Some(m) => {
                let params = macro_params_from(parts, 1, unit);
                if params.len() <= u32::MAX as int {
                    (0, spec_instantiate(m.0, params))
                } else {
                    (0, Seq::<Primitive>::empty())
                }
            },
            None => (0, Seq::<Primitive>::empty()),
        }
    }
}

fn run_ap_circle(ps: &Vec<Vec<u8>>, unit: i64) -> (r: (i64, Vec<Primitive>))
    ensures
        (r.0 as int, r.1@) == spec_ap_circle(stmts_view(*ps), unit as int),
{
    let ghost psv = stmts_view(*ps);
    match get_param(ps, 0) {
        Some(d) => {
            let dmm: i64 = fix_mul(d, unit);
            let hole: i64 = get_hole(ps, 1, unit);
            let rad: i64 = crate::fixed::div_trunc_wide(dmm as i128, 2) as i64;
            let mut prims: Vec<Primitive> = Vec::new();
            prims.push(Primitive::Circle {
                x: 0,
                y: 0,
                radius: rad,
                exposure: true,
                hole_x: 0,
                hole_y: 0,
                hole_radius: hole,
            });
            proof {
                assert(prims@ =~= spec_ap_circle(psv, unit as int).1);
            }
            (rad, prims)
        },
        None => {
            let prims: Vec<Primitive> = Vec::new();
            proof {
                assert(prims@ =~= spec_ap_circle(psv, unit as int).1);
            }
            (0, prims)
        },
    }
}

/// The trimmed, parsed `j`-th parameter.
fn get_param(ps: &Vec<Vec<u8>>, j: usize, ) -> (r: Option<i64>)
    ensures
        match param_val(stmts_view(*ps), j as int) {
            Some(v) => r == Some(v as i64),
            None => r is None,
        },
{
    if j >= ps.len() {
        return None;
    }
    proof {
        assert(stmts_view(*ps)[j as int] == ps@[j as int]@);
    }
    parse_decimal(trim(ps[j].as_slice()))
}

/// The hole radius from the optional `j`-th parameter.
fn get_hole(ps: &Vec<Vec<u8>>, j: usize, unit: i64) -> (r: i64)
    ensures
        r as int == hole_of(stmts_view(*ps), j as int, unit as int),
{
    match get_param(ps, j) {
        Some(h) => crate::fixed::div_trunc_wide(fix_mul(h, unit) as i128, 2) as i64,
        None => 0,
    }
}

fn run_ap_rect(ps: &Vec<Vec<u8>>, unit: i64) -> (r: (i64, Vec<Primitive>))
    ensures
        (r.0 as int, r.1@) == spec_ap_rect(stmts_view(*ps), unit as int),
{
    let ghost psv = stmts_view(*ps);
    let p0: Option<i64> = get_param(ps, 0);
    let p1: Option<i64> = get_param(ps, 1);
    match (p0, p1) {
        (Some(w), Some(h)) => {
            let wmm: i64 = fix_mul(w, unit);
            let hmm: i64 = fix_mul(h, unit);
            let hole: i64 = get_hole(ps, 2, unit);
            let hw: i64 = crate::fixed::div_trunc_wide(wmm as i128, 2) as i64;
            let hh: i64 = crate::fixed::div_trunc_wide(hmm as i128, 2) as i64;
            let v1 = Point { x: -hw, y: -hh };
            let v2 = Point { x: hw, y: -hh };
            let v3 = Point { x: hw, y: hh };
            let v4 = Point { x: -hw, y: hh };
            let rad: i64 = if wmm >= hmm {
                crate::fixed::div_trunc_wide(wmm as i128, 2) as i64
            } else {
                crate::fixed::div_trunc_wide(hmm as i128, 2) as i64
            };
            let mut prims: Vec<Primitive> = Vec::new();
            prims.push(Primitive::Triangle {
                v1,
                v2,
                v3,
                exposure: true,
                hole_x: 0,
                hole_y: 0,
                hole_radius: hole,
            });
            prims.push(Primitive::Triangle {
                v1,
                v2: v3,
                v3: v4,
                exposure: true,
                hole_x: 0,
                hole_y: 0,
                hole_radius: hole,
            });
            proof {
                assert(prims@ =~= spec_ap_rect(psv, unit as int).1);
            }
            (rad, prims)
        },
        _ => {
            let prims: Vec<Primitive> = Vec::new();
            proof {
                assert(prims@ =~= spec_ap_rect(psv, unit as int).1);
            }
            (0, prims)
        },
    }
}

fn run_ap_obround(ps: &Vec<Vec<u8>>, unit: i64) -> (r: (i64, Vec<Primitive>))
    ensures
        (r.0 as int, r.1@) == spec_ap_obround(stmts_view(*ps), unit as int),
{
    let ghost psv = stmts_view(*ps);
    let p0: Option<i64> = get_param(ps, 0);
    let p1: Option<i64> = get_param(ps, 1);
    match (p0, p1) {
        (Some(w), Some(h)) => {
            let wmm: i64 = fix_mul(w, unit);
            let hmm: i64 = fix_mul(h, unit);
            let hole: i64 = get_hole(ps, 2, unit);
            let short: i64 = if wmm <= hmm {
                wmm
            } else {
                hmm
            };
            let long: i64 = if wmm <= hmm {
                hmm
            } else {
                wmm
            };
            let rad: i64 = crate::fixed::div_trunc_wide(short as i128, 2) as i64;
            let mut prims: Vec<Primitive> = Vec::new();
            if wmm > hmm {
                let hrw: i64 = crate::fixed::div_trunc_wide(
                    long as i128 - short as i128, 2) as i64;
                let hh: i64 = crate::fixed::div_trunc_wide(hmm as i128, 2) as i64;
                prims.push(Primitive::Circle {
                    x: -hrw, y: 0, radius: rad, exposure: true,
                    hole_x: 0, hole_y: 0, hole_radius: hole,
                });
                prims.push(Primitive::Circle {
                    x: hrw, y: 0, radius: rad, exposure: true,
                    hole_x: 0, hole_y: 0, hole_radius: hole,
                });
                prims.push(Primitive::Triangle {
                    v1: Point { x: -hrw, y: -hh },
                    v2: Point { x: hrw, y: -hh },
                    v3: Point { x: -hrw, y: hh },
                    exposure: true, hole_x: 0, hole_y: 0, hole_radius: hole,
                });
                prims.push(Primitive::Triangle {
                    v1: Point { x: hrw, y: -hh },
                    v2: Point { x: hrw, y: hh },
                    v3: Point { x: -hrw, y: hh },
                    exposure: true, hole_x: 0, hole_y: 0, hole_radius: hole,
                });
            } else {
                let hrh: i64 = crate::fixed::div_trunc_wide(
                    long as i128 - short as i128, 2) as i64;
                let hw: i64 = crate::fixed::div_trunc_wide(wmm as i128, 2) as i64;
                prims.push(Primitive::Circle {
                    x: 0, y: -hrh, radius: rad, exposure: true,
                    hole_x: 0, hole_y: 0, hole_radius: hole,
                });
                prims.push(Primitive::Circle {
                    x: 0, y: hrh, radius: rad, exposure: true,
                    hole_x: 0, hole_y: 0, hole_radius: hole,
                });
                prims.push(Primitive::Triangle {
                    v1: Point { x: -hw, y: -hrh },
                    v2: Point { x: hw, y: -hrh },
                    v3: Point { x: -hw, y: hrh },
                    exposure: true, hole_x: 0, hole_y: 0, hole_radius: hole,
                });
                prims.push(Primitive::Triangle {
                    v1: Point { x: hw, y: -hrh },
                    v2: Point { x: hw, y: hrh },
                    v3: Point { x: -hw, y: hrh },
                    exposure: true, hole_x: 0, hole_y: 0, hole_radius: hole,
                });
            }
            proof {
                assert(prims@ =~= spec_ap_obround(psv, unit as int).1);
            }
            (rad, prims)
        },
        _ => {
            let prims: Vec<Primitive> = Vec::new();
            proof {
                assert(prims@ =~= spec_ap_obround(psv, unit as int).1);
            }
            (0, prims)
        },
    }
}

#[verifier::rlimit(80)]
fn run_ap_poly(ps: &Vec<Vec<u8>>, unit: i64) -> (r: (i64, Vec<Primitive>))
    ensures
        (r.0 as int, r.1@) == spec_ap_poly(stmts_view(*ps), unit as int),
{
    let ghost psv = stmts_view(*ps);
    let p0: Option<i64> = get_param(ps, 0);
    let p1: Option<i64> = get_param(ps, 1);
    match (p0, p1) {
        (Some(d), Some(nv)) => {
            let dmm: i64 = fix_mul(d, unit);
            let hole: i64 = if ps.len() > 3 {
                get_hole(ps, 3, unit)
            } else if ps.len() > 2 {
                get_hole(ps, 2, unit)
            } else {
                0
            };
            let mut n: u64 = if nv < 0 {
                0
            } else {
                (nv / FIX_ONE) as u64
            };
            if n > u32::MAX as u64 {
                n = u32::MAX as u64;
            }
            let rad: i64 = crate::fixed::div_trunc_wide(dmm as i128, 2) as i64;
            if n == 0 {
                let prims: Vec<Primitive> = Vec::new();
                proof {
                    assert(prims@ =~= spec_ap_poly(psv, unit as int).1);
                }
                return (rad, prims);
            }
            let step: i64 = 360_000i64 / (n as i64);
            let mut prims: Vec<Primitive> = Vec::new();
            let mut k: u64 = 0;
            while k < n
                invariant
                    0 <= k <= n,
                    0 < n,
                    n <= u32::MAX as u64,
                    step as int == 360_000int / n as int,
                    0 <= step <= 360_000,
                    prims@.len() == k,
                    forall|a: int| 0 <= a < k ==> prims@[a] == ap_poly_tri(
                        rad as int, step as int, a, n as int, hole as int),
                decreases n - k,
            {
                let next: u64 = if k + 1 == n {
                    0
                } else {
                    k + 1
                };
                proof {
                    vstd::arithmetic::div_mod::lemma_fundamental_div_mod(360_000, n as int);
                    assert(0 <= (step as int) * (n as int) <= 360_000) by (nonlinear_arith)
                        requires
                            step as int == 360_000int / (n as int),
                            360_000int == (360_000int / (n as int)) * (n as int)
                                + 360_000int % (n as int),
                            0 <= 360_000int % (n as int),
                            0 < n as int;
                    assert((step as int) * (k as int) <= (step as int) * (n as int)
                        && (step as int) * (next as int) <= (step as int) * (n as int)
                        && 0 <= (step as int) * (k as int)
                        && 0 <= (step as int) * (next as int)) by (nonlinear_arith)
                        requires
                            0 <= step as int,
                            0 <= k as int <= n as int,
                            0 <= next as int <= n as int;
                }
                let v2: Point = ap_poly_vertex_exec(rad, step, k as i64);
                let v3: Point = ap_poly_vertex_exec(rad, step, next as i64);
                prims.push(Primitive::Triangle {
                    v1: Point { x: 0, y: 0 },
                    v2,
                    v3,
                    exposure: true,
                    hole_x: 0,
                    hole_y: 0,
                    hole_radius: hole,
                });
                k = k + 1;
            }
            proof {
                assert(prims@ =~= Seq::new(
                    n as nat,
                    |a: int| ap_poly_tri(rad as int, step as int, a, n as int, hole as int),
                ));
            }
            (rad, prims)
        },
        _ => {
            let prims: Vec<Primitive> = Vec::new();
            proof {
                assert(prims@ =~= spec_ap_poly(psv, unit as int).1);
            }
            (0, prims)
        },
    }
}

fn ap_poly_vertex_exec(r: i64, step: i64, k: i64) -> (p: Point)
    requires
        (step as int) * (k as int) <= i64::MAX as int,
        (step as int) * (k as int) >= i64::MIN as int,
    ensures
        p == poly_vertex(0, 0, r as int, step as int, k as int),
{
    let ang: i64 = step * k;
    Point {
        x: crate::fixed::sat_add(0, fix_mul(r, crate::trig::cos_mdeg(ang))),
        y: crate::fixed::sat_add(0, fix_mul(r, crate::trig::sin_mdeg(ang))),
    }
}

/// Collect the numeric parameters of a macro reference.
fn collect_macro_params(parts: &Vec<Vec<u8>>, unit: i64) -> (r: Vec<i64>)
    ensures
        r@ == macro_params_from(stmts_view(*parts), 1, unit as int),
{
    let ghost pv = stmts_view(*parts);
    let mut out: Vec<i64> = Vec::new();
    let mut i: usize = 1;
    proof {
        if pv.len() < 1 {
            assert(macro_params_from(pv, 1, unit as int) =~= Seq::<i64>::empty());
        }
    }
    while i < parts.len()
        invariant
            1 <= i,
            i <= parts@.len() || i == 1,
            pv == stmts_view(*parts),
            macro_params_from(pv, 1, unit as int) =~= out@ + macro_params_from(
                pv, i as int, unit as int),
        decreases pv.len() - i,
    {
        let ghost o0 = out@;
        proof {
            assert(pv[i as int] == parts@[i as int]@);
        }
        let t: &[u8] = trim(parts[i].as_slice());
        if t.len() > 0 {
            let pieces: Vec<Vec<u8>> = split_bytes(t, 88);
            let ghost piv = stmts_view(pieces);
            let mut j: usize = 0;
            while j < pieces.len()
                invariant
                    0 <= j <= piv.len(),
                    piv == stmts_view(pieces),
                    seg_param_vals(piv, 0, unit as int) =~= out@.skip(o0.len() as int)
                        + seg_param_vals(piv, j as int, unit as int),
                    out@.take(o0.len() as int) == o0,
                    out@.len() >= o0.len(),
                decreases piv.len() - j,
            {
                proof {
                    assert(piv[j as int] == pieces@[j as int]@);
                }
                match parse_decimal(trim(pieces[j].as_slice())) {
                    Some(v) => {
                        out.push(fix_mul(v, unit));
                        proof {
                            assert(out@.take(o0.len() as int) =~= o0);
                            assert(out@.skip(o0.len() as int) =~= out@.drop_last().skip(
                                o0.len() as int).push(out@.last()));
                        }
                    },
                    None => {
                    },
                }
                j = j + 1;
            }
            proof {
                assert(seg_param_vals(piv, piv.len() as int, unit as int)
                    =~= Seq::<i64>::empty());
                assert(out@.skip(o0.len() as int) + Seq::<i64>::empty()
                    =~= out@.skip(o0.len() as int));
                assert(out@ =~= o0 + out@.skip(o0.len() as int));
            }
        }
        i = i + 1;
        proof {
            if spec_trim(pv[i as int - 1]).len() == 0 {
                assert(o0 + macro_params_from(pv, i as int - 1, unit as int)
                    =~= out@ + macro_params_from(pv, i as int, unit as int));
            }
        }
    }
    proof {
        assert(macro_params_from(pv, pv.len() as int, unit as int) =~= Seq::<i64>::empty());
        assert(out@ + Seq::<i64>::empty() =~= out@);
    }
    out
}

/// Parse a `%ADD{code}{shape}{params}*%` line and register the aperture.
pub fn parse_aperture(
    data: &[u8],
    apertures: &mut ApertureTable,
    macros: &MacroTable,
    unit_multiplier: i64,
)
    ensures
        match spec_parse_aperture(data@, crate::macro_def::macro_table_view(macros.entries@),
            unit_multiplier as int) {
            Some(ap) => final(apertures).entries@.len() == old(apertures).entries@.len() + 1
                && final(apertures).entries@.drop_last() == old(apertures).entries@
                && final(apertures).entries@.last().0 == ap.0
                && final(apertures).entries@.last().1.radius as int == ap.1
                && final(apertures).entries@.last().1.primitives@ == ap.2
                && final(apertures).entries@.last().1.has_negative == any_negative(ap.2),
            None => *final(apertures) == *old(apertures),
        },
{
    let stripped: &[u8] = trim_start_byte(data, 37);
    let mut rest: &[u8] = stripped;
    let add: [u8; 3] = [65, 68, 68];
    proof {
        assert(add@ =~= seq![65u8, 68u8, 68u8]);
    }
    while rest.len() >= 3 && starts_with(rest, add.as_slice())
        invariant
            add@ == seq![65u8, 68u8, 68u8],
            strip_add(rest@) == strip_add(stripped@),
        decreases rest@.len(),
    {
        let rl: usize = rest.len();
        let nr: &[u8] = vstd::slice::slice_subrange(rest, 3, rl);
        proof {
            assert(nr@ =~= rest@.skip(3));
        }
        rest = nr;
    }
    proof {
        assert(strip_add(rest@) == rest@);
    }
    let content: &[u8] = trim_end_byte(rest, 37);
    let mut dr: usize = 0;
    while dr < content.len() && content[dr] >= 48 && content[dr] <= 57
        invariant
            0 <= dr <= content@.len(),
            forall|i: int| 0 <= i < dr ==> is_digit(#[trigger] content@[i]),
        decreases content@.len() - dr,
    {
        dr = dr + 1;
    }
    proof {
        lemma_code_run_from_scan(content@, dr as int);
    }
    if dr == 0 || dr >= content.len() {
        return;
    }
    let code_txt: &[u8] = vstd::slice::slice_subrange(content, 0, dr);
    proof {
        assert(code_txt@ =~= content@.take(dr as int));
    }
    let code: u32 = match crate::text::parse_int(code_txt) {
        Some(v) => {
            if v >= 0 && v <= u32::MAX as i64 && code_txt[0] != 43 && code_txt[0] != 45 {
                proof {
                    crate::macro_def::lemma_digits_parse_agree(code_txt@, v as u32);
                }
                v as u32
            } else {
                proof {
                    crate::macro_def::lemma_digits_parse_disagree(code_txt@);
                }
                return;
            }
        },
        None => {
            proof {
                crate::macro_def::lemma_digits_parse_disagree(code_txt@);
            }
            return;
        },
    };
    let cl: usize = content.len();
    let after: &[u8] = vstd::slice::slice_subrange(content, dr, cl);
    proof {
        assert(after@ =~= content@.skip(dr as int));
    }
    let parts: Vec<Vec<u8>> = split_bytes2(after, 44, 42);
    let ghost pv = stmts_view(parts);
    proof {
        assert(pv.len() >= 1) by {
            if crate::text::has_either(after@, 44, 42) {
                lemma_first_either_bounds(after@, 44, 42);
            }
        }
        assert(pv[0] == parts@[0]@);
    }
    let shape: &[u8] = trim(parts[0].as_slice());
    let cc: [u8; 1] = [67];
    let rr: [u8; 1] = [82];
    let oo: [u8; 1] = [79];
    let pp: [u8; 1] = [80];
    proof {
        assert(cc@ =~= seq![67u8]);
        assert(rr@ =~= seq![82u8]);
        assert(oo@ =~= seq![79u8]);
        assert(pp@ =~= seq![80u8]);
    }
    let rp: (i64, Vec<Primitive>);
    if bytes_eq(shape, cc.as_slice()) {
        if parts.len() > 1 {
            proof {
                assert(pv[1] == parts@[1]@);
            }
            let ps: Vec<Vec<u8>> = split_bytes(parts[1].as_slice(), 88);
            rp = run_ap_circle(&ps, unit_multiplier);
        } else {
            rp = (0, Vec::new());
        }
    } else if bytes_eq(shape, rr.as_slice()) {
        if parts.len() > 1 {
            proof {
                assert(pv[1] == parts@[1]@);
            }
            let ps: Vec<Vec<u8>> = split_bytes(parts[1].as_slice(), 88);
            rp = run_ap_rect(&ps, unit_multiplier);
        } else {
            rp = (0, Vec::new());
        }
    } else if bytes_eq(shape, oo.as_slice()) {
        if parts.len() > 1 {
            proof {
                assert(pv[1] == parts@[1]@);
            }
            let ps: Vec<Vec<u8>> = split_bytes(parts[1].as_slice(), 88);
            rp = run_ap_obround(&ps, unit_multiplier);
        } else {
            rp = (0, Vec::new());
        }
    } else if bytes_eq(shape, pp.as_slice()) {
        if parts.len() > 1 {
            proof {
                assert(pv[1] == parts@[1]@);
            }
            let ps: Vec<Vec<u8>> = split_bytes(parts[1].as_slice(), 88);
            rp = run_ap_poly(&ps, unit_multiplier);
        } else {
            rp = (0, Vec::new());
        }
    } else {
        proof {
            crate::macro_def::lemma_macro_lookup_view(macros.entries@, shape@);
        }
        match macros.get(shape) {
            Some(m) => {
                let params: Vec<i64> = collect_macro_params(&parts, unit_multiplier);
                if params.len() <= u32::MAX as usize {
                    rp = (0, m.instantiate(&params));
                } else {
                    rp = (0, Vec::new());
                }
            },
            None => {
                rp = (0, Vec::new());
            },
        }
    }
    proof {
        assert(rp.1@ == spec_shape_prims(shape@, pv, crate::macro_def::macro_table_view(
            macros.entries@), unit_multiplier as int).1);
        assert(rp.0 as int == spec_shape_prims(shape@, pv, crate::macro_def::macro_table_view(
            macros.entries@), unit_multiplier as int).0);
    }
    let has_negative: bool = compute_has_negative(&rp.1);
    apertures.insert(code, Aperture { radius: rp.0, primitives: rp.1, has_negative });
}

} // verus!
