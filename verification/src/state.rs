//! Modal parser state and the extended (`%...%`) command parsers.
//!
//! The interpolation, quadrant, coordinate and pen modes are small sum
//! types. Scales and the unit multiplier are fixed-point factors; the layer
//! rotation is kept in milli-degrees. Every parser mirrors its spec twin
//! exactly; malformed commands leave the state untouched (soft skip).

use vstd::prelude::*;
use vstd::string::*;
use crate::fixed::{div_trunc, FIX_ONE};
use crate::text::{
    spec_trim_end, spec_trim_start, spec_starts_with, spec_parse_digits, spec_parse_decimal,
    all_digits, digits_val, is_digit, has_byte, first_occ, trim_end_byte, trim_start_byte,
    starts_with, parse_decimal, lemma_first_occ_bounds, find_byte, lemma_digits_val_bound,
    pow10, lemma_pow10_vals,
};
use crate::geom::Primitive;

verus! {

/// Dark (positive, adds material) or clear (negative, removes material).
#[derive(Clone, Copy, Debug, PartialEq, Eq, Structural)]
pub enum Polarity {
    Positive,
    Negative,
}

/// The modal interpolation command.
#[derive(Clone, Copy, Debug, PartialEq, Eq, Structural)]
pub enum Interpolation {
    Linear,
    LinearX10,
    LinearX01,
    LinearX001,
    Clockwise,
    CounterClockwise,
}

#[derive(Clone, Copy, Debug, PartialEq, Eq, Structural)]
pub enum QuadrantMode {
    Single,
    Multi,
}

#[derive(Clone, Copy, Debug, PartialEq, Eq, Structural)]
pub enum CoordinateMode {
    Absolute,
    Incremental,
}

#[derive(Clone, Copy, Debug, PartialEq, Eq, Structural)]
pub enum PenState {
    Up,
    Down,
}

/// The coordinate format: integer and decimal digit counts per axis, with
/// the cached divisors `10^decimal_digits`.
#[derive(Clone, Copy, Debug, PartialEq, Eq, Structural)]
pub struct FormatSpec {
    pub x_integer_digits: u32,
    pub x_decimal_digits: u32,
    pub y_integer_digits: u32,
    pub y_decimal_digits: u32,
    pub x_divisor: i64,
    pub y_divisor: i64,
    pub x_total_digits: u32,
    pub y_total_digits: u32,
}

impl FormatSpec {
    /// The default 2.4 format.
    pub fn new_default() -> (r: FormatSpec)
        ensures
            r == spec_default_format(),
    {
        FormatSpec {
            x_integer_digits: 2,
            x_decimal_digits: 4,
            y_integer_digits: 2,
            y_decimal_digits: 4,
            x_divisor: 10_000,
            y_divisor: 10_000,
            x_total_digits: 6,
            y_total_digits: 6,
        }
    }
}

pub open spec fn spec_default_format() -> FormatSpec {
    FormatSpec {
        x_integer_digits: 2,
        x_decimal_digits: 4,
        y_integer_digits: 2,
        y_decimal_digits: 4,
        x_divisor: 10_000,
        y_divisor: 10_000,
        x_total_digits: 6,
        y_total_digits: 6,
    }
}

/// The full modal state of one parse. (The buffer of commands captured
/// inside an aperture-block definition lives with the parser, not here, so
/// the state is plain copyable data.)
#[derive(Clone, Copy, Debug, PartialEq, Eq, Structural)]
pub struct ParserState {
    pub x: i64,
    pub y: i64,
    pub i: i64,
    pub j: i64,
    pub current_aperture: u32,
    pub interpolation_mode: Interpolation,
    pub quadrant_mode: QuadrantMode,
    pub region_mode: bool,
    pub coordinate_mode: CoordinateMode,
    pub scale: i64,
    pub unit_multiplier: i64,
    pub pen_state: PenState,
    pub polarity: Polarity,
    pub format_spec: FormatSpec,
    pub sr_x: u32,
    pub sr_y: u32,
    pub sr_i: i64,
    pub sr_j: i64,
    pub layer_scale: i64,
    pub mirror_x: bool,
    pub mirror_y: bool,
    pub layer_rotation_mdeg: i64,
    pub in_aperture_block: bool,
    pub block_aperture_code: u32,
}

/// The initial modal state, as a value.
pub open spec fn spec_default_state() -> ParserState {
    ParserState {
        x: 0,
        y: 0,
        i: 0,
        j: 0,
        current_aperture: 0,
        interpolation_mode: Interpolation::Linear,
        quadrant_mode: QuadrantMode::Single,
        region_mode: false,
        coordinate_mode: CoordinateMode::Absolute,
        scale: FIX_ONE,
        unit_multiplier: FIX_ONE,
        pen_state: PenState::Up,
        polarity: Polarity::Positive,
        format_spec: spec_default_format(),
        sr_x: 1,
        sr_y: 1,
        sr_i: 0,
        sr_j: 0,
        layer_scale: FIX_ONE,
        mirror_x: false,
        mirror_y: false,
        layer_rotation_mdeg: 0,
        in_aperture_block: false,
        block_aperture_code: 0,
    }
}

/// What a fresh state looks like.
pub open spec fn state_is_default(s: ParserState) -> bool {
    s.x == 0 && s.y == 0 && s.i == 0 && s.j == 0 && s.current_aperture == 0
        && s.interpolation_mode == Interpolation::Linear
        && s.quadrant_mode == QuadrantMode::Single && s.region_mode == false
        && s.coordinate_mode == CoordinateMode::Absolute && s.scale == FIX_ONE
        && s.unit_multiplier == FIX_ONE && s.pen_state == PenState::Up
        && s.polarity == Polarity::Positive && s.format_spec == spec_default_format()
        && s.sr_x == 1 && s.sr_y == 1 && s.sr_i == 0 && s.sr_j == 0
        && s.layer_scale == FIX_ONE && s.mirror_x == false && s.mirror_y == false
        && s.layer_rotation_mdeg == 0 && s.in_aperture_block == false
        && s.block_aperture_code == 0
}

impl ParserState {
    /// The initial state of a parse.
    pub fn new_default() -> (r: ParserState)
        ensures
            r == spec_default_state(),
            state_is_default(r),
    {
        ParserState {
            x: 0,
            y: 0,
            i: 0,
            j: 0,
            current_aperture: 0,
            interpolation_mode: Interpolation::Linear,
            quadrant_mode: QuadrantMode::Single,
            region_mode: false,
            coordinate_mode: CoordinateMode::Absolute,
            scale: FIX_ONE,
            unit_multiplier: FIX_ONE,
            pen_state: PenState::Up,
            polarity: Polarity::Positive,
            format_spec: FormatSpec::new_default(),
            sr_x: 1,
            sr_y: 1,
            sr_i: 0,
            sr_j: 0,
            layer_scale: FIX_ONE,
            mirror_x: false,
            mirror_y: false,
            layer_rotation_mdeg: 0,
            in_aperture_block: false,
            block_aperture_code: 0,
        }
    }
}

/// An extended command with `%` stripped from both ends and trailing `*`
/// removed.
pub open spec fn spec_strip_cmd(line: Seq<u8>) -> Seq<u8> {
    spec_trim_end(spec_trim_end(spec_trim_start(line, 37), 37), 42)
}

/// Strip `%` from both ends and the trailing `*`.
pub fn strip_cmd(line: &[u8]) -> (r: &[u8])
    ensures
        r@ == spec_strip_cmd(line@),
{
    trim_end_byte(trim_end_byte(trim_start_byte(line, 37), 37), 42)
}

/// The unit multiplier a `%MO` command sets: `MM` is 1.0, `IN` is 25.4,
/// anything else leaves the state alone.
pub open spec fn spec_mo_mult(line: Seq<u8>) -> Option<i64> {
    let c = spec_strip_cmd(line);
    if !spec_starts_with(c, seq![77u8, 79u8]) {
        None
    } else if c.skip(2) =~= seq![77u8, 77u8] {
        Some(FIX_ONE)
    } else if c.skip(2) =~= seq![73u8, 78u8] {
        Some(25_400_000i64)
    } else {
        None
    }
}

/// Parse `%MOMM*%` or `%MOIN*%`: set the unit multiplier.
pub fn parse_mo(line: &[u8], state: &mut ParserState)
    ensures
        match spec_mo_mult(line@) {
            Some(m) => *final(state) == (ParserState { unit_multiplier: m, ..*old(state) }),
            None => *final(state) == *old(state),
        },
{
    let c: &[u8] = strip_cmd(line);
    let mo: [u8; 2] = [77, 79];
    proof {
        assert(mo@ =~= seq![77u8, 79u8]);
    }
    if !starts_with(c, mo.as_slice()) {
        return;
    }
    let cl: usize = c.len();
    let rest: &[u8] = vstd::slice::slice_subrange(c, 2, cl);
    proof {
        assert(rest@ =~= c@.skip(2));
    }
    let mm: [u8; 2] = [77, 77];
    let inch: [u8; 2] = [73, 78];
    proof {
        assert(mm@ =~= seq![77u8, 77u8]);
        assert(inch@ =~= seq![73u8, 78u8]);
    }
    if crate::text::bytes_eq(rest, mm.as_slice()) {
        state.unit_multiplier = FIX_ONE;
    } else if crate::text::bytes_eq(rest, inch.as_slice()) {
        state.unit_multiplier = 25_400_000;
    }
}

/// The polarity a `%LP` command selects.
pub open spec fn spec_lp_polarity(line: Seq<u8>) -> Option<Polarity> {
    let c = spec_strip_cmd(line);
    if !spec_starts_with(c, seq![76u8, 80u8]) || c.len() < 3 {
        None
    } else if c[2] == 68 {
        Some(Polarity::Positive)
    } else if c[2] == 67 {
        Some(Polarity::Negative)
    } else {
        None
    }
}

/// Parse `%LPD*%` or `%LPC*%`: on a polarity change with pending
/// primitives, flush them into the sublayer list of the old polarity, then
/// switch.
pub fn parse_lp(
    line: &[u8],
    state: &mut ParserState,
    current_primitives: &mut Vec<Primitive>,
    positive_layers: &mut Vec<Vec<Primitive>>,
    negative_layers: &mut Vec<Vec<Primitive>>,
)
    ensures
        match spec_lp_polarity(line@) {
            Some(p) => {
                let flush = p != old(state).polarity && old(current_primitives)@.len() > 0;
                *final(state) == (ParserState { polarity: p, ..*old(state) })
                    && (if flush {
                    final(current_primitives)@.len() == 0 && (if old(state).polarity
                        == Polarity::Positive {
                        final(positive_layers)@ == old(positive_layers)@.push(
                            *old(current_primitives),
                        ) && *final(negative_layers) == *old(negative_layers)
                    } else {
                        final(negative_layers)@ == old(negative_layers)@.push(
                            *old(current_primitives),
                        ) && *final(positive_layers) == *old(positive_layers)
                    })
                } else {
                    *final(current_primitives) == *old(current_primitives)
                        && *final(positive_layers) == *old(positive_layers)
                        && *final(negative_layers) == *old(negative_layers)
                })
            },
            None => *final(state) == *old(state)
                && *final(current_primitives) == *old(current_primitives)
                && *final(positive_layers) == *old(positive_layers)
                && *final(negative_layers) == *old(negative_layers),
        },
{
    let c: &[u8] = strip_cmd(line);
    let lp: [u8; 2] = [76, 80];
    proof {
        assert(lp@ =~= seq![76u8, 80u8]);
    }
    if !starts_with(c, lp.as_slice()) || c.len() < 3 {
        return;
    }
    let new_polarity: Polarity;
    if c[2] == 68 {
        new_polarity = Polarity::Positive;
    } else if c[2] == 67 {
        new_polarity = Polarity::Negative;
    } else {
        return;
    }
    let changed: bool = match (state.polarity, new_polarity) {
        (Polarity::Positive, Polarity::Negative) => true,
        (Polarity::Negative, Polarity::Positive) => true,
        _ => false,
    };
    if changed && current_primitives.len() > 0 {
        let mut taken: Vec<Primitive> = Vec::new();
        core::mem::swap(&mut taken, current_primitives);
        let keep_pos: bool = match state.polarity {
            Polarity::Positive => true,
            Polarity::Negative => false,
        };
        if keep_pos {
            positive_layers.push(taken);
        } else {
            negative_layers.push(taken);
        }
    }
    state.polarity = new_polarity;
}

/// The polarity a `%IF` command selects (`POS` or `NEG`).
pub open spec fn spec_if_polarity(line: Seq<u8>) -> Option<Polarity> {
    let c = spec_strip_cmd(line);
    if !spec_starts_with(c, seq![73u8, 70u8]) {
        None
    } else if c.skip(2) =~= seq![80u8, 79u8, 83u8] {
        Some(Polarity::Positive)
    } else if c.skip(2) =~= seq![78u8, 69u8, 71u8] {
        Some(Polarity::Negative)
    } else {
        None
    }
}

/// Parse `%IFPOS*%` or `%IFNEG*%`: set the image polarity (stored; no
/// flush).
pub fn parse_if(line: &[u8], state: &mut ParserState)
    ensures
        match spec_if_polarity(line@) {
            Some(p) => *final(state) == (ParserState { polarity: p, ..*old(state) }),
            None => *final(state) == *old(state),
        },
{
    let c: &[u8] = strip_cmd(line);
    let pfx: [u8; 2] = [73, 70];
    proof {
        assert(pfx@ =~= seq![73u8, 70u8]);
    }
    if !starts_with(c, pfx.as_slice()) {
        return;
    }
    let cl: usize = c.len();
    let rest: &[u8] = vstd::slice::slice_subrange(c, 2, cl);
    proof {
        assert(rest@ =~= c@.skip(2));
    }
    let pos: [u8; 3] = [80, 79, 83];
    let neg: [u8; 3] = [78, 69, 71];
    proof {
        assert(pos@ =~= seq![80u8, 79u8, 83u8]);
        assert(neg@ =~= seq![78u8, 69u8, 71u8]);
    }
    if crate::text::bytes_eq(rest, pos.as_slice()) {
        state.polarity = Polarity::Positive;
    } else if crate::text::bytes_eq(rest, neg.as_slice()) {
        state.polarity = Polarity::Negative;
    }
}

/// The layer scale a `%LS` command sets.
pub open spec fn spec_ls_scale(line: Seq<u8>) -> Option<i64> {
    let c = spec_strip_cmd(line);
    if !spec_starts_with(c, seq![76u8, 83u8]) {
        None
    } else {
        match spec_parse_decimal(c.skip(2)) {
            Some(v) => Some(v as i64),
            None => None,
        }
    }
}

/// Parse `%LS0.8*%`: set the layer scale factor.
pub fn parse_ls(line: &[u8], state: &mut ParserState)
    ensures
        match spec_ls_scale(line@) {
            Some(v) => *final(state) == (ParserState { layer_scale: v, ..*old(state) }),
            None => *final(state) == *old(state),
        },
{
    let c: &[u8] = strip_cmd(line);
    let pfx: [u8; 2] = [76, 83];
    proof {
        assert(pfx@ =~= seq![76u8, 83u8]);
    }
    if !starts_with(c, pfx.as_slice()) {
        return;
    }
    let cl: usize = c.len();
    let rest: &[u8] = vstd::slice::slice_subrange(c, 2, cl);
    proof {
        assert(rest@ =~= c@.skip(2));
    }
    match parse_decimal(rest) {
        Some(v) => {
            state.layer_scale = v;
        },
        None => {
        },
    }
}

/// The rotation a `%LR` command sets, in milli-degrees.
pub open spec fn spec_lr_rotation(line: Seq<u8>) -> Option<i64> {
    let c = spec_strip_cmd(line);
    if !spec_starts_with(c, seq![76u8, 82u8]) {
        None
    } else {
        match spec_parse_decimal(c.skip(2)) {
            Some(v) => Some(div_trunc(v, 1000) as i64),
            None => None,
        }
    }
}

/// Parse `%LR45.0*%`: set the layer rotation (stored in milli-degrees).
pub fn parse_lr(line: &[u8], state: &mut ParserState)
    ensures
        match spec_lr_rotation(line@) {
            Some(v) => *final(state) == (ParserState { layer_rotation_mdeg: v, ..*old(state) }),
            None => *final(state) == *old(state),
        },
{
    let c: &[u8] = strip_cmd(line);
    let pfx: [u8; 2] = [76, 82];
    proof {
        assert(pfx@ =~= seq![76u8, 82u8]);
    }
    if !starts_with(c, pfx.as_slice()) {
        return;
    }
    let cl: usize = c.len();
    let rest: &[u8] = vstd::slice::slice_subrange(c, 2, cl);
    proof {
        assert(rest@ =~= c@.skip(2));
    }
    match parse_decimal(rest) {
        Some(v) => {
            state.layer_rotation_mdeg = crate::fixed::div_trunc_wide(v as i128, 1000) as i64;
        },
        None => {
        },
    }
}

/// The mirror flags a `%LM` command sets: `N`, `X`, `Y` or `XY`.
pub open spec fn spec_lm_mirror(line: Seq<u8>) -> Option<(bool, bool)> {
    let c = spec_strip_cmd(line);
    if !spec_starts_with(c, seq![76u8, 77u8]) {
        None
    } else if c.skip(2) =~= seq![78u8] {
        Some((false, false))
    } else if c.skip(2) =~= seq![88u8] {
        Some((true, false))
    } else if c.skip(2) =~= seq![89u8] {
        Some((false, true))
    } else if c.skip(2) =~= seq![88u8, 89u8] {
        Some((true, true))
    } else {
        None
    }
}

/// Parse `%LMN*%`, `%LMX*%`, `%LMY*%` or `%LMXY*%`: set the mirror flags.
pub fn parse_lm(line: &[u8], state: &mut ParserState)
    ensures
        match spec_lm_mirror(line@) {
            Some(m) => *final(state) == (ParserState {
                mirror_x: m.0,
                mirror_y: m.1,
                ..*old(state)
            }),
            None => *final(state) == *old(state),
        },
{
    let c: &[u8] = strip_cmd(line);
    let pfx: [u8; 2] = [76, 77];
    proof {
        assert(pfx@ =~= seq![76u8, 77u8]);
    }
    if !starts_with(c, pfx.as_slice()) {
        return;
    }
    let cl: usize = c.len();
    let rest: &[u8] = vstd::slice::slice_subrange(c, 2, cl);
    proof {
        assert(rest@ =~= c@.skip(2));
    }
    let n: [u8; 1] = [78];
    let xx: [u8; 1] = [88];
    let yy: [u8; 1] = [89];
    let xy: [u8; 2] = [88, 89];
    proof {
        assert(n@ =~= seq![78u8]);
        assert(xx@ =~= seq![88u8]);
        assert(yy@ =~= seq![89u8]);
        assert(xy@ =~= seq![88u8, 89u8]);
    }
    if crate::text::bytes_eq(rest, n.as_slice()) {
        state.mirror_x = false;
        state.mirror_y = false;
    } else if crate::text::bytes_eq(rest, xx.as_slice()) {
        state.mirror_x = true;
        state.mirror_y = false;
    } else if crate::text::bytes_eq(rest, yy.as_slice()) {
        state.mirror_x = false;
        state.mirror_y = true;
    } else if crate::text::bytes_eq(rest, xy.as_slice()) {
        state.mirror_x = true;
        state.mirror_y = true;
    }
}

/// A unit round trip: switching to inches and back to millimetres restores
/// the coordinate scaling of the first millimetre command exactly.
pub proof fn lemma_unit_round_trip(s: ParserState, mm: Seq<u8>, inch: Seq<u8>)
    requires
        spec_mo_mult(mm) == Some(FIX_ONE),
        spec_mo_mult(inch) == Some(25_400_000i64),
    ensures
        ({
            let s1 = ParserState { unit_multiplier: spec_mo_mult(mm)->0, ..s };
            let s2 = ParserState { unit_multiplier: spec_mo_mult(inch)->0, ..s1 };
            let s3 = ParserState { unit_multiplier: spec_mo_mult(mm)->0, ..s2 };
            s3 == s1
        }),
{
}

/// Identity layer transforms: a mirror reset, a zero rotation and a unit
/// scale leave a state whose transforms are already the defaults
/// bit-identical, so all geometry derived from it is unchanged.
pub proof fn lemma_identity_transforms(
    s: ParserState,
    lm: Seq<u8>,
    lr: Seq<u8>,
    ls: Seq<u8>,
)
    requires
        spec_lm_mirror(lm) == Some((false, false)),
        spec_lr_rotation(lr) == Some(0i64),
        spec_ls_scale(ls) == Some(FIX_ONE),
        s.mirror_x == false,
        s.mirror_y == false,
        s.layer_rotation_mdeg == 0,
        s.layer_scale == FIX_ONE,
    ensures
        ({
            let m = spec_lm_mirror(lm)->0;
            let s1 = ParserState { mirror_x: m.0, mirror_y: m.1, ..s };
            let s2 = ParserState { layer_rotation_mdeg: spec_lr_rotation(lr)->0, ..s1 };
            let s3 = ParserState { layer_scale: spec_ls_scale(ls)->0, ..s2 };
            s3 == s
        }),
{
}


/// `10^d`, saturated at `10^18` so it fits an `i64`.
pub open spec fn divisor_of(d: nat) -> int {
    if d <= 18 {
        pow10(d)
    } else {
        pow10(18)
    }
}

/// Compute `10^d` as an `i64`, saturated at `10^18`.
pub fn pow10_i64(d: u32) -> (r: i64)
    ensures
        r as int == divisor_of(d as nat),
        r >= 1,
{
    let e: u32 = if d > 18 {
        18
    } else {
        d
    };
    let mut r: i64 = 1;
    let mut k: u32 = 0;
    proof {
        lemma_pow10_vals();
        crate::text::lemma_pow10_mono(e as nat, 18);
    }
    while k < e
        invariant
            0 <= k <= e <= 18,
            r as int == pow10(k as nat),
            r >= 1,
            pow10(e as nat) <= pow10(18),
            pow10(18) == 1_000_000_000_000_000_000,
        decreases e - k,
    {
        proof {
            crate::text::lemma_pow10_mono((k + 1) as nat, e as nat);
        }
        r = r * 10;
        k = k + 1;
    }
    r
}

/// The format and coordinate mode a `%FS` command sets, mirroring the
/// positional scan: an `X` section of two digits, then a `Y` section, with
/// the cached divisors recomputed from the (possibly partially updated)
/// digit counts.
pub open spec fn spec_fs(line: Seq<u8>, oldf: FormatSpec) -> Option<(FormatSpec,
    CoordinateMode)> {
    let c = spec_strip_cmd(line);
    if !spec_starts_with(c, seq![70u8, 83u8]) {
        None
    } else {
        let sc = c.skip(2);
        if sc.len() < 2 {
            None
        } else {
            let mode = if sc[1] == 73 {
                CoordinateMode::Incremental
            } else {
                CoordinateMode::Absolute
            };
            let xsec: (u32, u32, int) = if sc.len() > 2 && sc[2] == 88 {
                if 4 < sc.len() {
                    if is_digit(sc[3]) && is_digit(sc[4]) {
                        (((sc[3] - 48) as u32), ((sc[4] - 48) as u32), 5)
                    } else {
                        (oldf.x_integer_digits, oldf.x_decimal_digits, 5)
                    }
                } else {
                    (oldf.x_integer_digits, oldf.x_decimal_digits, 3)
                }
            } else {
                (oldf.x_integer_digits, oldf.x_decimal_digits, 2)
            };
            let ysec: (u32, u32) = if xsec.2 < sc.len() && sc[xsec.2] == 89 {
                if xsec.2 + 2 < sc.len() {
                    if is_digit(sc[xsec.2 + 1]) && is_digit(sc[xsec.2 + 2]) {
                        (((sc[xsec.2 + 1] - 48) as u32), ((sc[xsec.2 + 2] - 48) as u32))
                    } else {
                        (oldf.y_integer_digits, oldf.y_decimal_digits)
                    }
                } else {
                    (oldf.y_integer_digits, oldf.y_decimal_digits)
                }
            } else {
                (oldf.y_integer_digits, oldf.y_decimal_digits)
            };
            Some(
                (FormatSpec {
                    x_integer_digits: xsec.0,
                    x_decimal_digits: xsec.1,
                    y_integer_digits: ysec.0,
                    y_decimal_digits: ysec.1,
                    x_divisor: divisor_of(xsec.1 as nat) as i64,
                    y_divisor: divisor_of(ysec.1 as nat) as i64,
                    x_total_digits: (xsec.0 + xsec.1) as u32,
                    y_total_digits: (ysec.0 + ysec.1) as u32,
                }, mode),
            )
        }
    }
}

/// Parse `%FSLAX24Y24*%`: set the coordinate format and mode.
#[verifier::rlimit(60)]
pub fn parse_format_spec(line: &[u8], state: &mut ParserState)
    ensures
        match spec_fs(line@, old(state).format_spec) {
            Some(fm) => *final(state) == (ParserState {
                format_spec: fm.0,
                coordinate_mode: fm.1,
                ..*old(state)
            }),
            None => *final(state) == *old(state),
        },
{
    let c: &[u8] = strip_cmd(line);
    let pfx: [u8; 2] = [70, 83];
    proof {
        assert(pfx@ =~= seq![70u8, 83u8]);
    }
    if !starts_with(c, pfx.as_slice()) {
        return;
    }
    let cl: usize = c.len();
    let sc: &[u8] = vstd::slice::slice_subrange(c, 2, cl);
    proof {
        assert(sc@ =~= c@.skip(2));
    }
    if sc.len() < 2 {
        return;
    }
    let mode: CoordinateMode = if sc[1] == 73 {
        CoordinateMode::Incremental
    } else {
        CoordinateMode::Absolute
    };
    let mut xi: u32 = state.format_spec.x_integer_digits;
    let mut xd: u32 = state.format_spec.x_decimal_digits;
    let mut yi: u32 = state.format_spec.y_integer_digits;
    let mut yd: u32 = state.format_spec.y_decimal_digits;
    let mut pos: usize = 2;
    if sc.len() > 2 && sc[2] == 88 {
        if 4 < sc.len() {
            if sc[3] >= 48 && sc[3] <= 57 && sc[4] >= 48 && sc[4] <= 57 {
                xi = (sc[3] - 48) as u32;
                xd = (sc[4] - 48) as u32;
            }
            pos = 5;
        } else {
            pos = 3;
        }
    }
    if pos < sc.len() && sc[pos] == 89 {
        if pos + 2 < sc.len() {
            if sc[pos + 1] >= 48 && sc[pos + 1] <= 57 && sc[pos + 2] >= 48 && sc[pos + 2] <= 57 {
                yi = (sc[pos + 1] - 48) as u32;
                yd = (sc[pos + 2] - 48) as u32;
            }
        }
    }
    let xdiv: i64 = pow10_i64(xd);
    let ydiv: i64 = pow10_i64(yd);
    state.format_spec = FormatSpec {
        x_integer_digits: xi,
        x_decimal_digits: xd,
        y_integer_digits: yi,
        y_decimal_digits: yd,
        x_divisor: xdiv,
        y_divisor: ydiv,
        x_total_digits: #[verifier::truncate] ((xi as u64 + xd as u64) as u32),
        y_total_digits: #[verifier::truncate] ((yi as u64 + yd as u64) as u32),
    };
    state.coordinate_mode = mode;
}

/// The run of bytes that a step-and-repeat number may hold (digits, `-`,
/// `.`).
pub open spec fn sr_num_byte(b: u8) -> bool {
    is_digit(b) || b == 45 || b == 46
}

pub open spec fn sr_run(s: Seq<u8>) -> int
    decreases s.len(),
{
    if s.len() == 0 || !sr_num_byte(s[0]) {
        0
    } else {
        1 + sr_run(s.skip(1))
    }
}

proof fn lemma_sr_run_from_scan(s: Seq<u8>, n: int)
    requires
        0 <= n <= s.len(),
        forall|i: int| 0 <= i < n ==> sr_num_byte(#[trigger] s[i]),
        n < s.len() ==> !sr_num_byte(s[n]),
    ensures
        sr_run(s) == n,
    decreases n,
{
    if n > 0 {
        assert forall|i: int| 0 <= i < n - 1 implies sr_num_byte(#[trigger] s.skip(1)[i]) by {
            assert(s.skip(1)[i] == s[i + 1]);
        }
        if n - 1 < s.skip(1).len() {
            assert(s.skip(1)[n - 1] == s[n]);
        }
        lemma_sr_run_from_scan(s.skip(1), n - 1);
    }
}

proof fn lemma_sr_run_bounds(s: Seq<u8>)
    ensures
        0 <= sr_run(s) <= s.len(),
    decreases s.len(),
{
    if s.len() > 0 && sr_num_byte(s[0]) {
        lemma_sr_run_bounds(s.skip(1));
    }
}

/// The number run after the first occurrence of `key`, or `None` when the
/// key is absent.
pub open spec fn sr_field(sc: Seq<u8>, key: u8) -> Option<Seq<u8>> {
    if has_byte(sc, key) {
        let rest = sc.skip(first_occ(sc, key) + 1);
        Some(rest.take(sr_run(rest)))
    } else {
        None
    }
}

/// A count field: the run parsed as an unsigned 32-bit integer.
pub open spec fn sr_count(sc: Seq<u8>, key: u8) -> Option<u32> {
    match sr_field(sc, key) {
        Some(run) => match spec_parse_digits(run) {
            Some(v) => if v <= u32::MAX as int {
                Some(v as u32)
            } else {
                None
            },
            None => None,
        },
        None => None,
    }
}

/// A step field: the run parsed as a fixed-point decimal.
pub open spec fn sr_step(sc: Seq<u8>, key: u8) -> Option<i64> {
    match sr_field(sc, key) {
        Some(run) => match spec_parse_decimal(run) {
            Some(v) => Some(v as i64),
            None => None,
        },
        None => None,
    }
}

/// The step-and-repeat settings a `%SR` command leaves: `None` when the
/// line is not an `SR` command; an empty body resets to one copy.
pub open spec fn spec_sr(line: Seq<u8>, s: ParserState) -> Option<(u32, u32, i64, i64)> {
    let c = spec_strip_cmd(line);
    if !spec_starts_with(c, seq![83u8, 82u8]) {
        None
    } else {
        let sc = c.skip(2);
        if sc.len() == 0 {
            Some((1u32, 1u32, 0i64, 0i64))
        } else {
            Some(
                (match sr_count(sc, 88) {
                    Some(v) => v,
                    None => s.sr_x,
                }, match sr_count(sc, 89) {
                    Some(v) => v,
                    None => s.sr_y,
                }, match sr_step(sc, 73) {
                    Some(v) => v,
                    None => s.sr_i,
                }, match sr_step(sc, 74) {
                    Some(v) => v,
                    None => s.sr_j,
                }),
            )
        }
    }
}

/// Scan the step-and-repeat number run after `key` in `sc`.
fn sr_field_exec(sc: &[u8], key: u8) -> (r: Option<Vec<u8>>)
    ensures
        match sr_field(sc@, key) {
            Some(run) => r is Some && r->0@ == run,
            None => r is None,
        },
{
    match find_byte(sc, key) {
        Some(p) => {
            let scl: usize = sc.len();
            proof {
                assert(p < scl);
            }
            let rest: &[u8] = vstd::slice::slice_subrange(sc, p + 1, scl);
            proof {
                assert(rest@ =~= sc@.skip(p as int + 1));
                lemma_sr_run_bounds(rest@);
            }
            let mut e: usize = 0;
            while e < rest.len() && ((rest[e] >= 48 && rest[e] <= 57) || rest[e] == 45
                || rest[e] == 46)
                invariant
                    0 <= e <= rest@.len(),
                    forall|i: int| 0 <= i < e ==> sr_num_byte(#[trigger] rest@[i]),
                decreases rest@.len() - e,
            {
                e = e + 1;
            }
            proof {
                lemma_sr_run_from_scan(rest@, e as int);
            }
            let run: &[u8] = vstd::slice::slice_subrange(rest, 0, e);
            let mut out: Vec<u8> = Vec::new();
            crate::text::append_bytes(&mut out, run);
            proof {
                assert(out@ =~= rest@.take(sr_run(rest@)));
            }
            Some(out)
        },
        None => None,
    }
}

fn sr_count_exec(sc: &[u8], key: u8) -> (r: Option<u32>)
    ensures
        r == sr_count(sc@, key),
{
    match sr_field_exec(sc, key) {
        Some(run) => match crate::text::parse_int(run.as_slice()) {
            Some(v) => {
                if v >= 0 && v <= u32::MAX as i64 && run.len() > 0 && run[0] != 43 && run[0]
                    != 45 {
                    proof {
                        crate::macro_def::lemma_digits_parse_agree(run@, v as u32);
                    }
                    Some(v as u32)
                } else {
                    proof {
                        crate::macro_def::lemma_digits_parse_disagree(run@);
                    }
                    None
                }
            },
            None => None,
        },
        None => None,
    }
}

fn sr_step_exec(sc: &[u8], key: u8) -> (r: Option<i64>)
    ensures
        r == sr_step(sc@, key),
{
    match sr_field_exec(sc, key) {
        Some(run) => match parse_decimal(run.as_slice()) {
            Some(v) => Some(v),
            None => None,
        },
        None => None,
    }
}

/// Parse `%SRX3Y2I10J20*%` or the bare reset `%SR*%`: set or clear the
/// step-and-repeat grid.
pub fn parse_sr(line: &[u8], state: &mut ParserState)
    ensures
        match spec_sr(line@, *old(state)) {
            Some(v) => *final(state) == (ParserState {
                sr_x: v.0,
                sr_y: v.1,
                sr_i: v.2,
                sr_j: v.3,
                ..*old(state)
            }),
            None => *final(state) == *old(state),
        },
{
    let c: &[u8] = strip_cmd(line);
    let pfx: [u8; 2] = [83, 82];
    proof {
        assert(pfx@ =~= seq![83u8, 82u8]);
    }
    if !starts_with(c, pfx.as_slice()) {
        return;
    }
    let cl: usize = c.len();
    let sc: &[u8] = vstd::slice::slice_subrange(c, 2, cl);
    proof {
        assert(sc@ =~= c@.skip(2));
    }
    if sc.len() == 0 {
        state.sr_x = 1;
        state.sr_y = 1;
        state.sr_i = 0;
        state.sr_j = 0;
        return;
    }
    match sr_count_exec(sc, 88) {
        Some(v) => {
            state.sr_x = v;
        },
        None => {
        },
    }
    match sr_count_exec(sc, 89) {
        Some(v) => {
            state.sr_y = v;
        },
        None => {
        },
    }
    match sr_step_exec(sc, 73) {
        Some(v) => {
            state.sr_i = v;
        },
        None => {
        },
    }
    match sr_step_exec(sc, 74) {
        Some(v) => {
            state.sr_j = v;
        },
        None => {
        },
    }
}

/// A bare `%SR*%` and an explicit one-by-one grid with zero offsets leave
/// identical step-and-repeat settings, whatever the prior state.
pub proof fn lemma_sr_reset_forms_agree(
    s: ParserState,
    bare: Seq<u8>,
    explicit: Seq<u8>,
)
    requires
        spec_sr(bare, s) == Some((1u32, 1u32, 0i64, 0i64)),
        spec_sr(explicit, s) == Some((1u32, 1u32, 0i64, 0i64)),
    ensures
        ({
            let a = spec_sr(bare, s)->0;
            let b = spec_sr(explicit, s)->0;
            ParserState { sr_x: a.0, sr_y: a.1, sr_i: a.2, sr_j: a.3, ..s }
                == ParserState { sr_x: b.0, sr_y: b.1, sr_i: b.2, sr_j: b.3, ..s }
        }),
{
}

} // verus!
