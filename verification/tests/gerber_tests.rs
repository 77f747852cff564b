//! End-to-end and unit tests over the fixed-point Gerber engine.
//!
//! Coordinates are i64 units of 10^-6 mm: 1 mm is 1_000_000.

use gerber_core::parser::GerberParser;
use gerber_core::state::{ParserState, FormatSpec, Polarity};
use gerber_core::graphics::{convert_coordinate, extract_value};
use gerber_core::expr::{tokenize, evaluate_expression, VarTable, Token, EvalError};
use gerber_core::text::{parse_decimal, format_fixed, trim, split_bytes};
use gerber_core::macro_def::{MacroTable, parse_macro, check_macro_has_negative, ApertureMacro};
use gerber_core::aperture::{ApertureTable, parse_aperture};
use gerber_core::trig::{sin_mdeg, cos_mdeg};
use gerber_core::odb::{
    parse_symbol_definition, parse_pad as odb_parse_pad, parse_line as odb_parse_line,
    parse_matrix, SymbolShape, SymbolTable,
};
use gerber_core::fixed::{fix_mul, fix_div, sat_add, isqrt};

const MM: i64 = 1_000_000;

fn parse(src: &str) -> Vec<gerber_core::buffers::GerberData> {
    let mut p = GerberParser::new();
    p.parse(src)
}

#[test]
fn single_circular_flash() {
    let layers = parse("%FSLAX24Y24*%\n%MOMM*%\n%ADD10C,0.5*%\nD10*\nX0Y0D03*\nM02*\n");
    assert_eq!(layers.len(), 1);
    let l = &layers[0];
    assert_eq!(l.circles.x.len(), 1);
    assert_eq!(l.circles.x[0], 0);
    assert_eq!(l.circles.y[0], 0);
    assert_eq!(l.circles.radius[0], MM / 4);
    assert_eq!(l.circles.hole_radius[0], 0);
    assert_eq!(l.triangles.indices.len(), 0);
    assert_eq!(l.boundary.min_x, -MM / 4);
    assert_eq!(l.boundary.max_x, MM / 4);
    assert_eq!(l.boundary.min_y, -MM / 4);
    assert_eq!(l.boundary.max_y, MM / 4);
}

#[test]
fn stroke_emits_end_caps_and_rectangle() {
    let layers = parse(
        "%FSLAX24Y24*%\n%MOMM*%\n%ADD10C,0.2*%\nD10*\nX0Y0D02*\nX100000Y0D01*\nM02*\n",
    );
    assert_eq!(layers.len(), 1);
    let l = &layers[0];
    // One flash at each endpoint, and two triangles spanning the segment.
    assert_eq!(l.circles.x.len(), 2);
    assert_eq!(l.circles.x[0], 0);
    assert_eq!(l.circles.x[1], 10 * MM);
    assert_eq!(l.circles.radius[0], MM / 10);
    assert_eq!(l.triangles.indices.len(), 6);
    // The rectangle is 0.2 mm wide around y = 0.
    assert_eq!(l.boundary.min_y, -MM / 10);
    assert_eq!(l.boundary.max_y, MM / 10);
}

#[test]
fn degenerate_stroke_flashes_ends_only() {
    let layers = parse(
        "%FSLAX24Y24*%\n%MOMM*%\n%ADD10C,0.2*%\nD10*\nX0Y0D02*\nX0Y0D01*\nM02*\n",
    );
    assert_eq!(layers.len(), 1);
    let l = &layers[0];
    assert_eq!(l.circles.x.len(), 2);
    assert_eq!(l.triangles.indices.len(), 0);
}

#[test]
fn polarity_flip_makes_two_sublayers() {
    let layers = parse(
        "%FSLAX24Y24*%\n%MOMM*%\n%ADD10C,0.5*%\nD10*\nX0Y0D03*\n%LPC*%\nX10000Y0D03*\nM02*\n",
    );
    assert_eq!(layers.len(), 2);
    assert_eq!(layers[0].circles.x.len(), 1);
    assert_eq!(layers[0].circles.x[0], 0);
    assert_eq!(layers[1].circles.x.len(), 1);
    assert_eq!(layers[1].circles.x[0], MM);
}

#[test]
fn step_and_repeat_tiles_a_flash() {
    let layers = parse(
        "%FSLAX24Y24*%\n%MOMM*%\n%ADD10C,0.5*%\n%SRX2Y2I5J5*%\nD10*\nX0Y0D03*\nM02*\n",
    );
    assert_eq!(layers.len(), 1);
    let l = &layers[0];
    assert_eq!(l.circles.x.len(), 4);
    let mut centers: Vec<(i64, i64)> = (0..4).map(|k| (l.circles.x[k], l.circles.y[k])).collect();
    centers.sort();
    assert_eq!(centers, vec![(0, 0), (0, 5 * MM), (5 * MM, 0), (5 * MM, 5 * MM)]);
}

#[test]
fn step_and_repeat_reset_forms_agree() {
    let bare = parse(
        "%FSLAX24Y24*%\n%MOMM*%\n%ADD10C,0.5*%\n%SRX2Y2I5J5*%\n%SR*%\nD10*\nX0Y0D03*\nM02*\n",
    );
    let explicit = parse(
        "%FSLAX24Y24*%\n%MOMM*%\n%ADD10C,0.5*%\n%SRX2Y2I5J5*%\n%SRX1Y1I0J0*%\nD10*\nX0Y0D03*\nM02*\n",
    );
    assert_eq!(bare.len(), 1);
    assert_eq!(explicit.len(), 1);
    assert_eq!(bare[0].circles.x.len(), 1);
    assert_eq!(explicit[0].circles.x.len(), 1);
    assert_eq!(bare[0].circles.x[0], explicit[0].circles.x[0]);
    assert_eq!(bare[0].circles.y[0], explicit[0].circles.y[0]);
}

#[test]
fn unit_round_trip_restores_scaling() {
    let mm_once = parse("%FSLAX24Y24*%\n%MOMM*%\n%ADD10C,0.5*%\nD10*\nX1000Y0D03*\nM02*\n");
    let round = parse(
        "%FSLAX24Y24*%\n%MOMM*%\n%MOIN*%\n%MOMM*%\n%ADD10C,0.5*%\nD10*\nX1000Y0D03*\nM02*\n",
    );
    assert_eq!(mm_once[0].circles.x[0], MM / 10);
    assert_eq!(round[0].circles.x[0], MM / 10);
}

#[test]
fn identity_transforms_leave_geometry_unchanged() {
    let plain = parse("%FSLAX24Y24*%\n%MOMM*%\n%ADD10C,0.5*%\nD10*\nX1000Y2000D03*\nM02*\n");
    let with_ident = parse(
        "%FSLAX24Y24*%\n%MOMM*%\n%LMN*%\n%LR0*%\n%LS1*%\n%ADD10C,0.5*%\nD10*\nX1000Y2000D03*\nM02*\n",
    );
    assert_eq!(plain[0].circles.x[0], with_ident[0].circles.x[0]);
    assert_eq!(plain[0].circles.y[0], with_ident[0].circles.y[0]);
    assert_eq!(plain[0].circles.radius[0], with_ident[0].circles.radius[0]);
    assert_eq!(plain[0].boundary, with_ident[0].boundary);
}

#[test]
fn format_2_4_scales_by_ten_thousand() {
    let fs = FormatSpec::new_default();
    let x = convert_coordinate(b"1000", 120, &fs, MM);
    let y = convert_coordinate(b"1000", 121, &fs, MM);
    assert_eq!(x, MM / 10);
    assert_eq!(y, MM / 10);
}

#[test]
fn region_with_hole_triangulates_outside_the_hole() {
    // A 10 mm outer square, counter-clockwise, with a centered 2 mm hole,
    // clockwise.
    let src = "%FSLAX24Y24*%\n%MOMM*%\n%ADD10C,0.1*%\nD10*\nG36*\nX0Y0D02*\nX100000Y0D01*\nX100000Y100000D01*\nX0Y100000D01*\nX0Y0D01*\nD02*\nX40000Y40000D01*\nX40000Y60000D01*\nX60000Y60000D01*\nX60000Y40000D01*\nG37*\nM02*\n";
    let layers = parse(src);
    assert_eq!(layers.len(), 1);
    let l = &layers[0];
    assert!(l.triangles.indices.len() >= 3);
    // No triangle vertex lies strictly inside the hole, and the total area
    // is exactly the outer square minus the hole: the hole is subtracted,
    // not filled.
    let verts = &l.triangles.vertices;
    let mut i = 0;
    let mut doubled_area: i128 = 0;
    while i + 5 < verts.len() {
        let (x1, y1) = (verts[i] as i128, verts[i + 1] as i128);
        let (x2, y2) = (verts[i + 2] as i128, verts[i + 3] as i128);
        let (x3, y3) = (verts[i + 4] as i128, verts[i + 5] as i128);
        doubled_area += ((x2 - x1) * (y3 - y1) - (x3 - x1) * (y2 - y1)).abs();
        let mut j = 0;
        while j < 6 {
            let x = verts[i + j];
            let y = verts[i + j + 1];
            let inside = x > 4 * MM && x < 6 * MM && y > 4 * MM && y < 6 * MM;
            assert!(!inside, "vertex ({}, {}) lies inside the hole", x, y);
            j += 2;
        }
        i += 6;
    }
    let outer = (10 * MM as i128) * (10 * MM as i128);
    let hole = (2 * MM as i128) * (2 * MM as i128);
    assert_eq!(doubled_area, 2 * (outer - hole));
}

#[test]
fn macro_with_expressions_yields_centered_rectangle() {
    let src = "%FSLAX24Y24*%\n%MOMM*%\n%AMRECT*21,1,$1,$2,0,0,0*%\n%ADD10RECT,2X3*%\nD10*\nX0Y0D03*\nM02*\n";
    let layers = parse(src);
    assert_eq!(layers.len(), 1);
    let l = &layers[0];
    assert_eq!(l.triangles.indices.len(), 6);
    let verts = &l.triangles.vertices;
    let mut min_x = i64::MAX;
    let mut max_x = i64::MIN;
    let mut min_y = i64::MAX;
    let mut max_y = i64::MIN;
    let mut i = 0;
    while i + 1 < verts.len() {
        min_x = min_x.min(verts[i]);
        max_x = max_x.max(verts[i]);
        min_y = min_y.min(verts[i + 1]);
        max_y = max_y.max(verts[i + 1]);
        i += 2;
    }
    assert_eq!((min_x, max_x), (-MM, MM));
    assert_eq!((min_y, max_y), (-(3 * MM) / 2, (3 * MM) / 2));
}

#[test]
fn division_by_zero_cancels_only_that_primitive() {
    let mut macros = MacroTable::new();
    parse_macro(b"%AMBAD*1,1,1,0,0*1,1,$1/0,0,0*1,1,1,5,5*%", &mut macros);
    let m = macros.get(b"BAD").expect("macro registered");
    let params = vec![2 * MM];
    let prims = m.instantiate(&params);
    // The failing middle statement emits nothing; its neighbours survive.
    assert_eq!(prims.len(), 2);
}

#[test]
fn single_quadrant_arc_is_clamped_to_a_quarter_turn() {
    // Single-quadrant mode with a sweep that would exceed ninety degrees:
    // the emitted arc's end point is the exact quarter turn of its start.
    let src = "%FSLAX24Y24*%\n%MOMM*%\n%ADD10C,0.1*%\nD10*\nG74*\nG03*\nX0Y0D02*\nX20000Y0I10000J0D01*\nM02*\n";
    let layers = parse(src);
    let l = &layers[0];
    assert_eq!(l.arcs.x.len(), 1);
    let cx = l.arcs.x[0];
    let cy = l.arcs.y[0];
    let (ux, uy) = (l.arcs.start_x[0] - cx, l.arcs.start_y[0] - cy);
    let (vx, vy) = (l.arcs.end_x[0] - cx, l.arcs.end_y[0] - cy);
    let dot = (ux as i128) * (vx as i128) + (uy as i128) * (vy as i128);
    assert_eq!(dot, 0, "clamped sweep must be exactly ninety degrees");
}

#[test]
fn expression_serialization_round_trips() {
    for v in [0i64, 1, -1, 2_500_000, -123_456_789, i64::MAX, i64::MIN] {
        let text = format_fixed(v);
        assert_eq!(parse_decimal(&text), Some(v));
    }
}

#[test]
fn expression_evaluation_folds_left_to_right() {
    let mut vars = VarTable::new();
    vars.set(1, 4 * MM);
    assert_eq!(evaluate_expression(b"$1/2", &vars), Ok(2 * MM));
    assert_eq!(evaluate_expression(b"2X3", &vars), Ok(6 * MM));
    // Only uppercase X means multiply; lowercase is an invalid character.
    assert_eq!(evaluate_expression(b"2x3", &vars), Err(EvalError::InvalidCharacter(120)));
    assert_eq!(evaluate_expression(b"2X3X4", &vars), Ok(24 * MM));
    assert_eq!(evaluate_expression(b"1+2X3", &vars), Ok(7 * MM));
    assert_eq!(evaluate_expression(b"-$1", &vars), Ok(-4 * MM));
    assert_eq!(evaluate_expression(b"1/0", &vars), Err(EvalError::DivisionByZero));
    assert_eq!(evaluate_expression(b"$9", &vars), Err(EvalError::UndefinedVariable(9)));
    assert_eq!(evaluate_expression(b"", &vars), Err(EvalError::EmptyExpression));
    assert_eq!(evaluate_expression(b"a", &vars), Err(EvalError::InvalidCharacter(97)));
    assert_eq!(evaluate_expression(b"1..2", &vars), Err(EvalError::InvalidNumber));
}

#[test]
fn tokenizer_handles_signs_and_variables() {
    let toks = tokenize(b"-$1+2.5").expect("tokenizes");
    assert_eq!(
        toks,
        vec![Token::Minus, Token::Var(1), Token::Plus, Token::Num(2_500_000)]
    );
}

#[test]
fn tokenizer_errs_only_on_invalid_characters() {
    // A malformed literal still tokenizes; it fails later, when evaluated.
    assert_eq!(tokenize(b"1..2"), Ok(vec![Token::BadNumber]));
    assert_eq!(tokenize(b"2x3"), Err(EvalError::InvalidCharacter(120)));
}

#[test]
fn macro_negative_exposure_is_detected() {
    let pos: Vec<Vec<u8>> = vec![b"1,1,0.5,0,0".to_vec()];
    let neg: Vec<Vec<u8>> = vec![b"1,1,0.5,0,0".to_vec(), b"1,0,0.2,0,0".to_vec()];
    let cmt: Vec<Vec<u8>> = vec![b"0 a comment with ,0, inside".to_vec()];
    assert!(!check_macro_has_negative(&pos));
    assert!(check_macro_has_negative(&neg));
    assert!(!check_macro_has_negative(&cmt));
}

#[test]
fn aperture_with_hole_sets_hole_radius() {
    let mut table = ApertureTable::new();
    let macros = MacroTable::new();
    parse_aperture(b"%ADD10C,0.5X0.2*%", &mut table, &macros, MM);
    let a = table.get(10).expect("aperture registered");
    assert_eq!(a.radius, MM / 4);
    assert_eq!(a.primitives.len(), 1);
    assert!(!a.has_negative);
}

#[test]
fn extract_value_reads_signed_runs() {
    assert_eq!(extract_value(b"X1000Y2000", 88), Some(b"1000".to_vec()));
    assert_eq!(extract_value(b"X-250D01", 88), Some(b"-250".to_vec()));
    assert_eq!(extract_value(b"D03", 88), None);
    assert_eq!(extract_value(b"G04 comment", 71), Some(b"04".to_vec()));
}

#[test]
fn trig_is_exact_at_table_points() {
    assert_eq!(sin_mdeg(0), 0);
    assert_eq!(sin_mdeg(90_000), MM);
    assert_eq!(sin_mdeg(180_000), 0);
    assert_eq!(sin_mdeg(270_000), -MM);
    assert_eq!(cos_mdeg(0), MM);
    assert_eq!(cos_mdeg(90_000), 0);
    assert_eq!(cos_mdeg(-90_000), 0);
    assert_eq!(sin_mdeg(30_000), 500_000);
}

#[test]
fn fixed_point_arithmetic_truncates_toward_zero() {
    assert_eq!(fix_mul(2 * MM, 3 * MM), 6 * MM);
    assert_eq!(fix_mul(-MM / 2, MM / 2), -MM / 4);
    assert_eq!(fix_div(MM, 3 * MM), 333_333);
    assert_eq!(sat_add(i64::MAX, 1), i64::MAX);
    assert_eq!(isqrt(144), 12);
    assert_eq!(isqrt(145), 12);
}

#[test]
fn text_utilities_match_std_behaviour() {
    assert_eq!(trim(b"  abc \r\n"), b"abc");
    let parts = split_bytes(b"a,b,,c", 44);
    let parts: Vec<&[u8]> = parts.iter().map(|p| p.as_slice()).collect();
    assert_eq!(parts, vec![b"a" as &[u8], b"b", b"", b"c"]);
}

#[test]
fn primitive_count_survives_polarity_split() {
    let layers = parse(
        "%FSLAX24Y24*%\n%MOMM*%\n%ADD10C,0.5*%\nD10*\nX0Y0D03*\nX10000Y0D03*\n%LPC*%\nX20000Y0D03*\nM02*\n",
    );
    let total: usize = layers
        .iter()
        .map(|l| l.circles.x.len() + l.triangles.indices.len() / 3 + l.arcs.x.len()
            + l.thermals.x.len())
        .sum();
    assert_eq!(total, 3);
    assert_eq!(layers.len(), 2);
}

#[test]
fn aperture_macro_starts_empty() {
    let m = ApertureMacro::new();
    assert!(m.statements.is_empty());
    assert!(!m.has_negative);
}

#[test]
fn polarity_is_a_two_state_mode() {
    let s = ParserState::new_default();
    assert_eq!(s.polarity, Polarity::Positive);
    assert_ne!(Polarity::Positive, Polarity::Negative);
}


#[test]
fn test_parse_round_symbol() {
    let result = parse_symbol_definition(b"$0", b"r200");
    assert!(result.is_some());
    let symbol = result.unwrap();
    assert_eq!(symbol.id, b"$0".to_vec());
    match symbol.shape {
        SymbolShape::Round(d) => assert_eq!(d, 200 * MM),
        _ => panic!("Expected Round shape"),
    }
}

#[test]
fn test_parse_square_symbol() {
    let result = parse_symbol_definition(b"$1", b"s300");
    assert!(result.is_some());
    let symbol = result.unwrap();
    match symbol.shape {
        SymbolShape::Square(s) => assert_eq!(s, 300 * MM),
        _ => panic!("Expected Square shape"),
    }
}

#[test]
fn test_parse_rectangle_symbol() {
    let result = parse_symbol_definition(b"$2", b"r100x200");
    assert!(result.is_some());
    let symbol = result.unwrap();
    match symbol.shape {
        SymbolShape::Rectangle(w, h) => {
            assert_eq!(w, 100 * MM);
            assert_eq!(h, 200 * MM);
        }
        _ => panic!("Expected Rectangle shape"),
    }
}

fn round_symbol_table() -> SymbolTable {
    let mut table = SymbolTable::new();
    table.entries.push((b"$0".to_vec(), SymbolShape::Round(200 * MM)));
    table
}

#[test]
fn test_parse_pad() {
    let symbols = round_symbol_table();
    let parts: Vec<Vec<u8>> = ["P", "1000", "2000", "0", "0", "0", "$0", "0", "0"]
        .iter()
        .map(|p| p.as_bytes().to_vec())
        .collect();
    let result = odb_parse_pad(&parts, &symbols);
    assert!(result.is_some());
}

#[test]
fn test_parse_line() {
    let symbols = round_symbol_table();
    let parts: Vec<Vec<u8>> = ["L", "1000", "2000", "3000", "4000", "100", "$0", "0", "0"]
        .iter()
        .map(|p| p.as_bytes().to_vec())
        .collect();
    let result = odb_parse_line(&parts, &symbols);
    assert!(result.is_some());
}

#[test]
fn test_parse_simple_matrix() {
    let content = b"
(matrix (created \"2023-01-01\")
 (version 1.0)
 (step
  (name \"default\")
  (layer
   (name \"TOP\")
   (type \"CONDUCTOR\")
   (polarity \"POSITIVE\")
  )
 )
)
        ";
    let layers = parse_matrix(content);
    assert_eq!(layers.len(), 1);
    assert_eq!(layers[0].name, b"TOP".to_vec());
    assert_eq!(layers[0].layer_type, b"CONDUCTOR".to_vec());
    assert_eq!(layers[0].polarity, b"POSITIVE".to_vec());
}
