//! ODB++ feature ingestion.
//!
//! A companion symbols file names pad shapes (`r<d>`, `s<s>`, `r<w>x<h>`,
//! `o<w>x<h>`, `p<n>x<d>`); a features file holds pad, line, arc and
//! surface records; a matrix file names the layers. The records become the
//! same primitives the Gerber parser emits, and the same transposition
//! turns them into buffers. Values are fixed-point like everything else.

use vstd::prelude::*;
use vstd::string::*;
use crate::fixed::{div_trunc, sat_i64, spec_sat_add, sat_add, fix_mul, FIX_ONE};
use crate::text::{
    spec_trim, trim, spec_split, split_bytes, spec_split_ws, split_whitespace_bytes,
    spec_parse_decimal, parse_decimal, spec_parse_int, parse_int, spec_starts_with,
    starts_with, bytes_eq, has_byte, first_occ, find_byte, append_bytes,
};
use crate::geom::{Point, Primitive, spec_line_triangles, line_to_triangles, spec_dist, dist};
use crate::trig::{spec_cos_mdeg, spec_sin_mdeg, cos_mdeg, sin_mdeg};
use crate::macro_def::{stmts_view, poly_vertex};
use crate::buffers::{GerberData, primitives_to_gerber_data, gerber_data_matches};

verus! {

/// A pad symbol shape, in fixed-point millimetres.
#[derive(Clone, Copy, Debug, PartialEq, Eq, Structural)]
pub enum SymbolShape {
    Round(i64),
    Square(i64),
    Rectangle(i64, i64),
    Obround(i64, i64),
    Polygon(u32, i64),
}

/// A named symbol.
#[derive(Clone, Debug)]
pub struct Symbol {
    pub id: Vec<u8>,
    pub shape: SymbolShape,
}

/// The symbol store of one parse; a later definition of the same id
/// replaces the earlier one.
pub struct SymbolTable {
    pub entries: Vec<(Vec<u8>, SymbolShape)>,
}

/// The ghost view of the symbol store.
pub open spec fn symbol_table_view(s: Seq<(Vec<u8>, SymbolShape)>) -> Seq<(Seq<u8>,
    SymbolShape)> {
    s.map_values(|e: (Vec<u8>, SymbolShape)| (e.0@, e.1))
}

/// The newest shape under `id`, scanning from the back.
pub open spec fn symbol_lookup(s: Seq<(Seq<u8>, SymbolShape)>, id: Seq<u8>)
    -> Option<SymbolShape>
    decreases s.len(),
{
    if s.len() == 0 {
        None
    } else if s.last().0 == id {
        Some(s.last().1)
    } else {
        symbol_lookup(s.drop_last(), id)
    }
}

impl SymbolTable {
    /// An empty store.
    pub fn new() -> (r: SymbolTable)
        ensures
            r.entries@.len() == 0,
    {
        SymbolTable { entries: Vec::new() }
    }

    /// Look a shape up by id.
    pub fn get(&self, id: &[u8]) -> (r: Option<SymbolShape>)
        ensures
            r == symbol_lookup(symbol_table_view(self.entries@), id@),
    {
        let mut i: usize = self.entries.len();
        proof {
            assert(symbol_table_view(self.entries@).take(i as int)
                =~~= symbol_table_view(self.entries@));
        }
        while i > 0
            invariant
                0 <= i <= self.entries@.len(),
                symbol_lookup(symbol_table_view(self.entries@), id@) == symbol_lookup(
                    symbol_table_view(self.entries@).take(i as int), id@),
            decreases i,
        {
            proof {
                let sv = symbol_table_view(self.entries@);
                assert(sv.take(i as int).last() == sv[i as int - 1]);
                assert(sv.take(i as int).drop_last() =~~= sv.take(i as int - 1));
                assert(sv[i as int - 1] == (self.entries@[i as int - 1].0@,
                    self.entries@[i as int - 1].1));
            }
            if bytes_eq(self.entries[i - 1].0.as_slice(), id) {
                return Some(self.entries[i - 1].1);
            }
            i = i - 1;
        }
        proof {
            assert(symbol_table_view(self.entries@).take(0)
                =~~= Seq::<(Seq<u8>, SymbolShape)>::empty());
        }
        None
    }
}

/// The shape a symbol definition denotes: `r<w>x<h>` a rectangle, `r<d>` a
/// round, `s<s>` a square, `o<w>x<h>` an obround, `p<n>x<d>` a regular
/// polygon; anything else is no symbol.
pub open spec fn spec_symbol_shape(def: Seq<u8>) -> Option<SymbolShape> {
    if def.len() > 0 && def[0] == 114 && has_byte(def, 120) {
        let dims = spec_split(def.skip(1), 120);
        if dims.len() == 2 {
            match (spec_parse_decimal(dims[0]), spec_parse_decimal(dims[1])) {
                (Some(w), Some(h)) => Some(SymbolShape::Rectangle(w as i64, h as i64)),
                _ => None,
            }
        } else {
            None
        }
    } else if def.len() > 0 && def[0] == 114 {
        match spec_parse_decimal(def.skip(1)) {
            Some(d) => Some(SymbolShape::Round(d as i64)),
            None => None,
        }
    } else if def.len() > 0 && def[0] == 115 {
        match spec_parse_decimal(def.skip(1)) {
            Some(s) => Some(SymbolShape::Square(s as i64)),
            None => None,
        }
    } else if def.len() > 0 && def[0] == 111 && has_byte(def, 120) {
        let dims = spec_split(def.skip(1), 120);
        if dims.len() == 2 {
            match (spec_parse_decimal(dims[0]), spec_parse_decimal(dims[1])) {
                (Some(w), Some(h)) => Some(SymbolShape::Obround(w as i64, h as i64)),
                _ => None,
            }
        } else {
            None
        }
    } else if def.len() > 0 && def[0] == 112 && has_byte(def, 120) {
        let dims = spec_split(def.skip(1), 120);
        if dims.len() == 2 {
            match (spec_parse_int(dims[0]), spec_parse_decimal(dims[1])) {
                (Some(n), Some(d)) => if 0 <= n <= u32::MAX as int {
                    Some(SymbolShape::Polygon(n as u32, d as i64))
                } else {
                    None
                },
                _ => None,
            }
        } else {
            None
        }
    } else {
        None
    }
}

/// Parse one symbol definition.
pub fn parse_symbol_definition(id: &[u8], def: &[u8]) -> (r: Option<Symbol>)
    ensures
        match spec_symbol_shape(def@) {
            Some(sh) => r is Some && r->0.id@ == id@ && r->0.shape == sh,
            None => r is None,
        },
{
    let shape: SymbolShape = match parse_symbol_shape(def) {
        Some(sh) => sh,
        None => {
            return None;
        },
    };
    let mut idv: Vec<u8> = Vec::new();
    append_bytes(&mut idv, id);
    Some(Symbol { id: idv, shape })
}

/// Decide the shape of one definition.
fn parse_symbol_shape(def: &[u8]) -> (r: Option<SymbolShape>)
    ensures
        r == spec_symbol_shape(def@),
{
    if def.len() == 0 {
        return None;
    }
    let has_x: bool = match find_byte(def, 120) {
        Some(_) => true,
        None => false,
    };
    let dl: usize = def.len();
    let rest: &[u8] = vstd::slice::slice_subrange(def, 1, dl);
    proof {
        assert(rest@ =~= def@.skip(1));
    }
    if def[0] == 114 && has_x {
        let dims: Vec<Vec<u8>> = split_bytes(rest, 120);
        proof {
            lemma_dims_index(&dims, rest@, 120);
        }
        if dims.len() == 2 {
            match (parse_decimal(dims[0].as_slice()), parse_decimal(dims[1].as_slice())) {
                (Some(w), Some(h)) => Some(SymbolShape::Rectangle(w, h)),
                _ => None,
            }
        } else {
            None
        }
    } else if def[0] == 114 {
        match parse_decimal(rest) {
            Some(d) => Some(SymbolShape::Round(d)),
            None => None,
        }
    } else if def[0] == 115 {
        match parse_decimal(rest) {
            Some(s) => Some(SymbolShape::Square(s)),
            None => None,
        }
    } else if def[0] == 111 && has_x {
        let dims: Vec<Vec<u8>> = split_bytes(rest, 120);
        proof {
            lemma_dims_index(&dims, rest@, 120);
        }
        if dims.len() == 2 {
            match (parse_decimal(dims[0].as_slice()), parse_decimal(dims[1].as_slice())) {
                (Some(w), Some(h)) => Some(SymbolShape::Obround(w, h)),
                _ => None,
            }
        } else {
            None
        }
    } else if def[0] == 112 && has_x {
        let dims: Vec<Vec<u8>> = split_bytes(rest, 120);
        proof {
            lemma_dims_index(&dims, rest@, 120);
        }
        if dims.len() == 2 {
            match (parse_int(dims[0].as_slice()), parse_decimal(dims[1].as_slice())) {
                (Some(n), Some(d)) => {
                    if n >= 0 && n <= u32::MAX as i64 {
                        Some(SymbolShape::Polygon(n as u32, d))
                    } else {
                        None
                    }
                },
                _ => None,
            }
        } else {
            None
        }
    } else {
        None
    }
}

proof fn lemma_dims_index(dims: &Vec<Vec<u8>>, rest: Seq<u8>, sep: u8)
    requires
        dims@.map_values(|v: Vec<u8>| v@) == spec_split(rest, sep),
    ensures
        dims@.len() == spec_split(rest, sep).len(),
        forall|a: int| 0 <= a < dims@.len() ==> (#[trigger] dims@[a])@ == spec_split(
            rest, sep)[a],
{
    assert forall|a: int| 0 <= a < dims@.len() implies
        (#[trigger] dims@[a])@ == spec_split(rest, sep)[a] by {
        assert(dims@.map_values(|v: Vec<u8>| v@)[a] == dims@[a]@);
    }
}

/// The symbol list a symbols file defines, folded line by line: lines are
/// `$id shape`; blanks, comments and malformed lines are skipped.
pub open spec fn spec_parse_symbols_from(lines: Seq<Seq<u8>>, i: int, acc: Seq<(Seq<u8>,
    SymbolShape)>) -> Seq<(Seq<u8>, SymbolShape)>
    decreases lines.len() - i,
{
    if i < 0 || i >= lines.len() {
        acc
    } else {
        let t = spec_trim(lines[i]);
        let next = if t.len() == 0 || t[0] == 35 {
            acc
        } else {
            let parts = spec_split_ws(t);
            if parts.len() < 2 {
                acc
            } else {
                match spec_symbol_shape(parts[1]) {
                    Some(sh) => acc.push((parts[0], sh)),
                    None => acc,
                }
            }
        };
        spec_parse_symbols_from(lines, i + 1, next)
    }
}

/// The symbol store a symbols file defines.
pub open spec fn spec_parse_symbols(content: Seq<u8>) -> Seq<(Seq<u8>, SymbolShape)> {
    spec_parse_symbols_from(spec_split(content, 10), 0, Seq::<(Seq<u8>,
        SymbolShape)>::empty())
}

/// Parse a symbols file.
pub fn parse_symbols(content: &[u8]) -> (r: SymbolTable)
    ensures
        symbol_table_view(r.entries@) == spec_parse_symbols(content@),
{
    let lines: Vec<Vec<u8>> = split_bytes(content, 10);
    let ghost lv = stmts_view(lines);
    proof {
        lemma_dims_index(&lines, content@, 10);
        assert(lv =~~= spec_split(content@, 10));
    }
    let mut table: SymbolTable = SymbolTable::new();
    let mut i: usize = 0;
    proof {
        assert(symbol_table_view(table.entries@) =~~= Seq::<(Seq<u8>,
            SymbolShape)>::empty());
    }
    while i < lines.len()
        invariant
            0 <= i <= lv.len(),
            lv == stmts_view(lines),
            spec_parse_symbols_from(lv, 0, Seq::<(Seq<u8>, SymbolShape)>::empty())
                == spec_parse_symbols_from(lv, i as int, symbol_table_view(table.entries@)),
        decreases lv.len() - i,
    {
        let ghost acc0 = symbol_table_view(table.entries@);
        proof {
            assert(lv[i as int] == lines@[i as int]@);
        }
        let t: &[u8] = trim(lines[i].as_slice());
        if t.len() > 0 && t[0] != 35 {
            let parts: Vec<Vec<u8>> = split_whitespace_bytes(t);
            proof {
                assert forall|a: int| 0 <= a < parts@.len() implies
                    (#[trigger] parts@[a])@ == spec_split_ws(t@)[a] by {
                    assert(parts@.map_values(|v: Vec<u8>| v@)[a] == parts@[a]@);
                }
                assert(parts@.len() == spec_split_ws(t@).len());
            }
            if parts.len() >= 2 {
                match parse_symbol_shape(parts[1].as_slice()) {
                    Some(sh) => {
                        let mut idv: Vec<u8> = Vec::new();
                        append_bytes(&mut idv, parts[0].as_slice());
                        table.entries.push((idv, sh));
                        proof {
                            assert(symbol_table_view(table.entries@) =~~= acc0.push(
                                (parts@[0]@, sh)));
                        }
                    },
                    None => {
                    },
                }
            }
        }
        i = i + 1;
    }
    table
}

/// The exposure a polarity field denotes: `0` adds material.
pub open spec fn exposure_field(p: Seq<u8>) -> bool {
    p =~= seq![48u8]
}

/// The pad primitive of a `P` record: position, validated rotation and
/// mirror fields, a symbol reference and a polarity.
pub open spec fn spec_parse_pad(parts: Seq<Seq<u8>>, symbols: Seq<(Seq<u8>, SymbolShape)>)
    -> Option<Primitive>
{
    if parts.len() < 8 {
        None
    } else {
        match (spec_parse_decimal(parts[1]), spec_parse_decimal(parts[2]),
            spec_parse_decimal(parts[3]), spec_parse_decimal(parts[4]),
            spec_parse_decimal(parts[5])) {
            (Some(x), Some(y), Some(_rot), Some(_mx), Some(_my)) => {
                let e = exposure_field(parts[7]);
                match symbol_lookup(symbols, parts[6]) {
                    Some(sh) => Some(pad_primitive(sh, x, y, e)),
                    None => None,
                }
            },
            _ => None,
        }
    }
}

/// The primitive a symbol shape flashes at `(x, y)`.
pub open spec fn pad_primitive(sh: SymbolShape, x: int, y: int, e: bool) -> Primitive {
    match sh {
        SymbolShape::Round(d) => Primitive::Circle {
            x: x as i64,
            y: y as i64,
            radius: div_trunc(d as int, 2) as i64,
            exposure: e,
            hole_x: 0,
            hole_y: 0,
            hole_radius: 0,
        },
        SymbolShape::Square(s) => pad_box(x, y, div_trunc(s as int, 2), div_trunc(
            s as int, 2), e),
        SymbolShape::Rectangle(w, h) => pad_box(x, y, div_trunc(w as int, 2), div_trunc(
            h as int, 2), e),
        SymbolShape::Obround(w, h) => Primitive::Circle {
            x: x as i64,
            y: y as i64,
            radius: div_trunc(w as int + h as int, 4) as i64,
            exposure: e,
            hole_x: 0,
            hole_y: 0,
            hole_radius: 0,
        },
        SymbolShape::Polygon(n, d) => Primitive::Triangle {
            v1: pad_poly_vertex(x, y, d as int, n as int, 0),
            v2: pad_poly_vertex(x, y, d as int, n as int, 1),
            v3: pad_poly_vertex(x, y, d as int, n as int, 2),
            exposure: e,
            hole_x: 0,
            hole_y: 0,
            hole_radius: 0,
        },
    }
}

/// The first corner triangle of a centered box, as the engine uploads it.
pub open spec fn pad_box(x: int, y: int, hw: int, hh: int, e: bool) -> Primitive {
    Primitive::Triangle {
        v1: Point { x: sat_i64(x - hw) as i64, y: sat_i64(y - hh) as i64 },
        v2: Point { x: sat_i64(x + hw) as i64, y: sat_i64(y - hh) as i64 },
        v3: Point { x: sat_i64(x + hw) as i64, y: sat_i64(y + hh) as i64 },
        exposure: e,
        hole_x: 0,
        hole_y: 0,
        hole_radius: 0,
    }
}

/// One fan vertex of a polygon pad (step in milli-degrees).
pub open spec fn pad_poly_vertex(x: int, y: int, d: int, n: int, k: int) -> Point {
    let r = div_trunc(d, 2);
    let step = if n > 0 {
        360_000int / n
    } else {
        0
    };
    poly_vertex(x, y, r, step, k)
}

/// Build the pad primitive for a shape.
fn pad_primitive_exec(sh: SymbolShape, x: i64, y: i64, e: bool) -> (r: Primitive)
    ensures
        r == pad_primitive(sh, x as int, y as int, e),
{
    match sh {
        SymbolShape::Round(d) => Primitive::Circle {
            x,
            y,
            radius: crate::fixed::div_trunc_wide(d as i128, 2) as i64,
            exposure: e,
            hole_x: 0,
            hole_y: 0,
            hole_radius: 0,
        },
        SymbolShape::Square(s) => {
            let h: i64 = crate::fixed::div_trunc_wide(s as i128, 2) as i64;
            pad_box_exec(x, y, h, h, e)
        },
        SymbolShape::Rectangle(w, h) => pad_box_exec(
            x,
            y,
            crate::fixed::div_trunc_wide(w as i128, 2) as i64,
            crate::fixed::div_trunc_wide(h as i128, 2) as i64,
            e,
        ),
        SymbolShape::Obround(w, h) => Primitive::Circle {
            x,
            y,
            radius: crate::fixed::div_trunc_wide(w as i128 + h as i128, 4) as i64,
            exposure: e,
            hole_x: 0,
            hole_y: 0,
            hole_radius: 0,
        },
        SymbolShape::Polygon(n, d) => {
            let r: i64 = crate::fixed::div_trunc_wide(d as i128, 2) as i64;
            let step: i64 = if n > 0 {
                360_000i64 / (n as i64)
            } else {
                0
            };
            proof {
                if n > 0 {
                    vstd::arithmetic::div_mod::lemma_fundamental_div_mod(360_000, n as int);
                    assert(0 <= (step as int) * 2 <= 720_000) by (nonlinear_arith)
                        requires
                            step as int == 360_000int / (n as int),
                            360_000int == (360_000int / (n as int)) * (n as int)
                                + 360_000int % (n as int),
                            0 <= 360_000int % (n as int),
                            0 < n as int;
                }
            }
            Primitive::Triangle {
                v1: pad_vertex_exec(x, y, r, step, 0),
                v2: pad_vertex_exec(x, y, r, step, 1),
                v3: pad_vertex_exec(x, y, r, step, 2),
                exposure: e,
                hole_x: 0,
                hole_y: 0,
                hole_radius: 0,
            }
        },
    }
}

fn pad_vertex_exec(x: i64, y: i64, r: i64, step: i64, k: i64) -> (p: Point)
    requires
        (step as int) * (k as int) <= i64::MAX as int,
        (step as int) * (k as int) >= i64::MIN as int,
    ensures
        p == poly_vertex(x as int, y as int, r as int, step as int, k as int),
{
    let ang: i64 = step * k;
    Point {
        x: sat_add(x, fix_mul(r, cos_mdeg(ang))),
        y: sat_add(y, fix_mul(r, sin_mdeg(ang))),
    }
}

fn pad_box_exec(x: i64, y: i64, hw: i64, hh: i64, e: bool) -> (r: Primitive)
    ensures
        r == pad_box(x as int, y as int, hw as int, hh as int, e),
{
    Primitive::Triangle {
        v1: Point { x: crate::fixed::sat_sub(x, hw), y: crate::fixed::sat_sub(y, hh) },
        v2: Point { x: sat_add(x, hw), y: crate::fixed::sat_sub(y, hh) },
        v3: Point { x: sat_add(x, hw), y: sat_add(y, hh) },
        exposure: e,
        hole_x: 0,
        hole_y: 0,
        hole_radius: 0,
    }
}

/// Parse a pad (`P x y rot mx my $sym polarity ...`) record.
pub fn parse_pad(parts: &Vec<Vec<u8>>, symbols: &SymbolTable) -> (r: Option<Primitive>)
    ensures
        r == spec_parse_pad(stmts_view(*parts), symbol_table_view(symbols.entries@)),
{
    let ghost pv = stmts_view(*parts);
    if parts.len() < 8 {
        return None;
    }
    proof {
        lemma_parts_index(parts);
    }
    let x: i64 = match parse_decimal(parts[1].as_slice()) {
        Some(v) => v,
        None => {
            return None;
        },
    };
    let y: i64 = match parse_decimal(parts[2].as_slice()) {
        Some(v) => v,
        None => {
            return None;
        },
    };
    if parse_decimal(parts[3].as_slice()).is_none() {
        return None;
    }
    if parse_decimal(parts[4].as_slice()).is_none() {
        return None;
    }
    if parse_decimal(parts[5].as_slice()).is_none() {
        return None;
    }
    let zero: [u8; 1] = [48];
    let e: bool = bytes_eq(parts[7].as_slice(), zero.as_slice());
    proof {
        assert(zero@ =~= seq![48u8]);
        if parts@[7]@ == zero@ {
            assert(pv[7] =~= seq![48u8]);
        }
        if e == false {
            assert(!(pv[7] =~= seq![48u8]));
        }
    }
    match symbols.get(parts[6].as_slice()) {
        Some(sh) => Some(pad_primitive_exec(sh, x, y, e)),
        None => None,
    }
}

proof fn lemma_parts_index(parts: &Vec<Vec<u8>>)
    ensures
        stmts_view(*parts).len() == parts@.len(),
        forall|a: int| 0 <= a < parts@.len() ==> stmts_view(*parts)[a]
            == (#[trigger] parts@[a])@,
{
}

/// The line primitive of an `L` record: the first triangle of the stroked
/// segment; a degenerate segment (length under one micrometre) is skipped.
pub open spec fn spec_parse_line(parts: Seq<Seq<u8>>, symbols: Seq<(Seq<u8>, SymbolShape)>)
    -> Option<Primitive>
{
    if parts.len() < 8 {
        None
    } else {
        match (spec_parse_decimal(parts[1]), spec_parse_decimal(parts[2]),
            spec_parse_decimal(parts[3]), spec_parse_decimal(parts[4]),
            spec_parse_decimal(parts[5])) {
            (Some(x1), Some(y1), Some(x2), Some(y2), Some(w)) => {
                match symbol_lookup(symbols, parts[6]) {
                    Some(_) => {
                        let e = exposure_field(parts[7]);
                        if spec_dist(crate::fixed::spec_sat_sub(x2, x1),
                            crate::fixed::spec_sat_sub(y2, y1)) < 1000 {
                            None
                        } else {
                            Some(spec_line_triangles(x1, y1, x2, y2, w, e)[0])
                        }
                    },
                    None => None,
                }
            },
            _ => None,
        }
    }
}

/// Parse a line (`L x1 y1 x2 y2 width $sym polarity ...`) record.
pub fn parse_line(parts: &Vec<Vec<u8>>, symbols: &SymbolTable) -> (r: Option<Primitive>)
    ensures
        r == spec_parse_line(stmts_view(*parts), symbol_table_view(symbols.entries@)),
{
    let ghost pv = stmts_view(*parts);
    if parts.len() < 8 {
        return None;
    }
    proof {
        lemma_parts_index(parts);
    }
    let x1: i64 = match parse_decimal(parts[1].as_slice()) {
        Some(v) => v,
        None => {
            return None;
        },
    };
    let y1: i64 = match parse_decimal(parts[2].as_slice()) {
        Some(v) => v,
        None => {
            return None;
        },
    };
    let x2: i64 = match parse_decimal(parts[3].as_slice()) {
        Some(v) => v,
        None => {
            return None;
        },
    };
    let y2: i64 = match parse_decimal(parts[4].as_slice()) {
        Some(v) => v,
        None => {
            return None;
        },
    };
    let w: i64 = match parse_decimal(parts[5].as_slice()) {
        Some(v) => v,
        None => {
            return None;
        },
    };
    if symbols.get(parts[6].as_slice()).is_none() {
        return None;
    }
    let zero: [u8; 1] = [48];
    let e: bool = bytes_eq(parts[7].as_slice(), zero.as_slice());
    proof {
        assert(zero@ =~= seq![48u8]);
        if parts@[7]@ == zero@ {
            assert(pv[7] =~= seq![48u8]);
        }
        if e == false {
            assert(!(pv[7] =~= seq![48u8]));
        }
    }
    let len: i64 = dist(crate::fixed::sat_sub(x2, x1), crate::fixed::sat_sub(y2, y1));
    if len < 1000 {
        return None;
    }
    let tris: Vec<Primitive> = line_to_triangles(x1, y1, x2, y2, w, e);
    proof {
        assert(tris@.len() == 2);
    }
    Some(tris[0])
}

/// The arc primitive of an `A` record: center, radius, start and sweep in
/// degrees (converted to points on the circle), width and polarity.
pub open spec fn spec_parse_arc(parts: Seq<Seq<u8>>) -> Option<Primitive> {
    if parts.len() < 8 {
        None
    } else {
        match (spec_parse_decimal(parts[1]), spec_parse_decimal(parts[2]),
            spec_parse_decimal(parts[3]), spec_parse_decimal(parts[4]),
            spec_parse_decimal(parts[5]), spec_parse_decimal(parts[6])) {
            (Some(x), Some(y), Some(rr), Some(sdeg), Some(sweep), Some(th)) => {
                let a0 = div_trunc(sdeg, 1000);
                let a1 = sat_i64(a0 + div_trunc(sweep, 1000));
                Some(
                    Primitive::Arc {
                        x: x as i64,
                        y: y as i64,
                        radius: rr as i64,
                        start_x: spec_sat_add(x, crate::fixed::spec_fix_mul(rr,
                            spec_cos_mdeg(a0))) as i64,
                        start_y: spec_sat_add(y, crate::fixed::spec_fix_mul(rr,
                            spec_sin_mdeg(a0))) as i64,
                        end_x: spec_sat_add(x, crate::fixed::spec_fix_mul(rr,
                            spec_cos_mdeg(a1))) as i64,
                        end_y: spec_sat_add(y, crate::fixed::spec_fix_mul(rr,
                            spec_sin_mdeg(a1))) as i64,
                        clockwise: sweep < 0,
                        thickness: th as i64,
                        exposure: exposure_field(parts[7]),
                    },
                )
            },
            _ => None,
        }
    }
}

/// Parse an arc (`A cx cy r startDeg sweepDeg width polarity ...`) record.
pub fn parse_arc(parts: &Vec<Vec<u8>>) -> (r: Option<Primitive>)
    ensures
        r == spec_parse_arc(stmts_view(*parts)),
{
    let ghost pv = stmts_view(*parts);
    if parts.len() < 8 {
        return None;
    }
    proof {
        lemma_parts_index(parts);
    }
    let x: i64 = match parse_decimal(parts[1].as_slice()) {
        Some(v) => v,
        None => {
            return None;
        },
    };
    let y: i64 = match parse_decimal(parts[2].as_slice()) {
        Some(v) => v,
        None => {
            return None;
        },
    };
    let rr: i64 = match parse_decimal(parts[3].as_slice()) {
        Some(v) => v,
        None => {
            return None;
        },
    };
    let sdeg: i64 = match parse_decimal(parts[4].as_slice()) {
        Some(v) => v,
        None => {
            return None;
        },
    };
    let sweep: i64 = match parse_decimal(parts[5].as_slice()) {
        Some(v) => v,
        None => {
            return None;
        },
    };
    let th: i64 = match parse_decimal(parts[6].as_slice()) {
        Some(v) => v,
        None => {
            return None;
        },
    };
    let zero: [u8; 1] = [48];
    let e: bool = bytes_eq(parts[7].as_slice(), zero.as_slice());
    proof {
        assert(zero@ =~= seq![48u8]);
        if parts@[7]@ == zero@ {
            assert(pv[7] =~= seq![48u8]);
        }
        if e == false {
            assert(!(pv[7] =~= seq![48u8]));
        }
    }
    let a0: i64 = crate::fixed::div_trunc_wide(sdeg as i128, 1000) as i64;
    let a1: i64 = crate::fixed::sat_i64_exec(a0 as i128 + crate::fixed::div_trunc_wide(
        sweep as i128, 1000));
    Some(Primitive::Arc {
        x,
        y,
        radius: rr,
        start_x: sat_add(x, fix_mul(rr, cos_mdeg(a0))),
        start_y: sat_add(y, fix_mul(rr, sin_mdeg(a0))),
        end_x: sat_add(x, fix_mul(rr, cos_mdeg(a1))),
        end_y: sat_add(y, fix_mul(rr, sin_mdeg(a1))),
        clockwise: sweep < 0,
        thickness: th,
        exposure: e,
    })
}

/// The vertex pairs at the front of a surface record, and where they stop.
pub open spec fn surface_verts(parts: Seq<Seq<u8>>, i: int, acc: Seq<Point>) -> (Seq<Point>,
    int)
    decreases parts.len() - i,
{
    if i < 0 || i + 1 >= parts.len() {
        (acc, i)
    } else {
        match (spec_parse_decimal(parts[i]), spec_parse_decimal(parts[i + 1])) {
            (Some(x), Some(y)) => surface_verts(parts, i + 2, acc.push(
                Point { x: x as i64, y: y as i64 })),
            _ => (acc, i),
        }
    }
}

/// The fan triangles of a surface's vertex ring.
pub open spec fn surface_fan(verts: Seq<Point>, j: int, e: bool) -> Seq<Primitive>
    decreases verts.len() - j,
{
    if j < 1 || j + 1 >= verts.len() {
        Seq::<Primitive>::empty()
    } else {
        seq![
            Primitive::Triangle {
                v1: verts[0],
                v2: verts[j],
                v3: verts[j + 1],
                exposure: e,
                hole_x: 0,
                hole_y: 0,
                hole_radius: 0,
            },
        ] + surface_fan(verts, j + 1, e)
    }
}

/// The triangles of an `S` record: leading coordinate pairs fan-
/// triangulated, with the polarity taken from the first trailing field.
pub open spec fn spec_parse_surface(parts: Seq<Seq<u8>>) -> Option<Seq<Primitive>> {
    if parts.len() < 7 {
        None
    } else {
        let vr = surface_verts(parts, 1, Seq::<Point>::empty());
        if vr.0.len() < 3 {
            None
        } else {
            let e = if vr.1 < parts.len() {
                exposure_field(parts[vr.1])
            } else {
                true
            };
            Some(surface_fan(vr.0, 1, e))
        }
    }
}

/// Parse a surface (`S x1 y1 ... polarity ...`) record.
pub fn parse_surface(parts: &Vec<Vec<u8>>) -> (r: Option<Vec<Primitive>>)
    ensures
        match spec_parse_surface(stmts_view(*parts)) {
            Some(tris) => r is Some && r->0@ == tris,
            None => r is None,
        },
{
    let ghost pv = stmts_view(*parts);
    if parts.len() < 7 {
        return None;
    }
    proof {
        lemma_parts_index(parts);
    }
    let mut verts: Vec<Point> = Vec::new();
    let mut i: usize = 1;
    let mut stopped: bool = false;
    proof {
        assert(verts@ =~= Seq::<Point>::empty());
    }
    while i < parts.len() && i + 1 < parts.len() && !stopped
        invariant
            1 <= i,
            pv == stmts_view(*parts),
            surface_verts(pv, 1, Seq::<Point>::empty()) == (if stopped {
                (verts@, i as int)
            } else {
                surface_verts(pv, i as int, verts@)
            }),
        decreases pv.len() - i, (if stopped { 0int } else { 1int }),
    {
        proof {
            lemma_parts_index(parts);
        }
        let xo: Option<i64> = parse_decimal(parts[i].as_slice());
        let yo: Option<i64> = parse_decimal(parts[i + 1].as_slice());
        match (xo, yo) {
            (Some(x), Some(y)) => {
                verts.push(Point { x, y });
                i = i + 2;
            },
            _ => {
                stopped = true;
            },
        }
    }
    proof {
        if !stopped {
            assert(surface_verts(pv, i as int, verts@) == (verts@, i as int));
        }
        assert(surface_verts(pv, 1, Seq::<Point>::empty()) == (verts@, i as int));
    }
    if verts.len() < 3 {
        return None;
    }
    let zero: [u8; 1] = [48];
    let e: bool;
    proof {
        assert(zero@ =~= seq![48u8]);
    }
    if i < parts.len() {
        e = bytes_eq(parts[i].as_slice(), zero.as_slice());
        proof {
            if parts@[i as int]@ == zero@ {
                assert(pv[i as int] =~= seq![48u8]);
            }
            if e == false {
                assert(!(pv[i as int] =~= seq![48u8]));
            }
        }
    } else {
        e = true;
    }
    let mut tris: Vec<Primitive> = Vec::new();
    let mut j: usize = 1;
    proof {
        assert(tris@ =~= Seq::<Primitive>::empty());
        assert(Seq::<Primitive>::empty() + surface_fan(verts@, 1, e) =~= surface_fan(
            verts@, 1, e));
    }
    while j < verts.len() && j + 1 < verts.len()
        invariant
            1 <= j <= verts@.len(),
            surface_fan(verts@, 1, e) =~= tris@ + surface_fan(verts@, j as int, e),
        decreases verts@.len() - j,
    {
        tris.push(Primitive::Triangle {
            v1: verts[0],
            v2: verts[j],
            v3: verts[j + 1],
            exposure: e,
            hole_x: 0,
            hole_y: 0,
            hole_radius: 0,
        });
        j = j + 1;
        proof {
            lemma_fan_assoc();
        }
    }
    proof {
        assert(surface_fan(verts@, j as int, e) =~= Seq::<Primitive>::empty());
        assert(tris@ + Seq::<Primitive>::empty() =~= tris@);
        assert(tris@ =~= surface_fan(verts@, 1, e));
    }
    Some(tris)
}

proof fn lemma_fan_assoc()
    ensures
        forall|a: Seq<Primitive>, b: Seq<Primitive>, c: Seq<Primitive>|
            #[trigger] ((a + b) + c) =~= a + (b + c),
{
}

/// The primitives of a features file, record by record: `P`, `L`, `A` and
/// `S` records append; blanks, comments and malformed records are skipped.
pub open spec fn spec_parse_features_from(
    lines: Seq<Seq<u8>>,
    i: int,
    symbols: Seq<(Seq<u8>, SymbolShape)>,
    acc: Seq<Primitive>,
) -> Seq<Primitive>
    decreases lines.len() - i,
{
    if i < 0 || i >= lines.len() {
        acc
    } else {
        let t = spec_trim(lines[i]);
        let next = if t.len() == 0 || t[0] == 35 {
            acc
        } else {
            let parts = spec_split_ws(t);
            if parts.len() == 0 {
                acc
            } else if parts[0] =~= seq![80u8] {
                match spec_parse_pad(parts, symbols) {
                    Some(p) => acc.push(p),
                    None => acc,
                }
            } else if parts[0] =~= seq![76u8] {
                match spec_parse_line(parts, symbols) {
                    Some(p) => acc.push(p),
                    None => acc,
                }
            } else if parts[0] =~= seq![65u8] {
                match spec_parse_arc(parts) {
                    Some(p) => acc.push(p),
                    None => acc,
                }
            } else if parts[0] =~= seq![83u8] {
                match spec_parse_surface(parts) {
                    Some(ps) => acc + ps,
                    None => acc,
                }
            } else {
                acc
            }
        };
        spec_parse_features_from(lines, i + 1, symbols, next)
    }
}

/// The primitives of a features file.
pub open spec fn spec_parse_features(content: Seq<u8>, symbols: Seq<(Seq<u8>,
    SymbolShape)>) -> Seq<Primitive> {
    spec_parse_features_from(spec_split(content, 10), 0, symbols, Seq::<Primitive>::empty())
}

/// Parse a features file against a symbol store.
#[verifier::rlimit(100)]
#[verifier::spinoff_prover]
pub fn parse_features(content: &[u8], symbols: &SymbolTable) -> (r: Vec<Primitive>)
    ensures
        r@ == spec_parse_features(content@, symbol_table_view(symbols.entries@)),
{
    let ghost sv = symbol_table_view(symbols.entries@);
    let lines: Vec<Vec<u8>> = split_bytes(content, 10);
    let ghost lv = stmts_view(lines);
    proof {
        lemma_dims_index(&lines, content@, 10);
        assert(lv =~~= spec_split(content@, 10));
    }
    let mut out: Vec<Primitive> = Vec::new();
    let mut i: usize = 0;
    proof {
        assert(out@ =~= Seq::<Primitive>::empty());
    }
    while i < lines.len()
        invariant
            0 <= i <= lv.len(),
            lv == stmts_view(lines),
            sv == symbol_table_view(symbols.entries@),
            spec_parse_features_from(lv, 0, sv, Seq::<Primitive>::empty())
                == spec_parse_features_from(lv, i as int, sv, out@),
        decreases lv.len() - i,
    {
        let ghost acc0 = out@;
        proof {
            assert(lv[i as int] == lines@[i as int]@);
        }
        let t: &[u8] = trim(lines[i].as_slice());
        if t.len() > 0 && t[0] != 35 {
            let parts: Vec<Vec<u8>> = split_whitespace_bytes(t);
            proof {
                assert forall|a: int| 0 <= a < parts@.len() implies
                    (#[trigger] parts@[a])@ == spec_split_ws(t@)[a] by {
                    assert(parts@.map_values(|v: Vec<u8>| v@)[a] == parts@[a]@);
                }
                assert(parts@.len() == spec_split_ws(t@).len());
                assert(stmts_view(parts) =~~= spec_split_ws(t@));
            }
            if parts.len() > 0 {
                let pp: [u8; 1] = [80];
                let ll: [u8; 1] = [76];
                let aa: [u8; 1] = [65];
                let ss: [u8; 1] = [83];
                proof {
                    assert(pp@ =~= seq![80u8]);
                    assert(ll@ =~= seq![76u8]);
                    assert(aa@ =~= seq![65u8]);
                    assert(ss@ =~= seq![83u8]);
                }
                if bytes_eq(parts[0].as_slice(), pp.as_slice()) {
                    match parse_pad(&parts, symbols) {
                        Some(p) => {
                            out.push(p);
                        },
                        None => {
                        },
                    }
                } else if bytes_eq(parts[0].as_slice(), ll.as_slice()) {
                    match parse_line(&parts, symbols) {
                        Some(p) => {
                            out.push(p);
                        },
                        None => {
                        },
                    }
                } else if bytes_eq(parts[0].as_slice(), aa.as_slice()) {
                    match parse_arc(&parts) {
                        Some(p) => {
                            out.push(p);
                        },
                        None => {
                        },
                    }
                } else if bytes_eq(parts[0].as_slice(), ss.as_slice()) {
                    match parse_surface(&parts) {
                        Some(ps) => {
                            crate::boolean::extend_primitives(&mut out, &ps);
                        },
                        None => {
                        },
                    }
                }
            }
        }
        i = i + 1;
    }
    out
}

/// One layer of a matrix file.
#[derive(Clone, Debug)]
pub struct LayerInfo {
    pub name: Vec<u8>,
    pub layer_type: Vec<u8>,
    pub polarity: Vec<u8>,
}

/// The first double-quoted string of a line, when both quotes are present.
pub open spec fn spec_quoted(s: Seq<u8>) -> Option<Seq<u8>> {
    if has_byte(s, 34) {
        let rest = s.skip(first_occ(s, 34) + 1);
        if has_byte(rest, 34) {
            Some(rest.take(first_occ(rest, 34)))
        } else {
            None
        }
    } else {
        None
    }
}

/// Extract the first double-quoted string of a line.
fn quoted(s: &[u8]) -> (r: Option<Vec<u8>>)
    ensures
        match spec_quoted(s@) {
            Some(v) => r is Some && r->0@ == v,
            None => r is None,
        },
{
    match find_byte(s, 34) {
        Some(p) => {
            let sl: usize = s.len();
            proof {
                assert(p < sl);
            }
            let rest: &[u8] = vstd::slice::slice_subrange(s, p + 1, sl);
            proof {
                assert(rest@ =~= s@.skip(p as int + 1));
            }
            match find_byte(rest, 34) {
                Some(q) => {
                    let word: &[u8] = vstd::slice::slice_subrange(rest, 0, q);
                    let mut out: Vec<u8> = Vec::new();
                    append_bytes(&mut out, word);
                    proof {
                        assert(word@ =~= rest@.take(first_occ(rest@, 34)));
                    }
                    Some(out)
                },
                None => None,
            }
        },
        None => None,
    }
}

/// The matrix fold: a `(layer` line opens a block (keeping a finished,
/// named one); `(name`, `(type` and `(polarity` lines inside a block set
/// its fields from their quoted strings; the last open, named block is
/// kept at the end.
pub open spec fn spec_matrix_from(
    lines: Seq<Seq<u8>>,
    i: int,
    open_block: bool,
    cur: (Seq<u8>, Seq<u8>, Seq<u8>),
    acc: Seq<(Seq<u8>, Seq<u8>, Seq<u8>)>,
) -> Seq<(Seq<u8>, Seq<u8>, Seq<u8>)>
    decreases lines.len() - i,
{
    if i < 0 || i >= lines.len() {
        if open_block && cur.0.len() > 0 {
            acc.push(cur)
        } else {
            acc
        }
    } else {
        let t = spec_trim(lines[i]);
        if spec_starts_with(t, seq![40u8, 108u8, 97u8, 121u8, 101u8, 114u8]) {
            let acc2 = if open_block && cur.0.len() > 0 {
                acc.push(cur)
            } else {
                acc
            };
            spec_matrix_from(lines, i + 1, true, (Seq::<u8>::empty(), Seq::<u8>::empty(),
                Seq::<u8>::empty()), acc2)
        } else if open_block && spec_starts_with(t, seq![40u8, 110u8, 97u8, 109u8,
            101u8]) {
            match spec_quoted(t) {
                Some(v) => spec_matrix_from(lines, i + 1, open_block, (v, cur.1, cur.2),
                    acc),
                None => spec_matrix_from(lines, i + 1, open_block, cur, acc),
            }
        } else if open_block && spec_starts_with(t, seq![40u8, 116u8, 121u8, 112u8,
            101u8]) {
            match spec_quoted(t) {
                Some(v) => spec_matrix_from(lines, i + 1, open_block, (cur.0, v, cur.2),
                    acc),
                None => spec_matrix_from(lines, i + 1, open_block, cur, acc),
            }
        } else if open_block && spec_starts_with(t, seq![40u8, 112u8, 111u8, 108u8, 97u8,
            114u8, 105u8, 116u8, 121u8]) {
            match spec_quoted(t) {
                Some(v) => spec_matrix_from(lines, i + 1, open_block, (cur.0, cur.1, v),
                    acc),
                None => spec_matrix_from(lines, i + 1, open_block, cur, acc),
            }
        } else {
            spec_matrix_from(lines, i + 1, open_block, cur, acc)
        }
    }
}

/// The layer records of a matrix file.
pub open spec fn spec_parse_matrix(content: Seq<u8>) -> Seq<(Seq<u8>, Seq<u8>, Seq<u8>)> {
    spec_matrix_from(spec_split(content, 10), 0, false, (Seq::<u8>::empty(),
        Seq::<u8>::empty(), Seq::<u8>::empty()), Seq::<(Seq<u8>, Seq<u8>, Seq<u8>)>::empty())
}

/// The view of a layer list.
pub open spec fn layers_info_view(v: Seq<LayerInfo>) -> Seq<(Seq<u8>, Seq<u8>, Seq<u8>)> {
    v.map_values(|l: LayerInfo| (l.name@, l.layer_type@, l.polarity@))
}

/// Parse a matrix file into its layer records.
#[verifier::rlimit(100)]
#[verifier::spinoff_prover]
pub fn parse_matrix(content: &[u8]) -> (r: Vec<LayerInfo>)
    ensures
        layers_info_view(r@) == spec_parse_matrix(content@),
{
    let lines: Vec<Vec<u8>> = split_bytes(content, 10);
    let ghost lv = stmts_view(lines);
    proof {
        lemma_dims_index(&lines, content@, 10);
        assert(lv =~~= spec_split(content@, 10));
    }
    let mut out: Vec<LayerInfo> = Vec::new();
    let mut open_block: bool = false;
    let mut name: Vec<u8> = Vec::new();
    let mut layer_type: Vec<u8> = Vec::new();
    let mut polarity: Vec<u8> = Vec::new();
    let mut i: usize = 0;
    proof {
        assert(layers_info_view(out@) =~~= Seq::<(Seq<u8>, Seq<u8>, Seq<u8>)>::empty());
        assert(name@ =~= Seq::<u8>::empty());
        assert(layer_type@ =~= Seq::<u8>::empty());
        assert(polarity@ =~= Seq::<u8>::empty());
    }
    while i < lines.len()
        invariant
            0 <= i <= lv.len(),
            lv == stmts_view(lines),
            spec_parse_matrix_whole(lv) == spec_matrix_from(lv, i as int, open_block, (
            name@, layer_type@, polarity@), layers_info_view(out@)),
        decreases lv.len() - i,
    {
        let ghost acc0 = layers_info_view(out@);
        proof {
            assert(lv[i as int] == lines@[i as int]@);
        }
        let t: &[u8] = trim(lines[i].as_slice());
        let layer_p: [u8; 6] = [40, 108, 97, 121, 101, 114];
        let name_p: [u8; 5] = [40, 110, 97, 109, 101];
        let type_p: [u8; 5] = [40, 116, 121, 112, 101];
        let pol_p: [u8; 9] = [40, 112, 111, 108, 97, 114, 105, 116, 121];
        proof {
            assert(layer_p@ =~= seq![40u8, 108u8, 97u8, 121u8, 101u8, 114u8]);
            assert(name_p@ =~= seq![40u8, 110u8, 97u8, 109u8, 101u8]);
            assert(type_p@ =~= seq![40u8, 116u8, 121u8, 112u8, 101u8]);
            assert(pol_p@ =~= seq![40u8, 112u8, 111u8, 108u8, 97u8, 114u8, 105u8, 116u8,
                121u8]);
        }
        if starts_with(t, layer_p.as_slice()) {
            if open_block && name.len() > 0 {
                let ghost pushed = (name@, layer_type@, polarity@);
                out.push(LayerInfo { name, layer_type, polarity });
                proof {
                    assert(layers_info_view(out@) =~~= acc0.push(pushed));
                }
            }
            open_block = true;
            name = Vec::new();
            layer_type = Vec::new();
            polarity = Vec::new();
            proof {
                assert(name@ =~= Seq::<u8>::empty());
                assert(layer_type@ =~= Seq::<u8>::empty());
                assert(polarity@ =~= Seq::<u8>::empty());
            }
        } else if open_block && starts_with(t, name_p.as_slice()) {
            match quoted(t) {
                Some(v) => {
                    name = v;
                },
                None => {
                },
            }
        } else if open_block && starts_with(t, type_p.as_slice()) {
            match quoted(t) {
                Some(v) => {
                    layer_type = v;
                },
                None => {
                },
            }
        } else if open_block && starts_with(t, pol_p.as_slice()) {
            match quoted(t) {
                Some(v) => {
                    polarity = v;
                },
                None => {
                },
            }
        }
        i = i + 1;
    }
    if open_block && name.len() > 0 {
        let ghost acc0 = layers_info_view(out@);
        let ghost pushed = (name@, layer_type@, polarity@);
        out.push(LayerInfo { name, layer_type, polarity });
        proof {
            assert(layers_info_view(out@) =~~= acc0.push(pushed));
        }
    }
    out
}

/// The whole-file matrix fold, from a fresh state.
pub open spec fn spec_parse_matrix_whole(lines: Seq<Seq<u8>>) -> Seq<(Seq<u8>, Seq<u8>,
    Seq<u8>)> {
    spec_matrix_from(lines, 0, false, (Seq::<u8>::empty(), Seq::<u8>::empty(),
        Seq::<u8>::empty()), Seq::<(Seq<u8>, Seq<u8>, Seq<u8>)>::empty())
}

/// An ODB++ parser: the symbol store and the primitives of the last parse.
pub struct OdbParser {
    pub symbols: SymbolTable,
    pub current_primitives: Vec<Primitive>,
}

impl OdbParser {
    /// A fresh parser.
    pub fn new() -> (r: OdbParser)
        ensures
            r.symbols.entries@.len() == 0,
            r.current_primitives@.len() == 0,
    {
        OdbParser { symbols: SymbolTable::new(), current_primitives: Vec::new() }
    }

    /// Parse a symbols file and a features file into one transposed
    /// sublayer: the primitives are fixed by the two inputs alone, and the
    /// result satisfies the transposition contract against them.
    pub fn parse(&mut self, features_content: &[u8], symbols_content: &[u8])
        -> (r: GerberData)
        ensures
            symbol_table_view(final(self).symbols.entries@) == spec_parse_symbols(
                symbols_content@),
            final(self).current_primitives@ == spec_parse_features(features_content@,
                spec_parse_symbols(symbols_content@)),
            gerber_data_matches(r, final(self).current_primitives@),
    {
        self.symbols = parse_symbols(symbols_content);
        self.current_primitives = parse_features(features_content, &self.symbols);
        primitives_to_gerber_data(&self.current_primitives)
    }
}

} // verus!
