//! The aperture-macro arithmetic expression language.
//!
//! Expressions hold decimal literals, `$n` variable references, the four
//! operators (`x`/`X` also mean multiply in Gerber), and parentheses, which
//! are tokenized but carry no grouping (matching the dialect this engine
//! accepts). Evaluation folds multiplication and division left to right
//! first, then addition and subtraction. Values are fixed-point (`fixed`).

use vstd::prelude::*;
use crate::fixed::{sat_i64, spec_fix_mul, spec_mul_div, fix_mul, mul_div, FIX_ONE};
use crate::text::{spec_parse_decimal, parse_decimal, is_digit, digits_val, all_digits};

verus! {

/// One token of a macro expression.
#[derive(Clone, Copy, Debug, PartialEq, Eq, Structural)]
pub enum Token {
    /// A decimal literal, as a fixed-point value.
    Num(i64),
    /// A malformed decimal literal; it fails only when its value is asked
    /// for, matching the soft-skip discipline.
    BadNumber,
    /// A `$n` variable reference.
    Var(u32),
    Plus,
    Minus,
    Times,
    Div,
    LParen,
    RParen,
}

/// Why an expression does not evaluate.
#[derive(Clone, Copy, Debug, PartialEq, Eq, Structural)]
pub enum EvalError {
    EmptyExpression,
    /// A byte that belongs to no token.
    InvalidCharacter(u8),
    /// A `$n` reference with no binding.
    UndefinedVariable(u32),
    DivisionByZero,
    /// A malformed decimal literal, or a token where a value was needed.
    InvalidNumber,
}

/// The last token of a stream, if any.
pub open spec fn last_token(toks: Seq<Token>) -> Option<Token> {
    if toks.len() == 0 {
        None
    } else {
        Some(toks.last())
    }
}

pub open spec fn is_op_token(t: Token) -> bool {
    t == Token::Plus || t == Token::Minus || t == Token::Times || t == Token::Div
        || t == Token::LParen
}

/// Whether the previous token lets `+`/`-` act as a sign: at the start or
/// after an operator or an opening bracket.
pub open spec fn spec_sign_position(last: Option<Token>) -> bool {
    match last {
        None => true,
        Some(t) => is_op_token(t),
    }
}

/// Whether the previous token (if any) is an operator or an opening bracket.
pub fn is_operator_or_bracket(token: Option<&Token>) -> (r: bool)
    ensures
        r == spec_sign_position(
            match token {
                Some(t) => Some(*t),
                None => None,
            },
        ),
{
    match token {
        Some(t) => match t {
            Token::Plus | Token::Minus | Token::Times | Token::Div | Token::LParen => true,
            _ => false,
        },
        None => true,
    }
}

pub open spec fn is_ws(b: u8) -> bool {
    b == 32 || b == 9 || b == 10 || b == 13 || b == 12 || b == 11
}

pub open spec fn is_num_byte(b: u8) -> bool {
    is_digit(b) || b == 46
}

/// The length of the numeric run (digits and dots) at the front of `s`.
pub open spec fn num_run(s: Seq<u8>) -> int
    decreases s.len(),
{
    if s.len() == 0 || !is_num_byte(s[0]) {
        0
    } else {
        1 + num_run(s.skip(1))
    }
}

/// The length of the digit run at the front of `s`.
pub open spec fn digit_run(s: Seq<u8>) -> int
    decreases s.len(),
{
    if s.len() == 0 || !is_digit(s[0]) {
        0
    } else {
        1 + digit_run(s.skip(1))
    }
}

proof fn lemma_num_run_bounds(s: Seq<u8>)
    ensures
        0 <= num_run(s) <= s.len(),
        0 <= digit_run(s) <= s.len(),
        forall|i: int| 0 <= i < num_run(s) ==> is_num_byte(#[trigger] s[i]),
        num_run(s) < s.len() ==> !is_num_byte(s[num_run(s)]),
        forall|i: int| 0 <= i < digit_run(s) ==> is_digit(#[trigger] s[i]),
        digit_run(s) < s.len() ==> !is_digit(s[digit_run(s)]),
    decreases s.len(),
{
    if s.len() > 0 {
        lemma_num_run_bounds(s.skip(1));
        assert forall|i: int| 0 <= i < num_run(s) implies is_num_byte(#[trigger] s[i]) by {
            if i > 0 {
                assert(s.skip(1)[i - 1] == s[i]);
            }
        }
        assert forall|i: int| 0 <= i < digit_run(s) implies is_digit(#[trigger] s[i]) by {
            if i > 0 {
                assert(s.skip(1)[i - 1] == s[i]);
            }
        }
        if num_run(s) > 0 && num_run(s) < s.len() {
            assert(s.skip(1)[num_run(s) - 1] == s[num_run(s)]);
        }
        if digit_run(s) > 0 && digit_run(s) < s.len() {
            assert(s.skip(1)[digit_run(s) - 1] == s[digit_run(s)]);
        }
    }
}

/// The variable index denoted by a digit run, clamped to `u32`.
pub open spec fn var_index(s: Seq<u8>) -> int {
    if digits_val(s) > u32::MAX as int {
        u32::MAX as int
    } else {
        digits_val(s)
    }
}

/// The tokens of the expression from byte `i` on, given the tokens so far.
pub open spec fn spec_tok_from(s: Seq<u8>, i: int, toks: Seq<Token>)
    -> Result<Seq<Token>, EvalError>
    decreases s.len() - i,
    via spec_tok_from_dec
{
    if i < 0 || i >= s.len() {
        Ok(toks)
    } else {
        let c = s[i];
        if is_ws(c) {
            spec_tok_from(s, i + 1, toks)
        } else if (c == 43 || c == 45) && spec_sign_position(last_token(toks)) {
            if i + 1 < s.len() && s[i + 1] == 36 {
                // A signed variable: the sign stays its own token.
                let d = digit_run(s.skip(i + 2));
                let sign = if c == 45 { Token::Minus } else { Token::Plus };
                spec_tok_from(
                    s,
                    i + 2 + d,
                    toks + seq![sign, Token::Var(var_index(s.subrange(i + 2, i + 2 + d)) as u32)],
                )
            } else if i + 1 < s.len() && is_num_byte(s[i + 1]) {
                let d = num_run(s.skip(i + 1));
                let t = match spec_parse_decimal(s.subrange(i, i + 1 + d)) {
                    Some(v) => Token::Num(v as i64),
                    None => Token::BadNumber,
                };
                spec_tok_from(s, i + 1 + d, toks + seq![t])
            } else {
                let sign = if c == 45 { Token::Minus } else { Token::Plus };
                spec_tok_from(s, i + 1, toks + seq![sign])
            }
        } else if c == 36 {
            let d = digit_run(s.skip(i + 1));
            spec_tok_from(
                s,
                i + 1 + d,
                toks + seq![Token::Var(var_index(s.subrange(i + 1, i + 1 + d)) as u32)],
            )
        } else if is_num_byte(c) {
            let d = num_run(s.skip(i));
            let t = match spec_parse_decimal(s.subrange(i, i + d)) {
                Some(v) => Token::Num(v as i64),
                None => Token::BadNumber,
            };
            spec_tok_from(s, i + d, toks + seq![t])
        } else if c == 43 {
            spec_tok_from(s, i + 1, toks + seq![Token::Plus])
        } else if c == 45 {
            spec_tok_from(s, i + 1, toks + seq![Token::Minus])
        } else if c == 42 || c == 88 {
            spec_tok_from(s, i + 1, toks + seq![Token::Times])
        } else if c == 47 {
            spec_tok_from(s, i + 1, toks + seq![Token::Div])
        } else if c == 40 {
            spec_tok_from(s, i + 1, toks + seq![Token::LParen])
        } else if c == 41 {
            spec_tok_from(s, i + 1, toks + seq![Token::RParen])
        } else {
            Err(EvalError::InvalidCharacter(c))
        }
    }
}

#[via_fn]
proof fn spec_tok_from_dec(s: Seq<u8>, i: int, toks: Seq<Token>) {
    if 0 <= i < s.len() {
        lemma_num_run_bounds(s.skip(i));
        if i + 1 <= s.len() {
            lemma_num_run_bounds(s.skip(i + 1));
        }
        if i + 2 <= s.len() {
            lemma_num_run_bounds(s.skip(i + 2));
        }
    }
}

/// The token stream of an expression.
pub open spec fn spec_tokenize(s: Seq<u8>) -> Result<Seq<Token>, EvalError> {
    spec_tok_from(s, 0, Seq::<Token>::empty())
}

/// Scan the digit run starting at `i` and return its length.
fn scan_digits(s: &[u8], i: usize) -> (d: usize)
    requires
        i <= s@.len(),
    ensures
        d as int == digit_run(s@.skip(i as int)),
        i + d <= s@.len(),
{
    proof {
        lemma_num_run_bounds(s@.skip(i as int));
    }
    let mut j: usize = i;
    while j < s.len() && s[j] >= 48 && s[j] <= 57
        invariant
            i <= j <= s@.len(),
            forall|a: int| i <= a < j ==> is_digit(#[trigger] s@[a]),
        decreases s@.len() - j,
    {
        j = j + 1;
    }
    proof {
        let sub = s@.skip(i as int);
        assert forall|a: int| 0 <= a < (j as int - i as int) implies
            is_digit(#[trigger] sub[a]) by {
            assert(sub[a] == s@[i as int + a]);
        }
        if (j as int) < s@.len() {
            assert(sub[j as int - i as int] == s@[j as int]);
        }
        lemma_run_from_scan(sub, j as int - i as int, false);
    }
    j - i
}

/// Scan the numeric run (digits and dots) starting at `i`.
fn scan_num(s: &[u8], i: usize) -> (d: usize)
    requires
        i <= s@.len(),
    ensures
        d as int == num_run(s@.skip(i as int)),
        i + d <= s@.len(),
{
    proof {
        lemma_num_run_bounds(s@.skip(i as int));
    }
    let mut j: usize = i;
    while j < s.len() && ((s[j] >= 48 && s[j] <= 57) || s[j] == 46)
        invariant
            i <= j <= s@.len(),
            forall|a: int| i <= a < j ==> is_num_byte(#[trigger] s@[a]),
        decreases s@.len() - j,
    {
        j = j + 1;
    }
    proof {
        let sub = s@.skip(i as int);
        assert forall|a: int| 0 <= a < (j as int - i as int) implies
            is_num_byte(#[trigger] sub[a]) by {
            assert(sub[a] == s@[i as int + a]);
        }
        if (j as int) < s@.len() {
            assert(sub[j as int - i as int] == s@[j as int]);
        }
        lemma_run_from_scan(sub, j as int - i as int, true);
    }
    j - i
}

/// A run of `n` matching bytes followed by a non-matching byte (or the end)
/// pins down the run length.
proof fn lemma_run_from_scan(s: Seq<u8>, n: int, numeric: bool)
    requires
        0 <= n <= s.len(),
        numeric ==> forall|a: int| 0 <= a < n ==> is_num_byte(#[trigger] s[a]),
        numeric && n < s.len() ==> !is_num_byte(s[n]),
        !numeric ==> forall|a: int| 0 <= a < n ==> is_digit(#[trigger] s[a]),
        !numeric && n < s.len() ==> !is_digit(s[n]),
    ensures
        numeric ==> num_run(s) == n,
        !numeric ==> digit_run(s) == n,
    decreases n,
{
    if n > 0 {
        assert forall|a: int| 0 <= a < n - 1 implies
            (numeric ==> is_num_byte(#[trigger] s.skip(1)[a]))
            && (!numeric ==> is_digit(#[trigger] s.skip(1)[a])) by {
            assert(s.skip(1)[a] == s[a + 1]);
        }
        if n - 1 < s.skip(1).len() {
            assert(s.skip(1)[n - 1] == s[n]);
        }
        lemma_run_from_scan(s.skip(1), n - 1, numeric);
    }
}

/// Convert a digit run to a variable index, clamping to `u32`.
pub fn digits_to_var_pub(s: &[u8]) -> (r: u32)
    requires
        all_digits(s@),
    ensures
        r as int == var_index(s@),
{
    let mut val: u64 = 0;
    let mut i: usize = 0;
    proof {
        assert(s@.take(0) =~= Seq::<u8>::empty());
    }
    while i < s.len()
        invariant
            0 <= i <= s@.len(),
            all_digits(s@),
            val <= u32::MAX as u64 ==> val as int == digits_val(s@.take(i as int)),
            val > u32::MAX as u64 ==> digits_val(s@.take(i as int)) > u32::MAX as int
                && val == u32::MAX as u64 + 1,
            val <= u32::MAX as u64 + 1,
        decreases s@.len() - i,
    {
        proof {
            assert(is_digit(s@[i as int]));
            assert(s@.take(i as int + 1).drop_last() =~= s@.take(i as int));
        }
        let b: u8 = s[i];
        let next: u64 = val * 10 + ((b - 48) as u64);
        if next > u32::MAX as u64 {
            val = u32::MAX as u64 + 1;
            proof {
                let t = s@.take(i as int + 1);
                assert(digits_val(t) == digits_val(s@.take(i as int)) * 10 + (t.last() - 48));
            }
        } else {
            val = next;
        }
        i = i + 1;
    }
    proof {
        assert(s@.take(s@.len() as int) =~= s@);
    }
    if val > u32::MAX as u64 {
        u32::MAX
    } else {
        val as u32
    }
}


/// Tokenize an expression.
pub fn tokenize(s: &[u8]) -> (r: Result<Vec<Token>, EvalError>)
    ensures
        r is Ok ==> spec_tokenize(s@) == Ok::<Seq<Token>, EvalError>(r->Ok_0@),
        r is Err ==> spec_tokenize(s@) == Err::<Seq<Token>, EvalError>(r->Err_0),
{
    let mut toks: Vec<Token> = Vec::new();
    let mut i: usize = 0;
    proof {
        assert(toks@ =~= Seq::<Token>::empty());
    }
    while i < s.len()
        invariant
            0 <= i <= s@.len(),
            spec_tokenize(s@) == spec_tok_from(s@, i as int, toks@),
        decreases s@.len() - i,
    {
        let ghost i0 = i as int;
        let ghost t0 = toks@;
        let c: u8 = s[i];
        let sign_pos: bool = if toks.len() == 0 {
            true
        } else {
            is_operator_or_bracket(Some(&toks[toks.len() - 1]))
        };
        proof {
            if t0.len() > 0 {
                assert(t0[t0.len() - 1] == t0.last());
            }
            assert(sign_pos == spec_sign_position(last_token(t0)));
        }
        if c == 32 || c == 9 || c == 10 || c == 13 || c == 12 || c == 11 {
            i = i + 1;
        } else if (c == 43 || c == 45) && sign_pos {
            if i + 1 < s.len() && s[i + 1] == 36 {
                let d: usize = scan_digits(s, i + 2);
                let run: &[u8] = vstd::slice::slice_subrange(s, i + 2, i + 2 + d);
                proof {
                    assert(run@ =~= s@.subrange(i0 + 2, i0 + 2 + d as int));
                    lemma_num_run_bounds(s@.skip(i0 + 2));
                    assert forall|a: int| 0 <= a < run@.len() implies
                        is_digit(#[trigger] run@[a]) by {
                        assert(run@[a] == s@.skip(i0 + 2)[a]);
                    }
                }
                let k: u32 = digits_to_var_pub(run);
                let sign: Token = if c == 45 {
                    Token::Minus
                } else {
                    Token::Plus
                };
                toks.push(sign);
                toks.push(Token::Var(k));
                i = i + 2 + d;
                proof {
                    assert(toks@ =~= t0 + seq![sign, Token::Var(k)]);
                }
            } else if i + 1 < s.len() && ((s[i + 1] >= 48 && s[i + 1] <= 57) || s[i + 1] == 46) {
                let d: usize = scan_num(s, i + 1);
                let run: &[u8] = vstd::slice::slice_subrange(s, i, i + 1 + d);
                proof {
                    assert(run@ =~= s@.subrange(i0, i0 + 1 + d as int));
                }
                let t: Token = match parse_decimal(run) {
                    Some(v) => Token::Num(v),
                    None => Token::BadNumber,
                };
                toks.push(t);
                i = i + 1 + d;
                proof {
                    assert(toks@ =~= t0 + seq![t]);
                }
            } else {
                let sign: Token = if c == 45 {
                    Token::Minus
                } else {
                    Token::Plus
                };
                toks.push(sign);
                i = i + 1;
                proof {
                    assert(toks@ =~= t0 + seq![sign]);
                }
            }
        } else if c == 36 {
            let d: usize = scan_digits(s, i + 1);
            let run: &[u8] = vstd::slice::slice_subrange(s, i + 1, i + 1 + d);
            proof {
                assert(run@ =~= s@.subrange(i0 + 1, i0 + 1 + d as int));
                lemma_num_run_bounds(s@.skip(i0 + 1));
                assert forall|a: int| 0 <= a < run@.len() implies
                    is_digit(#[trigger] run@[a]) by {
                    assert(run@[a] == s@.skip(i0 + 1)[a]);
                }
            }
            let k: u32 = digits_to_var_pub(run);
            toks.push(Token::Var(k));
            i = i + 1 + d;
            proof {
                assert(toks@ =~= t0 + seq![Token::Var(k)]);
            }
        } else if (c >= 48 && c <= 57) || c == 46 {
            let d: usize = scan_num(s, i);
            let run: &[u8] = vstd::slice::slice_subrange(s, i, i + d);
            proof {
                assert(run@ =~= s@.subrange(i0, i0 + d as int));
                lemma_num_run_bounds(s@.skip(i0));
                assert(s@.skip(i0)[0] == s@[i0]);
                assert(d >= 1);
            }
            let t: Token = match parse_decimal(run) {
                Some(v) => Token::Num(v),
                None => Token::BadNumber,
            };
            toks.push(t);
            i = i + d;
            proof {
                assert(toks@ =~= t0 + seq![t]);
            }
        } else if c == 43 {
            toks.push(Token::Plus);
            i = i + 1;
            proof {
                assert(toks@ =~= t0 + seq![Token::Plus]);
            }
        } else if c == 45 {
            toks.push(Token::Minus);
            i = i + 1;
            proof {
                assert(toks@ =~= t0 + seq![Token::Minus]);
            }
        } else if c == 42 || c == 88 {
            toks.push(Token::Times);
            i = i + 1;
            proof {
                assert(toks@ =~= t0 + seq![Token::Times]);
            }
        } else if c == 47 {
            toks.push(Token::Div);
            i = i + 1;
            proof {
                assert(toks@ =~= t0 + seq![Token::Div]);
            }
        } else if c == 40 {
            toks.push(Token::LParen);
            i = i + 1;
            proof {
                assert(toks@ =~= t0 + seq![Token::LParen]);
            }
        } else if c == 41 {
            toks.push(Token::RParen);
            i = i + 1;
            proof {
                assert(toks@ =~= t0 + seq![Token::RParen]);
            }
        } else {
            return Err(EvalError::InvalidCharacter(c));
        }
        proof {
            assert(spec_tok_from(s@, i0, t0) == spec_tok_from(s@, i as int, toks@));
        }
    }
    Ok(toks)
}

/// A variable table: `$n` bindings for one macro instantiation.
pub struct VarTable {
    pub entries: Vec<(u32, i64)>,
}

/// The first binding of `k`, scanning from the front.
pub open spec fn vars_lookup(s: Seq<(u32, i64)>, k: u32) -> Option<i64>
    decreases s.len(),
{
    if s.len() == 0 {
        None
    } else if s[0].0 == k {
        Some(s[0].1)
    } else {
        vars_lookup(s.skip(1), k)
    }
}

proof fn lemma_vars_lookup_at(s: Seq<(u32, i64)>, i: int, k: u32)
    requires
        0 <= i < s.len(),
        s[i].0 == k,
        forall|a: int| 0 <= a < i ==> (#[trigger] s[a]).0 != k,
    ensures
        vars_lookup(s, k) == Some(s[i].1),
    decreases i,
{
    if i > 0 {
        assert(s.skip(1)[i - 1] == s[i]);
        assert forall|a: int| 0 <= a < i - 1 implies (#[trigger] s.skip(1)[a]).0 != k by {
            assert(s.skip(1)[a] == s[a + 1]);
        }
        lemma_vars_lookup_at(s.skip(1), i - 1, k);
    }
}

proof fn lemma_vars_lookup_none(s: Seq<(u32, i64)>, k: u32)
    requires
        forall|a: int| 0 <= a < s.len() ==> (#[trigger] s[a]).0 != k,
    ensures
        vars_lookup(s, k) is None,
    decreases s.len(),
{
    if s.len() > 0 {
        assert forall|a: int| 0 <= a < s.len() - 1 implies
            (#[trigger] s.skip(1)[a]).0 != k by {
            assert(s.skip(1)[a] == s[a + 1]);
        }
        lemma_vars_lookup_none(s.skip(1), k);
    }
}

/// The table after binding `k`: the first earlier binding replaced, or a
/// new binding appended.
pub open spec fn spec_vars_set(s: Seq<(u32, i64)>, k: u32, v: i64) -> Seq<(u32, i64)>
    decreases s.len(),
{
    if s.len() == 0 {
        seq![(k, v)]
    } else if s[0].0 == k {
        seq![(k, v)] + s.skip(1)
    } else {
        seq![s[0]] + spec_vars_set(s.skip(1), k, v)
    }
}

proof fn lemma_vars_set_update(s: Seq<(u32, i64)>, i: int, k: u32, v: i64)
    requires
        0 <= i < s.len(),
        s[i].0 == k,
        forall|a: int| 0 <= a < i ==> (#[trigger] s[a]).0 != k,
    ensures
        spec_vars_set(s, k, v) == s.update(i, (k, v)),
    decreases i,
{
    if i == 0 {
        assert(spec_vars_set(s, k, v) =~= s.update(0, (k, v)));
    } else {
        assert(s.skip(1)[i - 1] == s[i]);
        assert forall|a: int| 0 <= a < i - 1 implies (#[trigger] s.skip(1)[a]).0 != k by {
            assert(s.skip(1)[a] == s[a + 1]);
        }
        lemma_vars_set_update(s.skip(1), i - 1, k, v);
        assert(spec_vars_set(s, k, v) =~= s.update(i, (k, v)));
    }
}

proof fn lemma_vars_set_push(s: Seq<(u32, i64)>, k: u32, v: i64)
    requires
        forall|a: int| 0 <= a < s.len() ==> (#[trigger] s[a]).0 != k,
    ensures
        spec_vars_set(s, k, v) == s.push((k, v)),
    decreases s.len(),
{
    if s.len() == 0 {
        assert(spec_vars_set(s, k, v) =~= s.push((k, v)));
    } else {
        assert forall|a: int| 0 <= a < s.len() - 1 implies
            (#[trigger] s.skip(1)[a]).0 != k by {
            assert(s.skip(1)[a] == s[a + 1]);
        }
        lemma_vars_set_push(s.skip(1), k, v);
        assert(spec_vars_set(s, k, v) =~= s.push((k, v)));
    }
}

/// Binding a key that is absent appends the new entry.
pub proof fn lemma_set_fresh_is_push(s: Seq<(u32, i64)>, k: u32, v: i64)
    requires
        forall|a: int| 0 <= a < s.len() ==> (#[trigger] s[a]).0 != k,
    ensures
        spec_vars_set(s, k, v) == s.push((k, v)),
{
    lemma_vars_set_push(s, k, v);
}

impl VarTable {
    /// An empty table.
    pub fn new() -> (r: VarTable)
        ensures
            r.entries@.len() == 0,
    {
        VarTable { entries: Vec::new() }
    }

    /// Look a variable up.
    pub fn get(&self, k: u32) -> (r: Option<i64>)
        ensures
            r == vars_lookup(self.entries@, k),
    {
        let mut i: usize = 0;
        while i < self.entries.len()
            invariant
                0 <= i <= self.entries@.len(),
                forall|a: int| 0 <= a < i ==> (#[trigger] self.entries@[a]).0 != k,
            decreases self.entries@.len() - i,
        {
            if self.entries[i].0 == k {
                proof {
                    lemma_vars_lookup_at(self.entries@, i as int, k);
                }
                return Some(self.entries[i].1);
            }
            i = i + 1;
        }
        proof {
            lemma_vars_lookup_none(self.entries@, k);
        }
        None
    }

    /// Bind a variable, replacing its first earlier binding if one exists.
    pub fn set(&mut self, k: u32, v: i64)
        ensures
            final(self).entries@ == spec_vars_set(old(self).entries@, k, v),
            vars_lookup(final(self).entries@, k) == Some(v),
            forall|k2: u32| k2 != k ==> vars_lookup(final(self).entries@, k2)
                == vars_lookup(old(self).entries@, k2),
    {
        let mut i: usize = 0;
        while i < self.entries.len()
            invariant
                0 <= i <= self.entries@.len(),
                self.entries@ == old(self).entries@,
                forall|a: int| 0 <= a < i ==> (#[trigger] self.entries@[a]).0 != k,
            decreases self.entries@.len() - i,
        {
            if self.entries[i].0 == k {
                self.entries.set(i, (k, v));
                proof {
                    lemma_vars_set_update(old(self).entries@, i as int, k, v);
                    lemma_vars_lookup_at(self.entries@, i as int, k);
                    assert forall|k2: u32| k2 != k implies
                        vars_lookup(self.entries@, k2)
                        == vars_lookup(old(self).entries@, k2) by {
                        lemma_vars_set_other(old(self).entries@, self.entries@, i as int, k2);
                    }
                }
                return;
            }
            i = i + 1;
        }
        self.entries.push((k, v));
        proof {
            lemma_vars_set_push(old(self).entries@, k, v);
            lemma_vars_lookup_at(self.entries@, self.entries@.len() - 1, k);
            assert forall|k2: u32| k2 != k implies
                vars_lookup(self.entries@, k2) == vars_lookup(old(self).entries@, k2) by {
                lemma_vars_push_other(old(self).entries@, k, v, k2);
            }
        }
    }
}

/// Replacing one entry leaves lookups of other keys unchanged when the two
/// tables agree everywhere but at the replaced slot and keys match there.
proof fn lemma_vars_set_other(a: Seq<(u32, i64)>, b: Seq<(u32, i64)>, i: int, k2: u32)
    requires
        a.len() == b.len(),
        0 <= i < a.len(),
        a[i].0 == b[i].0,
        b[i].0 != k2,
        forall|x: int| 0 <= x < a.len() && x != i ==> a[x] == b[x],
    ensures
        vars_lookup(a, k2) == vars_lookup(b, k2),
    decreases a.len(),
{
    if a.len() > 0 {
        if i == 0 {
            assert(a.skip(1) =~= b.skip(1));
        } else {
            assert(a[0] == b[0]);
            assert forall|x: int| 0 <= x < a.skip(1).len() && x != i - 1 implies
                a.skip(1)[x] == b.skip(1)[x] by {
                assert(a.skip(1)[x] == a[x + 1] && b.skip(1)[x] == b[x + 1]);
            }
            assert(a.skip(1)[i - 1] == a[i] && b.skip(1)[i - 1] == b[i]);
            lemma_vars_set_other(a.skip(1), b.skip(1), i - 1, k2);
        }
    }
}

/// Pushing a binding for `k` leaves lookups of other keys unchanged.
proof fn lemma_vars_push_other(a: Seq<(u32, i64)>, k: u32, v: i64, k2: u32)
    requires
        k2 != k,
    ensures
        vars_lookup(a.push((k, v)), k2) == vars_lookup(a, k2),
    decreases a.len(),
{
    if a.len() == 0 {
        assert(a.push((k, v))[0] == (k, v));
        assert(a.push((k, v)).skip(1) =~= Seq::<(u32, i64)>::empty());
        assert(vars_lookup(a.push((k, v)), k2)
            == vars_lookup(Seq::<(u32, i64)>::empty(), k2));
    } else {
        assert(a.push((k, v))[0] == a[0]);
        assert(a.push((k, v)).skip(1) =~= a.skip(1).push((k, v)));
        lemma_vars_push_other(a.skip(1), k, v, k2);
    }
}

/// Whether a token stands for a value (a literal or a variable).
pub open spec fn is_value_token(t: Token) -> bool {
    t is Num || t is Var || t is BadNumber
}

/// The value of one token: literals evaluate to themselves, variables to
/// their binding; anything else is no value.
pub open spec fn spec_token_value(t: Token, vars: Seq<(u32, i64)>) -> Result<int, EvalError> {
    match t {
        Token::Num(v) => Ok(v as int),
        Token::Var(k) => match vars_lookup(vars, k) {
            Some(v) => Ok(v as int),
            None => Err(EvalError::UndefinedVariable(k)),
        },
        _ => Err(EvalError::InvalidNumber),
    }
}

fn token_value(t: Token, vars: &VarTable) -> (r: Result<i64, EvalError>)
    ensures
        r is Ok ==> spec_token_value(t, vars.entries@) == Ok::<int, EvalError>(r->Ok_0 as int),
        r is Err ==> spec_token_value(t, vars.entries@) == Err::<int, EvalError>(r->Err_0),
{
    match t {
        Token::Num(v) => Ok(v),
        Token::Var(k) => match vars.get(k) {
            Some(v) => Ok(v),
            None => Err(EvalError::UndefinedVariable(k)),
        },
        _ => Err(EvalError::InvalidNumber),
    }
}


/// The token stream after folding `*` and `/` left to right from token `i`,
/// with `out` the already-folded prefix.
pub open spec fn spec_muldiv_from(
    toks: Seq<Token>,
    i: int,
    out: Seq<Token>,
    vars: Seq<(u32, i64)>,
) -> Result<Seq<Token>, EvalError>
    decreases toks.len() - i,
{
    if i < 0 || i >= toks.len() {
        Ok(out)
    } else if (toks[i] is Times || toks[i] is Div) && i + 1 < toks.len() && out.len() > 0
        && is_value_token(out.last()) {
        match spec_token_value(out.last(), vars) {
            Err(e) => Err(e),
            Ok(l) => match spec_token_value(toks[i + 1], vars) {
                Err(e) => Err(e),
                Ok(r) => if toks[i] is Div && r == 0 {
                    Err(EvalError::DivisionByZero)
                } else {
                    let val = if toks[i] is Times {
                        spec_fix_mul(l, r)
                    } else {
                        crate::fixed::spec_fix_div(l, r)
                    };
                    spec_muldiv_from(toks, i + 2, out.drop_last().push(Token::Num(val as i64)),
                        vars)
                },
            },
        }
    } else {
        spec_muldiv_from(toks, i + 1, out.push(toks[i]), vars)
    }
}

/// The running sum after folding `+` and `-` from token `i` on; a trailing
/// operand-less operator is ignored.
pub open spec fn spec_addsub_from(
    toks: Seq<Token>,
    i: int,
    acc: int,
    vars: Seq<(u32, i64)>,
) -> Result<int, EvalError>
    decreases toks.len() - i,
{
    if i < 0 || i + 1 >= toks.len() {
        Ok(acc)
    } else {
        match toks[i] {
            Token::Plus => match spec_token_value(toks[i + 1], vars) {
                Err(e) => Err(e),
                Ok(v) => spec_addsub_from(toks, i + 2, crate::fixed::spec_sat_add(acc, v), vars),
            },
            Token::Minus => match spec_token_value(toks[i + 1], vars) {
                Err(e) => Err(e),
                Ok(v) => spec_addsub_from(toks, i + 2, crate::fixed::spec_sat_sub(acc, v), vars),
            },
            _ => Err(EvalError::InvalidNumber),
        }
    }
}

/// The sum pass over a folded token stream, handling a leading sign.
pub open spec fn spec_addsub(toks: Seq<Token>, vars: Seq<(u32, i64)>) -> Result<int, EvalError> {
    if toks.len() == 0 {
        Err(EvalError::EmptyExpression)
    } else if toks[0] is Minus || toks[0] is Plus {
        if toks.len() < 2 {
            Err(EvalError::InvalidNumber)
        } else {
            match spec_token_value(toks[1], vars) {
                Err(e) => Err(e),
                Ok(v) => spec_addsub_from(
                    toks,
                    2,
                    if toks[0] is Minus {
                        sat_i64(-v)
                    } else {
                        v
                    },
                    vars,
                ),
            }
        }
    } else {
        match spec_token_value(toks[0], vars) {
            Err(e) => Err(e),
            Ok(v) => spec_addsub_from(toks, 1, v, vars),
        }
    }
}

/// The value of an expression under a variable table: tokenize, fold `*`
/// and `/`, then fold `+` and `-`.
pub open spec fn spec_evaluate(s: Seq<u8>, vars: Seq<(u32, i64)>) -> Result<int, EvalError> {
    match spec_tokenize(s) {
        Err(e) => Err(e),
        Ok(toks) => if toks.len() == 0 {
            Err(EvalError::EmptyExpression)
        } else {
            match spec_muldiv_from(toks, 0, Seq::<Token>::empty(), vars) {
                Err(e) => Err(e),
                Ok(folded) => spec_addsub(folded, vars),
            }
        },
    }
}

fn muldiv_pass(toks: &Vec<Token>, vars: &VarTable) -> (r: Result<Vec<Token>, EvalError>)
    ensures
        r is Ok ==> spec_muldiv_from(toks@, 0, Seq::<Token>::empty(), vars.entries@)
            == Ok::<Seq<Token>, EvalError>(r->Ok_0@),
        r is Err ==> spec_muldiv_from(toks@, 0, Seq::<Token>::empty(), vars.entries@)
            == Err::<Seq<Token>, EvalError>(r->Err_0),
{
    let mut out: Vec<Token> = Vec::new();
    let mut i: usize = 0;
    proof {
        assert(out@ =~= Seq::<Token>::empty());
    }
    while i < toks.len()
        invariant
            0 <= i <= toks@.len(),
            spec_muldiv_from(toks@, 0, Seq::<Token>::empty(), vars.entries@)
                == spec_muldiv_from(toks@, i as int, out@, vars.entries@),
        decreases toks@.len() - i,
    {
        let ghost i0 = i as int;
        let ghost o0 = out@;
        let t: Token = toks[i];
        let is_md: bool = match t {
            Token::Times | Token::Div => true,
            _ => false,
        };
        let last_is_value: bool = if out.len() == 0 {
            false
        } else {
            match out[out.len() - 1] {
                Token::Num(_) | Token::Var(_) | Token::BadNumber => true,
                _ => false,
            }
        };
        proof {
            if o0.len() > 0 {
                assert(o0[o0.len() - 1] == o0.last());
            }
        }
        if is_md && i + 1 < toks.len() && last_is_value {
            let l: i64 = match token_value(out[out.len() - 1], vars) {
                Ok(v) => v,
                Err(e) => {
                    return Err(e);
                },
            };
            let r: i64 = match token_value(toks[i + 1], vars) {
                Ok(v) => v,
                Err(e) => {
                    return Err(e);
                },
            };
            let is_div: bool = match t {
                Token::Div => true,
                _ => false,
            };
            if is_div && r == 0 {
                return Err(EvalError::DivisionByZero);
            }
            let val: i64 = if is_div {
                crate::fixed::fix_div(l, r)
            } else {
                fix_mul(l, r)
            };
            let _ = out.pop();
            out.push(Token::Num(val));
            i = i + 2;
            proof {
                assert(out@ =~= o0.drop_last().push(Token::Num(val)));
                assert(spec_muldiv_from(toks@, i0, o0, vars.entries@)
                    == spec_muldiv_from(toks@, i as int, out@, vars.entries@));
            }
        } else {
            out.push(t);
            i = i + 1;
            proof {
                assert(out@ =~= o0.push(t));
                assert(spec_muldiv_from(toks@, i0, o0, vars.entries@)
                    == spec_muldiv_from(toks@, i as int, out@, vars.entries@));
            }
        }
    }
    Ok(out)
}

fn addsub_pass(toks: &Vec<Token>, vars: &VarTable) -> (r: Result<i64, EvalError>)
    ensures
        r is Ok ==> spec_addsub(toks@, vars.entries@) == Ok::<int, EvalError>(r->Ok_0 as int),
        r is Err ==> spec_addsub(toks@, vars.entries@) == Err::<int, EvalError>(r->Err_0),
{
    if toks.len() == 0 {
        return Err(EvalError::EmptyExpression);
    }
    let first: Token = toks[0];
    let mut acc: i64;
    let mut i: usize;
    let leading_sign: bool = match first {
        Token::Plus | Token::Minus => true,
        _ => false,
    };
    if leading_sign {
        if toks.len() < 2 {
            return Err(EvalError::InvalidNumber);
        }
        let v: i64 = match token_value(toks[1], vars) {
            Ok(v) => v,
            Err(e) => {
                return Err(e);
            },
        };
        let negate: bool = match first {
            Token::Minus => true,
            _ => false,
        };
        acc = if negate {
            crate::fixed::sat_neg(v)
        } else {
            v
        };
        i = 2;
    } else {
        acc = match token_value(first, vars) {
            Ok(v) => v,
            Err(e) => {
                return Err(e);
            },
        };
        i = 1;
    }
    while i < toks.len() && i + 1 < toks.len()
        invariant
            0 <= i <= toks@.len() + 1,
            spec_addsub(toks@, vars.entries@) == spec_addsub_from(
                toks@,
                i as int,
                acc as int,
                vars.entries@,
            ),
        decreases toks@.len() - i,
    {
        let op: Token = toks[i];
        match op {
            Token::Plus => {
                let v: i64 = match token_value(toks[i + 1], vars) {
                    Ok(v) => v,
                    Err(e) => {
                        return Err(e);
                    },
                };
                acc = crate::fixed::sat_add(acc, v);
            },
            Token::Minus => {
                let v: i64 = match token_value(toks[i + 1], vars) {
                    Ok(v) => v,
                    Err(e) => {
                        return Err(e);
                    },
                };
                acc = crate::fixed::sat_sub(acc, v);
            },
            _ => {
                return Err(EvalError::InvalidNumber);
            },
        }
        i = i + 2;
    }
    Ok(acc)
}

/// Evaluate a macro arithmetic expression under a variable table.
pub fn evaluate_expression(s: &[u8], vars: &VarTable) -> (r: Result<i64, EvalError>)
    ensures
        r is Ok ==> spec_evaluate(s@, vars.entries@) == Ok::<int, EvalError>(r->Ok_0 as int),
        r is Err ==> spec_evaluate(s@, vars.entries@) == Err::<int, EvalError>(r->Err_0),
{
    let toks: Vec<Token> = match tokenize(s) {
        Ok(t) => t,
        Err(e) => {
            return Err(e);
        },
    };
    if toks.len() == 0 {
        return Err(EvalError::EmptyExpression);
    }
    let folded: Vec<Token> = match muldiv_pass(&toks, vars) {
        Ok(t) => t,
        Err(e) => {
            return Err(e);
        },
    };
    addsub_pass(&folded, vars)
}

} // verus!
