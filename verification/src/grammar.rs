//! The grammar of Coda, written as functions on character sequences: each says
//! what the parser reads from a position, what it makes of it and where it stops.
//!
//! Alternatives are tried in order and the first that succeeds wins, as in the
//! parser. Positions never move backwards; the conditions that say so in the
//! recursive definitions below are always true and only serve to show that the
//! recursion ends.

use vstd::prelude::*;
use crate::ast::{DimExpr, TypeExpr};
use crate::lex::{
    alphabetic, alnum_end, at, digit, digits_end, hws_end, ident_end, ident_start, lowercase,
    sym_end, uppercase, whitespace, ws1_s, ws_end,
};
use crate::types::model::opt_name_view;

verus! {

// ── Models of the syntax of types ─────────────────────────────────────────────

/// Model of a [`DimExpr`].
pub enum SDimExpr {
    Nat(u64),
    Var(Seq<char>),
}

/// Model of a [`TypeExpr`]: names are character sequences.
pub enum STypeExpr {
    Var(Seq<char>),
    Con(Seq<char>),
    App(Seq<char>, Seq<STypeExpr>),
    Fun(Seq<STypeExpr>, Box<STypeExpr>),
    Record(Seq<(Seq<char>, STypeExpr)>, Option<Seq<char>>),
    Union(Seq<(Seq<char>, Option<STypeExpr>)>, Option<Seq<char>>),
    Shaped(Box<STypeExpr>, Seq<SDimExpr>),
    Nat(u64),
}

pub open spec fn dim_view(d: DimExpr) -> SDimExpr {
    match d {
        DimExpr::Nat(n) => SDimExpr::Nat(n),
        DimExpr::Var(v) => SDimExpr::Var(v@),
    }
}

pub open spec fn dims_view(ds: Seq<DimExpr>) -> Seq<SDimExpr> {
    ds.map_values(|d: DimExpr| dim_view(d))
}

pub open spec fn te_view(t: TypeExpr) -> STypeExpr
    decreases t,
{
    match t {
        TypeExpr::Var(v) => STypeExpr::Var(v@),
        TypeExpr::Con(c) => STypeExpr::Con(c@),
        TypeExpr::App(n, args) => STypeExpr::App(n@, tes_view(args@)),
        TypeExpr::Fun(ps, r) => STypeExpr::Fun(tes_view(ps@), Box::new(te_view(*r))),
        TypeExpr::Record(fs, row) => STypeExpr::Record(tfields_view(fs@), opt_name_view(row)),
        TypeExpr::Union(ts, row) => STypeExpr::Union(ttags_view(ts@), opt_name_view(row)),
        TypeExpr::Shaped(inner, dims) => STypeExpr::Shaped(Box::new(te_view(*inner)), dims_view(dims@)),
        TypeExpr::Nat(n) => STypeExpr::Nat(n),
    }
}

pub open spec fn tes_view(ts: Seq<TypeExpr>) -> Seq<STypeExpr>
    decreases ts,
{
    if ts.len() == 0 {
        Seq::empty()
    } else {
        tes_view(ts.drop_last()).push(te_view(ts.last()))
    }
}

pub open spec fn tfields_view(fs: Seq<(String, TypeExpr)>) -> Seq<(Seq<char>, STypeExpr)>
    decreases fs,
{
    if fs.len() == 0 {
        Seq::empty()
    } else {
        tfields_view(fs.drop_last()).push((fs.last().0@, te_view(fs.last().1)))
    }
}

pub open spec fn ttags_view(ts: Seq<(String, Option<TypeExpr>)>) -> Seq<(Seq<char>, Option<STypeExpr>)>
    decreases ts,
{
    if ts.len() == 0 {
        Seq::empty()
    } else {
        ttags_view(ts.drop_last()).push(
            (
                ts.last().0@,
                match ts.last().1 {
                    Some(t) => Some(te_view(t)),
                    None => None,
                },
            ),
        )
    }
}

/// A parse result for a type, with names as character sequences.
pub open spec fn opt_te(r: Option<(TypeExpr, usize)>) -> Option<(STypeExpr, int)> {
    match r {
        Some(x) => Some((te_view(x.0), x.1 as int)),
        None => None,
    }
}

pub open spec fn opt_tes(r: Option<(Vec<TypeExpr>, usize)>) -> Option<(Seq<STypeExpr>, int)> {
    match r {
        Some(x) => Some((tes_view(x.0@), x.1 as int)),
        None => None,
    }
}

pub open spec fn opt_dims(r: Option<(Vec<DimExpr>, usize)>) -> Option<(Seq<SDimExpr>, int)> {
    match r {
        Some(x) => Some((dims_view(x.0@), x.1 as int)),
        None => None,
    }
}

pub proof fn lemma_tes_view_add(a: Seq<TypeExpr>, b: Seq<TypeExpr>)
    ensures
        tes_view(a + b) == tes_view(a) + tes_view(b),
    decreases b.len(),
{
    if b.len() == 0 {
        assert(a + b =~= a);
        assert(tes_view(a) + tes_view(b) =~= tes_view(a));
    } else {
        lemma_tes_view_add(a, b.drop_last());
        assert((a + b).drop_last() =~= a + b.drop_last());
        assert(tes_view(a) + tes_view(b) =~= (tes_view(a) + tes_view(b.drop_last())).push(te_view(b.last())));
    }
}

pub proof fn lemma_tes_view_push(a: Seq<TypeExpr>, t: TypeExpr)
    ensures
        tes_view(a.push(t)) == tes_view(a).push(te_view(t)),
{
    assert(a.push(t).drop_last() =~= a);
}

pub proof fn lemma_tfields_view_push(a: Seq<(String, TypeExpr)>, f: (String, TypeExpr))
    ensures
        tfields_view(a.push(f)) == tfields_view(a).push((f.0@, te_view(f.1))),
{
    assert(a.push(f).drop_last() =~= a);
}

pub proof fn lemma_ttags_view_push(a: Seq<(String, Option<TypeExpr>)>, t: (String, Option<TypeExpr>))
    ensures
        ttags_view(a.push(t)) == ttags_view(a).push(
            (
                t.0@,
                match t.1 {
                    Some(x) => Some(te_view(x)),
                    None => None,
                },
            ),
        ),
{
    assert(a.push(t).drop_last() =~= a);
}

// ── Tokens ────────────────────────────────────────────────────────────────────

pub open spec fn char_at_s(s: Seq<char>, p: int, c: char) -> bool {
    0 <= p < s.len() && s[p] == c
}

/// The decimal value of the digits `s[a..b]`.
pub open spec fn digits_num(s: Seq<char>, a: int, b: int) -> int
    decreases b - a,
{
    if b <= a {
        0
    } else {
        digits_num(s, a, b - 1) * 10 + (s[b - 1] as int - '0' as int)
    }
}

pub proof fn lemma_digits_num_nonneg(s: Seq<char>, a: int, i: int)
    requires
        a <= i,
        forall|k: int| a <= k < i ==> digit(#[trigger] s[k]),
    ensures
        0 <= digits_num(s, a, i),
    decreases i - a,
{
    if a < i {
        lemma_digits_num_nonneg(s, a, i - 1);
        assert(digit(s[i - 1]));
    }
}

pub proof fn lemma_digits_num_mono(s: Seq<char>, a: int, i: int, j: int)
    requires
        a <= i <= j,
        forall|k: int| a <= k < j ==> digit(#[trigger] s[k]),
    ensures
        0 <= digits_num(s, a, i) <= digits_num(s, a, j),
    decreases j - i,
{
    lemma_digits_num_nonneg(s, a, i);
    if i < j {
        lemma_digits_num_mono(s, a, i, j - 1);
        assert(digit(s[j - 1]));
    }
}

/// A word found at a position: its characters and where it ends.
pub open spec fn opt_word(r: Option<(String, usize)>) -> Option<(Seq<char>, int)> {
    match r {
        Some(x) => Some((x.0@, x.1 as int)),
        None => None,
    }
}

/// An identifier-shaped word: a letter or `_`, then letters, digits and `_`.
pub open spec fn word_s(s: Seq<char>, p: int) -> Option<(Seq<char>, int)> {
    if 0 <= p < s.len() && ident_start(s[p]) {
        Some((s.subrange(p, ident_end(s, p + 1)), ident_end(s, p + 1)))
    } else {
        None
    }
}

pub open spec fn keyword(w: Seq<char>) -> bool {
    w == "when"@ || w == "is"@ || w == "otherwise"@
}

/// An identifier: a word that is not a keyword.
pub open spec fn ident_s(s: Seq<char>, p: int) -> Option<(Seq<char>, int)> {
    match word_s(s, p) {
        Some((w, q)) => if keyword(w) { None } else { Some((w, q)) },
        None => None,
    }
}

/// The keyword `k`: a word equal to it.
pub open spec fn kw_s(s: Seq<char>, p: int, k: Seq<char>) -> Option<int> {
    match word_s(s, p) {
        Some((w, q)) => if w == k { Some(q) } else { None },
        None => None,
    }
}

/// A capitalized name.
pub open spec fn tag_name_s(s: Seq<char>, p: int) -> Option<(Seq<char>, int)> {
    if 0 <= p < s.len() && uppercase(s[p]) {
        Some((s.subrange(p, ident_end(s, p + 1)), ident_end(s, p + 1)))
    } else {
        None
    }
}

/// A maximal run of symbol characters.
pub open spec fn sym_token_s(s: Seq<char>, p: int) -> Option<(Seq<char>, int)> {
    if sym_end(s, p) > p {
        Some((s.subrange(p, sym_end(s, p)), sym_end(s, p)))
    } else {
        None
    }
}

/// A symbolic name: any symbol token but the reserved `->` and `=`.
pub open spec fn sym_name_s(s: Seq<char>, p: int) -> Option<(Seq<char>, int)> {
    match sym_token_s(s, p) {
        Some((t, q)) => if t == "->"@ || t == "="@ { None } else { Some((t, q)) },
        None => None,
    }
}

/// Exactly the symbol token `tok`.
pub open spec fn sym_exact_s(s: Seq<char>, p: int, tok: Seq<char>) -> Option<int> {
    match sym_token_s(s, p) {
        Some((t, q)) => if t == tok { Some(q) } else { None },
        None => None,
    }
}

// ── Types ─────────────────────────────────────────────────────────────────────

/// A type: atoms separated by spaces, then optionally ` -> type`, which makes
/// a function of all the atoms.
pub open spec fn type_expr_s(s: Seq<char>, p: int) -> Option<(STypeExpr, int)>
    decreases s.len() - p, 3nat,
{
    match type_atom_s(s, p) {
        None => None,
        Some((first, q0)) => if !(p <= q0 <= s.len()) {
            None
        } else {
            let (atoms, q) = type_rest_s(s, q0, seq![first]);
            let q1 = hws_end(s, q);
            let plain = Some((first, q));
            if at(s, q1, "->"@) {
                match ws1_s(s, q1 + 2) {
                    Some(q2) => if p < q2 <= s.len() {
                        match type_expr_s(s, q2) {
                            Some((ret, q3)) => Some((STypeExpr::Fun(atoms, Box::new(ret)), q3)),
                            None => plain,
                        }
                    } else {
                        plain
                    },
                    None => plain,
                }
            } else {
                plain
            }
        },
    }
}

/// More type atoms from `q`, each after spaces, added to `acc`: all of them and
/// where the last ends.
pub open spec fn type_rest_s(s: Seq<char>, q: int, acc: Seq<STypeExpr>) -> (Seq<STypeExpr>, int)
    decreases s.len() - q, 2nat,
{
    let q1 = hws_end(s, q);
    if !(q < q1 <= s.len()) {
        (acc, q)
    } else {
        match type_atom_s(s, q1) {
            Some((t, q2)) => if q1 <= q2 <= s.len() {
                type_rest_s(s, q2, acc.push(t))
            } else {
                (acc, q)
            },
            None => (acc, q),
        }
    }
}

/// A type atom, with an optional shape `[d, ..]` right after it.
pub open spec fn type_atom_s(s: Seq<char>, p: int) -> Option<(STypeExpr, int)>
    decreases s.len() - p, 2nat,
{
    match type_base_s(s, p) {
        None => None,
        Some((base, q)) => if char_at_s(s, q, '[') {
            match shape_suffix_s(s, q + 1) {
                Some((dims, q1)) => Some((STypeExpr::Shaped(Box::new(base), dims), q1)),
                None => Some((base, q)),
            }
        } else {
            Some((base, q))
        },
    }
}

/// Dimensions from `q`, separated by `,`, added to `acc`: naturals or
/// lowercase names. `None` where a natural does not fit in 64 bits; else all
/// the dimensions and where they end.
pub open spec fn dims_s(s: Seq<char>, q: int, acc: Seq<SDimExpr>) -> Option<(Seq<SDimExpr>, int)>
    decreases s.len() - q,
{
    let q1 = ws_end(s, q);
    let q2 = digits_end(s, q1);
    if q2 > q1 && digits_num(s, q1, q2) > u64::MAX {
        None
    } else if q2 <= q1 && !(0 <= q1 < s.len() && lowercase(s[q1])) {
        Some((acc, q))
    } else {
        let d = if q2 > q1 {
            SDimExpr::Nat(digits_num(s, q1, q2) as u64)
        } else {
            SDimExpr::Var(s.subrange(q1, ident_end(s, q1 + 1)))
        };
        let q3 = if q2 > q1 { q2 } else { ident_end(s, q1 + 1) };
        let q5 = ws_end(s, q3);
        if char_at_s(s, q5, ',') && q <= q5 {
            dims_s(s, q5 + 1, acc.push(d))
        } else {
            Some((acc.push(d), q5))
        }
    }
}

/// The shape after `[`: dimensions, then `]`.
pub open spec fn shape_suffix_s(s: Seq<char>, p: int) -> Option<(Seq<SDimExpr>, int)> {
    match dims_s(s, p, Seq::empty()) {
        Some((ds, q)) => if char_at_s(s, q, ']') { Some((ds, q + 1)) } else { None },
        None => None,
    }
}

/// The row of a record or union type: `| *` or `| name`.
pub open spec fn row_var_s(s: Seq<char>, p: int) -> Option<(Seq<char>, int)> {
    let q1 = hws_end(s, p);
    let q2 = hws_end(s, q1 + 1);
    if !char_at_s(s, q1, '|') {
        None
    } else if char_at_s(s, q2, '*') {
        Some(("*"@, q2 + 1))
    } else if 0 <= q2 < s.len() && alphabetic(s[q2]) {
        Some((s.subrange(q2, alnum_end(s, q2 + 1)), alnum_end(s, q2 + 1)))
    } else {
        None
    }
}

/// A type without a shape: a record, a union, a parenthesized type, a
/// constructor (applied to arguments or not), a type variable or a natural.
pub open spec fn type_base_s(s: Seq<char>, p: int) -> Option<(STypeExpr, int)>
    decreases s.len() - p, 1nat,
{
    if !(0 <= p < s.len()) {
        None
    } else if s[p] == '{' {
        type_record_s(s, p)
    } else if s[p] == '[' {
        type_union_s(s, p)
    } else if s[p] == '(' {
        let q1 = ws_end(s, p + 1);
        if !(p < q1 <= s.len()) {
            None
        } else {
            match type_expr_s(s, q1) {
                Some((t, q2)) => if char_at_s(s, ws_end(s, q2), ')') {
                    Some((t, ws_end(s, q2) + 1))
                } else {
                    None
                },
                None => None,
            }
        }
    } else if uppercase(s[p]) {
        let q1 = ident_end(s, p + 1);
        let name = s.subrange(p, q1);
        if char_at_s(s, q1, '(') && p < q1 {
            match type_args_s(s, q1) {
                Some((args, q2)) => Some((STypeExpr::App(name, args), q2)),
                None => Some((STypeExpr::Con(name), q1)),
            }
        } else {
            Some((STypeExpr::Con(name), q1))
        }
    } else if lowercase(s[p]) {
        Some((STypeExpr::Var(s.subrange(p, ident_end(s, p + 1))), ident_end(s, p + 1)))
    } else if digit(s[p]) {
        if digits_num(s, p, digits_end(s, p)) <= u64::MAX {
            Some((STypeExpr::Nat(digits_num(s, p, digits_end(s, p)) as u64), digits_end(s, p)))
        } else {
            None
        }
    } else {
        None
    }
}

/// Type arguments from `q`, separated by `,`, added to `acc`: all of them and
/// where they end.
pub open spec fn targs_s(s: Seq<char>, q: int, acc: Seq<STypeExpr>) -> (Seq<STypeExpr>, int)
    decreases s.len() - q, 4nat,
{
    let q1 = ws_end(s, q);
    if !(q <= q1 <= s.len()) {
        (acc, q)
    } else {
        match type_expr_s(s, q1) {
            Some((t, q2)) => if q2 == q {
                (acc, q)
            } else {
                let q3 = ws_end(s, q2);
                if char_at_s(s, q3, ',') && q <= q3 {
                    targs_s(s, q3 + 1, acc.push(t))
                } else {
                    (acc.push(t), q3)
                }
            },
            None => (acc, q),
        }
    }
}

/// `(` then types separated by `,`, then `)`.
pub open spec fn type_args_s(s: Seq<char>, p: int) -> Option<(Seq<STypeExpr>, int)>
    decreases s.len() - p, 0nat,
{
    if !(0 <= p < s.len()) {
        None
    } else {
        let (args, q) = targs_s(s, p + 1, Seq::empty());
        if char_at_s(s, q, ')') { Some((args, q + 1)) } else { None }
    }
}

/// Record fields `name: type` from `q`, separated by `,`, added to `acc`: all
/// of them and where they end.
pub open spec fn tfields_s(s: Seq<char>, q: int, acc: Seq<(Seq<char>, STypeExpr)>) -> (Seq<(Seq<char>, STypeExpr)>, int)
    decreases s.len() - q, 4nat,
{
    let q1 = ws_end(s, q);
    match word_s(s, q1) {
        None => (acc, q),
        Some((name, q2)) => {
            let q3 = hws_end(s, q2);
            let q4 = hws_end(s, q3 + 1);
            if !char_at_s(s, q3, ':') || !(q <= q4 <= s.len()) {
                (acc, q)
            } else {
                match type_expr_s(s, q4) {
                    None => (acc, q),
                    Some((t, q5)) => {
                        let q6 = ws_end(s, q5);
                        if char_at_s(s, q6, ',') && q <= q6 {
                            tfields_s(s, q6 + 1, acc.push((name, t)))
                        } else {
                            (acc.push((name, t)), q6)
                        }
                    },
                }
            }
        },
    }
}

/// A record type `{field: type, ... | row}`.
pub open spec fn type_record_s(s: Seq<char>, p: int) -> Option<(STypeExpr, int)>
    decreases s.len() - p, 0nat,
{
    if !char_at_s(s, p, '{') {
        None
    } else {
        let (fields, q) = tfields_s(s, p + 1, Seq::empty());
        let (row, q7) = match row_var_s(s, q) {
            Some((r, q7)) => (Some(r), q7),
            None => (None, q),
        };
        if char_at_s(s, q7, '}') {
            Some((STypeExpr::Record(fields, row), q7 + 1))
        } else {
            None
        }
    }
}

/// Union tags `Tag payload?` from `q`, separated by `,`, added to `acc`: all
/// of them and where they end. A payload follows its tag after spaces.
pub open spec fn ttags_s(s: Seq<char>, q: int, acc: Seq<(Seq<char>, Option<STypeExpr>)>) -> (Seq<(Seq<char>, Option<STypeExpr>)>, int)
    decreases s.len() - q, 4nat,
{
    let q1 = ws_end(s, q);
    match tag_name_s(s, q1) {
        None => (acc, q),
        Some((name, q2)) => {
            let q3 = hws_end(s, q2);
            let payload: (Option<STypeExpr>, int) = if q3 > q2 && 0 <= q3 < s.len()
                && !whitespace(s[q3]) && q <= q3 <= s.len() {
                match type_expr_s(s, q3) {
                    Some((t, q4)) => (Some(t), q4),
                    None => (None, q2),
                }
            } else {
                (None, q2)
            };
            let q5 = ws_end(s, payload.1);
            if char_at_s(s, q5, ',') && q <= q5 {
                ttags_s(s, q5 + 1, acc.push((name, payload.0)))
            } else {
                (acc.push((name, payload.0)), q5)
            }
        },
    }
}

/// A union type `[Tag payload?, ... | row]`.
pub open spec fn type_union_s(s: Seq<char>, p: int) -> Option<(STypeExpr, int)>
    decreases s.len() - p, 0nat,
{
    if !char_at_s(s, p, '[') {
        None
    } else {
        let (tags, q) = ttags_s(s, p + 1, Seq::empty());
        let (row, q6) = match row_var_s(s, q) {
            Some((r, q6)) => (Some(r), q6),
            None => (None, q),
        };
        if char_at_s(s, q6, ']') {
            Some((STypeExpr::Union(tags, row), q6 + 1))
        } else {
            None
        }
    }
}

/// A whole text read as a type: whitespace around it allowed. `Err` holds the
/// position where reading stopped.
pub open spec fn type_text_s(s: Seq<char>) -> Result<STypeExpr, int> {
    match type_expr_s(s, ws_end(s, 0)) {
        None => Err(ws_end(s, 0)),
        Some((t, q1)) => if ws_end(s, q1) == s.len() { Ok(t) } else { Err(ws_end(s, q1)) },
    }
}

} // verus!
