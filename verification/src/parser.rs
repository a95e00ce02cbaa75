//! The Coda parser: recursive descent over the characters of the source.
//!
//! Atoms strip leading whitespace and comments only; application `f(x)`, field
//! access `.f` and indexing `[i]` take no whitespace before them, while an infix
//! operator needs whitespace on both sides (`a + b`), which keeps the grammar
//! unambiguous. Infix operators associate to the left and desugar to
//! applications of the operator's name; template strings desugar to `++`; a
//! monadic bind `x <- t` in a block or file desugars to `then(t, \x -> rest)`.

use vstd::prelude::*;
use crate::ast::{BlockItem, DimExpr, Expr, IndexArg, Lit, Span, Spanned, TypeExpr};
use crate::lex::{
    at, digit, hws, is_alpha, is_digit, is_ident_start, is_lower, is_upper, is_ws, looking_at,
    opt_int, padding, padding_s, scan_alnum, scan_digits, scan_ident_chars, scan_sym_chars, sep,
    ws, ws1, ws_end,
};
use crate::grammar::{
    char_at_s, digits_num, dim_view, dims_view, ident_s, keyword, kw_s, lemma_digits_num_mono,
    lemma_tes_view_add, lemma_tes_view_push, lemma_tfields_view_push, lemma_ttags_view_push,
    opt_dims, opt_te, opt_tes, opt_word, row_var_s, shape_suffix_s, sym_exact_s, sym_name_s,
    sym_token_s, tag_name_s, te_view, tes_view, targs_s, tfields_s, tfields_view, ttags_s,
    ttags_view, type_args_s, type_atom_s, type_base_s, type_expr_s, type_record_s, type_rest_s,
    type_text_s, type_union_s, word_s, dims_s, STypeExpr,
};
use crate::expr_grammar::{
    app2_s, app_s, atom_s, block_body_s, block_item_s, block_items_s, branch_s, branch_view,
    branches_s, branches_view, chunk_end, close_s, desugar_s, efields_s, efields_view, elist_s,
    expr_list_s, expr_s, expr_text_s, file_text_s, idx_list_s, idxs_view, import_s, index_args_s,
    infix_s, item_view, items_view, lambda_s, last_bind, lemma_branches_view_push,
    lemma_efields_view_push, lemma_idxs_view_push, lemma_items_view, lemma_items_view_push,
    lemma_last_bind_append, lemma_sps_view, lemma_sps_view_push, lparams_s, node, number_s,
    opt_branch, opt_idxs, opt_item, opt_sp, opt_sps, otherwise_s, paren_block_s, postfix_s,
    quote_end, record_s, repl_items_s, repl_text_s, sp_view, sps_view, tag_s, template_s, concat_s,
    tparts_s, when_s, SExpr, SItem, SRepl, SSp,
};
use crate::types::model::names_view;
use crate::names::push_char;
use crate::text::chars_of;
use crate::types::infer_model::{
    all_desugared, desugared, idx_ok, idxs_desugared, item_ok, lemma_all_desugared,
    lemma_branches_desugared, lemma_fields_desugared, lemma_idxs_desugared, lemma_items_desugared,
};

verus! {

/// Why a text does not parse: the position where parsing stopped.
#[derive(Debug)]
pub struct ParseError {
    pub pos: usize,
    pub msg: String,
}

/// A single REPL input: bindings, annotations and monadic binds (kept as they
/// are, to be run one by one), a bare expression, or nothing.
#[derive(Debug)]
pub enum ReplInput {
    Items(Vec<BlockItem>),
    Expr(Spanned<Expr>),
    Nop,
}

/// The parser's result from position `p`: the value and the position after it.
pub open spec fn advanced<T>(r: Option<(T, usize)>, p: usize, n: nat) -> bool {
    match r {
        Some(x) => p <= x.1 <= n,
        None => true,
    }
}

/// Every expression in an item list is desugared and no item is a monadic bind.
pub open spec fn good_items(items: Seq<BlockItem>) -> bool {
    forall|j: int| 0 <= j < items.len() ==> item_ok(#[trigger] items[j])
}

// ── Small helpers ─────────────────────────────────────────────────────────────

fn sp(e: Expr, a: usize, b: usize) -> (r: Spanned<Expr>)
    ensures
        r.0 == e,
        r.1 == (Span { start: a, end: b }),
{
    Spanned(e, Span { start: a, end: b })
}

/// The characters `s[a..b]` as a string.
fn text(s: &Vec<char>, a: usize, b: usize) -> (r: String)
    requires
        a <= b <= s.len(),
    ensures
        r@ == s@.subrange(a as int, b as int),
{
    let mut r = String::new();
    let mut i = a;
    while i < b
        invariant
            a <= i <= b <= s.len(),
            r@ == s@.subrange(a as int, i as int),
        decreases b - i,
    {
        push_char(&mut r, s[i]);
        assert(r@ =~= s@.subrange(a as int, i + 1));
        i += 1;
    }
    r
}

fn lit_str(x: &str) -> (r: String)
    ensures
        r@ == x@,
{
    x.to_owned()
}

fn var_node(name: &str, a: usize, b: usize) -> (r: Spanned<Expr>)
    ensures
        desugared(r),
        sp_view(r) == node(SExpr::Var(name@), a as int, b as int),
{
    sp(Expr::Var(lit_str(name)), a, b)
}

fn app2(f: Spanned<Expr>, x: Spanned<Expr>, y: Spanned<Expr>, a: usize, b: usize) -> (r: Spanned<Expr>)
    requires
        desugared(f),
        desugared(x),
        desugared(y),
    ensures
        desugared(r),
        sp_view(r) == app2_s(sp_view(f), sp_view(x), sp_view(y), a as int, b as int),
{
    let ghost xv = sp_view(x);
    let ghost yv = sp_view(y);
    let mut args: Vec<Spanned<Expr>> = Vec::new();
    args.push(x);
    args.push(y);
    proof {
        lemma_all_desugared(args@, 0);
        lemma_sps_view_push(Seq::empty(), args@[0]);
        lemma_sps_view_push(seq![args@[0]], args@[1]);
        assert(Seq::<Spanned<Expr>>::empty().push(args@[0]) =~= seq![args@[0]]);
        assert(seq![args@[0]].push(args@[1]) =~= args@);
        assert(sps_view(args@) =~= seq![xv, yv]);
    }
    sp(Expr::App(Box::new(f), args), a, b)
}

/// The decimal value of the digits `s[a..b]`, if it fits in an `i64`.
fn digits_value(s: &Vec<char>, a: usize, b: usize) -> (r: Option<i64>)
    requires
        a <= b <= s.len(),
        forall|j: int| a <= j < b ==> digit(#[trigger] s@[j]),
    ensures
        match r {
            Some(v) => v == digits_num(s@, a as int, b as int),
            None => digits_num(s@, a as int, b as int) > i64::MAX,
        },
{
    let mut v: i64 = 0;
    let mut i = a;
    while i < b
        invariant
            a <= i <= b <= s.len(),
            forall|j: int| a <= j < b ==> digit(#[trigger] s@[j]),
            v == digits_num(s@, a as int, i as int),
        decreases b - i,
    {
        proof {
            lemma_digits_num_mono(s@, a as int, i + 1, b as int);
            lemma_digits_num_mono(s@, a as int, i as int, i + 1);
            assert(digit(s@[i as int]));
        }
        let d = (s[i] as u32 - '0' as u32) as i64;
        match v.checked_mul(10) {
            None => return None,
            Some(m) => match m.checked_add(d) {
                None => return None,
                Some(n) => {
                    v = n;
                },
            },
        }
        i += 1;
    }
    Some(v)
}

/// The decimal value of the digits `s[a..b]`, if it fits in a `u64`.
fn digits_value_u64(s: &Vec<char>, a: usize, b: usize) -> (r: Option<u64>)
    requires
        a <= b <= s.len(),
        forall|j: int| a <= j < b ==> digit(#[trigger] s@[j]),
    ensures
        match r {
            Some(v) => v == digits_num(s@, a as int, b as int),
            None => digits_num(s@, a as int, b as int) > u64::MAX,
        },
{
    let mut v: u64 = 0;
    let mut i = a;
    while i < b
        invariant
            a <= i <= b <= s.len(),
            forall|j: int| a <= j < b ==> digit(#[trigger] s@[j]),
            v == digits_num(s@, a as int, i as int),
        decreases b - i,
    {
        proof {
            lemma_digits_num_mono(s@, a as int, i + 1, b as int);
            assert(digit(s@[i as int]));
        }
        let d = (s[i] as u32 - '0' as u32) as u64;
        match v.checked_mul(10) {
            None => return None,
            Some(m) => match m.checked_add(d) {
                None => return None,
                Some(n) => {
                    v = n;
                },
            },
        }
        i += 1;
    }
    Some(v)
}

// ── Tokens ────────────────────────────────────────────────────────────────────

/// An identifier-shaped word: a letter or `_`, then letters, digits and `_`.
fn word(s: &Vec<char>, p: usize) -> (r: Option<(String, usize)>)
    requires
        p <= s.len(),
    ensures
        opt_word(r) == word_s(s@, p as int),
        match r {
            Some(x) => p < x.1 <= s.len(),
            None => true,
        },
{
    if p < s.len() && is_ident_start(s[p]) {
        let q = scan_ident_chars(s, p + 1);
        Some((text(s, p, q), q))
    } else {
        None
    }
}

fn is_keyword(w: &String) -> (r: bool)
    ensures
        r == keyword(w@),
{
    *w == lit_str("when") || *w == lit_str("is") || *w == lit_str("otherwise")
}

/// An identifier: a word that is not a keyword.
fn ident(s: &Vec<char>, p: usize) -> (r: Option<(String, usize)>)
    requires
        p <= s.len(),
    ensures
        opt_word(r) == ident_s(s@, p as int),
        match r {
            Some(x) => p < x.1 <= s.len(),
            None => true,
        },
{
    match word(s, p) {
        Some((w, q)) => if is_keyword(&w) { None } else { Some((w, q)) },
        None => None,
    }
}

/// The keyword `k`.
fn kw(s: &Vec<char>, p: usize, k: &str) -> (r: Option<usize>)
    requires
        p <= s.len(),
    ensures
        opt_int(r) == kw_s(s@, p as int, k@),
        match r {
            Some(q) => p <= q <= s.len(),
            None => true,
        },
{
    match word(s, p) {
        Some((w, q)) => if w == lit_str(k) { Some(q) } else { None },
        None => None,
    }
}

/// A capitalized name.
fn tag_name(s: &Vec<char>, p: usize) -> (r: Option<(String, usize)>)
    requires
        p <= s.len(),
    ensures
        opt_word(r) == tag_name_s(s@, p as int),
        match r {
            Some(x) => p < x.1 <= s.len(),
            None => true,
        },
{
    if p < s.len() && is_upper(s[p]) {
        let q = scan_ident_chars(s, p + 1);
        Some((text(s, p, q), q))
    } else {
        None
    }
}

/// A maximal run of symbol characters.
fn sym_token(s: &Vec<char>, p: usize) -> (r: Option<(String, usize)>)
    requires
        p <= s.len(),
    ensures
        opt_word(r) == sym_token_s(s@, p as int),
        match r {
            Some(x) => p < x.1 <= s.len(),
            None => true,
        },
{
    let q = scan_sym_chars(s, p);
    if q > p { Some((text(s, p, q), q)) } else { None }
}

/// A symbolic name: any symbol token but the reserved `->` and `=`.
fn sym_name(s: &Vec<char>, p: usize) -> (r: Option<(String, usize)>)
    requires
        p <= s.len(),
    ensures
        opt_word(r) == sym_name_s(s@, p as int),
        match r {
            Some(x) => p < x.1 <= s.len(),
            None => true,
        },
{
    match sym_token(s, p) {
        Some((t, q)) => if t == lit_str("->") || t == lit_str("=") { None } else { Some((t, q)) },
        None => None,
    }
}

/// Exactly the symbol token `tok` (so `=` is never the start of `==`).
fn sym_exact(s: &Vec<char>, p: usize, tok: &str) -> (r: Option<usize>)
    requires
        p <= s.len(),
    ensures
        opt_int(r) == sym_exact_s(s@, p as int, tok@),
        match r {
            Some(q) => p < q <= s.len(),
            None => true,
        },
{
    match sym_token(s, p) {
        Some((t, q)) => if t == lit_str(tok) { Some(q) } else { None },
        None => None,
    }
}

fn char_at(s: &Vec<char>, p: usize, c: char) -> (r: bool)
    requires
        p <= s.len(),
    ensures
        r == char_at_s(s@, p as int, c),
        r ==> p < s.len(),
{
    p < s.len() && s[p] == c
}

// ── Expressions ───────────────────────────────────────────────────────────────

/// An expression: applications joined by infix operators, left-associative.
fn expr(s: &Vec<char>, p: usize) -> (r: Option<(Spanned<Expr>, usize)>)
    requires
        p <= s.len(),
    ensures
        advanced(r, p, s@.len()),
        r is Some ==> desugared(r->Some_0.0),
        opt_sp(r) == expr_s(s@, p as int),
    decreases s.len() - p, 3nat,
{
    let (first, q0) = match app(s, p) {
        Some(x) => x,
        None => return None,
    };
    let ghost fv = sp_view(first);
    let start = first.1.start;
    let mut acc = first;
    let mut q = q0;
    loop
        invariant_except_break
            p <= q0 <= q <= s.len(),
            desugared(acc),
            acc.1.start == start,
            infix_s(s@, q0 as int, fv) == infix_s(s@, q as int, sp_view(acc)),
        ensures
            p <= q <= s.len(),
            desugared(acc),
            infix_s(s@, q0 as int, fv) == (sp_view(acc), q as int),
        decreases s.len() - q,
    {
        let q1 = match ws1(s, q) {
            Some(x) => x,
            None => break,
        };
        let (op, q2) = match sym_name(s, q1) {
            Some(x) => x,
            None => break,
        };
        let q3 = match ws1(s, q2) {
            Some(x) => x,
            None => break,
        };
        let (rhs, q4) = match app(s, q3) {
            Some(x) => x,
            None => break,
        };
        let f = sp(Expr::Var(op), q1, q2);
        acc = app2(f, acc, rhs, start, q4);
        q = q4;
    }
    Some((acc, q))
}

/// An atom followed by calls `(..)`, field accesses `.f` and indexing `[..]`.
fn app(s: &Vec<char>, p: usize) -> (r: Option<(Spanned<Expr>, usize)>)
    requires
        p <= s.len(),
    ensures
        advanced(r, p, s@.len()),
        r is Some ==> desugared(r->Some_0.0),
        opt_sp(r) == app_s(s@, p as int),
    decreases s.len() - p, 2nat,
{
    let (first, q0) = match atom(s, p) {
        Some(x) => x,
        None => return None,
    };
    let ghost fv = sp_view(first);
    let start = first.1.start;
    let mut acc = first;
    let mut q = q0;
    loop
        invariant_except_break
            p <= q0 <= q <= s.len(),
            desugared(acc),
            acc.1.start == start,
            postfix_s(s@, q0 as int, fv) == postfix_s(s@, q as int, sp_view(acc)),
        ensures
            p <= q <= s.len(),
            desugared(acc),
            postfix_s(s@, q0 as int, fv) == (sp_view(acc), q as int),
        decreases s.len() - q,
    {
        if char_at(s, q, '(') {
            match expr_list(s, q, ')') {
                Some((args, q1)) => {
                    acc = sp(Expr::App(Box::new(acc), args), start, q1);
                    q = q1;
                },
                None => break,
            }
        } else if char_at(s, q, '.') {
            match ident(s, q + 1) {
                Some((name, q1)) => {
                    acc = sp(Expr::Field(Box::new(acc), name), start, q1);
                    q = q1;
                },
                None => break,
            }
        } else if char_at(s, q, '[') {
            match index_args(s, q) {
                Some((idxs, q1)) => {
                    acc = sp(Expr::Index(Box::new(acc), idxs), start, q1);
                    q = q1;
                },
                None => break,
            }
        } else {
            break;
        }
    }
    Some((acc, q))
}

/// After the opening character at `p`: expressions separated by `,` (a trailing
/// `,` allowed), each with whitespace around it, up to the closing `close`.
fn expr_list(s: &Vec<char>, p: usize, close: char) -> (r: Option<(Vec<Spanned<Expr>>, usize)>)
    requires
        p < s.len(),
    ensures
        match r {
            Some(x) => p < x.1 <= s.len() && all_desugared(x.0@, 0),
            None => true,
        },
        opt_sps(r) == expr_list_s(s@, p as int, close),
    decreases s.len() - p, 0nat,
{
    let mut items: Vec<Spanned<Expr>> = Vec::new();
    let mut q = p + 1;
    loop
        invariant_except_break
            p < q <= s.len(),
            forall|j: int| 0 <= j < items@.len() ==> desugared(#[trigger] items@[j]),
            elist_s(s@, p + 1, Seq::empty()) == elist_s(s@, q as int, sps_view(items@)),
        ensures
            p < q <= s.len(),
            forall|j: int| 0 <= j < items@.len() ==> desugared(#[trigger] items@[j]),
            elist_s(s@, p + 1, Seq::empty()) == (sps_view(items@), q as int),
        decreases s.len() - q,
    {
        let q1 = ws(s, q);
        match expr(s, q1) {
            None => break,
            Some((e, q2)) => {
                if q2 == q {
                    break;
                }
                proof {
                    lemma_sps_view_push(items@, e);
                }
                items.push(e);
                let q3 = ws(s, q2);
                if char_at(s, q3, ',') {
                    q = q3 + 1;
                } else {
                    q = q3;
                    break;
                }
            },
        }
    }
    proof {
        lemma_all_desugared(items@, 0);
    }
    if char_at(s, q, close) {
        Some((items, q + 1))
    } else {
        None
    }
}

/// `[` at `p`, then index arguments: integer indices, gathers by a list
/// literal, and slices `a:b` with either bound optional; then `]`.
fn index_args(s: &Vec<char>, p: usize) -> (r: Option<(Vec<IndexArg>, usize)>)
    requires
        p < s.len(),
    ensures
        match r {
            Some(x) => p < x.1 <= s.len() && idxs_desugared(x.0@, 0),
            None => true,
        },
        opt_idxs(r) == index_args_s(s@, p as int),
    decreases s.len() - p, 0nat,
{
    let mut idxs: Vec<IndexArg> = Vec::new();
    let mut q = p + 1;
    loop
        invariant_except_break
            p < q <= s.len(),
            forall|j: int| 0 <= j < idxs@.len() ==> idx_ok(#[trigger] idxs@[j]),
            idx_list_s(s@, p + 1, Seq::empty()) == idx_list_s(s@, q as int, idxs_view(idxs@)),
        ensures
            p < q <= s.len(),
            forall|j: int| 0 <= j < idxs@.len() ==> idx_ok(#[trigger] idxs@[j]),
            idx_list_s(s@, p + 1, Seq::empty()) == (idxs_view(idxs@), q as int),
        decreases s.len() - q,
    {
        let q1 = ws(s, q);
        let (from, q2) = if char_at(s, q1, ':') {
            (None, q1)
        } else {
            match expr(s, q1) {
                Some((e, q2)) => (Some(e), q2),
                None => break,
            }
        };
        if q2 == q && from.is_some() {
            break;
        }
        let (ia, q3) = if char_at(s, q2, ':') {
            let q4 = ws(s, q2 + 1);
            let (to, q5) = match expr(s, q4) {
                Some((e, q5)) => (Some(e), q5),
                None => (None, q2 + 1),
            };
            (IndexArg::Slice(from, to), q5)
        } else {
            match from {
                Some(e) => {
                    let fancy = match &e.0 {
                        Expr::List(_) => true,
                        _ => false,
                    };
                    if fancy { (IndexArg::Fancy(e), q2) } else { (IndexArg::Scalar(e), q2) }
                },
                None => break,
            }
        };
        proof {
            lemma_idxs_view_push(idxs@, ia);
        }
        idxs.push(ia);
        let q6 = ws(s, q3);
        if char_at(s, q6, ',') {
            q = q6 + 1;
        } else {
            q = q6;
            break;
        }
    }
    proof {
        lemma_idxs_desugared(idxs@, 0);
    }
    if char_at(s, q, ']') {
        Some((idxs, q + 1))
    } else {
        None
    }
}

/// An atom, after any whitespace and comments.
fn atom(s: &Vec<char>, p: usize) -> (r: Option<(Spanned<Expr>, usize)>)
    requires
        p <= s.len(),
    ensures
        advanced(r, p, s@.len()),
        r is Some ==> desugared(r->Some_0.0),
        opt_sp(r) == atom_s(s@, p as int),
    decreases s.len() - p, 1nat,
{
    let q = padding(s, p);
    if q >= s.len() {
        return None;
    }
    let c = s[q];
    if is_digit(c) {
        return number(s, q);
    }
    if c == '`' {
        return template(s, q);
    }
    if c == '\\' {
        return lambda(s, q);
    }
    if let Some(r) = when_expr(s, q) {
        return Some(r);
    }
    if c == '{' {
        return record(s, q);
    }
    if c == '[' {
        return match expr_list(s, q, ']') {
            Some((es, q1)) => Some((sp(Expr::List(es), q, q1), q1)),
            None => None,
        };
    }
    if c == '(' {
        return paren_block(s, q);
    }
    if let Some(r) = import_expr(s, q) {
        return Some(r);
    }
    if let Some(r) = tag_expr(s, q) {
        return Some(r);
    }
    if let Some((name, q1)) = ident(s, q) {
        return Some((sp(Expr::Var(name), q, q1), q1));
    }
    match sym_name(s, q) {
        Some((name, q1)) => Some((sp(Expr::Var(name), q, q1), q1)),
        None => None,
    }
}

/// An integer literal, or a float literal `digits.digits` (kept as written).
fn number(s: &Vec<char>, p: usize) -> (r: Option<(Spanned<Expr>, usize)>)
    requires
        p <= s.len(),
    ensures
        advanced(r, p, s@.len()),
        r is Some ==> desugared(r->Some_0.0),
        opt_sp(r) == number_s(s@, p as int),
    decreases s.len() - p, 0nat,
{
    let q = scan_digits(s, p);
    if q == p {
        return None;
    }
    if char_at(s, q, '.') && q + 1 < s.len() && is_digit(s[q + 1]) {
        let q2 = scan_digits(s, q + 1);
        return Some((sp(Expr::Lit(Lit::Float(text(s, p, q2))), p, q2), q2));
    }
    match digits_value(s, p, q) {
        Some(v) => Some((sp(Expr::Lit(Lit::Int(v)), p, q), q)),
        None => None,
    }
}

/// A template string: text and `{expr}` parts between backquotes, joined by `++`.
fn template(s: &Vec<char>, p: usize) -> (r: Option<(Spanned<Expr>, usize)>)
    requires
        p <= s.len(),
    ensures
        advanced(r, p, s@.len()),
        r is Some ==> desugared(r->Some_0.0),
        opt_sp(r) == template_s(s@, p as int),
    decreases s.len() - p, 0nat,
{
    if !char_at(s, p, '`') {
        return None;
    }
    let mut parts: Vec<Spanned<Expr>> = Vec::new();
    let mut q = p + 1;
    loop
        invariant_except_break
            p < q <= s.len(),
            forall|j: int| 0 <= j < parts@.len() ==> desugared(#[trigger] parts@[j]),
            tparts_s(s@, p + 1, Seq::empty()) == tparts_s(s@, q as int, sps_view(parts@)),
        ensures
            p < q < s.len(),
            forall|j: int| 0 <= j < parts@.len() ==> desugared(#[trigger] parts@[j]),
            tparts_s(s@, p + 1, Seq::empty()) == Some((sps_view(parts@), q as int)),
        decreases s.len() - q,
    {
        if q >= s.len() {
            return None;
        }
        if s[q] == '`' {
            break;
        }
        if s[q] == '{' {
            let q1 = ws(s, q + 1);
            match expr(s, q1) {
                None => return None,
                Some((e, q2)) => {
                    let q3 = ws(s, q2);
                    if !char_at(s, q3, '}') {
                        return None;
                    }
                    proof {
                        lemma_sps_view_push(parts@, e);
                    }
                    parts.push(e);
                    q = q3 + 1;
                },
            }
        } else {
            let mut q1 = q;
            while q1 < s.len() && s[q1] != '`' && s[q1] != '{'
                invariant
                    q <= q1 <= s.len(),
                    chunk_end(s@, q as int) == chunk_end(s@, q1 as int),
                decreases s.len() - q1,
            {
                q1 += 1;
            }
            let part = sp(Expr::Lit(Lit::Str(text(s, q, q1))), q, q1);
            proof {
                lemma_sps_view_push(parts@, part);
            }
            parts.push(part);
            q = q1;
        }
    }
    let end = q + 1;
    if parts.len() == 0 {
        return Some((sp(Expr::Lit(Lit::Str(String::new())), p, end), end));
    }
    let ghost pv = sps_view(parts@);
    let ghost before0 = parts@;
    proof {
        lemma_sps_view(before0);
    }
    let mut acc = parts.remove(0);
    proof {
        lemma_sps_view(parts@);
        assert(parts@ =~= before0.subrange(1, before0.len() as int));
        assert forall|i: int| 0 <= i < parts@.len() implies sps_view(parts@)[i] == pv.skip(1)[i] by {
            assert(sps_view(before0)[i + 1] == sp_view(before0[i + 1]));
        }
        assert(sps_view(parts@) =~= pv.skip(1));
        assert(pv.take(1) =~= seq![pv[0]]);
    }
    while parts.len() > 0
        invariant
            desugared(acc),
            forall|j: int| 0 <= j < parts@.len() ==> desugared(#[trigger] parts@[j]),
            1 <= pv.len() - parts@.len() <= pv.len(),
            sp_view(acc) == concat_s(pv.take(pv.len() - parts@.len()), p as int, end as int),
            sps_view(parts@) == pv.skip(pv.len() - parts@.len()),
        decreases parts.len(),
    {
        let ghost k = pv.len() - parts@.len();
        let ghost before = parts@;
        proof {
            lemma_sps_view(before);
        }
        let part = parts.remove(0);
        proof {
            lemma_sps_view(parts@);
            assert(parts@ =~= before.subrange(1, before.len() as int));
            assert forall|i: int| 0 <= i < parts@.len() implies sps_view(parts@)[i] == pv.skip(k + 1)[i] by {
                assert(sps_view(before)[i + 1] == sp_view(before[i + 1]));
                assert(sps_view(before)[i + 1] == pv.skip(k)[i + 1]);
            }
            assert(sps_view(parts@) =~= pv.skip(k + 1));
            assert(sps_view(before)[0] == pv.skip(k)[0]);
            assert(pv.take(k + 1).drop_last() =~= pv.take(k));
            assert(pv.take(k + 1).last() == sp_view(part));
        }
        acc = app2(var_node("++", p, end), acc, part, p, end);
    }
    proof {
        assert(pv.take(pv.len() as int) =~= pv);
    }
    Some((acc, end))
}

/// A lambda `\x y -> body`.
fn lambda(s: &Vec<char>, p: usize) -> (r: Option<(Spanned<Expr>, usize)>)
    requires
        p <= s.len(),
    ensures
        advanced(r, p, s@.len()),
        r is Some ==> desugared(r->Some_0.0),
        opt_sp(r) == lambda_s(s@, p as int),
    decreases s.len() - p, 0nat,
{
    if !char_at(s, p, '\\') {
        return None;
    }
    let mut params: Vec<String> = Vec::new();
    let mut q = p + 1;
    proof {
        assert(names_view(params@) =~= Seq::empty());
    }
    loop
        invariant_except_break
            p < q <= s.len(),
            lparams_s(s@, p + 1, Seq::empty()) == lparams_s(s@, q as int, names_view(params@)),
        ensures
            p < q <= s.len(),
            lparams_s(s@, p + 1, Seq::empty()) == (names_view(params@), q as int),
        decreases s.len() - q,
    {
        let q1 = hws(s, q);
        match ident(s, q1) {
            Some((name, q2)) => {
                proof {
                    assert(names_view(params@.push(name)) =~= names_view(params@).push(name@));
                }
                params.push(name);
                q = hws(s, q2);
            },
            None => break,
        }
    }
    proof {
        reveal_strlit("->");
    }
    if params.len() == 0 || !looking_at(s, q, "->") {
        return None;
    }
    match expr(s, q + 2) {
        Some((body, q1)) => Some((sp(Expr::Lam(params, Box::new(body)), p, q1), q1)),
        None => None,
    }
}

/// One branch of a `when`: `Tag binding? -> body`.
fn branch(s: &Vec<char>, p: usize) -> (r: Option<((String, Option<String>, Box<Spanned<Expr>>), usize)>)
    requires
        p <= s.len(),
    ensures
        advanced(r, p, s@.len()),
        r is Some ==> desugared(*r->Some_0.0.2),
        opt_branch(r) == branch_s(s@, p as int),
    decreases s.len() - p, 0nat,
{
    let (tag, q1) = match tag_name(s, p) {
        Some(x) => x,
        None => return None,
    };
    let q2 = hws(s, q1);
    let (binding, q3) = match ident(s, q2) {
        Some((b, q)) => (Some(b), hws(s, q)),
        None => (None, q2),
    };
    proof {
        reveal_strlit("->");
    }
    if !looking_at(s, q3, "->") {
        return None;
    }
    let q4 = hws(s, q3 + 2);
    match expr(s, q4) {
        Some((body, q5)) => Some(((tag, binding, Box::new(body)), q5)),
        None => None,
    }
}

/// `when scrutinee is` branches separated by `;` or newlines, then an optional
/// `otherwise body`.
fn when_expr(s: &Vec<char>, p: usize) -> (r: Option<(Spanned<Expr>, usize)>)
    requires
        p <= s.len(),
    ensures
        advanced(r, p, s@.len()),
        r is Some ==> desugared(r->Some_0.0),
        opt_sp(r) == when_s(s@, p as int),
    decreases s.len() - p, 0nat,
{
    let q1 = match kw(s, p, "when") {
        Some(q) => q,
        None => return None,
    };
    let q2 = match ws1(s, q1) {
        Some(q) => q,
        None => return None,
    };
    let (scrut, q3) = match expr(s, q2) {
        Some(x) => x,
        None => return None,
    };
    let q4 = match ws1(s, q3) {
        Some(q) => q,
        None => return None,
    };
    let q5 = match kw(s, q4, "is") {
        Some(q) => q,
        None => return None,
    };
    let q6 = match sep(s, q5) {
        Some(q) => q,
        None => match ws1(s, q5) {
            Some(q) => q,
            None => return None,
        },
    };
    let (first, q7) = match branch(s, q6) {
        Some(x) => x,
        None => return None,
    };
    let ghost bv = branch_view(first);
    let mut branches: Vec<(String, Option<String>, Box<Spanned<Expr>>)> = Vec::new();
    proof {
        lemma_branches_view_push(branches@, first);
        assert(branches_view(branches@) =~= Seq::empty());
    }
    branches.push(first);
    let mut q = q7;
    loop
        invariant_except_break
            p < q6 <= q7 <= q <= s.len(),
            forall|j: int| 0 <= j < branches@.len() ==> desugared(*(#[trigger] branches@[j]).2),
            branches_s(s@, q7 as int, seq![bv]) == branches_s(s@, q as int, branches_view(branches@)),
        ensures
            p < q <= s.len(),
            forall|j: int| 0 <= j < branches@.len() ==> desugared(*(#[trigger] branches@[j]).2),
            branches_s(s@, q7 as int, seq![bv]) == (branches_view(branches@), q as int),
        decreases s.len() - q,
    {
        let qa = match sep(s, q) {
            Some(x) => x,
            None => break,
        };
        match branch(s, qa) {
            Some((b, qb)) => {
                proof {
                    lemma_branches_view_push(branches@, b);
                }
                branches.push(b);
                q = qb;
            },
            None => break,
        }
    }
    let ghost qe = q;
    let mut otherwise: Option<Box<Spanned<Expr>>> = None;
    if let Some(qa) = sep(s, q) {
        if let Some(qb) = kw(s, qa, "otherwise") {
            if let Some(qc) = ws1(s, qb) {
                if let Some((ob, qd)) = expr(s, qc) {
                    otherwise = Some(Box::new(ob));
                    q = qd;
                }
            }
        }
    }
    proof {
        lemma_branches_desugared(branches@, 0);
        assert(otherwise_s(s@, qe as int) == (
            match otherwise {
                Some(ob) => Some(sp_view(*ob)),
                None => None::<SSp>,
            },
            q as int,
        ));
    }
    Some((sp(Expr::When(Box::new(scrut), branches, otherwise), p, q), q))
}

/// A record literal `{field: expr, ...}`.
fn record(s: &Vec<char>, p: usize) -> (r: Option<(Spanned<Expr>, usize)>)
    requires
        p <= s.len(),
    ensures
        advanced(r, p, s@.len()),
        r is Some ==> desugared(r->Some_0.0),
        opt_sp(r) == record_s(s@, p as int),
    decreases s.len() - p, 0nat,
{
    if !char_at(s, p, '{') {
        return None;
    }
    let mut fields: Vec<(String, Spanned<Expr>)> = Vec::new();
    let mut q = p + 1;
    loop
        invariant_except_break
            p < q <= s.len(),
            forall|j: int| 0 <= j < fields@.len() ==> desugared(#[trigger] fields@[j].1),
            efields_s(s@, p + 1, Seq::empty()) == efields_s(s@, q as int, efields_view(fields@)),
        ensures
            p < q <= s.len(),
            forall|j: int| 0 <= j < fields@.len() ==> desugared(#[trigger] fields@[j].1),
            efields_s(s@, p + 1, Seq::empty()) == (efields_view(fields@), q as int),
        decreases s.len() - q,
    {
        let q1 = ws(s, q);
        let (name, q2) = match ident(s, q1) {
            Some(x) => x,
            None => break,
        };
        let q3 = hws(s, q2);
        if !char_at(s, q3, ':') {
            break;
        }
        let q4 = hws(s, q3 + 1);
        let (e, q5) = match expr(s, q4) {
            Some(x) => x,
            None => break,
        };
        proof {
            lemma_efields_view_push(fields@, (name, e));
        }
        fields.push((name, e));
        let q6 = ws(s, q5);
        if char_at(s, q6, ',') {
            q = q6 + 1;
        } else {
            q = q6;
            break;
        }
    }
    proof {
        lemma_fields_desugared(fields@, 0);
    }
    if char_at(s, q, '}') {
        Some((sp(Expr::Record(fields), p, q + 1), q + 1))
    } else {
        None
    }
}

/// `import `path``.
fn import_expr(s: &Vec<char>, p: usize) -> (r: Option<(Spanned<Expr>, usize)>)
    requires
        p <= s.len(),
    ensures
        advanced(r, p, s@.len()),
        r is Some ==> desugared(r->Some_0.0),
        opt_sp(r) == import_s(s@, p as int),
    decreases s.len() - p, 0nat,
{
    let q1 = match word(s, p) {
        Some((w, q)) => if w == lit_str("import") { q } else { return None },
        None => return None,
    };
    let q2 = match ws1(s, q1) {
        Some(q) => q,
        None => return None,
    };
    if !char_at(s, q2, '`') {
        return None;
    }
    let mut q3 = q2 + 1;
    while q3 < s.len() && s[q3] != '`'
        invariant
            q2 < q3 <= s.len(),
            quote_end(s@, q2 + 1) == quote_end(s@, q3 as int),
        decreases s.len() - q3,
    {
        q3 += 1;
    }
    if q3 >= s.len() {
        return None;
    }
    let path = text(s, q2 + 1, q3);
    Some((sp(Expr::Import(path), p, q3 + 1), q3 + 1))
}

/// A tag with an optional payload: `None`, `Some 42`. A payload follows after
/// spaces and starts with neither an uppercase letter nor whitespace.
fn tag_expr(s: &Vec<char>, p: usize) -> (r: Option<(Spanned<Expr>, usize)>)
    requires
        p <= s.len(),
    ensures
        advanced(r, p, s@.len()),
        r is Some ==> desugared(r->Some_0.0),
        opt_sp(r) == tag_s(s@, p as int),
    decreases s.len() - p, 0nat,
{
    let (name, q1) = match tag_name(s, p) {
        Some(x) => x,
        None => return None,
    };
    let q2 = hws(s, q1);
    if q2 > q1 && q2 < s.len() && !is_upper(s[q2]) && !is_ws(s[q2]) {
        if let Some((payload, q3)) = expr(s, q2) {
            return Some((sp(Expr::Tag(name, Some(Box::new(payload))), p, q3), q3));
        }
    }
    Some((sp(Expr::Tag(name, None), p, q1), q1))
}

// ── Blocks ────────────────────────────────────────────────────────────────────

/// A block item: `name = expr`, `name : type` or `name <- task`.
fn block_item(s: &Vec<char>, p: usize) -> (r: Option<(BlockItem, usize)>)
    requires
        p <= s.len(),
    ensures
        advanced(r, p, s@.len()),
        r is Some ==> match r->Some_0.0 {
            BlockItem::Bind(_, x) => desugared(x),
            BlockItem::Ann(_, _) => true,
            BlockItem::MonadicBind(_, x) => desugared(x),
        },
        opt_item(r) == block_item_s(s@, p as int),
    decreases s.len() - p, 0nat,
{
    let (name, q1) = match ident(s, p) {
        Some(x) => x,
        None => return None,
    };
    let q2 = hws(s, q1);
    if let Some(q3) = sym_exact(s, q2, "=") {
        let q4 = hws(s, q3);
        return match expr(s, q4) {
            Some((e, q5)) => Some((BlockItem::Bind(name, e), q5)),
            None => None,
        };
    }
    if char_at(s, q2, ':') {
        let q4 = hws(s, q2 + 1);
        return match type_expr(s, q4) {
            Some((te, q5)) => Some((BlockItem::Ann(name, te), q5)),
            None => None,
        };
    }
    if let Some(q3) = sym_exact(s, q2, "<-") {
        let q4 = hws(s, q3);
        return match expr(s, q4) {
            Some((e, q5)) => Some((BlockItem::MonadicBind(name, e), q5)),
            None => None,
        };
    }
    None
}

/// Items each followed by a separator (the first item that is not is left for
/// the body).
fn block_items(s: &Vec<char>, p: usize) -> (r: (Vec<BlockItem>, usize))
    requires
        p <= s.len(),
    ensures
        p <= r.1 <= s.len(),
        forall|j: int| 0 <= j < r.0@.len() ==> match #[trigger] r.0@[j] {
            BlockItem::Bind(_, x) => desugared(x),
            BlockItem::Ann(_, _) => true,
            BlockItem::MonadicBind(_, x) => desugared(x),
        },
        block_items_s(s@, p as int, Seq::empty()) == (items_view(r.0@), r.1 as int),
    decreases s.len() - p, 1nat,
{
    let mut items: Vec<BlockItem> = Vec::new();
    let mut q = p;
    loop
        invariant_except_break
            p <= q <= s.len(),
            forall|j: int| 0 <= j < items@.len() ==> match #[trigger] items@[j] {
                BlockItem::Bind(_, x) => desugared(x),
                BlockItem::Ann(_, _) => true,
                BlockItem::MonadicBind(_, x) => desugared(x),
            },
            block_items_s(s@, p as int, Seq::empty()) == block_items_s(s@, q as int, items_view(items@)),
        ensures
            p <= q <= s.len(),
            forall|j: int| 0 <= j < items@.len() ==> match #[trigger] items@[j] {
                BlockItem::Bind(_, x) => desugared(x),
                BlockItem::Ann(_, _) => true,
                BlockItem::MonadicBind(_, x) => desugared(x),
            },
            block_items_s(s@, p as int, Seq::empty()) == (items_view(items@), q as int),
        decreases s.len() - q,
    {
        let (it, q1) = match block_item(s, q) {
            Some(x) => x,
            None => break,
        };
        match sep(s, q1) {
            Some(q2) => {
                proof {
                    lemma_items_view_push(items@, it);
                }
                items.push(it);
                q = q2;
            },
            None => break,
        }
    }
    (items, q)
}

/// `items; body` as an expression: the body alone without items, a block
/// otherwise; each monadic bind `x <- t` takes the rest of the block as the body
/// of `then(t, \x -> rest)`.
fn desugar_block(items: Vec<BlockItem>, body: Spanned<Expr>, a: usize, b: usize) -> (r: Spanned<Expr>)
    requires
        desugared(body),
        forall|j: int| 0 <= j < items@.len() ==> match #[trigger] items@[j] {
            BlockItem::Bind(_, x) => desugared(x),
            BlockItem::Ann(_, _) => true,
            BlockItem::MonadicBind(_, x) => desugared(x),
        },
    ensures
        desugared(r),
        sp_view(r) == desugar_s(items_view(items@), sp_view(body), a as int, b as int),
{
    let ghost goal = desugar_s(items_view(items@), sp_view(body), a as int, b as int);
    let mut items = items;
    let mut body = body;
    // `rest` holds the items after the current one, last first.
    let mut rest: Vec<BlockItem> = Vec::new();
    proof {
        assert(items_view(items@) + items_view(rest@).reverse() =~= items_view(items@));
    }
    while items.len() > 0
        invariant
            desugared(body),
            forall|j: int| 0 <= j < items@.len() ==> match #[trigger] items@[j] {
                BlockItem::Bind(_, x) => desugared(x),
                BlockItem::Ann(_, _) => true,
                BlockItem::MonadicBind(_, x) => desugared(x),
            },
            forall|j: int| 0 <= j < rest@.len() ==> item_ok(#[trigger] rest@[j]),
            goal == desugar_s(items_view(items@) + items_view(rest@).reverse(), sp_view(body), a as int, b as int),
        decreases items.len(),
    {
        let ghost iv = items_view(items@);
        let ghost rv = items_view(rest@).reverse();
        proof {
            lemma_items_view(rest@);
            assert forall|j: int| 0 <= j < rv.len() implies !(#[trigger] rv[j] is MonadicBind) by {
                assert(rv[j] == items_view(rest@)[rest@.len() - 1 - j]);
                assert(item_ok(rest@[rest@.len() - 1 - j]));
            }
        }
        let it = items.pop().unwrap();
        proof {
            lemma_items_view(items@);
            lemma_items_view_push(items@, it);
            assert(iv == items_view(items@).push(item_view(it)));
        }
        match it {
            BlockItem::MonadicBind(x, t) => {
                proof {
                    let k = items@.len() as int;
                    let whole = iv + rv;
                    lemma_last_bind_append(iv, rv);
                    assert(iv.last() is MonadicBind);
                    assert(last_bind(whole) == k);
                    assert(whole[k] == item_view(BlockItem::MonadicBind(x, t)));
                    assert(whole.take(k) =~= items_view(items@));
                    assert(whole.skip(k + 1) =~= rv);
                }
                let inner = close_block(rest, body, a, b);
                rest = Vec::new();
                let mut params: Vec<String> = Vec::new();
                params.push(x);
                proof {
                    assert(names_view(params@) =~= seq![params@[0]@]);
                }
                let lam = sp(Expr::Lam(params, Box::new(inner)), a, b);
                body = app2(var_node("then", a, b), t, lam, a, b);
                proof {
                    assert(items_view(items@) + items_view(rest@).reverse() =~= items_view(items@));
                }
            },
            other => {
                proof {
                    lemma_items_view_push(rest@, other);
                    assert(items_view(items@) + items_view(rest@.push(other)).reverse() =~= iv + rv);
                }
                rest.push(other);
            },
        }
    }
    proof {
        lemma_items_view(rest@);
        let rv = items_view(rest@).reverse();
        assert forall|j: int| 0 <= j < rv.len() implies !(#[trigger] rv[j] is MonadicBind) by {
            assert(rv[j] == items_view(rest@)[rest@.len() - 1 - j]);
            assert(item_ok(rest@[rest@.len() - 1 - j]));
        }
        lemma_last_bind_append(Seq::empty(), rv);
        assert(Seq::<SItem>::empty() + rv =~= rv);
        assert(items_view(items@) =~= Seq::<SItem>::empty());
        assert(items_view(items@) + rv =~= rv);
    }
    close_block(rest, body, a, b)
}

/// The items of `rest` (last first) in order before `body`, as a block.
fn close_block(rest: Vec<BlockItem>, body: Spanned<Expr>, a: usize, b: usize) -> (r: Spanned<Expr>)
    requires
        desugared(body),
        forall|j: int| 0 <= j < rest@.len() ==> item_ok(#[trigger] rest@[j]),
    ensures
        desugared(r),
        sp_view(r) == close_s(items_view(rest@).reverse(), sp_view(body), a as int, b as int),
{
    if rest.len() == 0 {
        return body;
    }
    let ghost whole = items_view(rest@).reverse();
    let mut rest = rest;
    let mut items: Vec<BlockItem> = Vec::new();
    proof {
        assert(items_view(items@) + items_view(rest@).reverse() =~= whole);
    }
    while rest.len() > 0
        invariant
            forall|j: int| 0 <= j < rest@.len() ==> item_ok(#[trigger] rest@[j]),
            forall|j: int| 0 <= j < items@.len() ==> item_ok(#[trigger] items@[j]),
            items_view(items@) + items_view(rest@).reverse() == whole,
        decreases rest.len(),
    {
        let ghost rest0 = rest@;
        let x = rest.pop().unwrap();
        proof {
            lemma_items_view_push(rest@, x);
            lemma_items_view_push(items@, x);
            assert(rest0 == rest@.push(x));
            assert(items_view(items@.push(x)) + items_view(rest@).reverse()
                =~= items_view(items@) + items_view(rest0).reverse());
        }
        items.push(x);
    }
    proof {
        lemma_items_desugared(items@, 0);
        assert(items_view(rest@).reverse() =~= Seq::<SItem>::empty());
        assert(items_view(items@) =~= whole);
    }
    sp(Expr::Block(items, Box::new(body)), a, b)
}

/// A block body: items then an expression.
fn block_body(s: &Vec<char>, p: usize) -> (r: Option<(Spanned<Expr>, usize)>)
    requires
        p <= s.len(),
    ensures
        advanced(r, p, s@.len()),
        r is Some ==> desugared(r->Some_0.0),
        opt_sp(r) == block_body_s(s@, p as int),
    decreases s.len() - p, 4nat,
{
    let (items, q1) = block_items(s, p);
    match expr(s, q1) {
        Some((body, q2)) => Some((desugar_block(items, body, p, q2), q2)),
        None => None,
    }
}

/// `( block )`: grouping, or a block with items.
fn paren_block(s: &Vec<char>, p: usize) -> (r: Option<(Spanned<Expr>, usize)>)
    requires
        p <= s.len(),
    ensures
        advanced(r, p, s@.len()),
        r is Some ==> desugared(r->Some_0.0),
        opt_sp(r) == paren_block_s(s@, p as int),
    decreases s.len() - p, 0nat,
{
    if !char_at(s, p, '(') {
        return None;
    }
    let q1 = ws(s, p + 1);
    let (e, q2) = match block_body(s, q1) {
        Some(x) => x,
        None => return None,
    };
    let q3 = ws(s, q2);
    if char_at(s, q3, ')') {
        Some((e, q3 + 1))
    } else {
        None
    }
}

// ── Type expressions ──────────────────────────────────────────────────────────

/// A type: atoms, then optionally `-> type` making a function of them all.
fn type_expr(s: &Vec<char>, p: usize) -> (r: Option<(TypeExpr, usize)>)
    requires
        p <= s.len(),
    ensures
        advanced(r, p, s@.len()),
        opt_te(r) == type_expr_s(s@, p as int),
    decreases s.len() - p, 3nat,
{
    let (first, q0) = match type_atom(s, p) {
        Some(x) => x,
        None => return None,
    };
    let ghost fv = te_view(first);
    let mut rest: Vec<TypeExpr> = Vec::new();
    let mut q = q0;
    loop
        invariant_except_break
            p <= q0 <= q <= s.len(),
            type_rest_s(s@, q0 as int, seq![fv]) == type_rest_s(s@, q as int, seq![fv] + tes_view(rest@)),
        ensures
            q0 <= q <= s.len(),
            type_rest_s(s@, q0 as int, seq![fv]) == (seq![fv] + tes_view(rest@), q as int),
        decreases s.len() - q,
    {
        let q1 = hws(s, q);
        if q1 == q {
            break;
        }
        match type_atom(s, q1) {
            Some((t, q2)) => {
                proof {
                    lemma_tes_view_push(rest@, t);
                    assert(seq![fv] + tes_view(rest@.push(t)) =~= (seq![fv] + tes_view(rest@)).push(te_view(t)));
                }
                rest.push(t);
                q = q2;
            },
            None => break,
        }
    }
    let q1 = hws(s, q);
    proof {
        reveal_strlit("->");
    }
    if looking_at(s, q1, "->") {
        if let Some(q2) = ws1(s, q1 + 2) {
            if let Some((ret, q3)) = type_expr(s, q2) {
                let ghost rv = rest@;
                let mut params: Vec<TypeExpr> = Vec::new();
                params.push(first);
                params.append(&mut rest);
                proof {
                    lemma_tes_view_push(Seq::empty(), first);
                    assert(Seq::<TypeExpr>::empty().push(first) =~= seq![first]);
                    lemma_tes_view_add(seq![first], rv);
                    assert(params@ =~= seq![first] + rv);
                }
                return Some((TypeExpr::Fun(params, Box::new(ret)), q3));
            }
        }
    }
    Some((first, q))
}

/// A type atom, with an optional shape `[d, ..]` right after it.
fn type_atom(s: &Vec<char>, p: usize) -> (r: Option<(TypeExpr, usize)>)
    requires
        p <= s.len(),
    ensures
        advanced(r, p, s@.len()),
        opt_te(r) == type_atom_s(s@, p as int),
    decreases s.len() - p, 2nat,
{
    let (base, q) = match type_base(s, p) {
        Some(x) => x,
        None => return None,
    };
    if char_at(s, q, '[') {
        if let Some((dims, q1)) = shape_suffix(s, q + 1) {
            return Some((TypeExpr::Shaped(Box::new(base), dims), q1));
        }
    }
    Some((base, q))
}

/// Dimensions after `[`: naturals or lowercase names separated by `,`; then `]`.
fn shape_suffix(s: &Vec<char>, p: usize) -> (r: Option<(Vec<DimExpr>, usize)>)
    requires
        p <= s.len(),
    ensures
        advanced(r, p, s@.len()),
        opt_dims(r) == shape_suffix_s(s@, p as int),
{
    let mut dims: Vec<DimExpr> = Vec::new();
    let mut q = p;
    proof {
        assert(dims_view(dims@) =~= Seq::empty());
    }
    loop
        invariant_except_break
            p <= q <= s.len(),
            dims_s(s@, p as int, Seq::empty()) == dims_s(s@, q as int, dims_view(dims@)),
        ensures
            p <= q <= s.len(),
            dims_s(s@, p as int, Seq::empty()) == Some((dims_view(dims@), q as int)),
        decreases s.len() - q,
    {
        let q1 = ws(s, q);
        let q2 = scan_digits(s, q1);
        let (d, q3) = if q2 > q1 {
            match digits_value_u64(s, q1, q2) {
                Some(n) => (DimExpr::Nat(n), q2),
                None => return None,
            }
        } else if q1 < s.len() && is_lower(s[q1]) {
            let q4 = scan_ident_chars(s, q1 + 1);
            (DimExpr::Var(text(s, q1, q4)), q4)
        } else {
            break;
        };
        proof {
            assert(dims_view(dims@.push(d)) =~= dims_view(dims@).push(dim_view(d)));
        }
        dims.push(d);
        let q5 = ws(s, q3);
        if char_at(s, q5, ',') {
            q = q5 + 1;
        } else {
            q = q5;
            break;
        }
    }
    if char_at(s, q, ']') {
        Some((dims, q + 1))
    } else {
        None
    }
}

/// The row of a record or union type: `| *` or `| name`.
fn row_var(s: &Vec<char>, p: usize) -> (r: Option<(String, usize)>)
    requires
        p <= s.len(),
    ensures
        advanced(r, p, s@.len()),
        opt_word(r) == row_var_s(s@, p as int),
{
    let q1 = hws(s, p);
    if !char_at(s, q1, '|') {
        return None;
    }
    let q2 = hws(s, q1 + 1);
    if char_at(s, q2, '*') {
        return Some((lit_str("*"), q2 + 1));
    }
    if q2 < s.len() && is_alpha(s[q2]) {
        let q3 = scan_alnum(s, q2 + 1);
        return Some((text(s, q2, q3), q3));
    }
    None
}

fn type_base(s: &Vec<char>, p: usize) -> (r: Option<(TypeExpr, usize)>)
    requires
        p <= s.len(),
    ensures
        advanced(r, p, s@.len()),
        opt_te(r) == type_base_s(s@, p as int),
    decreases s.len() - p, 1nat,
{
    if p >= s.len() {
        return None;
    }
    let c = s[p];
    if c == '{' {
        return type_record(s, p);
    }
    if c == '[' {
        return type_union(s, p);
    }
    if c == '(' {
        let q1 = ws(s, p + 1);
        return match type_expr(s, q1) {
            Some((t, q2)) => {
                let q3 = ws(s, q2);
                if char_at(s, q3, ')') { Some((t, q3 + 1)) } else { None }
            },
            None => None,
        };
    }
    if is_upper(c) {
        let q1 = scan_ident_chars(s, p + 1);
        let name = text(s, p, q1);
        if char_at(s, q1, '(') {
            if let Some((args, q2)) = type_args(s, q1) {
                return Some((TypeExpr::App(name, args), q2));
            }
        }
        return Some((TypeExpr::Con(name), q1));
    }
    if is_lower(c) {
        let q1 = scan_ident_chars(s, p + 1);
        return Some((TypeExpr::Var(text(s, p, q1)), q1));
    }
    if is_digit(c) {
        let q1 = scan_digits(s, p);
        return match digits_value_u64(s, p, q1) {
            Some(n) => Some((TypeExpr::Nat(n), q1)),
            None => None,
        };
    }
    None
}

/// `(` then types separated by `,`, then `)`.
fn type_args(s: &Vec<char>, p: usize) -> (r: Option<(Vec<TypeExpr>, usize)>)
    requires
        p < s.len(),
    ensures
        advanced(r, p, s@.len()),
        opt_tes(r) == type_args_s(s@, p as int),
    decreases s.len() - p, 0nat,
{
    let mut args: Vec<TypeExpr> = Vec::new();
    let mut q = p + 1;
    loop
        invariant_except_break
            p < q <= s.len(),
            targs_s(s@, p + 1, Seq::empty()) == targs_s(s@, q as int, tes_view(args@)),
        ensures
            p < q <= s.len(),
            targs_s(s@, p + 1, Seq::empty()) == (tes_view(args@), q as int),
        decreases s.len() - q,
    {
        let q1 = ws(s, q);
        match type_expr(s, q1) {
            Some((t, q2)) => {
                if q2 == q {
                    break;
                }
                proof {
                    lemma_tes_view_push(args@, t);
                }
                args.push(t);
                let q3 = ws(s, q2);
                if char_at(s, q3, ',') {
                    q = q3 + 1;
                } else {
                    q = q3;
                    break;
                }
            },
            None => break,
        }
    }
    if char_at(s, q, ')') {
        Some((args, q + 1))
    } else {
        None
    }
}

/// A record type `{field: type, ... | row}`.
fn type_record(s: &Vec<char>, p: usize) -> (r: Option<(TypeExpr, usize)>)
    requires
        p <= s.len(),
    ensures
        advanced(r, p, s@.len()),
        opt_te(r) == type_record_s(s@, p as int),
    decreases s.len() - p, 0nat,
{
    if !char_at(s, p, '{') {
        return None;
    }
    let mut fields: Vec<(String, TypeExpr)> = Vec::new();
    let mut q = p + 1;
    loop
        invariant_except_break
            p < q <= s.len(),
            tfields_s(s@, p + 1, Seq::empty()) == tfields_s(s@, q as int, tfields_view(fields@)),
        ensures
            p < q <= s.len(),
            tfields_s(s@, p + 1, Seq::empty()) == (tfields_view(fields@), q as int),
        decreases s.len() - q,
    {
        let q1 = ws(s, q);
        let (name, q2) = match word(s, q1) {
            Some(x) => x,
            None => break,
        };
        let q3 = hws(s, q2);
        if !char_at(s, q3, ':') {
            break;
        }
        let q4 = hws(s, q3 + 1);
        let (t, q5) = match type_expr(s, q4) {
            Some(x) => x,
            None => break,
        };
        proof {
            lemma_tfields_view_push(fields@, (name, t));
        }
        fields.push((name, t));
        let q6 = ws(s, q5);
        if char_at(s, q6, ',') {
            q = q6 + 1;
        } else {
            q = q6;
            break;
        }
    }
    let (row, q7) = match row_var(s, q) {
        Some((r, q7)) => (Some(r), q7),
        None => (None, q),
    };
    if char_at(s, q7, '}') {
        Some((TypeExpr::Record(fields, row), q7 + 1))
    } else {
        None
    }
}

/// A union type `[Tag payload?, ... | row]`.
fn type_union(s: &Vec<char>, p: usize) -> (r: Option<(TypeExpr, usize)>)
    requires
        p <= s.len(),
    ensures
        advanced(r, p, s@.len()),
        opt_te(r) == type_union_s(s@, p as int),
    decreases s.len() - p, 0nat,
{
    if !char_at(s, p, '[') {
        return None;
    }
    let mut tags: Vec<(String, Option<TypeExpr>)> = Vec::new();
    let mut q = p + 1;
    loop
        invariant_except_break
            p < q <= s.len(),
            ttags_s(s@, p + 1, Seq::empty()) == ttags_s(s@, q as int, ttags_view(tags@)),
        ensures
            p < q <= s.len(),
            ttags_s(s@, p + 1, Seq::empty()) == (ttags_view(tags@), q as int),
        decreases s.len() - q,
    {
        let q1 = ws(s, q);
        let (name, q2) = match tag_name(s, q1) {
            Some(x) => x,
            None => break,
        };
        let q3 = hws(s, q2);
        let (payload, q4) = if q3 > q2 && q3 < s.len() && !is_ws(s[q3]) {
            match type_expr(s, q3) {
                Some((t, q4)) => (Some(t), q4),
                None => (None, q2),
            }
        } else {
            (None, q2)
        };
        proof {
            lemma_ttags_view_push(tags@, (name, payload));
        }
        tags.push((name, payload));
        let q5 = ws(s, q4);
        if char_at(s, q5, ',') {
            q = q5 + 1;
        } else {
            q = q5;
            break;
        }
    }
    let (row, q6) = match row_var(s, q) {
        Some((r, q6)) => (Some(r), q6),
        None => (None, q),
    };
    if char_at(s, q6, ']') {
        Some((TypeExpr::Union(tags, row), q6 + 1))
    } else {
        None
    }
}

// ── Entry points ──────────────────────────────────────────────────────────────

fn fail(pos: usize, what: &str) -> (r: ParseError)
    ensures
        r.pos == pos,
        r.msg@ == what@,
{
    ParseError { pos, msg: lit_str(what) }
}

/// Parses a whole text as one expression (whitespace around it allowed).
pub fn expr_parser(src: &str) -> (r: Result<Spanned<Expr>, ParseError>)
    ensures
        r is Ok ==> desugared(r->Ok_0),
        match r {
            Ok(e) => expr_text_s(src@) == Ok::<SSp, int>(sp_view(e)),
            Err(e) => expr_text_s(src@) == Err::<SSp, int>(e.pos as int) && e.msg@ == (
            if expr_s(src@, ws_end(src@, 0)) is None {
                "expected an expression"@
            } else {
                "expected end of input"@
            }),
        },
{
    let s = chars_of(src);
    let q0 = ws(&s, 0);
    match expr(&s, q0) {
        None => Err(fail(q0, "expected an expression")),
        Some((e, q1)) => {
            let q2 = ws(&s, q1);
            if q2 == s.len() { Ok(e) } else { Err(fail(q2, "expected end of input")) }
        },
    }
}

/// Parses a whole text as a type annotation.
pub fn type_expr_parser(src: &str) -> (r: Result<TypeExpr, ParseError>)
    ensures
        match r {
            Ok(t) => type_text_s(src@) == Ok::<STypeExpr, int>(te_view(t)),
            Err(e) => type_text_s(src@) == Err::<STypeExpr, int>(e.pos as int) && e.msg@ == (
            if type_expr_s(src@, ws_end(src@, 0)) is None {
                "expected a type"@
            } else {
                "expected end of input"@
            }),
        },
{
    let s = chars_of(src);
    let q0 = ws(&s, 0);
    match type_expr(&s, q0) {
        None => Err(fail(q0, "expected a type")),
        Some((t, q1)) => {
            let q2 = ws(&s, q1);
            if q2 == s.len() { Ok(t) } else { Err(fail(q2, "expected end of input")) }
        },
    }
}

/// Parses a complete file: a top-level block without surrounding parentheses
/// (items separated by `;` or newlines, the final expression last).
pub fn file_parser(src: &str) -> (r: Result<Spanned<Expr>, ParseError>)
    ensures
        r is Ok ==> desugared(r->Ok_0),
        match r {
            Ok(e) => file_text_s(src@) == Ok::<SSp, int>(sp_view(e)),
            Err(e) => file_text_s(src@) == Err::<SSp, int>(e.pos as int) && e.msg@ == (
            if block_body_s(src@, padding_s(src@, 0)) is None {
                "expected an expression"@
            } else {
                "expected end of input"@
            }),
        },
{
    let s = chars_of(src);
    let q0 = padding(&s, 0);
    match block_body(&s, q0) {
        None => Err(fail(q0, "expected an expression")),
        Some((e, q1)) => {
            let q2 = padding(&s, q1);
            if q2 == s.len() { Ok(e) } else { Err(fail(q2, "expected end of input")) }
        },
    }
}

/// Model of a [`ReplInput`].
pub open spec fn repl_view(r: ReplInput) -> SRepl {
    match r {
        ReplInput::Items(items) => SRepl::Items(items_view(items@)),
        ReplInput::Expr(e) => SRepl::Expr(sp_view(e)),
        ReplInput::Nop => SRepl::Nop,
    }
}

/// Parses one REPL line: items (bindings, annotations, monadic binds)
/// separated by `;`, or an expression, or nothing.
pub fn repl_parser(src: &str) -> (r: Result<ReplInput, ParseError>)
    ensures
        match r {
            Ok(ReplInput::Expr(e)) => desugared(e),
            _ => true,
        },
        match r {
            Ok(x) => repl_text_s(src@) == Ok::<SRepl, int>(repl_view(x)),
            Err(e) => repl_text_s(src@) == Err::<SRepl, int>(e.pos as int) && e.msg@ == (
            if block_item_s(src@, padding_s(src@, 0)) is None && expr_s(src@, padding_s(src@, 0)) is None {
                "expected an expression"@
            } else {
                "expected end of input"@
            }),
        },
{
    let s = chars_of(src);
    let q0 = padding(&s, 0);
    if q0 == s.len() {
        return Ok(ReplInput::Nop);
    }
    if let Some((first, q1)) = block_item(&s, q0) {
        let ghost fv = item_view(first);
        let mut items: Vec<BlockItem> = Vec::new();
        proof {
            lemma_items_view_push(items@, first);
            assert(items_view(items@) =~= Seq::empty());
        }
        items.push(first);
        let mut q = q1;
        loop
            invariant_except_break
                q0 <= q1 <= q <= s.len(),
                repl_items_s(s@, q1 as int, seq![fv]) == repl_items_s(s@, q as int, items_view(items@)),
            ensures
                q0 <= q <= s.len(),
                repl_items_s(s@, q1 as int, seq![fv]) == (items_view(items@), q as int),
            decreases s.len() - q,
        {
            let qa = match sep(&s, q) {
                Some(x) => x,
                None => break,
            };
            match block_item(&s, qa) {
                Some((it, qb)) => {
                    proof {
                        lemma_items_view_push(items@, it);
                    }
                    items.push(it);
                    q = qb;
                },
                None => break,
            }
        }
        let q2 = padding(&s, q);
        return if q2 == s.len() { Ok(ReplInput::Items(items)) } else { Err(fail(q2, "expected end of input")) };
    }
    match expr(&s, q0) {
        None => Err(fail(q0, "expected an expression")),
        Some((e, q1)) => {
            let q2 = padding(&s, q1);
            if q2 == s.len() { Ok(ReplInput::Expr(e)) } else { Err(fail(q2, "expected end of input")) }
        },
    }
}

} // verus!
