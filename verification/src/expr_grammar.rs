//! The grammar of Coda expressions, blocks and whole inputs, written as
//! functions on character sequences over a model of the syntax tree.
//!
//! As in `grammar`, alternatives are tried in order, and the conditions that
//! say that positions never move backwards only serve to show that the
//! recursion ends.

use vstd::prelude::*;
use crate::ast::{BlockItem, Expr, IndexArg, Lit, Spanned};
use crate::grammar::{
    char_at_s, digits_num, ident_s, kw_s, sym_exact_s, sym_name_s, tag_name_s, te_view,
    type_expr_s, word_s, STypeExpr,
};
use crate::lex::{
    at, digit, digits_end, hspace, hws_end, ident_char, padding_s, run_end, sep_s, uppercase, whitespace, ws1_s,
    ws_end,
};
use crate::types::model::{names_view, opt_name_view};

verus! {

// ── Model of the syntax tree ──────────────────────────────────────────────────

/// Model of a [`Lit`].
pub enum SLit {
    Int(i64),
    Float(Seq<char>),
    Str(Seq<char>),
}

/// Model of a node with its source range.
pub struct SSp {
    pub e: SExpr,
    pub start: int,
    pub end: int,
}

/// Model of an [`Expr`]: names and texts are character sequences.
pub enum SExpr {
    Var(Seq<char>),
    Lam(Seq<Seq<char>>, Box<SSp>),
    App(Box<SSp>, Seq<SSp>),
    Lit(SLit),
    Block(Seq<SItem>, Box<SSp>),
    Record(Seq<(Seq<char>, SSp)>),
    Field(Box<SSp>, Seq<char>),
    Tag(Seq<char>, Option<Box<SSp>>),
    When(Box<SSp>, Seq<(Seq<char>, Option<Seq<char>>, SSp)>, Option<Box<SSp>>),
    Import(Seq<char>),
    List(Seq<SSp>),
    Index(Box<SSp>, Seq<SIdx>),
}

/// Model of a [`BlockItem`].
pub enum SItem {
    Bind(Seq<char>, SSp),
    Ann(Seq<char>, STypeExpr),
    MonadicBind(Seq<char>, SSp),
}

/// Model of an [`IndexArg`].
pub enum SIdx {
    Scalar(SSp),
    Fancy(SSp),
    Slice(Option<SSp>, Option<SSp>),
}

/// Model of a REPL input.
pub enum SRepl {
    Items(Seq<SItem>),
    Expr(SSp),
    Nop,
}

pub open spec fn lit_view(l: Lit) -> SLit {
    match l {
        Lit::Int(n) => SLit::Int(n),
        Lit::Float(f) => SLit::Float(f@),
        Lit::Str(t) => SLit::Str(t@),
    }
}

pub open spec fn sp_view(x: Spanned<Expr>) -> SSp
    decreases x,
{
    SSp { e: expr_view(x.0), start: x.1.start as int, end: x.1.end as int }
}

pub open spec fn expr_view(e: Expr) -> SExpr
    decreases e,
{
    match e {
        Expr::Var(v) => SExpr::Var(v@),
        Expr::Lam(ps, b) => SExpr::Lam(names_view(ps@), Box::new(sp_view(*b))),
        Expr::App(f, args) => SExpr::App(Box::new(sp_view(*f)), sps_view(args@)),
        Expr::Lit(l) => SExpr::Lit(lit_view(l)),
        Expr::Block(items, b) => SExpr::Block(items_view(items@), Box::new(sp_view(*b))),
        Expr::Record(fs) => SExpr::Record(efields_view(fs@)),
        Expr::Field(x, f) => SExpr::Field(Box::new(sp_view(*x)), f@),
        Expr::Tag(n, p) => SExpr::Tag(
            n@,
            match p {
                Some(x) => Some(Box::new(sp_view(*x))),
                None => None,
            },
        ),
        Expr::When(x, bs, o) => SExpr::When(
            Box::new(sp_view(*x)),
            branches_view(bs@),
            match o {
                Some(ob) => Some(Box::new(sp_view(*ob))),
                None => None,
            },
        ),
        Expr::Import(p) => SExpr::Import(p@),
        Expr::List(es) => SExpr::List(sps_view(es@)),
        Expr::Index(x, idxs) => SExpr::Index(Box::new(sp_view(*x)), idxs_view(idxs@)),
    }
}

pub open spec fn sps_view(es: Seq<Spanned<Expr>>) -> Seq<SSp>
    decreases es,
{
    if es.len() == 0 {
        Seq::empty()
    } else {
        sps_view(es.drop_last()).push(sp_view(es.last()))
    }
}

pub open spec fn efields_view(fs: Seq<(String, Spanned<Expr>)>) -> Seq<(Seq<char>, SSp)>
    decreases fs,
{
    if fs.len() == 0 {
        Seq::empty()
    } else {
        efields_view(fs.drop_last()).push((fs.last().0@, sp_view(fs.last().1)))
    }
}

pub open spec fn item_view(it: BlockItem) -> SItem
    decreases it,
{
    match it {
        BlockItem::Bind(x, e) => SItem::Bind(x@, sp_view(e)),
        BlockItem::Ann(x, t) => SItem::Ann(x@, te_view(t)),
        BlockItem::MonadicBind(x, e) => SItem::MonadicBind(x@, sp_view(e)),
    }
}

pub open spec fn items_view(items: Seq<BlockItem>) -> Seq<SItem>
    decreases items,
{
    if items.len() == 0 {
        Seq::empty()
    } else {
        items_view(items.drop_last()).push(item_view(items.last()))
    }
}

pub open spec fn idx_view(ia: IndexArg) -> SIdx
    decreases ia,
{
    match ia {
        IndexArg::Scalar(e) => SIdx::Scalar(sp_view(e)),
        IndexArg::Fancy(e) => SIdx::Fancy(sp_view(e)),
        IndexArg::Slice(a, b) => SIdx::Slice(
            match a {
                Some(x) => Some(sp_view(x)),
                None => None,
            },
            match b {
                Some(x) => Some(sp_view(x)),
                None => None,
            },
        ),
    }
}

pub open spec fn idxs_view(idxs: Seq<IndexArg>) -> Seq<SIdx>
    decreases idxs,
{
    if idxs.len() == 0 {
        Seq::empty()
    } else {
        idxs_view(idxs.drop_last()).push(idx_view(idxs.last()))
    }
}

pub open spec fn branch_view(b: (String, Option<String>, Box<Spanned<Expr>>)) -> (Seq<char>, Option<Seq<char>>, SSp)
    decreases b,
{
    (b.0@, opt_name_view(b.1), sp_view(*b.2))
}

pub open spec fn branches_view(bs: Seq<(String, Option<String>, Box<Spanned<Expr>>)>) -> Seq<(Seq<char>, Option<Seq<char>>, SSp)>
    decreases bs,
{
    if bs.len() == 0 {
        Seq::empty()
    } else {
        branches_view(bs.drop_last()).push(branch_view(bs.last()))
    }
}

/// A parse result for an expression.
pub open spec fn opt_sp(r: Option<(Spanned<Expr>, usize)>) -> Option<(SSp, int)> {
    match r {
        Some(x) => Some((sp_view(x.0), x.1 as int)),
        None => None,
    }
}

pub open spec fn opt_sps(r: Option<(Vec<Spanned<Expr>>, usize)>) -> Option<(Seq<SSp>, int)> {
    match r {
        Some(x) => Some((sps_view(x.0@), x.1 as int)),
        None => None,
    }
}

pub open spec fn opt_idxs(r: Option<(Vec<IndexArg>, usize)>) -> Option<(Seq<SIdx>, int)> {
    match r {
        Some(x) => Some((idxs_view(x.0@), x.1 as int)),
        None => None,
    }
}

pub open spec fn opt_branch(r: Option<((String, Option<String>, Box<Spanned<Expr>>), usize)>) -> Option<((Seq<char>, Option<Seq<char>>, SSp), int)> {
    match r {
        Some(x) => Some((branch_view(x.0), x.1 as int)),
        None => None,
    }
}

pub open spec fn opt_item(r: Option<(BlockItem, usize)>) -> Option<(SItem, int)> {
    match r {
        Some(x) => Some((item_view(x.0), x.1 as int)),
        None => None,
    }
}

pub proof fn lemma_sps_view(a: Seq<Spanned<Expr>>)
    ensures
        sps_view(a).len() == a.len(),
        forall|i: int| 0 <= i < a.len() ==> #[trigger] sps_view(a)[i] == sp_view(a[i]),
    decreases a.len(),
{
    if a.len() > 0 {
        lemma_sps_view(a.drop_last());
    }
}

pub proof fn lemma_items_view(a: Seq<BlockItem>)
    ensures
        items_view(a).len() == a.len(),
        forall|i: int| 0 <= i < a.len() ==> #[trigger] items_view(a)[i] == item_view(a[i]),
    decreases a.len(),
{
    if a.len() > 0 {
        lemma_items_view(a.drop_last());
    }
}

pub proof fn lemma_sps_view_push(a: Seq<Spanned<Expr>>, x: Spanned<Expr>)
    ensures
        sps_view(a.push(x)) == sps_view(a).push(sp_view(x)),
{
    assert(a.push(x).drop_last() =~= a);
}

pub proof fn lemma_efields_view_push(a: Seq<(String, Spanned<Expr>)>, x: (String, Spanned<Expr>))
    ensures
        efields_view(a.push(x)) == efields_view(a).push((x.0@, sp_view(x.1))),
{
    assert(a.push(x).drop_last() =~= a);
}

pub proof fn lemma_items_view_push(a: Seq<BlockItem>, x: BlockItem)
    ensures
        items_view(a.push(x)) == items_view(a).push(item_view(x)),
{
    assert(a.push(x).drop_last() =~= a);
}

pub proof fn lemma_idxs_view_push(a: Seq<IndexArg>, x: IndexArg)
    ensures
        idxs_view(a.push(x)) == idxs_view(a).push(idx_view(x)),
{
    assert(a.push(x).drop_last() =~= a);
}

pub proof fn lemma_branches_view_push(a: Seq<(String, Option<String>, Box<Spanned<Expr>>)>, x: (String, Option<String>, Box<Spanned<Expr>>))
    ensures
        branches_view(a.push(x)) == branches_view(a).push(branch_view(x)),
{
    assert(a.push(x).drop_last() =~= a);
}

/// Items that hold no monadic bind leave the last one where it was.
pub proof fn lemma_last_bind_append(a: Seq<SItem>, r: Seq<SItem>)
    requires
        forall|j: int| 0 <= j < r.len() ==> !(#[trigger] r[j] is MonadicBind),
    ensures
        last_bind(a + r) == last_bind(a),
    decreases r.len(),
{
    if r.len() == 0 {
        assert(a + r =~= a);
    } else {
        assert((a + r).drop_last() =~= a + r.drop_last());
        assert((a + r).last() == r[r.len() - 1]);
        lemma_last_bind_append(a, r.drop_last());
    }
}

// ── Nodes the parser builds ───────────────────────────────────────────────────

pub open spec fn node(e: SExpr, a: int, b: int) -> SSp {
    SSp { e, start: a, end: b }
}

/// `f(x, y)` spanning `a..b`.
pub open spec fn app2_s(f: SSp, x: SSp, y: SSp, a: int, b: int) -> SSp {
    node(SExpr::App(Box::new(f), seq![x, y]), a, b)
}

/// Template parts joined by `++`, left to right, each join spanning `a..b`.
pub open spec fn concat_s(parts: Seq<SSp>, a: int, b: int) -> SSp
    decreases parts.len(),
{
    if parts.len() <= 1 {
        parts[0]
    } else {
        app2_s(node(SExpr::Var("++"@), a, b), concat_s(parts.drop_last(), a, b), parts.last(), a, b)
    }
}

/// The items before `body` as a block spanning `a..b`, or the body alone.
pub open spec fn close_s(items: Seq<SItem>, body: SSp, a: int, b: int) -> SSp {
    if items.len() == 0 {
        body
    } else {
        node(SExpr::Block(items, Box::new(body)), a, b)
    }
}

/// The index of the last monadic bind among `items`, or `-1`.
pub open spec fn last_bind(items: Seq<SItem>) -> int
    decreases items.len(),
{
    if items.len() == 0 {
        -1
    } else if items.last() is MonadicBind {
        items.len() - 1
    } else {
        last_bind(items.drop_last())
    }
}

/// `items; body` as an expression: each monadic bind `x <- t` takes what
/// follows it as the body of `then(t, \x -> rest)`; the other items stay as a
/// block around what follows them. Every node made spans `a..b`.
pub open spec fn desugar_s(items: Seq<SItem>, body: SSp, a: int, b: int) -> SSp
    decreases items.len(),
{
    let k = last_bind(items);
    if !(0 <= k < items.len()) {
        close_s(items, body, a, b)
    } else {
        match items[k] {
            SItem::MonadicBind(x, t) => desugar_s(
                items.take(k),
                app2_s(
                    node(SExpr::Var("then"@), a, b),
                    t,
                    node(SExpr::Lam(seq![x], Box::new(close_s(items.skip(k + 1), body, a, b))), a, b),
                    a,
                    b,
                ),
                a,
                b,
            ),
            _ => body,
        }
    }
}

// ── Expressions ───────────────────────────────────────────────────────────────

/// An expression: applications joined by infix operators, left-associative.
pub open spec fn expr_s(s: Seq<char>, p: int) -> Option<(SSp, int)>
    decreases s.len() - p, 3nat,
{
    match app_s(s, p) {
        None => None,
        Some((first, q0)) => if p <= q0 <= s.len() { Some(infix_s(s, q0, first)) } else { None },
    }
}

/// Infix operations from `q` on `acc`: ` op rhs`, with whitespace on both sides
/// of the operator; each makes `op(acc, rhs)` from the start of `acc`.
pub open spec fn infix_s(s: Seq<char>, q: int, acc: SSp) -> (SSp, int)
    decreases s.len() - q, 0nat,
{
    match ws1_s(s, q) {
        None => (acc, q),
        Some(q1) => match sym_name_s(s, q1) {
            None => (acc, q),
            Some((op, q2)) => match ws1_s(s, q2) {
                None => (acc, q),
                Some(q3) => if !(q < q3 <= s.len()) {
                    (acc, q)
                } else {
                    match app_s(s, q3) {
                        None => (acc, q),
                        Some((rhs, q4)) => if q3 <= q4 <= s.len() {
                            infix_s(
                                s,
                                q4,
                                app2_s(node(SExpr::Var(op), q1, q2), acc, rhs, acc.start, q4),
                            )
                        } else {
                            (acc, q)
                        },
                    }
                },
            },
        },
    }
}

/// An atom followed by calls `(..)`, field accesses `.f` and indexing `[..]`.
pub open spec fn app_s(s: Seq<char>, p: int) -> Option<(SSp, int)>
    decreases s.len() - p, 2nat,
{
    match atom_s(s, p) {
        None => None,
        Some((first, q0)) => if p <= q0 <= s.len() { Some(postfix_s(s, q0, first)) } else { None },
    }
}

/// Calls, field accesses and indexing from `q` on `acc`, each spanning from the
/// start of `acc`.
pub open spec fn postfix_s(s: Seq<char>, q: int, acc: SSp) -> (SSp, int)
    decreases s.len() - q, 1nat,
{
    if char_at_s(s, q, '(') {
        match expr_list_s(s, q, ')') {
            Some((args, q1)) => if q < q1 <= s.len() {
                postfix_s(s, q1, node(SExpr::App(Box::new(acc), args), acc.start, q1))
            } else {
                (acc, q)
            },
            None => (acc, q),
        }
    } else if char_at_s(s, q, '.') {
        match ident_s(s, q + 1) {
            Some((name, q1)) => if q < q1 <= s.len() {
                postfix_s(s, q1, node(SExpr::Field(Box::new(acc), name), acc.start, q1))
            } else {
                (acc, q)
            },
            None => (acc, q),
        }
    } else if char_at_s(s, q, '[') {
        match index_args_s(s, q) {
            Some((idxs, q1)) => if q < q1 <= s.len() {
                postfix_s(s, q1, node(SExpr::Index(Box::new(acc), idxs), acc.start, q1))
            } else {
                (acc, q)
            },
            None => (acc, q),
        }
    } else {
        (acc, q)
    }
}

/// After the opening character at `p`: expressions separated by `,` (a
/// trailing `,` allowed), each with whitespace around it, then `close`.
pub open spec fn expr_list_s(s: Seq<char>, p: int, close: char) -> Option<(Seq<SSp>, int)>
    decreases s.len() - p, 0nat,
{
    if !(0 <= p < s.len()) {
        None
    } else {
        let (items, q) = elist_s(s, p + 1, Seq::empty());
        if char_at_s(s, q, close) { Some((items, q + 1)) } else { None }
    }
}

/// Expressions from `q`, separated by `,`, added to `acc`.
pub open spec fn elist_s(s: Seq<char>, q: int, acc: Seq<SSp>) -> (Seq<SSp>, int)
    decreases s.len() - q, 5nat,
{
    let q1 = ws_end(s, q);
    if !(q <= q1 <= s.len()) {
        (acc, q)
    } else {
        match expr_s(s, q1) {
            None => (acc, q),
            Some((e, q2)) => if q2 == q {
                (acc, q)
            } else {
                let q3 = ws_end(s, q2);
                if char_at_s(s, q3, ',') && q <= q3 {
                    elist_s(s, q3 + 1, acc.push(e))
                } else {
                    (acc.push(e), q3)
                }
            },
        }
    }
}

/// `[` at `p`, then index arguments separated by `,`, then `]`.
pub open spec fn index_args_s(s: Seq<char>, p: int) -> Option<(Seq<SIdx>, int)>
    decreases s.len() - p, 0nat,
{
    if !(0 <= p < s.len()) {
        None
    } else {
        let (idxs, q) = idx_list_s(s, p + 1, Seq::empty());
        if char_at_s(s, q, ']') { Some((idxs, q + 1)) } else { None }
    }
}

/// Index arguments from `q`, added to `acc`: an integer index, a gather by a
/// list literal, or a slice `a:b` with either bound optional.
pub open spec fn idx_list_s(s: Seq<char>, q: int, acc: Seq<SIdx>) -> (Seq<SIdx>, int)
    decreases s.len() - q, 5nat,
{
    let q1 = ws_end(s, q);
    if !(q <= q1 <= s.len()) {
        (acc, q)
    } else {
        let from: Option<(Option<SSp>, int)> = if char_at_s(s, q1, ':') {
            Some((None, q1))
        } else {
            match expr_s(s, q1) {
                Some((e, q2)) => Some((Some(e), q2)),
                None => None,
            }
        };
        match from {
            None => (acc, q),
            Some((f, q2)) => if q2 == q && f is Some {
                (acc, q)
            } else {
                let q4 = ws_end(s, q2 + 1);
                let item: Option<(SIdx, int)> = if char_at_s(s, q2, ':') {
                    let to: (Option<SSp>, int) = if q <= q4 <= s.len() {
                        match expr_s(s, q4) {
                            Some((e, q5)) => (Some(e), q5),
                            None => (None, q2 + 1),
                        }
                    } else {
                        (None, q2 + 1)
                    };
                    Some((SIdx::Slice(f, to.0), to.1))
                } else {
                    match f {
                        Some(e) => if e.e is List {
                            Some((SIdx::Fancy(e), q2))
                        } else {
                            Some((SIdx::Scalar(e), q2))
                        },
                        None => None,
                    }
                };
                match item {
                    None => (acc, q),
                    Some((ia, q3)) => {
                        let q6 = ws_end(s, q3);
                        if char_at_s(s, q6, ',') && q <= q6 {
                            idx_list_s(s, q6 + 1, acc.push(ia))
                        } else {
                            (acc.push(ia), q6)
                        }
                    },
                }
            },
        }
    }
}

/// An atom, after any whitespace and comments.
pub open spec fn atom_s(s: Seq<char>, p: int) -> Option<(SSp, int)>
    decreases s.len() - p, 1nat,
{
    let q = padding_s(s, p);
    if !(p <= q < s.len()) {
        None
    } else if digit(s[q]) {
        number_s(s, q)
    } else if s[q] == '`' {
        template_s(s, q)
    } else if s[q] == '\\' {
        lambda_s(s, q)
    } else if when_s(s, q) is Some {
        when_s(s, q)
    } else if s[q] == '{' {
        record_s(s, q)
    } else if s[q] == '[' {
        match expr_list_s(s, q, ']') {
            Some((es, q1)) => Some((node(SExpr::List(es), q, q1), q1)),
            None => None,
        }
    } else if s[q] == '(' {
        paren_block_s(s, q)
    } else if import_s(s, q) is Some {
        import_s(s, q)
    } else if tag_s(s, q) is Some {
        tag_s(s, q)
    } else {
        match ident_s(s, q) {
            Some((name, q1)) => Some((node(SExpr::Var(name), q, q1), q1)),
            None => match sym_name_s(s, q) {
                Some((name, q1)) => Some((node(SExpr::Var(name), q, q1), q1)),
                None => None,
            },
        }
    }
}

/// An integer literal that fits in an `i64`, or a float literal
/// `digits.digits` kept as written.
pub open spec fn number_s(s: Seq<char>, p: int) -> Option<(SSp, int)> {
    let q = digits_end(s, p);
    if q <= p {
        None
    } else if char_at_s(s, q, '.') && q + 1 < s.len() && digit(s[q + 1]) {
        let q2 = digits_end(s, q + 1);
        Some((node(SExpr::Lit(SLit::Float(s.subrange(p, q2))), p, q2), q2))
    } else if digits_num(s, p, q) <= i64::MAX {
        Some((node(SExpr::Lit(SLit::Int(digits_num(s, p, q) as i64)), p, q), q))
    } else {
        None
    }
}

/// The end of a run of template text: up to a backquote or `{`.
pub open spec fn chunk_end(s: Seq<char>, q: int) -> int {
    run_end(s, q, |c: char| c != '`' && c != '{')
}

/// A template string: text and `{expr}` parts between backquotes, joined by
/// `++` (an empty template is the empty string).
pub open spec fn template_s(s: Seq<char>, p: int) -> Option<(SSp, int)>
    decreases s.len() - p, 0nat,
{
    if !char_at_s(s, p, '`') {
        None
    } else {
        match tparts_s(s, p + 1, Seq::empty()) {
            None => None,
            Some((parts, q)) => if parts.len() == 0 {
                Some((node(SExpr::Lit(SLit::Str(Seq::empty())), p, q + 1), q + 1))
            } else {
                Some((concat_s(parts, p, q + 1), q + 1))
            },
        }
    }
}

/// Template parts from `q` up to the closing backquote, added to `acc`: the
/// parts and the position of the backquote; `None` if it never comes.
pub open spec fn tparts_s(s: Seq<char>, q: int, acc: Seq<SSp>) -> Option<(Seq<SSp>, int)>
    decreases s.len() - q, 0nat,
{
    if !(0 <= q < s.len()) {
        None
    } else if s[q] == '`' {
        Some((acc, q))
    } else if s[q] == '{' {
        let q1 = ws_end(s, q + 1);
        if !(q < q1 <= s.len()) {
            None
        } else {
            match expr_s(s, q1) {
                None => None,
                Some((e, q2)) => {
                    let q3 = ws_end(s, q2);
                    if char_at_s(s, q3, '}') && q <= q3 {
                        tparts_s(s, q3 + 1, acc.push(e))
                    } else {
                        None
                    }
                },
            }
        }
    } else {
        let q1 = chunk_end(s, q);
        if q < q1 <= s.len() {
            tparts_s(s, q1, acc.push(node(SExpr::Lit(SLit::Str(s.subrange(q, q1))), q, q1)))
        } else {
            None
        }
    }
}

/// Lambda parameters from `q`, each after spaces, added to `acc`.
pub open spec fn lparams_s(s: Seq<char>, q: int, acc: Seq<Seq<char>>) -> (Seq<Seq<char>>, int)
    decreases s.len() - q,
{
    match ident_s(s, hws_end(s, q)) {
        Some((name, q2)) => if q < hws_end(s, q2) <= s.len() {
            lparams_s(s, hws_end(s, q2), acc.push(name))
        } else {
            (acc, q)
        },
        None => (acc, q),
    }
}

/// A lambda `\x y -> body`.
pub open spec fn lambda_s(s: Seq<char>, p: int) -> Option<(SSp, int)>
    decreases s.len() - p, 0nat,
{
    if !char_at_s(s, p, '\\') {
        None
    } else {
        let (params, q) = lparams_s(s, p + 1, Seq::empty());
        if params.len() == 0 || !at(s, q, "->"@) || !(p < q + 2 <= s.len()) {
            None
        } else {
            match expr_s(s, q + 2) {
                Some((body, q1)) => Some((node(SExpr::Lam(params, Box::new(body)), p, q1), q1)),
                None => None,
            }
        }
    }
}

/// One branch of a `when`: `Tag binding? -> body`.
pub open spec fn branch_s(s: Seq<char>, p: int) -> Option<((Seq<char>, Option<Seq<char>>, SSp), int)>
    decreases s.len() - p, 0nat,
{
    match tag_name_s(s, p) {
        None => None,
        Some((tag, q1)) => {
            let q2 = hws_end(s, q1);
            let (binding, q3) = match ident_s(s, q2) {
                Some((b, q)) => (Some(b), hws_end(s, q)),
                None => (None, q2),
            };
            let q4 = hws_end(s, q3 + 2);
            if !at(s, q3, "->"@) || !(p < q4 <= s.len()) {
                None
            } else {
                match expr_s(s, q4) {
                    Some((body, q5)) => Some(((tag, binding, body), q5)),
                    None => None,
                }
            }
        },
    }
}

/// More branches from `q`, each after a separator, added to `acc`.
pub open spec fn branches_s(s: Seq<char>, q: int, acc: Seq<(Seq<char>, Option<Seq<char>>, SSp)>) -> (Seq<(Seq<char>, Option<Seq<char>>, SSp)>, int)
    decreases s.len() - q, 0nat,
{
    match sep_s(s, q) {
        None => (acc, q),
        Some(qa) => if !(q < qa <= s.len()) {
            (acc, q)
        } else {
            match branch_s(s, qa) {
                Some((b, qb)) => if qa <= qb <= s.len() {
                    branches_s(s, qb, acc.push(b))
                } else {
                    (acc, q)
                },
                None => (acc, q),
            }
        },
    }
}

/// The `otherwise body` after the branches ending at `q`, if there is one, and
/// where the `when` ends.
pub open spec fn otherwise_s(s: Seq<char>, q: int) -> (Option<SSp>, int)
    decreases s.len() - q, 0nat,
{
    match sep_s(s, q) {
        None => (None, q),
        Some(qa) => match kw_s(s, qa, "otherwise"@) {
            None => (None, q),
            Some(qb) => match ws1_s(s, qb) {
                None => (None, q),
                Some(qc) => if !(q < qc <= s.len()) {
                    (None, q)
                } else {
                    match expr_s(s, qc) {
                        Some((ob, qd)) => (Some(ob), qd),
                        None => (None, q),
                    }
                },
            },
        },
    }
}

/// `when scrutinee is` branches separated by `;` or newlines, then an optional
/// `otherwise body`.
pub open spec fn when_s(s: Seq<char>, p: int) -> Option<(SSp, int)>
    decreases s.len() - p, 0nat,
{
    match kw_s(s, p, "when"@) {
        None => None,
        Some(q1) => match ws1_s(s, q1) {
            None => None,
            Some(q2) => if !(p < q2 <= s.len()) {
                None
            } else {
                match expr_s(s, q2) {
                    None => None,
                    Some((scrut, q3)) => match ws1_s(s, q3) {
                        None => None,
                        Some(q4) => match kw_s(s, q4, "is"@) {
                            None => None,
                            Some(q5) => {
                                let q6o = match sep_s(s, q5) {
                                    Some(q) => Some(q),
                                    None => ws1_s(s, q5),
                                };
                                match q6o {
                                    None => None,
                                    Some(q6) => if !(p < q6 <= s.len()) {
                                        None
                                    } else {
                                        match branch_s(s, q6) {
                                            None => None,
                                            Some((first, q7)) => if !(q6 <= q7 <= s.len()) {
                                                None
                                            } else {
                                                let (bs, q) = branches_s(s, q7, seq![first]);
                                                let (ow, qf) = if p < q <= s.len() {
                                                    otherwise_s(s, q)
                                                } else {
                                                    (None, q)
                                                };
                                                let o = match ow {
                                                    Some(ob) => Some(Box::new(ob)),
                                                    None => None,
                                                };
                                                Some((node(SExpr::When(Box::new(scrut), bs, o), p, qf), qf))
                                            },
                                        }
                                    },
                                }
                            },
                        },
                    },
                }
            },
        },
    }
}

/// Record fields `name: expr` from `q`, separated by `,`, added to `acc`.
pub open spec fn efields_s(s: Seq<char>, q: int, acc: Seq<(Seq<char>, SSp)>) -> (Seq<(Seq<char>, SSp)>, int)
    decreases s.len() - q, 0nat,
{
    let q1 = ws_end(s, q);
    match ident_s(s, q1) {
        None => (acc, q),
        Some((name, q2)) => {
            let q3 = hws_end(s, q2);
            let q4 = hws_end(s, q3 + 1);
            if !char_at_s(s, q3, ':') || !(q < q4 <= s.len()) {
                (acc, q)
            } else {
                match expr_s(s, q4) {
                    None => (acc, q),
                    Some((e, q5)) => {
                        let q6 = ws_end(s, q5);
                        if char_at_s(s, q6, ',') && q <= q6 {
                            efields_s(s, q6 + 1, acc.push((name, e)))
                        } else {
                            (acc.push((name, e)), q6)
                        }
                    },
                }
            }
        },
    }
}

/// A run of characters ends no earlier than it starts, and, when it starts in
/// the text, no later than the text's end.
pub proof fn lemma_run_end_bounds(s: Seq<char>, p: int, f: spec_fn(char) -> bool)
    ensures
        p <= run_end(s, p, f),
        0 <= p <= s.len() ==> run_end(s, p, f) <= s.len(),
    decreases s.len() - p,
{
    if 0 <= p < s.len() && f(s[p]) {
        lemma_run_end_bounds(s, p + 1, f);
    }
}

/// Parsing record fields keeps what was parsed before and adds the fields that
/// follow, whatever came before: the fields parsed onto `acc` are `acc` and then
/// those parsed onto nothing, ending at the same place. And a field
/// `name: expr` written at `q` is kept: it is the first field added.
pub proof fn lemma_efields_keeps_fields(s: Seq<char>, q: int, acc: Seq<(Seq<char>, SSp)>)
    ensures
        efields_s(s, q, acc).0 == acc + efields_s(s, q, Seq::empty()).0,
        efields_s(s, q, acc).1 == efields_s(s, q, Seq::empty()).1,
        ({
            let out = efields_s(s, q, acc).0;
            match ident_s(s, ws_end(s, q)) {
                Some((name, q2)) => {
                    let q3 = hws_end(s, q2);
                    match expr_s(s, hws_end(s, q3 + 1)) {
                        Some((e, _)) => char_at_s(s, q3, ':') ==> out.len() > acc.len()
                            && out[acc.len() as int] == (name, e),
                        None => true,
                    }
                },
                None => true,
            }
        }),
    decreases s.len() - q,
{
    let q1 = ws_end(s, q);
    lemma_run_end_bounds(s, q, |c: char| whitespace(c));
    match ident_s(s, q1) {
        None => {
            assert(acc + Seq::<(Seq<char>, SSp)>::empty() =~= acc);
        },
        Some((name, q2)) => {
            lemma_run_end_bounds(s, q1 + 1, |c: char| ident_char(c));
            let q3 = hws_end(s, q2);
            lemma_run_end_bounds(s, q2, |c: char| hspace(c));
            let q4 = hws_end(s, q3 + 1);
            lemma_run_end_bounds(s, q3 + 1, |c: char| hspace(c));
            if !char_at_s(s, q3, ':') || !(q < q4 <= s.len()) {
                assert(acc + Seq::<(Seq<char>, SSp)>::empty() =~= acc);
            } else {
                match expr_s(s, q4) {
                    None => {
                        assert(acc + Seq::<(Seq<char>, SSp)>::empty() =~= acc);
                    },
                    Some((e, q5)) => {
                        let q6 = ws_end(s, q5);
                        let e0 = Seq::<(Seq<char>, SSp)>::empty();
                        if char_at_s(s, q6, ',') && q <= q6 {
                            lemma_efields_keeps_fields(s, q6 + 1, acc.push((name, e)));
                            lemma_efields_keeps_fields(s, q6 + 1, e0.push((name, e)));
                            let rest = efields_s(s, q6 + 1, e0).0;
                            lemma_efields_keeps_fields(s, q6 + 1, e0);
                            assert(acc.push((name, e)) + rest =~= acc + (e0.push((name, e)) + rest));
                            assert(e0 + rest =~= rest);
                        } else {
                            assert(acc.push((name, e)) =~= acc + e0.push((name, e)));
                        }
                    },
                }
            }
        },
    }
}

/// A record literal `{field: expr, ...}`.
pub open spec fn record_s(s: Seq<char>, p: int) -> Option<(SSp, int)>
    decreases s.len() - p, 0nat,
{
    if !char_at_s(s, p, '{') {
        None
    } else {
        let (fields, q) = efields_s(s, p + 1, Seq::empty());
        if char_at_s(s, q, '}') {
            Some((node(SExpr::Record(fields), p, q + 1), q + 1))
        } else {
            None
        }
    }
}

/// The end of a run of characters other than a backquote.
pub open spec fn quote_end(s: Seq<char>, q: int) -> int {
    run_end(s, q, |c: char| c != '`')
}

/// `import `path``.
pub open spec fn import_s(s: Seq<char>, p: int) -> Option<(SSp, int)> {
    match word_s(s, p) {
        None => None,
        Some((w, q1)) => if w != "import"@ {
            None
        } else {
            match ws1_s(s, q1) {
                None => None,
                Some(q2) => if !char_at_s(s, q2, '`') || quote_end(s, q2 + 1) >= s.len() {
                    None
                } else {
                    let q3 = quote_end(s, q2 + 1);
                    Some((node(SExpr::Import(s.subrange(q2 + 1, q3)), p, q3 + 1), q3 + 1))
                },
            }
        },
    }
}

/// A tag with an optional payload after spaces, which starts with neither an
/// uppercase letter nor whitespace.
pub open spec fn tag_s(s: Seq<char>, p: int) -> Option<(SSp, int)>
    decreases s.len() - p, 0nat,
{
    match tag_name_s(s, p) {
        None => None,
        Some((name, q1)) => {
            let q2 = hws_end(s, q1);
            let plain = Some((node(SExpr::Tag(name, None), p, q1), q1));
            if q2 > q1 && 0 <= q2 < s.len() && !uppercase(s[q2]) && !whitespace(s[q2]) && p < q2 {
                match expr_s(s, q2) {
                    Some((payload, q3)) => Some(
                        (node(SExpr::Tag(name, Some(Box::new(payload))), p, q3), q3),
                    ),
                    None => plain,
                }
            } else {
                plain
            }
        },
    }
}

// ── Blocks ────────────────────────────────────────────────────────────────────

/// A block item: `name = expr`, `name : type` or `name <- task`.
pub open spec fn block_item_s(s: Seq<char>, p: int) -> Option<(SItem, int)>
    decreases s.len() - p, 0nat,
{
    match ident_s(s, p) {
        None => None,
        Some((name, q1)) => {
            let q2 = hws_end(s, q1);
            match sym_exact_s(s, q2, "="@) {
                Some(q3) => if !(p < hws_end(s, q3) <= s.len()) {
                    None
                } else {
                    match expr_s(s, hws_end(s, q3)) {
                        Some((e, q5)) => Some((SItem::Bind(name, e), q5)),
                        None => None,
                    }
                },
                None => if char_at_s(s, q2, ':') {
                    match type_expr_s(s, hws_end(s, q2 + 1)) {
                        Some((te, q5)) => Some((SItem::Ann(name, te), q5)),
                        None => None,
                    }
                } else {
                    match sym_exact_s(s, q2, "<-"@) {
                        Some(q3) => if !(p < hws_end(s, q3) <= s.len()) {
                            None
                        } else {
                            match expr_s(s, hws_end(s, q3)) {
                                Some((e, q5)) => Some((SItem::MonadicBind(name, e), q5)),
                                None => None,
                            }
                        },
                        None => None,
                    }
                },
            }
        },
    }
}

/// Items from `q`, each followed by a separator, added to `acc` (an item with
/// no separator after it is left for the body).
pub open spec fn block_items_s(s: Seq<char>, q: int, acc: Seq<SItem>) -> (Seq<SItem>, int)
    decreases s.len() - q, 1nat,
{
    match block_item_s(s, q) {
        None => (acc, q),
        Some((it, q1)) => match sep_s(s, q1) {
            Some(q2) => if q < q2 <= s.len() {
                block_items_s(s, q2, acc.push(it))
            } else {
                (acc, q)
            },
            None => (acc, q),
        },
    }
}

/// A block body: items, then an expression; desugared, spanning from `p` to
/// the end of the expression.
pub open spec fn block_body_s(s: Seq<char>, p: int) -> Option<(SSp, int)>
    decreases s.len() - p, 4nat,
{
    let (items, q1) = block_items_s(s, p, Seq::empty());
    if !(p <= q1 <= s.len()) {
        None
    } else {
        match expr_s(s, q1) {
            Some((body, q2)) => Some((desugar_s(items, body, p, q2), q2)),
            None => None,
        }
    }
}

/// `( block )`: grouping, or a block with items.
pub open spec fn paren_block_s(s: Seq<char>, p: int) -> Option<(SSp, int)>
    decreases s.len() - p, 0nat,
{
    if !char_at_s(s, p, '(') {
        None
    } else {
        let q1 = ws_end(s, p + 1);
        if !(p < q1 <= s.len()) {
            None
        } else {
            match block_body_s(s, q1) {
                Some((e, q2)) => if char_at_s(s, ws_end(s, q2), ')') {
                    Some((e, ws_end(s, q2) + 1))
                } else {
                    None
                },
                None => None,
            }
        }
    }
}

// ── Whole inputs ──────────────────────────────────────────────────────────────

/// A whole text read as one expression, whitespace around it allowed. `Err`
/// holds the position where reading stopped.
pub open spec fn expr_text_s(s: Seq<char>) -> Result<SSp, int> {
    match expr_s(s, ws_end(s, 0)) {
        None => Err(ws_end(s, 0)),
        Some((e, q1)) => if ws_end(s, q1) == s.len() { Ok(e) } else { Err(ws_end(s, q1)) },
    }
}

/// A whole file: a block body, whitespace and comments around it allowed.
pub open spec fn file_text_s(s: Seq<char>) -> Result<SSp, int> {
    match block_body_s(s, padding_s(s, 0)) {
        None => Err(padding_s(s, 0)),
        Some((e, q1)) => if padding_s(s, q1) == s.len() { Ok(e) } else { Err(padding_s(s, q1)) },
    }
}

/// More REPL items from `q`, each after a separator, added to `acc`.
pub open spec fn repl_items_s(s: Seq<char>, q: int, acc: Seq<SItem>) -> (Seq<SItem>, int)
    decreases s.len() - q,
{
    match sep_s(s, q) {
        None => (acc, q),
        Some(qa) => if !(q < qa <= s.len()) {
            (acc, q)
        } else {
            match block_item_s(s, qa) {
                Some((it, qb)) => if qa <= qb <= s.len() {
                    repl_items_s(s, qb, acc.push(it))
                } else {
                    (acc, q)
                },
                None => (acc, q),
            }
        },
    }
}

/// A REPL line: nothing, items separated by separators (kept as they are), or
/// an expression.
pub open spec fn repl_text_s(s: Seq<char>) -> Result<SRepl, int> {
    let q0 = padding_s(s, 0);
    if q0 == s.len() {
        Ok(SRepl::Nop)
    } else {
        match block_item_s(s, q0) {
            Some((first, q1)) => {
                let (items, q) = repl_items_s(s, q1, seq![first]);
                if padding_s(s, q) == s.len() {
                    Ok(SRepl::Items(items))
                } else {
                    Err(padding_s(s, q))
                }
            },
            None => match expr_s(s, q0) {
                None => Err(q0),
                Some((e, q1)) => if padding_s(s, q1) == s.len() {
                    Ok(SRepl::Expr(e))
                } else {
                    Err(padding_s(s, q1))
                },
            },
        }
    }
}

} // verus!
