//! What the code generator accepts and what it declares: the free variables of an
//! expression, the first error met when compiling it, and the strings it uses.

use vstd::prelude::*;
use crate::ast::{BlockItem, Expr, IndexArg, Lit, Spanned};
use crate::names::names_set;

verus! {

// ── Free variables ────────────────────────────────────────────────────────────

/// The name under which compiled code holds the value of the module at `path`:
/// the path between backticks, which no variable of a program can be.
pub open spec fn module_key(path: Seq<char>) -> Seq<char> {
    seq!['`'] + path + seq!['`']
}

/// The variables of `e` not bound by `bound` or by a binder inside `e`.
pub open spec fn fv(e: Spanned<Expr>, bound: Set<Seq<char>>) -> Set<Seq<char>>
    decreases e, 1nat, 0int,
{
    match e.0 {
        Expr::Var(n) => if bound.contains(n@) { Set::empty() } else { set![n@] },
        Expr::Lam(ps, b) => fv(*b, bound.union(names_set(ps@))),
        Expr::App(f, args) => fv(*f, bound).union(fv_list(args@, 0, bound)),
        Expr::Block(_, _) => fv_block(e, 0, bound),
        Expr::Record(fs) => fv_fields(fs@, 0, bound),
        Expr::Field(x, _) => fv(*x, bound),
        Expr::Tag(_, p) => match p {
            Some(x) => fv(*x, bound),
            None => Set::empty(),
        },
        Expr::When(x, bs, o) => fv(*x, bound).union(fv_branches(bs@, 0, bound)).union(match o {
            Some(ob) => fv(*ob, bound),
            None => Set::empty(),
        }),
        Expr::List(es) => fv_list(es@, 0, bound),
        Expr::Index(x, idxs) => fv(*x, bound).union(fv_idxs(idxs@, 0, bound)),
        Expr::Import(p) => if bound.contains(module_key(p@)) { Set::empty() } else { set![module_key(p@)] },
        Expr::Lit(_) => Set::empty(),
    }
}

pub open spec fn fv_list(es: Seq<Spanned<Expr>>, i: int, bound: Set<Seq<char>>) -> Set<Seq<char>>
    decreases es, 0nat, es.len() - i,
{
    if i < 0 || i >= es.len() { Set::empty() } else { fv(es[i], bound).union(fv_list(es, i + 1, bound)) }
}

pub open spec fn fv_fields(fs: Seq<(String, Spanned<Expr>)>, i: int, bound: Set<Seq<char>>) -> Set<Seq<char>>
    decreases fs, 0nat, fs.len() - i,
{
    if i < 0 || i >= fs.len() { Set::empty() } else { fv(fs[i].1, bound).union(fv_fields(fs, i + 1, bound)) }
}

pub open spec fn fv_branches(bs: Seq<(String, Option<String>, Box<Spanned<Expr>>)>, i: int, bound: Set<Seq<char>>) -> Set<Seq<char>>
    decreases bs, 0nat, bs.len() - i,
{
    if i < 0 || i >= bs.len() {
        Set::empty()
    } else {
        let b2 = match bs[i].1 {
            Some(b) => bound.insert(b@),
            None => bound,
        };
        fv(*bs[i].2, b2).union(fv_branches(bs, i + 1, bound))
    }
}

pub open spec fn fv_idxs(idxs: Seq<IndexArg>, i: int, bound: Set<Seq<char>>) -> Set<Seq<char>>
    decreases idxs, 0nat, idxs.len() - i,
{
    if i < 0 || i >= idxs.len() {
        Set::empty()
    } else {
        (match idxs[i] {
            IndexArg::Scalar(x) => fv(x, bound),
            IndexArg::Fancy(x) => fv(x, bound),
            IndexArg::Slice(f, t) => (match f {
                Some(x) => fv(x, bound),
                None => Set::empty(),
            }).union(match t {
                Some(x) => fv(x, bound),
                None => Set::empty(),
            }),
        }).union(fv_idxs(idxs, i + 1, bound))
    }
}

/// The items of block `e` from `i` on bind their names in what follows them,
/// and in the body.
pub open spec fn fv_block(e: Spanned<Expr>, i: int, bound: Set<Seq<char>>) -> Set<Seq<char>>
    decreases e, 0nat, (match e.0 {
        Expr::Block(items, _) => items@.len() as int,
        _ => 0int,
    }) - i,
{
    match e.0 {
        Expr::Block(items, body) => if i < 0 || i >= items@.len() {
            fv(*body, bound)
        } else {
            match items@[i] {
                BlockItem::Bind(n, x) => fv(x, bound).union(fv_block(e, i + 1, bound.insert(n@))),
                _ => fv_block(e, i + 1, bound),
            }
        },
        _ => Set::empty(),
    }
}

// ── Compile errors ────────────────────────────────────────────────────────────

pub open spec fn msg_unbound(n: Seq<char>) -> Seq<char> {
    "unbound: "@ + n
}

pub open spec fn msg_import() -> Seq<char> {
    "imports not supported in compiled mode"@
}

pub open spec fn msg_float() -> Seq<char> {
    "floats not supported in compiled mode"@
}

pub open spec fn msg_index() -> Seq<char> {
    "indexing not supported in compiled mode"@
}

/// The first of two outcomes that reports an error.
pub open spec fn first_err(a: Option<Seq<char>>, b: Option<Seq<char>>) -> Option<Seq<char>> {
    if a is Some { a } else { b }
}

/// The names a lambda body sees: the ones it captures from `scope` and its parameters.
pub open spec fn lam_scope(ps: Seq<String>, b: Spanned<Expr>, scope: Set<Seq<char>>) -> Set<Seq<char>> {
    fv(b, names_set(ps)).intersect(scope).union(names_set(ps))
}

/// The first error met when `e` is compiled with the names in `scope` defined,
/// in evaluation order (function before arguments, left to right, scrutinee before
/// branches before `otherwise`); `None` when it compiles.
pub open spec fn cerr(e: Spanned<Expr>, scope: Set<Seq<char>>) -> Option<Seq<char>>
    decreases e, 1nat, 0int,
{
    match e.0 {
        Expr::Lit(l) => if l is Float { Some(msg_float()) } else { None },
        Expr::Var(n) => if scope.contains(n@) { None } else { Some(msg_unbound(n@)) },
        Expr::Lam(ps, b) => cerr(*b, lam_scope(ps@, *b, scope)),
        Expr::App(f, args) => first_err(cerr(*f, scope), cerr_list(args@, 0, scope)),
        Expr::Block(_, _) => cerr_block(e, 0, scope),
        Expr::Record(fs) => cerr_fields(fs@, 0, scope),
        Expr::Field(x, _) => cerr(*x, scope),
        Expr::Tag(_, p) => match p {
            Some(x) => cerr(*x, scope),
            None => None,
        },
        Expr::When(x, bs, o) => first_err(cerr(*x, scope), first_err(cerr_branches(bs@, 0, scope), match o {
            Some(ob) => cerr(*ob, scope),
            None => None,
        })),
        Expr::List(es) => cerr_list(es@, 0, scope),
        Expr::Import(p) => if scope.contains(module_key(p@)) { None } else { Some(msg_import()) },
        Expr::Index(_, _) => Some(msg_index()),
    }
}

pub open spec fn cerr_list(es: Seq<Spanned<Expr>>, i: int, scope: Set<Seq<char>>) -> Option<Seq<char>>
    decreases es, 0nat, es.len() - i,
{
    if i < 0 || i >= es.len() { None } else { first_err(cerr(es[i], scope), cerr_list(es, i + 1, scope)) }
}

pub open spec fn cerr_fields(fs: Seq<(String, Spanned<Expr>)>, i: int, scope: Set<Seq<char>>) -> Option<Seq<char>>
    decreases fs, 0nat, fs.len() - i,
{
    if i < 0 || i >= fs.len() { None } else { first_err(cerr(fs[i].1, scope), cerr_fields(fs, i + 1, scope)) }
}

pub open spec fn branch_scope(b: Option<String>, scope: Set<Seq<char>>) -> Set<Seq<char>> {
    match b {
        Some(n) => scope.insert(n@),
        None => scope,
    }
}

pub open spec fn cerr_branches(bs: Seq<(String, Option<String>, Box<Spanned<Expr>>)>, i: int, scope: Set<Seq<char>>) -> Option<Seq<char>>
    decreases bs, 0nat, bs.len() - i,
{
    if i < 0 || i >= bs.len() {
        None
    } else {
        first_err(cerr(*bs[i].2, branch_scope(bs[i].1, scope)), cerr_branches(bs, i + 1, scope))
    }
}

pub open spec fn cerr_block(e: Spanned<Expr>, i: int, scope: Set<Seq<char>>) -> Option<Seq<char>>
    decreases e, 0nat, (match e.0 {
        Expr::Block(items, _) => items@.len() as int,
        _ => 0int,
    }) - i,
{
    match e.0 {
        Expr::Block(items, body) => if i < 0 || i >= items@.len() {
            cerr(*body, scope)
        } else {
            match items@[i] {
                BlockItem::Bind(n, x) => first_err(cerr(x, scope), cerr_block(e, i + 1, scope.insert(n@))),
                _ => cerr_block(e, i + 1, scope),
            }
        },
        _ => None,
    }
}

// ── Strings an expression uses ────────────────────────────────────────────────

/// The strings that compiled code for `e` refers to as constants: string
/// literals, record keys, field names, tag names and the tags of `when` branches.
pub open spec fn strs(e: Spanned<Expr>) -> Set<Seq<char>>
    decreases e, 1nat, 0int,
{
    match e.0 {
        Expr::Lit(l) => match l {
            Lit::Str(s) => set![s@],
            _ => Set::empty(),
        },
        Expr::Var(_) | Expr::Import(_) | Expr::Index(_, _) => Set::empty(),
        Expr::Lam(_, b) => strs(*b),
        Expr::App(f, args) => strs(*f).union(strs_list(args@, 0)),
        Expr::Block(items, body) => strs_items(items@, 0).union(strs(*body)),
        Expr::Record(fs) => strs_fields(fs@, 0),
        Expr::Field(x, name) => strs(*x).insert(name@),
        Expr::Tag(name, p) => match p {
            Some(x) => strs(*x).insert(name@),
            None => set![name@],
        },
        Expr::When(x, bs, o) => strs(*x).union(strs_branches(bs@, 0)).union(match o {
            Some(ob) => strs(*ob),
            None => Set::empty(),
        }),
        Expr::List(es) => strs_list(es@, 0),
    }
}

pub open spec fn strs_list(es: Seq<Spanned<Expr>>, i: int) -> Set<Seq<char>>
    decreases es, 0nat, es.len() - i,
{
    if i < 0 || i >= es.len() { Set::empty() } else { strs(es[i]).union(strs_list(es, i + 1)) }
}

pub open spec fn strs_fields(fs: Seq<(String, Spanned<Expr>)>, i: int) -> Set<Seq<char>>
    decreases fs, 0nat, fs.len() - i,
{
    if i < 0 || i >= fs.len() { Set::empty() } else { strs(fs[i].1).insert(fs[i].0@).union(strs_fields(fs, i + 1)) }
}

pub open spec fn strs_branches(bs: Seq<(String, Option<String>, Box<Spanned<Expr>>)>, i: int) -> Set<Seq<char>>
    decreases bs, 0nat, bs.len() - i,
{
    if i < 0 || i >= bs.len() { Set::empty() } else { strs(*bs[i].2).insert(bs[i].0@).union(strs_branches(bs, i + 1)) }
}

pub open spec fn strs_items(items: Seq<BlockItem>, i: int) -> Set<Seq<char>>
    decreases items, 0nat, items.len() - i,
{
    if i < 0 || i >= items.len() {
        Set::empty()
    } else {
        match items[i] {
            BlockItem::Bind(_, x) => strs(x).union(strs_items(items, i + 1)),
            _ => strs_items(items, i + 1),
        }
    }
}

// ── Names in compiled code ────────────────────────────────────────────────────

/// No free variable of `e` is one of the names bound around it.
pub proof fn lemma_fv_fresh(e: Spanned<Expr>, bound: Set<Seq<char>>)
    ensures
        forall|x: Seq<char>| fv(e, bound).contains(x) ==> !bound.contains(x),
    decreases e, 1nat, 0int,
{
    match e.0 {
        Expr::Lam(ps, b) => {
            let b2 = bound.union(names_set(ps@));
            lemma_fv_fresh(*b, b2);
            assert(fv(e, bound) == fv(*b, b2));
            assert forall|x: Seq<char>| fv(e, bound).contains(x) implies !bound.contains(x) by {
                assert(fv(*b, b2).contains(x));
                assert(!b2.contains(x));
            }
        },
        Expr::App(f, args) => {
            lemma_fv_fresh(*f, bound);
            lemma_fv_list_fresh(args@, 0, bound);
        },
        Expr::Block(_, _) => lemma_fv_block_fresh(e, 0, bound),
        Expr::Record(fs) => lemma_fv_fields_fresh(fs@, 0, bound),
        Expr::Field(x, _) => lemma_fv_fresh(*x, bound),
        Expr::Tag(_, p) => match p {
            Some(x) => lemma_fv_fresh(*x, bound),
            None => {},
        },
        Expr::When(x, bs, o) => {
            lemma_fv_fresh(*x, bound);
            lemma_fv_branches_fresh(bs@, 0, bound);
            match o {
                Some(ob) => lemma_fv_fresh(*ob, bound),
                None => {},
            }
        },
        Expr::List(es) => lemma_fv_list_fresh(es@, 0, bound),
        Expr::Index(x, idxs) => {
            lemma_fv_fresh(*x, bound);
            lemma_fv_idxs_fresh(idxs@, 0, bound);
        },
        _ => {},
    }
}

proof fn lemma_fv_list_fresh(es: Seq<Spanned<Expr>>, i: int, bound: Set<Seq<char>>)
    ensures
        forall|x: Seq<char>| fv_list(es, i, bound).contains(x) ==> !bound.contains(x),
    decreases es, 0nat, es.len() - i,
{
    if 0 <= i < es.len() {
        lemma_fv_fresh(es[i], bound);
        lemma_fv_list_fresh(es, i + 1, bound);
    }
}

proof fn lemma_fv_fields_fresh(fs: Seq<(String, Spanned<Expr>)>, i: int, bound: Set<Seq<char>>)
    ensures
        forall|x: Seq<char>| fv_fields(fs, i, bound).contains(x) ==> !bound.contains(x),
    decreases fs, 0nat, fs.len() - i,
{
    if 0 <= i < fs.len() {
        lemma_fv_fresh(fs[i].1, bound);
        lemma_fv_fields_fresh(fs, i + 1, bound);
    }
}

proof fn lemma_fv_branches_fresh(bs: Seq<(String, Option<String>, Box<Spanned<Expr>>)>, i: int, bound: Set<Seq<char>>)
    ensures
        forall|x: Seq<char>| fv_branches(bs, i, bound).contains(x) ==> !bound.contains(x),
    decreases bs, 0nat, bs.len() - i,
{
    if 0 <= i < bs.len() {
        let b2 = match bs[i].1 {
            Some(b) => bound.insert(b@),
            None => bound,
        };
        lemma_fv_fresh(*bs[i].2, b2);
        lemma_fv_branches_fresh(bs, i + 1, bound);
        assert(fv_branches(bs, i, bound) == fv(*bs[i].2, b2).union(fv_branches(bs, i + 1, bound)));
        assert forall|x: Seq<char>| fv_branches(bs, i, bound).contains(x) implies !bound.contains(x) by {
            if fv(*bs[i].2, b2).contains(x) {
                assert(!b2.contains(x));
            }
        }
    }
}

proof fn lemma_fv_idxs_fresh(idxs: Seq<IndexArg>, i: int, bound: Set<Seq<char>>)
    ensures
        forall|x: Seq<char>| fv_idxs(idxs, i, bound).contains(x) ==> !bound.contains(x),
    decreases idxs, 0nat, idxs.len() - i,
{
    if 0 <= i < idxs.len() {
        match idxs[i] {
            IndexArg::Scalar(x) => lemma_fv_fresh(x, bound),
            IndexArg::Fancy(x) => lemma_fv_fresh(x, bound),
            IndexArg::Slice(f, t) => {
                match f {
                    Some(x) => lemma_fv_fresh(x, bound),
                    None => {},
                }
                match t {
                    Some(x) => lemma_fv_fresh(x, bound),
                    None => {},
                }
            },
        }
        lemma_fv_idxs_fresh(idxs, i + 1, bound);
    }
}

proof fn lemma_fv_block_fresh(e: Spanned<Expr>, i: int, bound: Set<Seq<char>>)
    ensures
        forall|x: Seq<char>| fv_block(e, i, bound).contains(x) ==> !bound.contains(x),
    decreases e, 0nat, (match e.0 {
        Expr::Block(items, _) => items@.len() as int,
        _ => 0int,
    }) - i,
{
    match e.0 {
        Expr::Block(items, body) => if i < 0 || i >= items@.len() {
            lemma_fv_fresh(*body, bound);
        } else {
            match items@[i] {
                BlockItem::Bind(n, x) => {
                    let b2 = bound.insert(n@);
                    lemma_fv_fresh(x, bound);
                    lemma_fv_block_fresh(e, i + 1, b2);
                    assert(fv_block(e, i, bound) == fv(x, bound).union(fv_block(e, i + 1, b2)));
                    assert forall|y: Seq<char>| fv_block(e, i, bound).contains(y) implies !bound.contains(y) by {
                        if fv_block(e, i + 1, b2).contains(y) {
                            assert(!b2.contains(y));
                        }
                    }
                },
                _ => {
                    lemma_fv_block_fresh(e, i + 1, bound);
                    assert(fv_block(e, i, bound) == fv_block(e, i + 1, bound));
                },
            }
        },
        _ => {},
    }
}

/// What compiles under `scope` uses, beyond the names `bound` around it, only
/// names of `scope`.
proof fn lemma_cerr_fv(e: Spanned<Expr>, scope: Set<Seq<char>>, bound: Set<Seq<char>>)
    requires
        cerr(e, scope) is None,
    ensures
        fv(e, bound).subset_of(scope.union(bound)),
    decreases e, 1nat, 0int,
{
    match e.0 {
        Expr::Lam(ps, b) => {
            let p = names_set(ps@);
            let inner = lam_scope(ps@, *b, scope);
            lemma_cerr_fv(*b, inner, bound.union(p));
            lemma_fv_fresh(*b, bound.union(p));
            assert(fv(e, bound) == fv(*b, bound.union(p)));
            assert forall|x: Seq<char>| fv(e, bound).contains(x) implies scope.union(bound).contains(x) by {
                assert(inner.union(bound.union(p)).contains(x));
                assert(!bound.union(p).contains(x));
            }
        },
        Expr::App(f, args) => {
            lemma_cerr_fv(*f, scope, bound);
            lemma_cerr_fv_list(args@, 0, scope, bound);
        },
        Expr::Block(_, _) => lemma_cerr_fv_block(e, 0, scope, bound),
        Expr::Record(fs) => lemma_cerr_fv_fields(fs@, 0, scope, bound),
        Expr::Field(x, _) => lemma_cerr_fv(*x, scope, bound),
        Expr::Tag(_, p) => match p {
            Some(x) => lemma_cerr_fv(*x, scope, bound),
            None => {},
        },
        Expr::When(x, bs, o) => {
            lemma_cerr_fv(*x, scope, bound);
            lemma_cerr_fv_branches(bs@, 0, scope, bound);
            match o {
                Some(ob) => lemma_cerr_fv(*ob, scope, bound),
                None => {},
            }
        },
        Expr::List(es) => lemma_cerr_fv_list(es@, 0, scope, bound),
        _ => {},
    }
}

proof fn lemma_cerr_fv_list(es: Seq<Spanned<Expr>>, i: int, scope: Set<Seq<char>>, bound: Set<Seq<char>>)
    requires
        cerr_list(es, i, scope) is None,
    ensures
        fv_list(es, i, bound).subset_of(scope.union(bound)),
    decreases es, 0nat, es.len() - i,
{
    if 0 <= i < es.len() {
        lemma_cerr_fv(es[i], scope, bound);
        lemma_cerr_fv_list(es, i + 1, scope, bound);
    }
}

proof fn lemma_cerr_fv_fields(fs: Seq<(String, Spanned<Expr>)>, i: int, scope: Set<Seq<char>>, bound: Set<Seq<char>>)
    requires
        cerr_fields(fs, i, scope) is None,
    ensures
        fv_fields(fs, i, bound).subset_of(scope.union(bound)),
    decreases fs, 0nat, fs.len() - i,
{
    if 0 <= i < fs.len() {
        lemma_cerr_fv(fs[i].1, scope, bound);
        lemma_cerr_fv_fields(fs, i + 1, scope, bound);
    }
}

proof fn lemma_cerr_fv_branches(
    bs: Seq<(String, Option<String>, Box<Spanned<Expr>>)>,
    i: int,
    scope: Set<Seq<char>>,
    bound: Set<Seq<char>>,
)
    requires
        cerr_branches(bs, i, scope) is None,
    ensures
        fv_branches(bs, i, bound).subset_of(scope.union(bound)),
    decreases bs, 0nat, bs.len() - i,
{
    if 0 <= i < bs.len() {
        match bs[i].1 {
            Some(b) => {
                lemma_cerr_fv(*bs[i].2, scope.insert(b@), bound.insert(b@));
                lemma_fv_fresh(*bs[i].2, bound.insert(b@));
                assert forall|x: Seq<char>| fv(*bs[i].2, bound.insert(b@)).contains(x) implies scope.union(bound).contains(x) by {
                    assert(scope.insert(b@).union(bound.insert(b@)).contains(x));
                    assert(!bound.insert(b@).contains(x));
                }
            },
            None => lemma_cerr_fv(*bs[i].2, scope, bound),
        }
        lemma_cerr_fv_branches(bs, i + 1, scope, bound);
    }
}

proof fn lemma_cerr_fv_block(e: Spanned<Expr>, i: int, scope: Set<Seq<char>>, bound: Set<Seq<char>>)
    requires
        cerr_block(e, i, scope) is None,
    ensures
        fv_block(e, i, bound).subset_of(scope.union(bound)),
    decreases e, 0nat, (match e.0 {
        Expr::Block(items, _) => items@.len() as int,
        _ => 0int,
    }) - i,
{
    match e.0 {
        Expr::Block(items, body) => if i < 0 || i >= items@.len() {
            lemma_cerr_fv(*body, scope, bound);
        } else {
            match items@[i] {
                BlockItem::Bind(n, x) => {
                    let b2 = bound.insert(n@);
                    lemma_cerr_fv(x, scope, bound);
                    lemma_cerr_fv_block(e, i + 1, scope.insert(n@), b2);
                    lemma_fv_block_fresh(e, i + 1, b2);
                    assert(fv_block(e, i, bound) == fv(x, bound).union(fv_block(e, i + 1, b2)));
                    assert forall|y: Seq<char>| fv_block(e, i, bound).contains(y) implies scope.union(bound).contains(y) by {
                        if fv_block(e, i + 1, b2).contains(y) {
                            assert(scope.insert(n@).union(b2).contains(y));
                            assert(!b2.contains(y));
                        }
                    }
                },
                _ => {
                    lemma_cerr_fv_block(e, i + 1, scope, bound);
                    assert(fv_block(e, i, bound) == fv_block(e, i + 1, bound));
                },
            }
        },
        _ => {},
    }
}

/// Compiled code never refers to an unbound name: when `e` compiles with the
/// names in `scope` defined, every free variable of `e` is one of them.
pub proof fn lemma_compiled_free_vars(e: Spanned<Expr>, scope: Set<Seq<char>>)
    requires
        cerr(e, scope) is None,
    ensures
        fv(e, Set::empty()).subset_of(scope),
{
    lemma_cerr_fv(e, scope, Set::empty());
    assert(scope.union(Set::empty()) =~= scope);
}


// ── What compiles ─────────────────────────────────────────────────────────────

/// Whether `e` holds no float literal and no indexing, the two forms compiled
/// code does not support.
pub open spec fn compilable(e: Spanned<Expr>) -> bool
    decreases e, 1nat, 0int,
{
    match e.0 {
        Expr::Lit(l) => !(l is Float),
        Expr::Var(_) | Expr::Import(_) => true,
        Expr::Lam(_, b) => compilable(*b),
        Expr::App(f, args) => compilable(*f) && compilable_list(args@, 0),
        Expr::Block(_, _) => compilable_block(e, 0),
        Expr::Record(fs) => compilable_fields(fs@, 0),
        Expr::Field(x, _) => compilable(*x),
        Expr::Tag(_, p) => match p {
            Some(x) => compilable(*x),
            None => true,
        },
        Expr::When(x, bs, o) => compilable(*x) && compilable_branches(bs@, 0) && match o {
            Some(ob) => compilable(*ob),
            None => true,
        },
        Expr::List(es) => compilable_list(es@, 0),
        Expr::Index(_, _) => false,
    }
}

pub open spec fn compilable_list(es: Seq<Spanned<Expr>>, i: int) -> bool
    decreases es, 0nat, es.len() - i,
{
    if i < 0 || i >= es.len() { true } else { compilable(es[i]) && compilable_list(es, i + 1) }
}

pub open spec fn compilable_fields(fs: Seq<(String, Spanned<Expr>)>, i: int) -> bool
    decreases fs, 0nat, fs.len() - i,
{
    if i < 0 || i >= fs.len() { true } else { compilable(fs[i].1) && compilable_fields(fs, i + 1) }
}

pub open spec fn compilable_branches(bs: Seq<(String, Option<String>, Box<Spanned<Expr>>)>, i: int) -> bool
    decreases bs, 0nat, bs.len() - i,
{
    if i < 0 || i >= bs.len() { true } else { compilable(*bs[i].2) && compilable_branches(bs, i + 1) }
}

pub open spec fn compilable_block(e: Spanned<Expr>, i: int) -> bool
    decreases e, 0nat, (match e.0 {
        Expr::Block(items, _) => items@.len() as int,
        _ => 0int,
    }) - i,
{
    match e.0 {
        Expr::Block(items, body) => if i < 0 || i >= items@.len() {
            compilable(*body)
        } else {
            match items@[i] {
                BlockItem::Bind(_, x) => compilable(x) && compilable_block(e, i + 1),
                _ => compilable_block(e, i + 1),
            }
        },
        _ => true,
    }
}

proof fn lemma_cerr_compilable(e: Spanned<Expr>, scope: Set<Seq<char>>)
    requires
        cerr(e, scope) is None,
    ensures
        compilable(e),
    decreases e, 1nat, 0int,
{
    match e.0 {
        Expr::Lam(ps, b) => lemma_cerr_compilable(*b, lam_scope(ps@, *b, scope)),
        Expr::App(f, args) => {
            lemma_cerr_compilable(*f, scope);
            lemma_cerr_compilable_list(args@, 0, scope);
        },
        Expr::Block(_, _) => lemma_cerr_compilable_block(e, 0, scope),
        Expr::Record(fs) => lemma_cerr_compilable_fields(fs@, 0, scope),
        Expr::Field(x, _) => lemma_cerr_compilable(*x, scope),
        Expr::Tag(_, p) => match p {
            Some(x) => lemma_cerr_compilable(*x, scope),
            None => {},
        },
        Expr::When(x, bs, o) => {
            lemma_cerr_compilable(*x, scope);
            lemma_cerr_compilable_branches(bs@, 0, scope);
            match o {
                Some(ob) => lemma_cerr_compilable(*ob, scope),
                None => {},
            }
        },
        Expr::List(es) => lemma_cerr_compilable_list(es@, 0, scope),
        _ => {},
    }
}

proof fn lemma_cerr_compilable_list(es: Seq<Spanned<Expr>>, i: int, scope: Set<Seq<char>>)
    requires
        cerr_list(es, i, scope) is None,
    ensures
        compilable_list(es, i),
    decreases es, 0nat, es.len() - i,
{
    if 0 <= i < es.len() {
        lemma_cerr_compilable(es[i], scope);
        lemma_cerr_compilable_list(es, i + 1, scope);
    }
}

proof fn lemma_cerr_compilable_fields(fs: Seq<(String, Spanned<Expr>)>, i: int, scope: Set<Seq<char>>)
    requires
        cerr_fields(fs, i, scope) is None,
    ensures
        compilable_fields(fs, i),
    decreases fs, 0nat, fs.len() - i,
{
    if 0 <= i < fs.len() {
        lemma_cerr_compilable(fs[i].1, scope);
        lemma_cerr_compilable_fields(fs, i + 1, scope);
    }
}

proof fn lemma_cerr_compilable_branches(bs: Seq<(String, Option<String>, Box<Spanned<Expr>>)>, i: int, scope: Set<Seq<char>>)
    requires
        cerr_branches(bs, i, scope) is None,
    ensures
        compilable_branches(bs, i),
    decreases bs, 0nat, bs.len() - i,
{
    if 0 <= i < bs.len() {
        lemma_cerr_compilable(*bs[i].2, branch_scope(bs[i].1, scope));
        lemma_cerr_compilable_branches(bs, i + 1, scope);
    }
}

proof fn lemma_cerr_compilable_block(e: Spanned<Expr>, i: int, scope: Set<Seq<char>>)
    requires
        cerr_block(e, i, scope) is None,
    ensures
        compilable_block(e, i),
    decreases e, 0nat, (match e.0 {
        Expr::Block(items, _) => items@.len() as int,
        _ => 0int,
    }) - i,
{
    match e.0 {
        Expr::Block(items, body) => if i < 0 || i >= items@.len() {
            lemma_cerr_compilable(*body, scope);
        } else {
            match items@[i] {
                BlockItem::Bind(n, x) => {
                    lemma_cerr_compilable(x, scope);
                    lemma_cerr_compilable_block(e, i + 1, scope.insert(n@));
                },
                _ => lemma_cerr_compilable_block(e, i + 1, scope),
            }
        },
        _ => {},
    }
}

/// Binding more names keeps every free variable that is not one of them.
proof fn lemma_fv_weaken(e: Spanned<Expr>, a: Set<Seq<char>>, c: Set<Seq<char>>)
    requires
        a.subset_of(c),
    ensures
        forall|x: Seq<char>| fv(e, a).contains(x) && !c.contains(x) ==> fv(e, c).contains(x),
    decreases e, 1nat, 0int,
{
    match e.0 {
        Expr::Lam(ps, b) => {
            let p = names_set(ps@);
            lemma_fv_weaken(*b, a.union(p), c.union(p));
            lemma_fv_fresh(*b, a.union(p));
            assert(fv(e, a) == fv(*b, a.union(p)));
            assert(fv(e, c) == fv(*b, c.union(p)));
            assert forall|x: Seq<char>| fv(e, a).contains(x) && !c.contains(x) implies fv(e, c).contains(x) by {
                assert(!a.union(p).contains(x));
                assert(!c.union(p).contains(x));
            }
        },
        Expr::App(f, args) => {
            lemma_fv_weaken(*f, a, c);
            lemma_fv_weaken_list(args@, 0, a, c);
        },
        Expr::Block(_, _) => lemma_fv_weaken_block(e, 0, a, c),
        Expr::Record(fs) => lemma_fv_weaken_fields(fs@, 0, a, c),
        Expr::Field(x, _) => lemma_fv_weaken(*x, a, c),
        Expr::Tag(_, p) => match p {
            Some(x) => lemma_fv_weaken(*x, a, c),
            None => {},
        },
        Expr::When(x, bs, o) => {
            lemma_fv_weaken(*x, a, c);
            lemma_fv_weaken_branches(bs@, 0, a, c);
            match o {
                Some(ob) => lemma_fv_weaken(*ob, a, c),
                None => {},
            }
        },
        Expr::List(es) => lemma_fv_weaken_list(es@, 0, a, c),
        Expr::Index(x, idxs) => {
            lemma_fv_weaken(*x, a, c);
            lemma_fv_weaken_idxs(idxs@, 0, a, c);
        },
        _ => {},
    }
}

proof fn lemma_fv_weaken_list(es: Seq<Spanned<Expr>>, i: int, a: Set<Seq<char>>, c: Set<Seq<char>>)
    requires
        a.subset_of(c),
    ensures
        forall|x: Seq<char>| fv_list(es, i, a).contains(x) && !c.contains(x) ==> fv_list(es, i, c).contains(x),
    decreases es, 0nat, es.len() - i,
{
    if 0 <= i < es.len() {
        lemma_fv_weaken(es[i], a, c);
        lemma_fv_weaken_list(es, i + 1, a, c);
    }
}

proof fn lemma_fv_weaken_fields(fs: Seq<(String, Spanned<Expr>)>, i: int, a: Set<Seq<char>>, c: Set<Seq<char>>)
    requires
        a.subset_of(c),
    ensures
        forall|x: Seq<char>| fv_fields(fs, i, a).contains(x) && !c.contains(x) ==> fv_fields(fs, i, c).contains(x),
    decreases fs, 0nat, fs.len() - i,
{
    if 0 <= i < fs.len() {
        lemma_fv_weaken(fs[i].1, a, c);
        lemma_fv_weaken_fields(fs, i + 1, a, c);
    }
}

proof fn lemma_fv_weaken_branches(bs: Seq<(String, Option<String>, Box<Spanned<Expr>>)>, i: int, a: Set<Seq<char>>, c: Set<Seq<char>>)
    requires
        a.subset_of(c),
    ensures
        forall|x: Seq<char>| fv_branches(bs, i, a).contains(x) && !c.contains(x) ==> fv_branches(bs, i, c).contains(x),
    decreases bs, 0nat, bs.len() - i,
{
    if 0 <= i < bs.len() {
        match bs[i].1 {
            Some(b) => {
                lemma_fv_weaken(*bs[i].2, a.insert(b@), c.insert(b@));
                lemma_fv_fresh(*bs[i].2, a.insert(b@));
            },
            None => lemma_fv_weaken(*bs[i].2, a, c),
        }
        lemma_fv_weaken_branches(bs, i + 1, a, c);
        let a2 = match bs[i].1 { Some(b) => a.insert(b@), None => a };
        let c2 = match bs[i].1 { Some(b) => c.insert(b@), None => c };
        assert(fv_branches(bs, i, a) == fv(*bs[i].2, a2).union(fv_branches(bs, i + 1, a)));
        assert(fv_branches(bs, i, c) == fv(*bs[i].2, c2).union(fv_branches(bs, i + 1, c)));
        assert forall|x: Seq<char>| fv_branches(bs, i, a).contains(x) && !c.contains(x) implies fv_branches(bs, i, c).contains(x) by {
            if fv(*bs[i].2, a2).contains(x) {
                assert(!a2.contains(x));
                assert(!c2.contains(x));
            }
        }
    }
}

proof fn lemma_fv_weaken_idxs(idxs: Seq<IndexArg>, i: int, a: Set<Seq<char>>, c: Set<Seq<char>>)
    requires
        a.subset_of(c),
    ensures
        forall|x: Seq<char>| fv_idxs(idxs, i, a).contains(x) && !c.contains(x) ==> fv_idxs(idxs, i, c).contains(x),
    decreases idxs, 0nat, idxs.len() - i,
{
    if 0 <= i < idxs.len() {
        match idxs[i] {
            IndexArg::Scalar(x) => lemma_fv_weaken(x, a, c),
            IndexArg::Fancy(x) => lemma_fv_weaken(x, a, c),
            IndexArg::Slice(f, t) => {
                match f {
                    Some(x) => lemma_fv_weaken(x, a, c),
                    None => {},
                }
                match t {
                    Some(x) => lemma_fv_weaken(x, a, c),
                    None => {},
                }
            },
        }
        lemma_fv_weaken_idxs(idxs, i + 1, a, c);
    }
}

proof fn lemma_fv_weaken_block(e: Spanned<Expr>, i: int, a: Set<Seq<char>>, c: Set<Seq<char>>)
    requires
        a.subset_of(c),
    ensures
        forall|x: Seq<char>| fv_block(e, i, a).contains(x) && !c.contains(x) ==> fv_block(e, i, c).contains(x),
    decreases e, 0nat, (match e.0 {
        Expr::Block(items, _) => items@.len() as int,
        _ => 0int,
    }) - i,
{
    match e.0 {
        Expr::Block(items, body) => if i < 0 || i >= items@.len() {
            lemma_fv_weaken(*body, a, c);
        } else {
            match items@[i] {
                BlockItem::Bind(n, x) => {
                    lemma_fv_weaken(x, a, c);
                    lemma_fv_weaken_block(e, i + 1, a.insert(n@), c.insert(n@));
                    lemma_fv_block_fresh(e, i + 1, a.insert(n@));
                    assert(fv_block(e, i, a) == fv(x, a).union(fv_block(e, i + 1, a.insert(n@))));
                    assert(fv_block(e, i, c) == fv(x, c).union(fv_block(e, i + 1, c.insert(n@))));
                    assert forall|y: Seq<char>| fv_block(e, i, a).contains(y) && !c.contains(y) implies fv_block(e, i, c).contains(y) by {
                        if fv_block(e, i + 1, a.insert(n@)).contains(y) {
                            assert(!a.insert(n@).contains(y));
                            assert(!c.insert(n@).contains(y));
                        }
                    }
                },
                _ => lemma_fv_weaken_block(e, i + 1, a, c),
            }
        },
        _ => {},
    }
}

/// What holds no float and no indexing compiles where its free variables, and
/// the names bound around it, are defined.
proof fn lemma_compilable_cerr(e: Spanned<Expr>, scope: Set<Seq<char>>, bound: Set<Seq<char>>)
    requires
        compilable(e),
        bound.subset_of(scope),
        fv(e, bound).subset_of(scope),
    ensures
        cerr(e, scope) is None,
    decreases e, 1nat, 0int,
{
    match e.0 {
        Expr::Var(n) => {
            if !bound.contains(n@) {
                assert(fv(e, bound).contains(n@));
            }
        },
        Expr::Import(p) => {
            if !bound.contains(module_key(p@)) {
                assert(fv(e, bound).contains(module_key(p@)));
            }
        },
        Expr::Lam(ps, b) => {
            let p = names_set(ps@);
            let inner = lam_scope(ps@, *b, scope);
            lemma_fv_weaken(*b, p, bound.union(p));
            lemma_fv_fresh(*b, p);
            assert(fv(e, bound) == fv(*b, bound.union(p)));
            assert forall|x: Seq<char>| fv(*b, p).contains(x) implies inner.contains(x) by {
                if !bound.union(p).contains(x) {
                    assert(fv(*b, bound.union(p)).contains(x));
                }
                assert(scope.contains(x));
            }
            lemma_compilable_cerr(*b, inner, p);
        },
        Expr::App(f, args) => {
            lemma_compilable_cerr(*f, scope, bound);
            lemma_compilable_cerr_list(args@, 0, scope, bound);
        },
        Expr::Block(_, _) => lemma_compilable_cerr_block(e, 0, scope, bound),
        Expr::Record(fs) => lemma_compilable_cerr_fields(fs@, 0, scope, bound),
        Expr::Field(x, _) => lemma_compilable_cerr(*x, scope, bound),
        Expr::Tag(_, p) => match p {
            Some(x) => lemma_compilable_cerr(*x, scope, bound),
            None => {},
        },
        Expr::When(x, bs, o) => {
            lemma_compilable_cerr(*x, scope, bound);
            lemma_compilable_cerr_branches(bs@, 0, scope, bound);
            match o {
                Some(ob) => lemma_compilable_cerr(*ob, scope, bound),
                None => {},
            }
        },
        Expr::List(es) => lemma_compilable_cerr_list(es@, 0, scope, bound),
        _ => {},
    }
}

proof fn lemma_compilable_cerr_list(es: Seq<Spanned<Expr>>, i: int, scope: Set<Seq<char>>, bound: Set<Seq<char>>)
    requires
        compilable_list(es, i),
        bound.subset_of(scope),
        fv_list(es, i, bound).subset_of(scope),
    ensures
        cerr_list(es, i, scope) is None,
    decreases es, 0nat, es.len() - i,
{
    if 0 <= i < es.len() {
        lemma_compilable_cerr(es[i], scope, bound);
        lemma_compilable_cerr_list(es, i + 1, scope, bound);
    }
}

proof fn lemma_compilable_cerr_fields(fs: Seq<(String, Spanned<Expr>)>, i: int, scope: Set<Seq<char>>, bound: Set<Seq<char>>)
    requires
        compilable_fields(fs, i),
        bound.subset_of(scope),
        fv_fields(fs, i, bound).subset_of(scope),
    ensures
        cerr_fields(fs, i, scope) is None,
    decreases fs, 0nat, fs.len() - i,
{
    if 0 <= i < fs.len() {
        lemma_compilable_cerr(fs[i].1, scope, bound);
        lemma_compilable_cerr_fields(fs, i + 1, scope, bound);
    }
}

proof fn lemma_compilable_cerr_branches(
    bs: Seq<(String, Option<String>, Box<Spanned<Expr>>)>,
    i: int,
    scope: Set<Seq<char>>,
    bound: Set<Seq<char>>,
)
    requires
        compilable_branches(bs, i),
        bound.subset_of(scope),
        fv_branches(bs, i, bound).subset_of(scope),
    ensures
        cerr_branches(bs, i, scope) is None,
    decreases bs, 0nat, bs.len() - i,
{
    if 0 <= i < bs.len() {
        match bs[i].1 {
            Some(b) => {
                lemma_compilable_cerr(*bs[i].2, scope.insert(b@), bound.insert(b@));
            },
            None => lemma_compilable_cerr(*bs[i].2, scope, bound),
        }
        lemma_compilable_cerr_branches(bs, i + 1, scope, bound);
    }
}

proof fn lemma_compilable_cerr_block(e: Spanned<Expr>, i: int, scope: Set<Seq<char>>, bound: Set<Seq<char>>)
    requires
        compilable_block(e, i),
        bound.subset_of(scope),
        fv_block(e, i, bound).subset_of(scope),
    ensures
        cerr_block(e, i, scope) is None,
    decreases e, 0nat, (match e.0 {
        Expr::Block(items, _) => items@.len() as int,
        _ => 0int,
    }) - i,
{
    match e.0 {
        Expr::Block(items, body) => if i < 0 || i >= items@.len() {
            lemma_compilable_cerr(*body, scope, bound);
        } else {
            match items@[i] {
                BlockItem::Bind(n, x) => {
                    lemma_compilable_cerr(x, scope, bound);
                    lemma_compilable_cerr_block(e, i + 1, scope.insert(n@), bound.insert(n@));
                },
                _ => lemma_compilable_cerr_block(e, i + 1, scope, bound),
            }
        },
        _ => {},
    }
}

/// A program compiles with the names in `scope` defined exactly when every free
/// variable of it (an import counting as the module's name) is in `scope` and it
/// holds no float literal and no indexing.
pub proof fn lemma_compiles_iff(e: Spanned<Expr>, scope: Set<Seq<char>>)
    ensures
        cerr(e, scope) is None <==> (fv(e, Set::empty()).subset_of(scope) && compilable(e)),
{
    if cerr(e, scope) is None {
        lemma_compiled_free_vars(e, scope);
        lemma_cerr_compilable(e, scope);
    }
    if fv(e, Set::empty()).subset_of(scope) && compilable(e) {
        lemma_compilable_cerr(e, scope, Set::empty());
    }
}


/// Binding more names only removes free variables.
proof fn lemma_fv_shrink(e: Spanned<Expr>, a: Set<Seq<char>>, c: Set<Seq<char>>)
    requires
        a.subset_of(c),
    ensures
        fv(e, c).subset_of(fv(e, a)),
    decreases e, 1nat, 0int,
{
    match e.0 {
        Expr::Lam(ps, b) => lemma_fv_shrink(*b, a.union(names_set(ps@)), c.union(names_set(ps@))),
        Expr::App(f, args) => {
            lemma_fv_shrink(*f, a, c);
            lemma_fv_shrink_list(args@, 0, a, c);
        },
        Expr::Block(_, _) => lemma_fv_shrink_block(e, 0, a, c),
        Expr::Record(fs) => lemma_fv_shrink_fields(fs@, 0, a, c),
        Expr::Field(x, _) => lemma_fv_shrink(*x, a, c),
        Expr::Tag(_, p) => match p {
            Some(x) => lemma_fv_shrink(*x, a, c),
            None => {},
        },
        Expr::When(x, bs, o) => {
            lemma_fv_shrink(*x, a, c);
            lemma_fv_shrink_branches(bs@, 0, a, c);
            match o {
                Some(ob) => lemma_fv_shrink(*ob, a, c),
                None => {},
            }
        },
        Expr::List(es) => lemma_fv_shrink_list(es@, 0, a, c),
        Expr::Index(x, idxs) => {
            lemma_fv_shrink(*x, a, c);
            lemma_fv_shrink_idxs(idxs@, 0, a, c);
        },
        _ => {},
    }
}

proof fn lemma_fv_shrink_list(es: Seq<Spanned<Expr>>, i: int, a: Set<Seq<char>>, c: Set<Seq<char>>)
    requires
        a.subset_of(c),
    ensures
        fv_list(es, i, c).subset_of(fv_list(es, i, a)),
    decreases es, 0nat, es.len() - i,
{
    if 0 <= i < es.len() {
        lemma_fv_shrink(es[i], a, c);
        lemma_fv_shrink_list(es, i + 1, a, c);
    }
}

proof fn lemma_fv_shrink_fields(fs: Seq<(String, Spanned<Expr>)>, i: int, a: Set<Seq<char>>, c: Set<Seq<char>>)
    requires
        a.subset_of(c),
    ensures
        fv_fields(fs, i, c).subset_of(fv_fields(fs, i, a)),
    decreases fs, 0nat, fs.len() - i,
{
    if 0 <= i < fs.len() {
        lemma_fv_shrink(fs[i].1, a, c);
        lemma_fv_shrink_fields(fs, i + 1, a, c);
    }
}

proof fn lemma_fv_shrink_branches(bs: Seq<(String, Option<String>, Box<Spanned<Expr>>)>, i: int, a: Set<Seq<char>>, c: Set<Seq<char>>)
    requires
        a.subset_of(c),
    ensures
        fv_branches(bs, i, c).subset_of(fv_branches(bs, i, a)),
    decreases bs, 0nat, bs.len() - i,
{
    if 0 <= i < bs.len() {
        match bs[i].1 {
            Some(b) => lemma_fv_shrink(*bs[i].2, a.insert(b@), c.insert(b@)),
            None => lemma_fv_shrink(*bs[i].2, a, c),
        }
        lemma_fv_shrink_branches(bs, i + 1, a, c);
    }
}

proof fn lemma_fv_shrink_idxs(idxs: Seq<IndexArg>, i: int, a: Set<Seq<char>>, c: Set<Seq<char>>)
    requires
        a.subset_of(c),
    ensures
        fv_idxs(idxs, i, c).subset_of(fv_idxs(idxs, i, a)),
    decreases idxs, 0nat, idxs.len() - i,
{
    if 0 <= i < idxs.len() {
        match idxs[i] {
            IndexArg::Scalar(x) => lemma_fv_shrink(x, a, c),
            IndexArg::Fancy(x) => lemma_fv_shrink(x, a, c),
            IndexArg::Slice(f, t) => {
                match f {
                    Some(x) => lemma_fv_shrink(x, a, c),
                    None => {},
                }
                match t {
                    Some(x) => lemma_fv_shrink(x, a, c),
                    None => {},
                }
            },
        }
        lemma_fv_shrink_idxs(idxs, i + 1, a, c);
    }
}

proof fn lemma_fv_shrink_block(e: Spanned<Expr>, i: int, a: Set<Seq<char>>, c: Set<Seq<char>>)
    requires
        a.subset_of(c),
    ensures
        fv_block(e, i, c).subset_of(fv_block(e, i, a)),
    decreases e, 0nat, (match e.0 {
        Expr::Block(items, _) => items@.len() as int,
        _ => 0int,
    }) - i,
{
    match e.0 {
        Expr::Block(items, body) => if i < 0 || i >= items@.len() {
            lemma_fv_shrink(*body, a, c);
        } else {
            match items@[i] {
                BlockItem::Bind(n, x) => {
                    lemma_fv_shrink(x, a, c);
                    lemma_fv_shrink_block(e, i + 1, a.insert(n@), c.insert(n@));
                },
                _ => lemma_fv_shrink_block(e, i + 1, a, c),
            }
        },
        _ => {},
    }
}

/// Names bound around an expression act as set difference on its free
/// variables: those free under `bound` are exactly those free under no binding,
/// less `bound`.
pub proof fn lemma_fv_bound_difference(e: Spanned<Expr>, bound: Set<Seq<char>>)
    ensures
        fv(e, bound) == fv(e, Set::empty()).difference(bound),
{
    lemma_fv_shrink(e, Set::empty(), bound);
    lemma_fv_weaken(e, Set::empty(), bound);
    lemma_fv_fresh(e, bound);
    assert(fv(e, bound) =~= fv(e, Set::empty()).difference(bound));
}


/// What a compile error of `e` says about a name `n`: `unbound: n`, or an
/// import whose module key `n` is not in scope.
pub open spec fn error_names(m: Seq<char>, n: Seq<char>) -> bool {
    m == msg_unbound(n) || (m == msg_import() && exists|p: Seq<char>| n == #[trigger] module_key(p))
}

proof fn lemma_cerr_name(e: Spanned<Expr>, scope: Set<Seq<char>>, bound: Set<Seq<char>>) -> (n: Seq<char>)
    requires
        compilable(e),
        bound.subset_of(scope),
        cerr(e, scope) is Some,
    ensures
        fv(e, bound).contains(n),
        !scope.contains(n),
        error_names(cerr(e, scope)->Some_0, n),
    decreases e, 1nat, 0int,
{
    match e.0 {
        Expr::Var(name) => {
            assert(!bound.contains(name@));
            assert(fv(e, bound) == set![name@]);
            name@
        },
        Expr::Import(p) => {
            assert(!bound.contains(module_key(p@)));
            assert(fv(e, bound) == set![module_key(p@)]);
            module_key(p@)
        },
        Expr::Lam(ps, b) => {
            let p = names_set(ps@);
            let inner = lam_scope(ps@, *b, scope);
            let n = lemma_cerr_name(*b, inner, p);
            lemma_fv_weaken(*b, p, bound.union(p));
            assert(!p.contains(n));
            assert(!scope.contains(n)) by {
                if scope.contains(n) {
                    assert(inner.contains(n));
                }
            }
            assert(!bound.union(p).contains(n));
            assert(fv(e, bound) == fv(*b, bound.union(p)));
            n
        },
        Expr::App(f, args) => {
            if cerr(*f, scope) is Some {
                let n = lemma_cerr_name(*f, scope, bound);
                n
            } else {
                lemma_cerr_name_list(args@, 0, scope, bound)
            }
        },
        Expr::Block(_, _) => lemma_cerr_name_block(e, 0, scope, bound),
        Expr::Record(fs) => lemma_cerr_name_fields(fs@, 0, scope, bound),
        Expr::Field(x, _) => lemma_cerr_name(*x, scope, bound),
        Expr::Tag(_, p) => match p {
            Some(x) => lemma_cerr_name(*x, scope, bound),
            None => Seq::empty(),
        },
        Expr::When(x, bs, o) => {
            if cerr(*x, scope) is Some {
                lemma_cerr_name(*x, scope, bound)
            } else if cerr_branches(bs@, 0, scope) is Some {
                lemma_cerr_name_branches(bs@, 0, scope, bound)
            } else {
                match o {
                    Some(ob) => lemma_cerr_name(*ob, scope, bound),
                    None => Seq::empty(),
                }
            }
        },
        Expr::List(es) => lemma_cerr_name_list(es@, 0, scope, bound),
        _ => Seq::empty(),
    }
}

proof fn lemma_cerr_name_list(es: Seq<Spanned<Expr>>, i: int, scope: Set<Seq<char>>, bound: Set<Seq<char>>) -> (n: Seq<char>)
    requires
        compilable_list(es, i),
        bound.subset_of(scope),
        cerr_list(es, i, scope) is Some,
    ensures
        fv_list(es, i, bound).contains(n),
        !scope.contains(n),
        error_names(cerr_list(es, i, scope)->Some_0, n),
    decreases es, 0nat, es.len() - i,
{
    if cerr(es[i], scope) is Some {
        lemma_cerr_name(es[i], scope, bound)
    } else {
        lemma_cerr_name_list(es, i + 1, scope, bound)
    }
}

proof fn lemma_cerr_name_fields(fs: Seq<(String, Spanned<Expr>)>, i: int, scope: Set<Seq<char>>, bound: Set<Seq<char>>) -> (n: Seq<char>)
    requires
        compilable_fields(fs, i),
        bound.subset_of(scope),
        cerr_fields(fs, i, scope) is Some,
    ensures
        fv_fields(fs, i, bound).contains(n),
        !scope.contains(n),
        error_names(cerr_fields(fs, i, scope)->Some_0, n),
    decreases fs, 0nat, fs.len() - i,
{
    if cerr(fs[i].1, scope) is Some {
        lemma_cerr_name(fs[i].1, scope, bound)
    } else {
        lemma_cerr_name_fields(fs, i + 1, scope, bound)
    }
}

proof fn lemma_cerr_name_branches(
    bs: Seq<(String, Option<String>, Box<Spanned<Expr>>)>,
    i: int,
    scope: Set<Seq<char>>,
    bound: Set<Seq<char>>,
) -> (n: Seq<char>)
    requires
        compilable_branches(bs, i),
        bound.subset_of(scope),
        cerr_branches(bs, i, scope) is Some,
    ensures
        fv_branches(bs, i, bound).contains(n),
        !scope.contains(n),
        error_names(cerr_branches(bs, i, scope)->Some_0, n),
    decreases bs, 0nat, bs.len() - i,
{
    let sc2 = branch_scope(bs[i].1, scope);
    if cerr(*bs[i].2, sc2) is Some {
        match bs[i].1 {
            Some(b) => lemma_cerr_name(*bs[i].2, scope.insert(b@), bound.insert(b@)),
            None => lemma_cerr_name(*bs[i].2, scope, bound),
        }
    } else {
        lemma_cerr_name_branches(bs, i + 1, scope, bound)
    }
}

proof fn lemma_cerr_name_block(e: Spanned<Expr>, i: int, scope: Set<Seq<char>>, bound: Set<Seq<char>>) -> (n: Seq<char>)
    requires
        compilable_block(e, i),
        bound.subset_of(scope),
        cerr_block(e, i, scope) is Some,
    ensures
        fv_block(e, i, bound).contains(n),
        !scope.contains(n),
        error_names(cerr_block(e, i, scope)->Some_0, n),
    decreases e, 0nat, (match e.0 {
        Expr::Block(items, _) => items@.len() as int,
        _ => 0int,
    }) - i,
{
    match e.0 {
        Expr::Block(items, body) => if i < 0 || i >= items@.len() {
            lemma_cerr_name(*body, scope, bound)
        } else {
            match items@[i] {
                BlockItem::Bind(x_name, x) => {
                    if cerr(x, scope) is Some {
                        lemma_cerr_name(x, scope, bound)
                    } else {
                        lemma_cerr_name_block(e, i + 1, scope.insert(x_name@), bound.insert(x_name@))
                    }
                },
                _ => lemma_cerr_name_block(e, i + 1, scope, bound),
            }
        },
        _ => Seq::empty(),
    }
}

/// When a program with no float literal and no indexing does not compile with
/// the names in `scope` defined, its error names a free variable of it outside
/// `scope`: `unbound: n`, or, for an import, the module's key.
pub proof fn lemma_compile_error_names(e: Spanned<Expr>, scope: Set<Seq<char>>) -> (n: Seq<char>)
    requires
        compilable(e),
        cerr(e, scope) is Some,
    ensures
        fv(e, Set::empty()).contains(n),
        !scope.contains(n),
        error_names(cerr(e, scope)->Some_0, n),
{
    lemma_cerr_name(e, scope, Set::empty())
}

} // verus!
