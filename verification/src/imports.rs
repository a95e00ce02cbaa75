//! The modules a program imports: the paths of its `import` expressions, which a
//! host loads before the program is checked.

use vstd::prelude::*;
use crate::ast::{BlockItem, Expr, IndexArg, Spanned};
use crate::names::{add_all, add_name, distinct, lemma_names_empty, names_set};
use crate::types::model::{copy_string, names_view};

verus! {

/// The paths of the `import` expressions in `e`.
pub open spec fn imports(e: Spanned<Expr>) -> Set<Seq<char>>
    decreases e, 1nat, 0int,
{
    match e.0 {
        Expr::Import(p) => set![p@],
        Expr::Var(_) | Expr::Lit(_) => Set::empty(),
        Expr::Lam(_, b) => imports(*b),
        Expr::App(f, args) => imports(*f).union(imports_list(args@, 0)),
        Expr::Block(items, b) => imports_items(items@, 0).union(imports(*b)),
        Expr::Record(fs) => imports_fields(fs@, 0),
        Expr::Field(x, _) => imports(*x),
        Expr::Tag(_, p) => match p {
            Some(x) => imports(*x),
            None => Set::empty(),
        },
        Expr::When(x, bs, o) => imports(*x).union(imports_branches(bs@, 0)).union(match o {
            Some(ob) => imports(*ob),
            None => Set::empty(),
        }),
        Expr::List(es) => imports_list(es@, 0),
        Expr::Index(x, idxs) => imports(*x).union(imports_idxs(idxs@, 0)),
    }
}

pub open spec fn imports_list(es: Seq<Spanned<Expr>>, i: int) -> Set<Seq<char>>
    decreases es, 0nat, es.len() - i,
{
    if i < 0 || i >= es.len() { Set::empty() } else { imports(es[i]).union(imports_list(es, i + 1)) }
}

pub open spec fn imports_fields(fs: Seq<(String, Spanned<Expr>)>, i: int) -> Set<Seq<char>>
    decreases fs, 0nat, fs.len() - i,
{
    if i < 0 || i >= fs.len() { Set::empty() } else { imports(fs[i].1).union(imports_fields(fs, i + 1)) }
}

pub open spec fn imports_branches(bs: Seq<(String, Option<String>, Box<Spanned<Expr>>)>, i: int) -> Set<Seq<char>>
    decreases bs, 0nat, bs.len() - i,
{
    if i < 0 || i >= bs.len() { Set::empty() } else { imports(*bs[i].2).union(imports_branches(bs, i + 1)) }
}

pub open spec fn imports_items(items: Seq<BlockItem>, i: int) -> Set<Seq<char>>
    decreases items, 0nat, items.len() - i,
{
    if i < 0 || i >= items.len() {
        Set::empty()
    } else {
        match items[i] {
            BlockItem::Bind(_, x) | BlockItem::MonadicBind(_, x) => imports(x).union(imports_items(items, i + 1)),
            BlockItem::Ann(_, _) => imports_items(items, i + 1),
        }
    }
}

pub open spec fn idx_imports(ia: IndexArg) -> Set<Seq<char>>
    decreases ia, 0nat, 0int,
{
    match ia {
        IndexArg::Scalar(x) | IndexArg::Fancy(x) => imports(x),
        IndexArg::Slice(f, t) => (match f {
            Some(x) => imports(x),
            None => Set::empty(),
        }).union(match t {
            Some(x) => imports(x),
            None => Set::empty(),
        }),
    }
}

pub open spec fn imports_idxs(idxs: Seq<IndexArg>, i: int) -> Set<Seq<char>>
    decreases idxs, 0nat, idxs.len() - i,
{
    if i < 0 || i >= idxs.len() { Set::empty() } else { idx_imports(idxs[i]).union(imports_idxs(idxs, i + 1)) }
}

/// The paths `e` imports, each once.
pub fn import_paths(e: &Spanned<Expr>) -> (r: Vec<String>)
    ensures
        distinct(r@),
        names_set(r@) == imports(*e),
    decreases e, 1nat,
{
    let mut r: Vec<String> = Vec::new();
    proof { lemma_names_empty(); }
    match &e.0 {
        Expr::Import(p) => {
            add_name(&mut r, p);
            assert(Set::<Seq<char>>::empty().insert(p@) =~= set![p@]);
        },
        Expr::Var(_) | Expr::Lit(_) => {},
        Expr::Lam(_, b) => {
            return import_paths(b);
        },
        Expr::App(f, args) => {
            let r1 = import_paths(f);
            let r2 = paths_list(args);
            add_all(&mut r, &r1);
            add_all(&mut r, &r2);
            assert(names_set(r@) =~= imports(*e));
        },
        Expr::Block(items, b) => {
            let r1 = paths_items(items);
            let r2 = import_paths(b);
            add_all(&mut r, &r1);
            add_all(&mut r, &r2);
            assert(names_set(r@) =~= imports(*e));
        },
        Expr::Record(fs) => {
            let r1 = paths_fields(fs);
            add_all(&mut r, &r1);
            assert(names_set(r@) =~= imports(*e));
        },
        Expr::Field(x, _) => {
            return import_paths(x);
        },
        Expr::Tag(_, p) => match p {
            Some(x) => {
                return import_paths(x);
            },
            None => {},
        },
        Expr::When(x, bs, o) => {
            let r1 = import_paths(x);
            let r2 = paths_branches(bs);
            add_all(&mut r, &r1);
            add_all(&mut r, &r2);
            match o {
                Some(ob) => {
                    let r3 = import_paths(ob);
                    add_all(&mut r, &r3);
                },
                None => {},
            }
            assert(names_set(r@) =~= imports(*e));
        },
        Expr::List(es) => {
            let r1 = paths_list(es);
            add_all(&mut r, &r1);
            assert(names_set(r@) =~= imports(*e));
        },
        Expr::Index(x, idxs) => {
            let r1 = import_paths(x);
            let r2 = paths_idxs(idxs);
            add_all(&mut r, &r1);
            add_all(&mut r, &r2);
            assert(names_set(r@) =~= imports(*e));
        },
    }
    r
}

fn paths_list(es: &Vec<Spanned<Expr>>) -> (r: Vec<String>)
    ensures
        distinct(r@),
        names_set(r@) == imports_list(es@, 0),
    decreases es, 0nat,
{
    let mut r: Vec<String> = Vec::new();
    proof {
        lemma_names_empty();
        assert(Set::<Seq<char>>::empty().union(imports_list(es@, 0)) =~= imports_list(es@, 0));
    }
    let mut i: usize = 0;
    while i < es.len()
        invariant
            i <= es.len(),
            distinct(r@),
            names_set(r@).union(imports_list(es@, i as int)) == imports_list(es@, 0),
        decreases es.len() - i,
    {
        let r1 = import_paths(&es[i]);
        let ghost s0 = names_set(r@);
        add_all(&mut r, &r1);
        assert(names_set(r@).union(imports_list(es@, i + 1)) =~= s0.union(imports_list(es@, i as int)));
        i += 1;
    }
    assert(names_set(r@).union(imports_list(es@, i as int)) =~= names_set(r@));
    r
}

fn paths_fields(fs: &Vec<(String, Spanned<Expr>)>) -> (r: Vec<String>)
    ensures
        distinct(r@),
        names_set(r@) == imports_fields(fs@, 0),
    decreases fs, 0nat,
{
    let mut r: Vec<String> = Vec::new();
    proof {
        lemma_names_empty();
        assert(Set::<Seq<char>>::empty().union(imports_fields(fs@, 0)) =~= imports_fields(fs@, 0));
    }
    let mut i: usize = 0;
    while i < fs.len()
        invariant
            i <= fs.len(),
            distinct(r@),
            names_set(r@).union(imports_fields(fs@, i as int)) == imports_fields(fs@, 0),
        decreases fs.len() - i,
    {
        let r1 = import_paths(&fs[i].1);
        let ghost s0 = names_set(r@);
        add_all(&mut r, &r1);
        assert(names_set(r@).union(imports_fields(fs@, i + 1)) =~= s0.union(imports_fields(fs@, i as int)));
        i += 1;
    }
    assert(names_set(r@).union(imports_fields(fs@, i as int)) =~= names_set(r@));
    r
}

fn paths_branches(bs: &Vec<(String, Option<String>, Box<Spanned<Expr>>)>) -> (r: Vec<String>)
    ensures
        distinct(r@),
        names_set(r@) == imports_branches(bs@, 0),
    decreases bs, 0nat,
{
    let mut r: Vec<String> = Vec::new();
    proof {
        lemma_names_empty();
        assert(Set::<Seq<char>>::empty().union(imports_branches(bs@, 0)) =~= imports_branches(bs@, 0));
    }
    let mut i: usize = 0;
    while i < bs.len()
        invariant
            i <= bs.len(),
            distinct(r@),
            names_set(r@).union(imports_branches(bs@, i as int)) == imports_branches(bs@, 0),
        decreases bs.len() - i,
    {
        let r1 = import_paths(&bs[i].2);
        let ghost s0 = names_set(r@);
        add_all(&mut r, &r1);
        assert(names_set(r@).union(imports_branches(bs@, i + 1)) =~= s0.union(imports_branches(bs@, i as int)));
        i += 1;
    }
    assert(names_set(r@).union(imports_branches(bs@, i as int)) =~= names_set(r@));
    r
}

fn paths_items(items: &Vec<BlockItem>) -> (r: Vec<String>)
    ensures
        distinct(r@),
        names_set(r@) == imports_items(items@, 0),
    decreases items, 0nat,
{
    let mut r: Vec<String> = Vec::new();
    proof {
        lemma_names_empty();
        assert(Set::<Seq<char>>::empty().union(imports_items(items@, 0)) =~= imports_items(items@, 0));
    }
    let mut i: usize = 0;
    while i < items.len()
        invariant
            i <= items.len(),
            distinct(r@),
            names_set(r@).union(imports_items(items@, i as int)) == imports_items(items@, 0),
        decreases items.len() - i,
    {
        let ghost s0 = names_set(r@);
        match &items[i] {
            BlockItem::Bind(_, x) | BlockItem::MonadicBind(_, x) => {
                let r1 = import_paths(x);
                add_all(&mut r, &r1);
            },
            BlockItem::Ann(_, _) => {},
        }
        assert(names_set(r@).union(imports_items(items@, i + 1)) =~= s0.union(imports_items(items@, i as int)));
        i += 1;
    }
    assert(names_set(r@).union(imports_items(items@, i as int)) =~= names_set(r@));
    r
}

fn paths_idxs(idxs: &Vec<IndexArg>) -> (r: Vec<String>)
    ensures
        distinct(r@),
        names_set(r@) == imports_idxs(idxs@, 0),
    decreases idxs, 0nat,
{
    let mut r: Vec<String> = Vec::new();
    proof {
        lemma_names_empty();
        assert(Set::<Seq<char>>::empty().union(imports_idxs(idxs@, 0)) =~= imports_idxs(idxs@, 0));
    }
    let mut i: usize = 0;
    while i < idxs.len()
        invariant
            i <= idxs.len(),
            distinct(r@),
            names_set(r@).union(imports_idxs(idxs@, i as int)) == imports_idxs(idxs@, 0),
        decreases idxs.len() - i,
    {
        let ghost s0 = names_set(r@);
        let ghost ia = idxs@[i as int];
        match &idxs[i] {
            IndexArg::Scalar(x) | IndexArg::Fancy(x) => {
                let r1 = import_paths(x);
                add_all(&mut r, &r1);
                assert(idx_imports(ia) == imports(*x));
            },
            IndexArg::Slice(f, t) => {
                let ghost s1 = names_set(r@);
                match f {
                    Some(x) => {
                        let r1 = import_paths(x);
                        add_all(&mut r, &r1);
                    },
                    None => {},
                }
                let ghost s2 = names_set(r@);
                match t {
                    Some(x) => {
                        let r1 = import_paths(x);
                        add_all(&mut r, &r1);
                    },
                    None => {},
                }
                assert(s2 =~= s1.union(match f { Some(x) => imports(*x), None => Set::<Seq<char>>::empty() }));
                assert(names_set(r@) =~= s2.union(match t { Some(x) => imports(*x), None => Set::<Seq<char>>::empty() }));
            },
        }
        assert(names_set(r@) =~= s0.union(idx_imports(ia)));
        assert(names_set(r@).union(imports_idxs(idxs@, i + 1)) =~= s0.union(imports_idxs(idxs@, i as int)));
        i += 1;
    }
    assert(names_set(r@).union(imports_idxs(idxs@, i as int)) =~= names_set(r@));
    r
}


// ── Gathering the modules of a program ────────────────────────────────────────

/// The modules read so far: each path with the paths its module imports.
pub type SGraph = Seq<(Seq<char>, Seq<Seq<char>>)>;

pub open spec fn graph_view(g: Seq<(String, Vec<String>)>) -> SGraph {
    g.map_values(|e: (String, Vec<String>)| (e.0@, names_view(e.1@)))
}

/// Whether `g` has an entry for `p`.
pub open spec fn has_entry(g: SGraph, p: Seq<char>) -> bool {
    exists|i: int| 0 <= i < g.len() && #[trigger] g[i].0 == p
}

/// The imports listed for `p` from entry `i` on: those of the first entry for
/// `p`, and none when there is no entry.
pub open spec fn imports_of(g: SGraph, p: Seq<char>, i: int) -> Seq<Seq<char>>
    decreases g.len() - i,
{
    if i < 0 || i >= g.len() {
        Seq::empty()
    } else if g[i].0 == p {
        g[i].1
    } else {
        imports_of(g, p, i + 1)
    }
}

/// The first path of `ps` from `k` on that has no entry in `g`.
pub open spec fn unread_from(g: SGraph, ps: Seq<Seq<char>>, k: int) -> Option<Seq<char>>
    decreases ps.len() - k,
{
    if k < 0 || k >= ps.len() {
        None
    } else if !has_entry(g, ps[k]) {
        Some(ps[k])
    } else {
        unread_from(g, ps, k + 1)
    }
}

/// The first path without an entry among the imports of the entries of `g`
/// from `i` on.
pub open spec fn unread_entries(g: SGraph, i: int) -> Option<Seq<char>>
    decreases g.len() - i,
{
    if i < 0 || i >= g.len() {
        None
    } else {
        match unread_from(g, g[i].1, 0) {
            Some(p) => Some(p),
            None => unread_entries(g, i + 1),
        }
    }
}

/// The next module to read: the first path, among the program's imports
/// `roots` and then among the imports of the modules read, in order, that has
/// no entry yet; `None` when every module reached has been read.
pub open spec fn next_unread_s(g: SGraph, roots: Seq<Seq<char>>) -> Option<Seq<char>> {
    match unread_from(g, roots, 0) {
        Some(p) => Some(p),
        None => unread_entries(g, 0),
    }
}

fn has_path(v: &Vec<String>, p: &String) -> (r: bool)
    ensures
        r == names_view(v@).contains(p@),
{
    let mut i: usize = 0;
    while i < v.len()
        invariant
            i <= v.len(),
            forall|j: int| 0 <= j < i ==> #[trigger] names_view(v@)[j] != p@,
        decreases v.len() - i,
    {
        if v[i] == *p {
            assert(names_view(v@)[i as int] == p@);
            return true;
        }
        i += 1;
    }
    false
}

fn entry_of(g: &Vec<(String, Vec<String>)>, p: &String) -> (r: Option<usize>)
    ensures
        match r {
            Some(i) => i < g.len() && g@[i as int].0@ == p@ && imports_of(graph_view(g@), p@, 0) == names_view(g@[i as int].1@),
            None => !has_entry(graph_view(g@), p@) && imports_of(graph_view(g@), p@, 0) == Seq::<Seq<char>>::empty(),
        },
{
    let ghost gv = graph_view(g@);
    let mut i: usize = 0;
    while i < g.len()
        invariant
            i <= g.len(),
            gv == graph_view(g@),
            forall|j: int| 0 <= j < i ==> #[trigger] gv[j].0 != p@,
            imports_of(gv, p@, 0) == imports_of(gv, p@, i as int),
        decreases g.len() - i,
    {
        if g[i].0 == *p {
            return Some(i);
        }
        i += 1;
    }
    None
}

fn unread_in(g: &Vec<(String, Vec<String>)>, ps: &Vec<String>) -> (r: Option<String>)
    ensures
        match r {
            Some(p) => unread_from(graph_view(g@), names_view(ps@), 0) == Some(p@),
            None => unread_from(graph_view(g@), names_view(ps@), 0) is None,
        },
{
    let ghost gv = graph_view(g@);
    let ghost pv = names_view(ps@);
    let mut k: usize = 0;
    while k < ps.len()
        invariant
            k <= ps.len(),
            gv == graph_view(g@),
            pv == names_view(ps@),
            unread_from(gv, pv, 0) == unread_from(gv, pv, k as int),
        decreases ps.len() - k,
    {
        assert(pv[k as int] == ps@[k as int]@);
        match entry_of(g, &ps[k]) {
            None => {
                return Some(copy_string(&ps[k]));
            },
            Some(j) => {
                assert(gv[j as int].0 == pv[k as int]);
            },
        }
        k += 1;
    }
    None
}

/// The next module to read (see [`next_unread_s`]).
pub fn next_unread(g: &Vec<(String, Vec<String>)>, roots: &Vec<String>) -> (r: Option<String>)
    ensures
        match r {
            Some(p) => next_unread_s(graph_view(g@), names_view(roots@)) == Some(p@),
            None => next_unread_s(graph_view(g@), names_view(roots@)) is None,
        },
{
    match unread_in(g, roots) {
        Some(p) => return Some(p),
        None => {},
    }
    let ghost gv = graph_view(g@);
    let mut i: usize = 0;
    while i < g.len()
        invariant
            i <= g.len(),
            gv == graph_view(g@),
            unread_from(gv, names_view(roots@), 0) is None,
            unread_entries(gv, 0) == unread_entries(gv, i as int),
        decreases g.len() - i,
    {
        assert(gv[i as int].1 == names_view(g@[i as int].1@));
        match unread_in(g, &g[i].1) {
            Some(p) => return Some(p),
            None => {},
        }
        i += 1;
    }
    None
}

/// Visits module `p` depth first: its imports in order, then `p` itself, each
/// module once in `out`. A module met again while it is being visited (on
/// `open`) is an import cycle through it; so is a walk deeper than `fuel`.
pub open spec fn visit_s(g: SGraph, p: Seq<char>, out: Seq<Seq<char>>, open: Seq<Seq<char>>, fuel: nat)
    -> Result<Seq<Seq<char>>, Seq<char>>
    decreases fuel, 0nat, 0int,
{
    if out.contains(p) {
        Ok(out)
    } else if open.contains(p) || fuel == 0 {
        Err(p)
    } else {
        let deps = imports_of(g, p, 0);
        match visit_list_s(g, deps, 0, out, open.push(p), (fuel - 1) as nat) {
            Err(c) => Err(c),
            Ok(o) => Ok(o.push(p)),
        }
    }
}

pub open spec fn visit_list_s(g: SGraph, ps: Seq<Seq<char>>, i: int, out: Seq<Seq<char>>, open: Seq<Seq<char>>, fuel: nat)
    -> Result<Seq<Seq<char>>, Seq<char>>
    decreases fuel, 1nat, ps.len() - i,
{
    if i < 0 || i >= ps.len() {
        Ok(out)
    } else {
        match visit_s(g, ps[i], out, open, fuel) {
            Err(c) => Err(c),
            Ok(o) => visit_list_s(g, ps, i + 1, o, open, fuel),
        }
    }
}

/// The order in which the modules reached from `roots` are compiled: each once,
/// after the modules it imports, found depth first in import order; or a module
/// on an import cycle. The walk may go one deeper than there are modules read.
pub open spec fn module_order_s(g: SGraph, roots: Seq<Seq<char>>) -> Result<Seq<Seq<char>>, Seq<char>> {
    visit_list_s(g, roots, 0, Seq::empty(), Seq::empty(), (g.len() + 1) as nat)
}

fn visit(g: &Vec<(String, Vec<String>)>, p: &String, out: &mut Vec<String>, open: &mut Vec<String>, fuel: usize) -> (r: Result<(), String>)
    ensures
        names_view(final(open)@) == names_view(old(open)@),
        match r {
            Ok(_) => visit_s(graph_view(g@), p@, names_view(old(out)@), names_view(old(open)@), fuel as nat)
                == Ok::<Seq<Seq<char>>, Seq<char>>(names_view(final(out)@)),
            Err(c) => visit_s(graph_view(g@), p@, names_view(old(out)@), names_view(old(open)@), fuel as nat)
                == Err::<Seq<Seq<char>>, Seq<char>>(c@),
        },
    decreases fuel, 0nat, 0int,
{
    if has_path(out, p) {
        return Ok(());
    }
    if has_path(open, p) || fuel == 0 {
        return Err(copy_string(p));
    }
    let deps = match entry_of(g, p) {
        Some(i) => {
            let mut d: Vec<String> = Vec::new();
            let mut j: usize = 0;
            while j < g[i].1.len()
                invariant
                    i < g.len(),
                    j <= g[i as int].1.len(),
                    names_view(d@) == names_view(g@[i as int].1@).take(j as int),
                decreases g[i as int].1.len() - j,
            {
                let ghost d0 = d@;
                d.push(copy_string(&g[i].1[j]));
                assert(names_view(d@) =~= names_view(d0).push(g@[i as int].1@[j as int]@));
                assert(names_view(g@[i as int].1@).take(j + 1) =~= names_view(g@[i as int].1@).take(j as int).push(g@[i as int].1@[j as int]@));
                j += 1;
            }
            assert(names_view(g@[i as int].1@).take(g@[i as int].1.len() as int) =~= names_view(g@[i as int].1@));
            d
        },
        None => {
            let d: Vec<String> = Vec::new();
            assert(names_view(d@) =~= Seq::<Seq<char>>::empty());
            d
        },
    };
    let ghost open0 = names_view(open@);
    open.push(copy_string(p));
    assert(names_view(open@) =~= open0.push(p@));
    let r = visit_list(g, &deps, out, open, fuel - 1);
    let ghost open1 = open@;
    open.pop();
    assert(names_view(open@) =~= names_view(open1).drop_last());
    assert(names_view(open1).drop_last() =~= open0);
    match r {
        Err(c) => Err(c),
        Ok(_) => {
            let ghost out0 = names_view(out@);
            out.push(copy_string(p));
            assert(names_view(out@) =~= out0.push(p@));
            Ok(())
        },
    }
}

fn visit_list(g: &Vec<(String, Vec<String>)>, ps: &Vec<String>, out: &mut Vec<String>, open: &mut Vec<String>, fuel: usize) -> (r: Result<(), String>)
    ensures
        names_view(final(open)@) == names_view(old(open)@),
        match r {
            Ok(_) => visit_list_s(graph_view(g@), names_view(ps@), 0, names_view(old(out)@), names_view(old(open)@), fuel as nat)
                == Ok::<Seq<Seq<char>>, Seq<char>>(names_view(final(out)@)),
            Err(c) => visit_list_s(graph_view(g@), names_view(ps@), 0, names_view(old(out)@), names_view(old(open)@), fuel as nat)
                == Err::<Seq<Seq<char>>, Seq<char>>(c@),
        },
    decreases fuel, 1nat, 0int,
{
    let ghost gv = graph_view(g@);
    let ghost pv = names_view(ps@);
    let ghost ov = names_view(open@);
    let ghost start = visit_list_s(gv, pv, 0, names_view(out@), ov, fuel as nat);
    let mut i: usize = 0;
    while i < ps.len()
        invariant
            i <= ps.len(),
            gv == graph_view(g@),
            pv == names_view(ps@),
            names_view(open@) == ov,
            ov == names_view(old(open)@),
            start == visit_list_s(gv, pv, 0, names_view(old(out)@), ov, fuel as nat),
            start == visit_list_s(gv, pv, i as int, names_view(out@), ov, fuel as nat),
        decreases ps.len() - i,
    {
        assert(pv[i as int] == ps@[i as int]@);
        match visit(g, &ps[i], out, open, fuel) {
            Err(c) => return Err(c),
            Ok(_) => {},
        }
        i += 1;
    }
    Ok(())
}

/// The order in which the modules reached from `roots` are compiled (see
/// [`module_order_s`]), or the module on an import cycle.
pub fn module_order(g: &Vec<(String, Vec<String>)>, roots: &Vec<String>) -> (r: Result<Vec<String>, String>)
    requires
        g.len() < usize::MAX,
    ensures
        match r {
            Ok(v) => module_order_s(graph_view(g@), names_view(roots@)) == Ok::<Seq<Seq<char>>, Seq<char>>(names_view(v@)),
            Err(c) => module_order_s(graph_view(g@), names_view(roots@)) == Err::<Seq<Seq<char>>, Seq<char>>(c@),
        },
{
    let mut out: Vec<String> = Vec::new();
    let mut open: Vec<String> = Vec::new();
    assert(names_view(out@) =~= Seq::<Seq<char>>::empty());
    assert(names_view(open@) =~= Seq::<Seq<char>>::empty());
    match visit_list(g, roots, &mut out, &mut open, g.len() + 1) {
        Err(c) => Err(c),
        Ok(_) => Ok(out),
    }
}

} // verus!
