//! Surface type annotations turned into types.

use vstd::prelude::*;
use vstd::string::*;
use crate::ast::{DimExpr, TypeExpr};
use crate::names::{decimal, push_char, push_decimal};
use super::display::{base_text, join_s, tag_texts, type_text};
use super::model::{
    shape_view, view_fields, view_types, s_fun, s_scalar, s_task, s_unit, BaseType, Dim, SBase,
    SDim, SType, Shape, Type,
};

verus! {

/// The successor of the annotation row counter (wrapping).
pub open spec fn next_u(n: usize) -> usize {
    if n == usize::MAX { 0 } else { (n + 1) as usize }
}

/// The type a type constructor name stands for: the four scalars by name, and the
/// empty union for any other name.
pub open spec fn con_type_s(c: Seq<char>) -> SType {
    if c == "Int"@ {
        s_scalar(SBase::Int)
    } else if c == "F64"@ {
        s_scalar(SBase::F64)
    } else if c == "Str"@ {
        s_scalar(SBase::Str)
    } else if c == "Bool"@ {
        s_scalar(SBase::Bool)
    } else {
        s_scalar(SBase::Union(Seq::empty(), None))
    }
}

/// A scalar constructor name denotes the scalar that prints as that name: for
/// `Int`, `F64`, `Str` and `Bool`, the annotation is a scalar (no shape) whose
/// text is the name itself, and the row counter is left as it was; any other
/// constructor name denotes the empty closed union `[]`.
pub proof fn lemma_con_denotes_named_scalar(c: String, n: usize)
    ensures
        te_s(TypeExpr::Con(c), n).1 == n,
        te_s(TypeExpr::Con(c), n).0 is Shaped,
        te_s(TypeExpr::Con(c), n).0->Shaped_1.len() == 0,
        c@ == "Int"@ || c@ == "F64"@ || c@ == "Str"@ || c@ == "Bool"@ ==> type_text(
            te_s(TypeExpr::Con(c), n).0,
        ) == c@,
        !(c@ == "Int"@ || c@ == "F64"@ || c@ == "Str"@ || c@ == "Bool"@) ==> type_text(
            te_s(TypeExpr::Con(c), n).0,
        ) == "[]"@,
{
    reveal_strlit("Int");
    reveal_strlit("F64");
    reveal_strlit("Str");
    reveal_strlit("Bool");
    reveal_strlit("[");
    reveal_strlit("]");
    reveal_strlit("[]");
    let t = te_s(TypeExpr::Con(c), n).0;
    assert(type_text(t) =~= base_text(t->Shaped_0));
    if !(c@ == "Int"@ || c@ == "F64"@ || c@ == "Str"@ || c@ == "Bool"@) {
        assert(tag_texts(Seq::empty()).len() == 0);
        assert(join_s(tag_texts(Seq::empty()), ", "@) == Seq::<char>::empty());
        assert("["@ + Seq::<char>::empty() + "]"@ =~= "[]"@);
    }
}

/// A row name: `*` becomes a fresh `_r{n}` (the counter is bumped first), any
/// other name stays.
pub open spec fn row_name_s(row: Option<String>, n: usize) -> (Option<Seq<char>>, usize) {
    match row {
        None => (None, n),
        Some(name) => if name@ == "*"@ {
            (Some(seq!['_', 'r'] + decimal(next_u(n) as nat)), next_u(n))
        } else {
            (Some(name@), n)
        },
    }
}

pub open spec fn dims_s(ds: Seq<DimExpr>) -> Seq<SDim> {
    ds.map_values(|d: DimExpr| match d {
        DimExpr::Nat(k) => SDim::Nat(k),
        DimExpr::Var(v) => SDim::Var(v@),
    })
}

/// The fresh length `_n{k}` of the `k`-th list annotation.
pub open spec fn list_dim_s(k: usize) -> SDim {
    SDim::Var(seq!['_', 'n'] + decimal(k as nat))
}

/// A list of elements of type `t` with length `d`: a rank-one array of `t`'s base
/// type, one dimension in front of `t`'s own shape (an element type that is still
/// a variable becomes a base variable of the same name).
pub open spec fn list_of_s(t: SType, d: SDim) -> SType {
    match t {
        SType::Shaped(b, sh) => SType::Shaped(b, seq![d] + sh),
        SType::Var(v) => SType::Shaped(SBase::Var(v), seq![d]),
    }
}

/// The type denoted by an annotation, with the row counter before and after.
pub open spec fn te_s(te: TypeExpr, n: usize) -> (SType, usize)
    decreases te, 0nat,
{
    match te {
        TypeExpr::Var(v) => (SType::Var(v@), n),
        TypeExpr::Con(c) => (con_type_s(c@), n),
        TypeExpr::App(name, args) => if name@ == "Task"@ && args@.len() == 2 {
            let (ok, n1) = te_s(args@[0], n);
            let (err, n2) = te_s(args@[1], n1);
            (s_task(ok, err), n2)
        } else if name@ == "List"@ && args@.len() == 1 {
            let (it, n1) = te_s(args@[0], n);
            (list_of_s(it, list_dim_s(next_u(n1))), next_u(n1))
        } else {
            (SType::Var(seq!['_'] + name@), n)
        },
        TypeExpr::Fun(ps, r) => {
            let (pts, n1) = te_list_s(ps@, n, Seq::empty(), 0);
            let (rt, n2) = te_s(*r, n1);
            (s_fun(pts, rt), n2)
        },
        TypeExpr::Record(fs, row) => {
            let (fts, n1) = te_fields_s(fs@, n, Seq::empty(), 0);
            let (r, n2) = row_name_s(row, n1);
            (s_scalar(SBase::Record(fts, r)), n2)
        },
        TypeExpr::Union(tags, row) => {
            let (tts, n1) = te_tags_s(tags@, n, Seq::empty(), 0);
            let (r, n2) = row_name_s(row, n1);
            (s_scalar(SBase::Union(tts, r)), n2)
        },
        TypeExpr::Shaped(inner, dims) => {
            let (it, n1) = te_s(*inner, n);
            let sh = dims_s(dims@);
            (
                match it {
                    SType::Shaped(b, _) => SType::Shaped(b, sh),
                    SType::Var(v) => SType::Shaped(SBase::Var(v), sh),
                },
                n1,
            )
        },
        TypeExpr::Nat(k) => (SType::Shaped(SBase::Int, seq![SDim::Nat(k)]), n),
    }
}

pub open spec fn te_list_s(ts: Seq<TypeExpr>, n: usize, acc: Seq<SType>, i: int) -> (Seq<SType>, usize)
    decreases ts, ts.len() - i,
{
    if i < 0 || i >= ts.len() {
        (acc, n)
    } else {
        let (t, n1) = te_s(ts[i], n);
        te_list_s(ts, n1, acc.push(t), i + 1)
    }
}

pub open spec fn te_fields_s(fs: Seq<(String, TypeExpr)>, n: usize, acc: Seq<(Seq<char>, SType)>, i: int) -> (Seq<(Seq<char>, SType)>, usize)
    decreases fs, fs.len() - i,
{
    if i < 0 || i >= fs.len() {
        (acc, n)
    } else {
        let (t, n1) = te_s(fs[i].1, n);
        te_fields_s(fs, n1, acc.push((fs[i].0@, t)), i + 1)
    }
}

pub open spec fn te_tags_s(ts: Seq<(String, Option<TypeExpr>)>, n: usize, acc: Seq<(Seq<char>, SType)>, i: int) -> (Seq<(Seq<char>, SType)>, usize)
    decreases ts, ts.len() - i,
{
    if i < 0 || i >= ts.len() {
        (acc, n)
    } else {
        match ts[i].1 {
            Some(p) => {
                let (t, n1) = te_s(p, n);
                te_tags_s(ts, n1, acc.push((ts[i].0@, t)), i + 1)
            },
            None => te_tags_s(ts, n, acc.push((ts[i].0@, s_unit())), i + 1),
        }
    }
}

fn lit(s: &str) -> (r: String)
    ensures
        r@ == s@,
{
    s.to_owned()
}

fn bump_u(n: usize) -> (r: usize)
    ensures
        r == next_u(n),
{
    if n == usize::MAX { 0 } else { n + 1 }
}

fn row_name(row: &Option<String>, counter: &mut usize) -> (r: Option<String>)
    ensures
        (match r { Some(x) => Some(x@), None => None::<Seq<char>> }, *final(counter)) == row_name_s(*row, *old(counter)),
{
    match row {
        None => None,
        Some(name) => {
            if *name == lit("*") {
                *counter = bump_u(*counter);
                let mut s = String::new();
                push_char(&mut s, '_');
                push_char(&mut s, 'r');
                push_decimal(&mut s, *counter as u64);
                assert(s@ =~= seq!['_', 'r'] + decimal(*counter as nat));
                Some(s)
            } else {
                Some(name.clone())
            }
        },
    }
}

fn dims_exec(ds: &Vec<DimExpr>) -> (r: Shape)
    ensures
        shape_view(r@) == dims_s(ds@),
{
    let mut out: Shape = Vec::new();
    let mut i: usize = 0;
    while i < ds.len()
        invariant
            i <= ds.len(),
            shape_view(out@) == dims_s(ds@).subrange(0, i as int),
        decreases ds.len() - i,
    {
        let d = match &ds[i] {
            DimExpr::Nat(k) => Dim::Nat(*k),
            DimExpr::Var(v) => Dim::Var(v.clone()),
        };
        let ghost old_out = out@;
        out.push(d);
        assert(shape_view(out@) =~= shape_view(old_out).push(d@));
        assert(shape_view(out@) =~= dims_s(ds@).subrange(0, i + 1));
        i += 1;
    }
    assert(dims_s(ds@).subrange(0, ds.len() as int) =~= dims_s(ds@));
    out
}

fn te_list(ts: &Vec<TypeExpr>, counter: &mut usize) -> (r: Vec<Type>)
    ensures
        (view_types(r@), *final(counter)) == te_list_s(ts@, *old(counter), Seq::empty(), 0),
    decreases ts, 0nat,
{
    let mut out: Vec<Type> = Vec::new();
    let mut i: usize = 0;
    let ghost n0 = *counter;
    assert(view_types(out@) =~= Seq::<SType>::empty());
    while i < ts.len()
        invariant
            i <= ts.len(),
            n0 == *old(counter),
            te_list_s(ts@, n0, Seq::empty(), 0) == te_list_s(ts@, *counter, view_types(out@), i as int),
        decreases ts.len() - i,
    {
        let t = type_expr_to_type(&ts[i], counter);
        let ghost old_out = out@;
        out.push(t);
        assert(out@.drop_last() =~= old_out);
        i += 1;
    }
    out
}

fn te_fields(fs: &Vec<(String, TypeExpr)>, counter: &mut usize) -> (r: Vec<(String, Type)>)
    ensures
        (view_fields(r@), *final(counter)) == te_fields_s(fs@, *old(counter), Seq::empty(), 0),
    decreases fs, 0nat,
{
    let mut out: Vec<(String, Type)> = Vec::new();
    let mut i: usize = 0;
    let ghost n0 = *counter;
    assert(view_fields(out@) =~= Seq::<(Seq<char>, SType)>::empty());
    while i < fs.len()
        invariant
            i <= fs.len(),
            n0 == *old(counter),
            te_fields_s(fs@, n0, Seq::empty(), 0) == te_fields_s(fs@, *counter, view_fields(out@), i as int),
        decreases fs.len() - i,
    {
        let t = type_expr_to_type(&fs[i].1, counter);
        let k = fs[i].0.clone();
        let ghost old_out = out@;
        out.push((k, t));
        assert(out@.drop_last() =~= old_out);
        i += 1;
    }
    out
}

fn te_tags(ts: &Vec<(String, Option<TypeExpr>)>, counter: &mut usize) -> (r: Vec<(String, Type)>)
    ensures
        (view_fields(r@), *final(counter)) == te_tags_s(ts@, *old(counter), Seq::empty(), 0),
    decreases ts, 0nat,
{
    let mut out: Vec<(String, Type)> = Vec::new();
    let mut i: usize = 0;
    let ghost n0 = *counter;
    assert(view_fields(out@) =~= Seq::<(Seq<char>, SType)>::empty());
    while i < ts.len()
        invariant
            i <= ts.len(),
            n0 == *old(counter),
            te_tags_s(ts@, n0, Seq::empty(), 0) == te_tags_s(ts@, *counter, view_fields(out@), i as int),
        decreases ts.len() - i,
    {
        let t = match &ts[i].1 {
            Some(p) => type_expr_to_type(p, counter),
            None => Type::unit(),
        };
        let k = ts[i].0.clone();
        let ghost old_out = out@;
        out.push((k, t));
        assert(out@.drop_last() =~= old_out);
        i += 1;
    }
    out
}

/// The type an annotation denotes. `Int`, `F64`, `Str`, `Bool` are the scalars
/// and any other constructor name the empty union; `Task(a, b)` is a task,
/// `List(a)` a rank-one array of `a` whose length is a fresh dimension variable
/// `_n{n}` from `counter`, and any other application `N(..)` the type variable `_N`; an open row written `*`
/// gets a fresh name `_r{n}` from `counter`; `T[d, ..]` gives the element type of
/// `T` that shape (the base variable of the same name when `T` is a variable) and a bare `n` is `Int[n]`.
pub fn type_expr_to_type(te: &TypeExpr, counter: &mut usize) -> (r: Type)
    ensures
        (r@, *final(counter)) == te_s(*te, *old(counter)),
    decreases te, 1nat,
{
    match te {
        TypeExpr::Var(v) => Type::Var(v.clone()),
        TypeExpr::Con(n) => {
            if *n == lit("Int") {
                Type::int_()
            } else if *n == lit("F64") {
                Type::f64_()
            } else if *n == lit("Str") {
                Type::str_()
            } else if *n == lit("Bool") {
                Type::bool_()
            } else {
                Type::never()
            }
        },
        TypeExpr::App(name, args) => {
            if *name == lit("Task") && args.len() == 2 {
                let ok = type_expr_to_type(&args[0], counter);
                let err = type_expr_to_type(&args[1], counter);
                Type::task(ok, err)
            } else if *name == lit("List") && args.len() == 1 {
                let it = type_expr_to_type(&args[0], counter);
                *counter = bump_u(*counter);
                let mut dn = String::new();
                push_char(&mut dn, '_');
                push_char(&mut dn, 'n');
                push_decimal(&mut dn, *counter as u64);
                assert(dn@ =~= seq!['_', 'n'] + decimal(*counter as nat));
                let d = Dim::Var(dn);
                match it {
                    Type::Shaped(b, sh) => {
                        let mut full: Shape = Vec::new();
                        full.push(d);
                        let mut i: usize = 0;
                        while i < sh.len()
                            invariant
                                i <= sh.len(),
                                shape_view(full@) == seq![list_dim_s(*counter)] + shape_view(sh@).subrange(0, i as int),
                            decreases sh.len() - i,
                        {
                            let ghost before = full@;
                            full.push(sh[i].dup());
                            assert(shape_view(full@) =~= shape_view(before).push(sh@[i as int]@));
                            assert(shape_view(sh@).subrange(0, i + 1) =~= shape_view(sh@).subrange(0, i as int).push(sh@[i as int]@));
                            i += 1;
                        }
                        assert(shape_view(sh@).subrange(0, sh.len() as int) =~= shape_view(sh@));
                        Type::Shaped(b, full)
                    },
                    Type::Var(v) => {
                        let mut full: Shape = Vec::new();
                        full.push(d);
                        assert(shape_view(full@) =~= seq![list_dim_s(*counter)]);
                        Type::Shaped(BaseType::Var(v), full)
                    },
                }
            } else {
                let mut s = String::new();
                push_char(&mut s, '_');
                s.append(name.as_str());
                assert(s@ =~= seq!['_'] + name@);
                Type::Var(s)
            }
        },
        TypeExpr::Fun(params, ret) => {
            let ps = te_list(params, counter);
            let r = type_expr_to_type(ret, counter);
            Type::fun(ps, r)
        },
        TypeExpr::Record(fields, row) => {
            let fs = te_fields(fields, counter);
            let r = row_name(row, counter);
            Type::scalar(BaseType::Record(fs, r))
        },
        TypeExpr::Union(tags, row) => {
            let ts = te_tags(tags, counter);
            let r = row_name(row, counter);
            Type::scalar(BaseType::Union(ts, r))
        },
        TypeExpr::Shaped(inner, dims) => {
            let it = type_expr_to_type(inner, counter);
            let sh = dims_exec(dims);
            match it {
                Type::Shaped(b, _) => Type::Shaped(b, sh),
                Type::Var(v) => Type::Shaped(BaseType::Var(v), sh),
            }
        },
        TypeExpr::Nat(k) => {
            let mut sh: Shape = Vec::new();
            sh.push(Dim::Nat(*k));
            assert(shape_view(sh@) =~= seq![SDim::Nat(*k)]);
            Type::Shaped(BaseType::Int, sh)
        },
    }
}

} // verus!
