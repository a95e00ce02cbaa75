//! The types of the standard library.

use vstd::prelude::*;
use super::env::TypeEnv;
use super::model::{lookup, 
    assoc_view, names_view, shape_view, view_fields, view_types, s_f64, s_fun, s_int, s_scalar,
    s_str, s_task, s_unit, BaseType, Dim, SBase, SDim, SScheme, SType, Scheme, Shape, Type,
};

verus! {

// ── The model ─────────────────────────────────────────────────────────────────

pub open spec fn tv_s(n: Seq<char>) -> SType {
    SType::Var(n)
}

pub open spec fn dv_s(n: Seq<char>) -> SDim {
    SDim::Var(n)
}

pub open spec fn bv_s(n: Seq<char>) -> SBase {
    SBase::Var(n)
}

pub open spec fn sc_s(vars: Seq<Seq<char>>, dims: Seq<Seq<char>>, bases: Seq<Seq<char>>, ty: SType) -> SScheme {
    SScheme { vars, dim_vars: dims, base_vars: bases, ty }
}

pub open spec fn int2_s(r: SType) -> SType {
    s_fun(seq![s_int(), s_int()], r)
}

pub open spec fn f2_s() -> SType {
    s_fun(seq![s_f64(), s_f64()], s_f64())
}

/// `[False, True]`.
pub open spec fn bool_union_s() -> SType {
    s_scalar(SBase::Union(seq![("False"@, s_unit()), ("True"@, s_unit())], None))
}

/// `[IoErr Str | r]`.
pub open spec fn io_err_s() -> SType {
    s_scalar(SBase::Union(seq![("IoErr"@, s_str())], Some("r"@)))
}

/// `[None, Some a]`.
pub open spec fn some_none_s(a: SType) -> SType {
    s_scalar(SBase::Union(seq![("None"@, s_unit()), ("Some"@, a)], None))
}

pub open spec fn arr_s(b: SBase, dims: Seq<SDim>) -> SType {
    SType::Shaped(b, dims)
}

pub open spec fn f64m_s(dims: Seq<SDim>) -> SType {
    SType::Shaped(SBase::F64, dims)
}

pub open spec fn mono_sc(t: SType) -> SScheme {
    sc_s(Seq::empty(), Seq::empty(), Seq::empty(), t)
}

/// `elem[m] -> elem[n] -> elem[k]`.
pub open spec fn concat_sc() -> SScheme {
    sc_s(Seq::empty(), seq!["m"@, "n"@, "k"@], seq!["elem"@], s_fun(
        seq![arr_s(bv_s("elem"@), seq![dv_s("m"@)]), arr_s(bv_s("elem"@), seq![dv_s("n"@)])],
        arr_s(bv_s("elem"@), seq![dv_s("k"@)]),
    ))
}

/// `Task a e -> (a -> Task b e) -> Task b e`.
pub open spec fn bind_sc() -> SScheme {
    let a = tv_s("a"@);
    let b = tv_s("b"@);
    let e = tv_s("e"@);
    sc_s(seq!["a"@, "b"@, "e"@], Seq::empty(), Seq::empty(), s_fun(
        seq![s_task(a, e), s_fun(seq![a], s_task(b, e))],
        s_task(b, e),
    ))
}

/// `elem -> elem[m] -> elem[k]`.
pub open spec fn cons_sc() -> SScheme {
    sc_s(Seq::empty(), seq!["m"@, "k"@], seq!["elem"@], s_fun(
        seq![arr_s(bv_s("elem"@), Seq::empty()), arr_s(bv_s("elem"@), seq![dv_s("m"@)])],
        arr_s(bv_s("elem"@), seq![dv_s("k"@)]),
    ))
}

/// Arithmetic, string and equality operators, and `fix`.
pub open spec fn std_ops_s(base: Seq<(Seq<char>, SScheme)>) -> Seq<(Seq<char>, SScheme)> {
    let a = tv_s("a"@);
    let e = tv_s("e"@);
    let f = tv_s("f"@);
    let b = tv_s("b"@);
    base
        .push(("++"@, mono_sc(s_fun(seq![s_str(), s_str()], s_str()))))
        .push(("+"@, mono_sc(int2_s(s_int()))))
        .push(("-"@, mono_sc(int2_s(s_int()))))
        .push(("*"@, mono_sc(int2_s(s_int()))))
        .push(("+."@, mono_sc(f2_s())))
        .push(("-."@, mono_sc(f2_s())))
        .push(("*."@, mono_sc(f2_s())))
        .push(("/."@, mono_sc(f2_s())))
        .push(("=="@, sc_s(seq!["a"@], Seq::empty(), Seq::empty(), s_fun(seq![a, a], bool_union_s()))))
        .push(("fix"@, sc_s(seq!["a"@], Seq::empty(), Seq::empty(), s_fun(seq![s_fun(seq![a], a)], a))))
}

/// Task combinators, I/O, and the first array functions.
pub open spec fn std_tasks_s(base: Seq<(Seq<char>, SScheme)>) -> Seq<(Seq<char>, SScheme)> {
    let a = tv_s("a"@);
    let e = tv_s("e"@);
    let f = tv_s("f"@);
    let b = tv_s("b"@);
    base
        .push(("ok"@, sc_s(seq!["a"@, "e"@], Seq::empty(), Seq::empty(), s_fun(seq![a], s_task(a, e)))))
        .push((">>="@, bind_sc()))
        .push(("catch"@, sc_s(seq!["a"@, "e"@, "f"@], Seq::empty(), Seq::empty(), s_fun(
            seq![s_task(a, e), s_fun(seq![e], s_task(a, f))],
            s_task(a, f),
        ))))
        .push(("fail"@, sc_s(seq!["a"@, "e"@], Seq::empty(), Seq::empty(), s_fun(seq![e], s_task(a, e)))))
        .push(("print"@, sc_s(seq!["r"@], Seq::empty(), Seq::empty(), s_fun(seq![s_str()], s_task(s_unit(), io_err_s())))))
        .push(("read_line"@, sc_s(seq!["r"@], Seq::empty(), Seq::empty(), s_task(s_str(), io_err_s()))))
        .push(("debug"@, sc_s(seq!["a"@], Seq::empty(), Seq::empty(), s_fun(seq![a], a))))
        .push(("len"@, sc_s(Seq::empty(), seq!["d"@], seq!["elem"@], s_fun(seq![arr_s(bv_s("elem"@), seq![dv_s("d"@)])], s_int()))))
        .push(("fold"@, sc_s(seq!["b"@], seq!["n"@], seq!["a"@], s_fun(
            seq![s_fun(seq![b, arr_s(bv_s("a"@), Seq::empty())], b), b, arr_s(bv_s("a"@), seq![dv_s("n"@)])],
            b,
        ))))
        .push(("concat"@, concat_sc()))
}

/// Array functions.
pub open spec fn std_arrays_s(base: Seq<(Seq<char>, SScheme)>) -> Seq<(Seq<char>, SScheme)> {
    let a = tv_s("a"@);
    let e = tv_s("e"@);
    let f = tv_s("f"@);
    let b = tv_s("b"@);
    base
        .push(("fill"@, sc_s(Seq::empty(), seq!["k"@], seq!["a"@], s_fun(
            seq![s_int(), arr_s(bv_s("a"@), Seq::empty())],
            arr_s(bv_s("a"@), seq![dv_s("k"@)]),
        ))))
        .push(("tabulate"@, sc_s(Seq::empty(), seq!["k"@], seq!["a"@], s_fun(
            seq![s_int(), s_fun(seq![s_int()], arr_s(bv_s("a"@), Seq::empty()))],
            arr_s(bv_s("a"@), seq![dv_s("k"@)]),
        ))))
        .push(("transpose"@, sc_s(Seq::empty(), seq!["m"@, "n"@], Seq::empty(), s_fun(
            seq![f64m_s(seq![dv_s("m"@), dv_s("n"@)])],
            f64m_s(seq![dv_s("n"@), dv_s("m"@)]),
        ))))
        .push(("flatten"@, sc_s(Seq::empty(), seq!["m"@, "n"@, "k"@], Seq::empty(), s_fun(
            seq![f64m_s(seq![dv_s("m"@), dv_s("n"@)])],
            f64m_s(seq![dv_s("k"@)]),
        ))))
        .push(("unsqueeze"@, sc_s(Seq::empty(), seq!["n"@], Seq::empty(), s_fun(
            seq![f64m_s(seq![dv_s("n"@)])],
            f64m_s(seq![SDim::Nat(1), dv_s("n"@)]),
        ))))
        .push(("squeeze"@, sc_s(Seq::empty(), seq!["n"@], Seq::empty(), s_fun(
            seq![f64m_s(seq![SDim::Nat(1), dv_s("n"@)])],
            f64m_s(seq![dv_s("n"@)]),
        ))))
        .push(("zeros"@, sc_s(Seq::empty(), seq!["m"@, "n"@], Seq::empty(), int2_s(f64m_s(seq![dv_s("m"@), dv_s("n"@)])))))
        .push(("ones"@, sc_s(Seq::empty(), seq!["m"@, "n"@], Seq::empty(), int2_s(f64m_s(seq![dv_s("m"@), dv_s("n"@)])))))
        .push(("dot"@, sc_s(Seq::empty(), seq!["n"@], seq!["elem"@], s_fun(
            seq![arr_s(bv_s("elem"@), seq![dv_s("n"@)]), arr_s(bv_s("elem"@), seq![dv_s("n"@)])],
            arr_s(bv_s("elem"@), Seq::empty()),
        ))))
        .push(("matmul"@, sc_s(Seq::empty(), seq!["m"@, "k"@, "n"@], Seq::empty(), s_fun(
            seq![f64m_s(seq![dv_s("m"@), dv_s("k"@)]), f64m_s(seq![dv_s("k"@), dv_s("n"@)])],
            f64m_s(seq![dv_s("m"@), dv_s("n"@)]),
        ))))
}

/// List functions and the aliases `then`, `cons`, `append`.
pub open spec fn std_lists_s(base: Seq<(Seq<char>, SScheme)>) -> Seq<(Seq<char>, SScheme)> {
    let a = tv_s("a"@);
    let e = tv_s("e"@);
    let f = tv_s("f"@);
    let b = tv_s("b"@);
    base
        .push(("::"@, cons_sc()))
        .push(("head"@, sc_s(Seq::empty(), seq!["m"@], seq!["elem"@], s_fun(
            seq![arr_s(bv_s("elem"@), seq![dv_s("m"@)])],
            some_none_s(arr_s(bv_s("elem"@), Seq::empty())),
        ))))
        .push(("tail"@, sc_s(Seq::empty(), seq!["m"@, "k"@], seq!["elem"@], s_fun(
            seq![arr_s(bv_s("elem"@), seq![dv_s("m"@)])],
            some_none_s(arr_s(bv_s("elem"@), seq![dv_s("k"@)])),
        ))))
        .push(("map"@, sc_s(Seq::empty(), seq!["m"@], seq!["a"@, "b"@], s_fun(
            seq![
                s_fun(seq![arr_s(bv_s("a"@), Seq::empty())], arr_s(bv_s("b"@), Seq::empty())),
                arr_s(bv_s("a"@), seq![dv_s("m"@)]),
            ],
            arr_s(bv_s("b"@), seq![dv_s("m"@)]),
        ))))
        .push(("list_of"@, sc_s(Seq::empty(), seq!["k"@], seq!["a"@], s_fun(
            seq![s_int(), arr_s(bv_s("a"@), Seq::empty())],
            arr_s(bv_s("a"@), seq![dv_s("k"@)]),
        ))))
        .push(("list_init"@, sc_s(Seq::empty(), seq!["k"@], seq!["a"@], s_fun(
            seq![s_int(), s_fun(seq![s_int()], arr_s(bv_s("a"@), Seq::empty()))],
            arr_s(bv_s("a"@), seq![dv_s("k"@)]),
        ))))
        .push(("<>"@, concat_sc()))
        .push(("then"@, bind_sc()))
        .push(("cons"@, cons_sc()))
        .push(("append"@, concat_sc()))
}

/// The standard type environment, in the order its entries are made.
pub open spec fn std_env_s() -> Seq<(Seq<char>, SScheme)> {
    std_lists_s(std_arrays_s(std_tasks_s(std_ops_s(Seq::empty()))))
}

// ── Construction ──────────────────────────────────────────────────────────────

fn s(x: &str) -> (r: String)
    ensures
        r@ == x@,
{
    x.to_owned()
}

fn tv(x: &str) -> (r: Type)
    ensures
        r@ == tv_s(x@),
{
    Type::Var(s(x))
}

fn dv(x: &str) -> (r: Dim)
    ensures
        r@ == dv_s(x@),
{
    Dim::Var(s(x))
}

fn bv(x: &str) -> (r: BaseType)
    ensures
        r@ == bv_s(x@),
{
    BaseType::Var(s(x))
}

fn n0() -> (r: Vec<String>)
    ensures
        names_view(r@) == Seq::<Seq<char>>::empty(),
{
    let r: Vec<String> = Vec::new();
    assert(names_view(r@) =~= Seq::<Seq<char>>::empty());
    r
}

fn n1(a: &str) -> (r: Vec<String>)
    ensures
        names_view(r@) == seq![a@],
{
    let mut r: Vec<String> = Vec::new();
    r.push(s(a));
    assert(names_view(r@) =~= seq![a@]);
    r
}

fn n2(a: &str, b: &str) -> (r: Vec<String>)
    ensures
        names_view(r@) == seq![a@, b@],
{
    let mut r: Vec<String> = Vec::new();
    r.push(s(a));
    r.push(s(b));
    assert(names_view(r@) =~= seq![a@, b@]);
    r
}

fn n3(a: &str, b: &str, c: &str) -> (r: Vec<String>)
    ensures
        names_view(r@) == seq![a@, b@, c@],
{
    let mut r: Vec<String> = Vec::new();
    r.push(s(a));
    r.push(s(b));
    r.push(s(c));
    assert(names_view(r@) =~= seq![a@, b@, c@]);
    r
}

fn fun1(p: Type, r: Type) -> (t: Type)
    ensures
        t@ == s_fun(seq![p@], r@),
{
    let mut ps: Vec<Type> = Vec::new();
    ps.push(p);
    proof {
        super::model::lemma_view_types(ps@);
    }
    assert(view_types(ps@) =~= seq![ps@[0]@]);
    Type::fun(ps, r)
}

fn fun2(p1: Type, p2: Type, r: Type) -> (t: Type)
    ensures
        t@ == s_fun(seq![p1@, p2@], r@),
{
    let mut ps: Vec<Type> = Vec::new();
    ps.push(p1);
    ps.push(p2);
    proof {
        super::model::lemma_view_types(ps@);
    }
    assert(view_types(ps@) =~= seq![ps@[0]@, ps@[1]@]);
    Type::fun(ps, r)
}

fn fun3(p1: Type, p2: Type, p3: Type, r: Type) -> (t: Type)
    ensures
        t@ == s_fun(seq![p1@, p2@, p3@], r@),
{
    let mut ps: Vec<Type> = Vec::new();
    ps.push(p1);
    ps.push(p2);
    ps.push(p3);
    proof {
        super::model::lemma_view_types(ps@);
    }
    assert(view_types(ps@) =~= seq![ps@[0]@, ps@[1]@, ps@[2]@]);
    Type::fun(ps, r)
}

fn arr0(b: BaseType) -> (t: Type)
    ensures
        t@ == arr_s(b@, Seq::empty()),
{
    let sh: Shape = Vec::new();
    assert(shape_view(sh@) =~= Seq::<SDim>::empty());
    Type::Shaped(b, sh)
}

fn arr1(b: BaseType, d: Dim) -> (t: Type)
    ensures
        t@ == arr_s(b@, seq![d@]),
{
    let mut sh: Shape = Vec::new();
    sh.push(d);
    assert(shape_view(sh@) =~= seq![sh@[0]@]);
    Type::Shaped(b, sh)
}

fn arr2(b: BaseType, d1: Dim, d2: Dim) -> (t: Type)
    ensures
        t@ == arr_s(b@, seq![d1@, d2@]),
{
    let mut sh: Shape = Vec::new();
    sh.push(d1);
    sh.push(d2);
    assert(shape_view(sh@) =~= seq![sh@[0]@, sh@[1]@]);
    Type::Shaped(b, sh)
}

fn sc(vars: Vec<String>, dvars: Vec<String>, bvars: Vec<String>, ty: Type) -> (r: Scheme)
    ensures
        r@ == sc_s(names_view(vars@), names_view(dvars@), names_view(bvars@), ty@),
{
    Scheme { vars, dim_vars: dvars, base_vars: bvars, ty }
}

fn mono(ty: Type) -> (r: Scheme)
    ensures
        r@ == mono_sc(ty@),
{
    sc(n0(), n0(), n0(), ty)
}

fn bind(env: &mut TypeEnv, name: &str, sc: Scheme)
    ensures
        assoc_view(final(env)@) == assoc_view(old(env)@).push((name@, sc@)),
{
    let ghost before = env@;
    env.push((s(name), sc));
    assert(assoc_view(env@) =~= assoc_view(before).push((name@, sc@)));
}

fn union2(t1: &str, p1: Type, t2: &str, p2: Type) -> (r: Type)
    ensures
        r@ == s_scalar(SBase::Union(seq![(t1@, p1@), (t2@, p2@)], None)),
{
    let mut fs: Vec<(String, Type)> = Vec::new();
    fs.push((s(t1), p1));
    fs.push((s(t2), p2));
    proof {
        super::model::lemma_view_fields(fs@);
    }
    assert(view_fields(fs@) =~= seq![(t1@, fs@[0].1@), (t2@, fs@[1].1@)]);
    Type::scalar(BaseType::Union(fs, None))
}

fn io_err() -> (r: Type)
    ensures
        r@ == io_err_s(),
{
    let mut fs: Vec<(String, Type)> = Vec::new();
    fs.push((s("IoErr"), Type::str_()));
    proof {
        super::model::lemma_view_fields(fs@);
    }
    assert(view_fields(fs@) =~= seq![("IoErr"@, s_str())]);
    Type::scalar(BaseType::Union(fs, Some(s("r"))))
}

fn concat_scheme() -> (r: Scheme)
    ensures
        r@ == concat_sc(),
{
    sc(n0(), n3("m", "n", "k"), n1("elem"), fun2(
        arr1(bv("elem"), dv("m")),
        arr1(bv("elem"), dv("n")),
        arr1(bv("elem"), dv("k")),
    ))
}

fn bind_scheme() -> (r: Scheme)
    ensures
        r@ == bind_sc(),
{
    sc(n3("a", "b", "e"), n0(), n0(), fun2(
        Type::task(tv("a"), tv("e")),
        fun1(tv("a"), Type::task(tv("b"), tv("e"))),
        Type::task(tv("b"), tv("e")),
    ))
}

fn cons_scheme() -> (r: Scheme)
    ensures
        r@ == cons_sc(),
{
    sc(n0(), n2("m", "k"), n1("elem"), fun2(
        arr0(bv("elem")),
        arr1(bv("elem"), dv("m")),
        arr1(bv("elem"), dv("k")),
    ))
}

fn int2(r: Type) -> (t: Type)
    ensures
        t@ == int2_s(r@),
{
    fun2(Type::int_(), Type::int_(), r)
}

fn f2() -> (t: Type)
    ensures
        t@ == f2_s(),
{
    fun2(Type::f64_(), Type::f64_(), Type::f64_())
}

fn std_ops(env: &mut TypeEnv)
    ensures
        assoc_view(final(env)@) == std_ops_s(assoc_view(old(env)@)),
{
    bind(env, "++", mono(fun2(Type::str_(), Type::str_(), Type::str_())));
    bind(env, "+", mono(int2(Type::int_())));
    bind(env, "-", mono(int2(Type::int_())));
    bind(env, "*", mono(int2(Type::int_())));
    bind(env, "+.", mono(f2()));
    bind(env, "-.", mono(f2()));
    bind(env, "*.", mono(f2()));
    bind(env, "/.", mono(f2()));
    bind(env, "==", sc(n1("a"), n0(), n0(), fun2(tv("a"), tv("a"), union2("False", Type::unit(), "True", Type::unit()))));
    bind(env, "fix", sc(n1("a"), n0(), n0(), fun1(fun1(tv("a"), tv("a")), tv("a"))));
}

fn std_tasks(env: &mut TypeEnv)
    ensures
        assoc_view(final(env)@) == std_tasks_s(assoc_view(old(env)@)),
{
    bind(env, "ok", sc(n2("a", "e"), n0(), n0(), fun1(tv("a"), Type::task(tv("a"), tv("e")))));
    bind(env, ">>=", bind_scheme());
    bind(env, "catch", sc(n3("a", "e", "f"), n0(), n0(), fun2(
        Type::task(tv("a"), tv("e")),
        fun1(tv("e"), Type::task(tv("a"), tv("f"))),
        Type::task(tv("a"), tv("f")),
    )));
    bind(env, "fail", sc(n2("a", "e"), n0(), n0(), fun1(tv("e"), Type::task(tv("a"), tv("e")))));
    bind(env, "print", sc(n1("r"), n0(), n0(), fun1(Type::str_(), Type::task(Type::unit(), io_err()))));
    bind(env, "read_line", sc(n1("r"), n0(), n0(), Type::task(Type::str_(), io_err())));
    bind(env, "debug", sc(n1("a"), n0(), n0(), fun1(tv("a"), tv("a"))));
    bind(env, "len", sc(n0(), n1("d"), n1("elem"), fun1(arr1(bv("elem"), dv("d")), Type::int_())));
    bind(env, "fold", sc(n1("b"), n1("n"), n1("a"), fun3(
        fun2(tv("b"), arr0(bv("a")), tv("b")),
        tv("b"),
        arr1(bv("a"), dv("n")),
        tv("b"),
    )));
    bind(env, "concat", concat_scheme());
}

fn std_arrays(env: &mut TypeEnv)
    ensures
        assoc_view(final(env)@) == std_arrays_s(assoc_view(old(env)@)),
{
    bind(env, "fill", sc(n0(), n1("k"), n1("a"), fun2(Type::int_(), arr0(bv("a")), arr1(bv("a"), dv("k")))));
    bind(env, "tabulate", sc(n0(), n1("k"), n1("a"), fun2(
        Type::int_(),
        fun1(Type::int_(), arr0(bv("a"))),
        arr1(bv("a"), dv("k")),
    )));
    bind(env, "transpose", sc(n0(), n2("m", "n"), n0(), fun1(
        arr2(BaseType::F64, dv("m"), dv("n")),
        arr2(BaseType::F64, dv("n"), dv("m")),
    )));
    bind(env, "flatten", sc(n0(), n3("m", "n", "k"), n0(), fun1(
        arr2(BaseType::F64, dv("m"), dv("n")),
        arr1(BaseType::F64, dv("k")),
    )));
    bind(env, "unsqueeze", sc(n0(), n1("n"), n0(), fun1(
        arr1(BaseType::F64, dv("n")),
        arr2(BaseType::F64, Dim::Nat(1), dv("n")),
    )));
    bind(env, "squeeze", sc(n0(), n1("n"), n0(), fun1(
        arr2(BaseType::F64, Dim::Nat(1), dv("n")),
        arr1(BaseType::F64, dv("n")),
    )));
    bind(env, "zeros", sc(n0(), n2("m", "n"), n0(), int2(arr2(BaseType::F64, dv("m"), dv("n")))));
    bind(env, "ones", sc(n0(), n2("m", "n"), n0(), int2(arr2(BaseType::F64, dv("m"), dv("n")))));
    bind(env, "dot", sc(n0(), n1("n"), n1("elem"), fun2(
        arr1(bv("elem"), dv("n")),
        arr1(bv("elem"), dv("n")),
        arr0(bv("elem")),
    )));
    bind(env, "matmul", sc(n0(), n3("m", "k", "n"), n0(), fun2(
        arr2(BaseType::F64, dv("m"), dv("k")),
        arr2(BaseType::F64, dv("k"), dv("n")),
        arr2(BaseType::F64, dv("m"), dv("n")),
    )));
}

fn std_lists(env: &mut TypeEnv)
    ensures
        assoc_view(final(env)@) == std_lists_s(assoc_view(old(env)@)),
{
    bind(env, "::", cons_scheme());
    bind(env, "head", sc(n0(), n1("m"), n1("elem"), fun1(
        arr1(bv("elem"), dv("m")),
        union2("None", Type::unit(), "Some", arr0(bv("elem"))),
    )));
    bind(env, "tail", sc(n0(), n2("m", "k"), n1("elem"), fun1(
        arr1(bv("elem"), dv("m")),
        union2("None", Type::unit(), "Some", arr1(bv("elem"), dv("k"))),
    )));
    bind(env, "map", sc(n0(), n1("m"), n2("a", "b"), fun2(
        fun1(arr0(bv("a")), arr0(bv("b"))),
        arr1(bv("a"), dv("m")),
        arr1(bv("b"), dv("m")),
    )));
    bind(env, "list_of", sc(n0(), n1("k"), n1("a"), fun2(Type::int_(), arr0(bv("a")), arr1(bv("a"), dv("k")))));
    bind(env, "list_init", sc(n0(), n1("k"), n1("a"), fun2(
        Type::int_(),
        fun1(Type::int_(), arr0(bv("a"))),
        arr1(bv("a"), dv("k")),
    )));
    bind(env, "<>", concat_scheme());
    bind(env, "then", bind_scheme());
    bind(env, "cons", cons_scheme());
    bind(env, "append", concat_scheme());
}

/// The standard type environment: arithmetic, string and equality operators,
/// `fix`, the task combinators, I/O, and the array and list library (see
/// [`std_env_s`]).
pub fn std_type_env() -> (r: TypeEnv)
    ensures
        assoc_view(r@) == std_env_s(),
{
    let mut env: TypeEnv = Vec::new();
    assert(assoc_view(env@) =~= Seq::<(Seq<char>, SScheme)>::empty());
    std_ops(&mut env);
    std_tasks(&mut env);
    std_arrays(&mut env);
    std_lists(&mut env);
    env
}

/// Looking a name up after an entry was pushed: the new entry answers for its own
/// name, the earlier entries for every other name.
pub broadcast proof fn lemma_lookup_push<T>(s: Seq<(Seq<char>, T)>, k2: Seq<char>, v: T, k: Seq<char>)
    ensures
        #[trigger] lookup(s.push((k2, v)), k) == if k2 == k { Some(v) } else { lookup(s, k) },
{
    assert(s.push((k2, v)).drop_last() =~= s);
}

/// `then`, `cons` and `append` are aliases: each has exactly the type scheme of
/// `>>=`, `::` and `<>` in the standard environment.
pub proof fn lemma_std_aliases()
    ensures
        lookup(std_env_s(), "then"@) == lookup(std_env_s(), ">>="@),
        lookup(std_env_s(), "cons"@) == lookup(std_env_s(), "::"@),
        lookup(std_env_s(), "append"@) == lookup(std_env_s(), "<>"@),
        lookup(std_env_s(), ">>="@) is Some,
        lookup(std_env_s(), "::"@) is Some,
        lookup(std_env_s(), "<>"@) is Some,
{
    broadcast use lemma_lookup_push;
    reveal_strlit("catch");
    reveal_strlit("fail");
    reveal_strlit("print");
    reveal_strlit("read_line");
    reveal_strlit("debug");
    reveal_strlit("len");
    reveal_strlit("fold");
    reveal_strlit("concat");
    reveal_strlit("fill");
    reveal_strlit("tabulate");
    reveal_strlit("transpose");
    reveal_strlit("flatten");
    reveal_strlit("unsqueeze");
    reveal_strlit("squeeze");
    reveal_strlit("zeros");
    reveal_strlit("ones");
    reveal_strlit("dot");
    reveal_strlit("matmul");
    reveal_strlit("::");
    reveal_strlit("head");
    reveal_strlit("tail");
    reveal_strlit("map");
    reveal_strlit("list_of");
    reveal_strlit("list_init");
    reveal_strlit("<>");
    reveal_strlit("then");
    reveal_strlit("cons");
    reveal_strlit("append");
    reveal_strlit(">>=");
    // Every name bound after an alias target starts with another character.
    assert("catch"@[0] == 'c');
    assert("fail"@[0] == 'f');
    assert("print"@[0] == 'p');
    assert("read_line"@[0] == 'r');
    assert("debug"@[0] == 'd');
    assert("len"@[0] == 'l');
    assert("fold"@[0] == 'f');
    assert("concat"@[0] == 'c');
    assert("fill"@[0] == 'f');
    assert("tabulate"@[0] == 't');
    assert("transpose"@[0] == 't');
    assert("flatten"@[0] == 'f');
    assert("unsqueeze"@[0] == 'u');
    assert("squeeze"@[0] == 's');
    assert("zeros"@[0] == 'z');
    assert("ones"@[0] == 'o');
    assert("dot"@[0] == 'd');
    assert("matmul"@[0] == 'm');
    assert("::"@[0] == ':');
    assert("head"@[0] == 'h');
    assert("tail"@[0] == 't');
    assert("map"@[0] == 'm');
    assert("list_of"@[0] == 'l');
    assert("list_init"@[0] == 'l');
    assert("<>"@[0] == '<');
    assert("then"@[0] == 't');
    assert("cons"@[0] == 'c');
    assert("append"@[0] == 'a');
    assert(">>="@[0] == '>');
    let a = std_ops_s(Seq::empty());
    let b = std_tasks_s(a);
    let c = std_arrays_s(b);
    let d = std_lists_s(c);
    assert(lookup(b, ">>="@) == Some(bind_sc()));
    assert(lookup(c, ">>="@) == Some(bind_sc()));
    assert(lookup(d, ">>="@) == Some(bind_sc()));
}


/// The integer type `Int` of rank 0.
pub open spec fn int_scalar() -> SType {
    SType::Shaped(SBase::Int, Seq::empty())
}

/// The standard environment types the integer operators alike: `+`, `-` and
/// `*` each take two integers to an integer, with nothing quantified.
pub proof fn lemma_std_int_ops()
    ensures
        ({
            let int_op = SScheme {
                vars: Seq::empty(),
                dim_vars: Seq::empty(),
                base_vars: Seq::empty(),
                ty: SType::Shaped(SBase::Fun(seq![int_scalar(), int_scalar()], Box::new(int_scalar())), Seq::empty()),
            };
            &&& lookup(std_env_s(), "+"@) == Some(int_op)
            &&& lookup(std_env_s(), "-"@) == Some(int_op)
            &&& lookup(std_env_s(), "*"@) == Some(int_op)
        }),
{
    broadcast use lemma_lookup_push;
    reveal_strlit("*");
    reveal_strlit("+.");
    reveal_strlit("-.");
    reveal_strlit("*.");
    reveal_strlit("/.");
    reveal_strlit("==");
    reveal_strlit("fix");
    reveal_strlit("ok");
    reveal_strlit(">>=");
    reveal_strlit("catch");
    reveal_strlit("fail");
    reveal_strlit("print");
    reveal_strlit("read_line");
    reveal_strlit("debug");
    reveal_strlit("len");
    reveal_strlit("fold");
    reveal_strlit("concat");
    reveal_strlit("fill");
    reveal_strlit("tabulate");
    reveal_strlit("transpose");
    reveal_strlit("flatten");
    reveal_strlit("unsqueeze");
    reveal_strlit("squeeze");
    reveal_strlit("zeros");
    reveal_strlit("ones");
    reveal_strlit("dot");
    reveal_strlit("matmul");
    reveal_strlit("::");
    reveal_strlit("head");
    reveal_strlit("tail");
    reveal_strlit("map");
    reveal_strlit("list_of");
    reveal_strlit("list_init");
    reveal_strlit("<>");
    reveal_strlit("then");
    reveal_strlit("cons");
    reveal_strlit("append");
    reveal_strlit("+");
    reveal_strlit("-");
    reveal_strlit("++");
    assert("*"@.len() != 1 || "*"@[0] != '-' && "*"@[0] != '+' && "*"@[0] != '*' || "*"@ == "*"@);
    assert("+."@.len() != 1 || "+."@[0] != '-' && "+."@[0] != '+' && "+."@[0] != '*' || "+."@ == "*"@);
    assert("-."@.len() != 1 || "-."@[0] != '-' && "-."@[0] != '+' && "-."@[0] != '*' || "-."@ == "*"@);
    assert("*."@.len() != 1 || "*."@[0] != '-' && "*."@[0] != '+' && "*."@[0] != '*' || "*."@ == "*"@);
    assert("/."@.len() != 1 || "/."@[0] != '-' && "/."@[0] != '+' && "/."@[0] != '*' || "/."@ == "*"@);
    assert("=="@.len() != 1 || "=="@[0] != '-' && "=="@[0] != '+' && "=="@[0] != '*' || "=="@ == "*"@);
    assert("fix"@.len() != 1 || "fix"@[0] != '-' && "fix"@[0] != '+' && "fix"@[0] != '*' || "fix"@ == "*"@);
    assert("ok"@.len() != 1 || "ok"@[0] != '-' && "ok"@[0] != '+' && "ok"@[0] != '*' || "ok"@ == "*"@);
    assert(">>="@.len() != 1 || ">>="@[0] != '-' && ">>="@[0] != '+' && ">>="@[0] != '*' || ">>="@ == "*"@);
    assert("catch"@.len() != 1 || "catch"@[0] != '-' && "catch"@[0] != '+' && "catch"@[0] != '*' || "catch"@ == "*"@);
    assert("fail"@.len() != 1 || "fail"@[0] != '-' && "fail"@[0] != '+' && "fail"@[0] != '*' || "fail"@ == "*"@);
    assert("print"@.len() != 1 || "print"@[0] != '-' && "print"@[0] != '+' && "print"@[0] != '*' || "print"@ == "*"@);
    assert("read_line"@.len() != 1 || "read_line"@[0] != '-' && "read_line"@[0] != '+' && "read_line"@[0] != '*' || "read_line"@ == "*"@);
    assert("debug"@.len() != 1 || "debug"@[0] != '-' && "debug"@[0] != '+' && "debug"@[0] != '*' || "debug"@ == "*"@);
    assert("len"@.len() != 1 || "len"@[0] != '-' && "len"@[0] != '+' && "len"@[0] != '*' || "len"@ == "*"@);
    assert("fold"@.len() != 1 || "fold"@[0] != '-' && "fold"@[0] != '+' && "fold"@[0] != '*' || "fold"@ == "*"@);
    assert("concat"@.len() != 1 || "concat"@[0] != '-' && "concat"@[0] != '+' && "concat"@[0] != '*' || "concat"@ == "*"@);
    assert("fill"@.len() != 1 || "fill"@[0] != '-' && "fill"@[0] != '+' && "fill"@[0] != '*' || "fill"@ == "*"@);
    assert("tabulate"@.len() != 1 || "tabulate"@[0] != '-' && "tabulate"@[0] != '+' && "tabulate"@[0] != '*' || "tabulate"@ == "*"@);
    assert("transpose"@.len() != 1 || "transpose"@[0] != '-' && "transpose"@[0] != '+' && "transpose"@[0] != '*' || "transpose"@ == "*"@);
    assert("flatten"@.len() != 1 || "flatten"@[0] != '-' && "flatten"@[0] != '+' && "flatten"@[0] != '*' || "flatten"@ == "*"@);
    assert("unsqueeze"@.len() != 1 || "unsqueeze"@[0] != '-' && "unsqueeze"@[0] != '+' && "unsqueeze"@[0] != '*' || "unsqueeze"@ == "*"@);
    assert("squeeze"@.len() != 1 || "squeeze"@[0] != '-' && "squeeze"@[0] != '+' && "squeeze"@[0] != '*' || "squeeze"@ == "*"@);
    assert("zeros"@.len() != 1 || "zeros"@[0] != '-' && "zeros"@[0] != '+' && "zeros"@[0] != '*' || "zeros"@ == "*"@);
    assert("ones"@.len() != 1 || "ones"@[0] != '-' && "ones"@[0] != '+' && "ones"@[0] != '*' || "ones"@ == "*"@);
    assert("dot"@.len() != 1 || "dot"@[0] != '-' && "dot"@[0] != '+' && "dot"@[0] != '*' || "dot"@ == "*"@);
    assert("matmul"@.len() != 1 || "matmul"@[0] != '-' && "matmul"@[0] != '+' && "matmul"@[0] != '*' || "matmul"@ == "*"@);
    assert("::"@.len() != 1 || "::"@[0] != '-' && "::"@[0] != '+' && "::"@[0] != '*' || "::"@ == "*"@);
    assert("head"@.len() != 1 || "head"@[0] != '-' && "head"@[0] != '+' && "head"@[0] != '*' || "head"@ == "*"@);
    assert("tail"@.len() != 1 || "tail"@[0] != '-' && "tail"@[0] != '+' && "tail"@[0] != '*' || "tail"@ == "*"@);
    assert("map"@.len() != 1 || "map"@[0] != '-' && "map"@[0] != '+' && "map"@[0] != '*' || "map"@ == "*"@);
    assert("list_of"@.len() != 1 || "list_of"@[0] != '-' && "list_of"@[0] != '+' && "list_of"@[0] != '*' || "list_of"@ == "*"@);
    assert("list_init"@.len() != 1 || "list_init"@[0] != '-' && "list_init"@[0] != '+' && "list_init"@[0] != '*' || "list_init"@ == "*"@);
    assert("<>"@.len() != 1 || "<>"@[0] != '-' && "<>"@[0] != '+' && "<>"@[0] != '*' || "<>"@ == "*"@);
    assert("then"@.len() != 1 || "then"@[0] != '-' && "then"@[0] != '+' && "then"@[0] != '*' || "then"@ == "*"@);
    assert("cons"@.len() != 1 || "cons"@[0] != '-' && "cons"@[0] != '+' && "cons"@[0] != '*' || "cons"@ == "*"@);
    assert("append"@.len() != 1 || "append"@[0] != '-' && "append"@[0] != '+' && "append"@[0] != '*' || "append"@ == "*"@);
    let a = std_ops_s(Seq::empty());
    let b = std_tasks_s(a);
    let c = std_arrays_s(b);
    let d = std_lists_s(c);
    assert(s_int() == int_scalar());
    assert(lookup(a, "-"@) == lookup(b, "-"@));
    assert(lookup(b, "-"@) == lookup(c, "-"@));
    assert(lookup(c, "-"@) == lookup(d, "-"@));
    assert(lookup(a, "+"@) == lookup(b, "+"@));
    assert(lookup(b, "+"@) == lookup(c, "+"@));
    assert(lookup(c, "+"@) == lookup(d, "+"@));
    assert(lookup(a, "*"@) == lookup(b, "*"@));
    assert(lookup(b, "*"@) == lookup(c, "*"@));
    assert(lookup(c, "*"@) == lookup(d, "*"@));
}

} // verus!
