//! Algorithm W: inference of an expression's type, each step proved to follow
//! the model in `infer_model`.

use vstd::prelude::*;
use vstd::pervasive::unreached;
use vstd::string::*;
use crate::ast::{BlockItem, Expr, IndexArg, Lit, Span, Spanned};
use super::annot::type_expr_to_type;
use super::ctx::{adv, lemma_adv_add, type_map_types_view, Ctx, SCtx};
use super::env::{apply_subst_env, copy_env, env_insert, generalize, SEnv, TypeEnv};
use super::infer_model::{
    item_step_s, when_rest_s, when_tail_s, when_union_s, app_finish_s, apply_all_s, branch_tags_s,
    all_handled, has_branch, dead_otherwise, drop1, extend_row_s, field_finish_s, find_field, fresh_vars_s, infer_app_s,
    infer_args_s, infer_block_s, infer_bounds_s, infer_branches_s, infer_elems_s, infer_field_s,
    infer_idx_s, infer_impl_s, infer_index_s, infer_items_s, infer_lam_s, infer_list_s,
    infer_record_s, infer_rfields_s, infer_s, infer_tag_s, infer_upper_s, infer_when_s, lam_env_s,
    concat_call, concat_dims_s, concat_name, last_dim, not_loaded_msg, otherwise_s, set_counter, slice_dim_s, IRes, SMods,
};
use super::lift::{append_shape, equal_rank_mismatch, try_lift};
use super::model::{
    assoc_view, lemma_view_fields, lemma_view_types, lookup, s_empty_subst, shape_view,
    view_fields, view_types, BaseType, Dim, SBase, SDim, SSubst, STypeError, SType, Scheme, Shape, Subst,
    Type, TypeError,
};
use super::subst::{apply_subst, assoc_get, compose};
use super::unify::{bind_type, unify, UNIFY_DEPTH};

verus! {

/// The table of loaded modules: path, and the module's type or why it could not
/// be loaded.
pub type Mods = Vec<(String, Result<Type, String>)>;

pub open spec fn mods_view(m: Seq<(String, Result<Type, String>)>) -> SMods {
    m.map_values(|p: (String, Result<Type, String>)| (p.0@, match p.1 {
        Ok(t) => Ok(t@),
        Err(msg) => Err(msg@),
    }))
}

/// Model of an inference outcome.
pub open spec fn ires_view(r: Result<(Subst, Type), (TypeError, Span)>) -> IRes {
    match r {
        Ok(p) => Ok((p.0@, p.1@)),
        Err(p) => Err((p.0@, p.1)),
    }
}

pub open spec fn sres_view(r: Result<Subst, (TypeError, Span)>) -> Result<SSubst, (STypeError, Span)> {
    match r {
        Ok(s) => Ok(s@),
        Err(p) => Err((p.0@, p.1)),
    }
}

fn mods_get<'a>(mods: &'a Mods, path: &String) -> (r: Option<&'a Result<Type, String>>)
    ensures
        match r {
            Some(x) => lookup(mods_view(mods@), path@) == Some(match *x {
                Ok(t) => Ok::<SType, Seq<char>>(t@),
                Err(msg) => Err::<SType, Seq<char>>(msg@),
            }),
            None => lookup(mods_view(mods@), path@) is None,
        },
{
    let mut i = mods.len();
    assert(mods@.take(i as int) =~= mods@);
    while i > 0
        invariant
            i <= mods.len(),
            lookup(mods_view(mods@), path@) == lookup(mods_view(mods@.take(i as int)), path@),
        decreases i,
    {
        i -= 1;
        assert(mods_view(mods@.take(i + 1)).drop_last() =~= mods_view(mods@.take(i as int)));
        if mods[i].0 == *path {
            return Some(&mods[i].1);
        }
    }
    assert(mods_view(mods@.take(0)) =~= Seq::empty());
    None
}

fn not_loaded(path: &String) -> (r: String)
    ensures
        r@ == not_loaded_msg(path@),
{
    let mut m = path.clone();
    m.append(": module not loaded");
    m
}

fn apply_all(s: &Subst, ts: &Vec<Type>) -> (r: Vec<Type>)
    ensures
        view_types(r@) == apply_all_s(s@, view_types(ts@)),
{
    proof {
        lemma_view_types(ts@);
    }
    let mut r: Vec<Type> = Vec::new();
    let mut i: usize = 0;
    while i < ts.len()
        invariant
            i <= ts.len(),
            view_types(ts@).len() == ts.len(),
            forall|j: int| 0 <= j < ts.len() ==> #[trigger] view_types(ts@)[j] == ts@[j]@,
            view_types(r@) == apply_all_s(s@, view_types(ts@)).subrange(0, i as int),
        decreases ts.len() - i,
    {
        let t = apply_subst(s, &ts[i]);
        let ghost old_r = r@;
        r.push(t);
        assert(r@.drop_last() =~= old_r);
        assert(view_types(r@) =~= apply_all_s(s@, view_types(ts@)).subrange(0, i + 1));
        i += 1;
    }
    assert(apply_all_s(s@, view_types(ts@)).subrange(0, ts.len() as int) =~= apply_all_s(s@, view_types(ts@)));
    r
}

/// `n` fresh type variables.
fn fresh_n(ctx: &mut Ctx, n: usize) -> (r: Vec<Type>)
    ensures
        view_types(r@) == fresh_vars_s(old(ctx)@.counter, n as nat),
        r@.len() == n,
        final(ctx)@ == set_counter(old(ctx)@, adv(old(ctx)@.counter, n as nat)),
{
    let ghost c0 = ctx.counter;
    let mut r: Vec<Type> = Vec::new();
    let mut i: usize = 0;
    assert(view_types(r@) =~= fresh_vars_s(c0, 0));
    while i < n
        invariant
            i <= n,
            c0 == old(ctx)@.counter,
            ctx@ == set_counter(old(ctx)@, adv(c0, i as nat)),
            view_types(r@) == fresh_vars_s(c0, i as nat),
            r@.len() == i,
        decreases n - i,
    {
        let t = ctx.fresh();
        let ghost old_r = r@;
        r.push(t);
        assert(r@.drop_last() =~= old_r);
        assert(view_types(r@) =~= fresh_vars_s(c0, (i + 1) as nat));
        proof {
            lemma_adv_add(c0, i as nat, 1);
            reveal_with_fuel(adv, 2);
        }
        i += 1;
    }
    r
}

fn push_type(ctx: &mut Ctx, span: Span, t: Type)
    ensures
        final(ctx)@ == (SCtx { types: old(ctx)@.types.push((span, t@)), ..old(ctx)@ }),
{
    let ghost before = ctx.type_map.types@;
    ctx.type_map.types.push((span, t));
    assert(type_map_types_view(ctx.type_map.types@) =~= type_map_types_view(before).push((span, t@)));
}

fn push_lifted(ctx: &mut Ctx, span: Span)
    ensures
        final(ctx)@ == (SCtx { lifted: old(ctx)@.lifted.push(span), ..old(ctx)@ }),
{
    ctx.type_map.lifted_apps.push(span);
}

fn set_ctx_counter(ctx: &mut Ctx, c: u64)
    ensures
        final(ctx)@ == set_counter(old(ctx)@, c),
{
    ctx.counter = c;
}

// ── The recursion ─────────────────────────────────────────────────────────────

pub(crate) fn infer_inner(ctx: &mut Ctx, env: &TypeEnv, mods: &Mods, e: &Spanned<Expr>) -> (r: Result<(Subst, Type), (TypeError, Span)>)
    ensures
        (final(ctx)@, ires_view(r)) == infer_s(old(ctx)@, assoc_view(env@), mods_view(mods@), *e),
    decreases e, 3nat, 0int,
{
    let r = infer_inner_impl(ctx, env, mods, e);
    match r {
        Ok((s, t)) => {
            let at = apply_subst(&s, &t);
            push_type(ctx, e.1, at);
            Ok((s, t))
        },
        Err(x) => Err(x),
    }
}

fn infer_inner_impl(ctx: &mut Ctx, env: &TypeEnv, mods: &Mods, e: &Spanned<Expr>) -> (r: Result<(Subst, Type), (TypeError, Span)>)
    ensures
        (final(ctx)@, ires_view(r)) == infer_impl_s(old(ctx)@, assoc_view(env@), mods_view(mods@), *e),
    decreases e, 2nat, 0int,
{
    match &e.0 {
        Expr::Lit(l) => {
            let t = match l {
                Lit::Int(_) => Type::int_(),
                Lit::Float(_) => Type::f64_(),
                Lit::Str(_) => Type::str_(),
            };
            Ok((Subst::new(), t))
        },
        Expr::Var(name) => match assoc_get(env, name) {
            None => Err((TypeError::UnboundVar(name.clone()), e.1)),
            Some(sc) => {
                let t = ctx.instantiate(sc);
                Ok((Subst::new(), t))
            },
        },
        Expr::Import(path) => match mods_get(mods, path) {
            Some(Ok(t)) => Ok((Subst::new(), t.dup())),
            Some(Err(m)) => Err((TypeError::ModuleError(m.clone()), e.1)),
            None => Err((TypeError::ModuleError(not_loaded(path)), e.1)),
        },
        Expr::Lam(_, _) => infer_lam(ctx, env, mods, e),
        Expr::App(_, _) => infer_app(ctx, env, mods, e),
        Expr::Record(_) => infer_record(ctx, env, mods, e),
        Expr::Field(_, _) => infer_field(ctx, env, mods, e),
        Expr::Tag(_, _) => infer_tag(ctx, env, mods, e),
        Expr::When(_, _, _) => infer_when(ctx, env, mods, e),
        Expr::List(_) => infer_list(ctx, env, mods, e),
        Expr::Block(_, _) => infer_block(ctx, env, mods, e),
        Expr::Index(_, _) => infer_index(ctx, env, mods, e),
    }
}

// ── Lambdas ───────────────────────────────────────────────────────────────────

fn infer_lam(ctx: &mut Ctx, env: &TypeEnv, mods: &Mods, e: &Spanned<Expr>) -> (r: Result<(Subst, Type), (TypeError, Span)>)
    requires
        e.0 is Lam,
    ensures
        (final(ctx)@, ires_view(r)) == infer_lam_s(old(ctx)@, assoc_view(env@), mods_view(mods@), *e),
    decreases e, 1nat, 0int,
{
    match &e.0 {
        Expr::Lam(params, body) => {
            let ghost c0 = ctx.counter;
            let ghost env0 = assoc_view(env@);
            let mut env2 = copy_env(env);
            let mut tys: Vec<Type> = Vec::new();
            let mut i: usize = 0;
            assert(view_types(tys@) =~= fresh_vars_s(c0, 0));
            while i < params.len()
                invariant
                    i <= params.len(),
                    c0 == old(ctx)@.counter,
                    env0 == assoc_view(env@),
                    ctx@ == set_counter(old(ctx)@, adv(c0, i as nat)),
                    view_types(tys@) == fresh_vars_s(c0, i as nat),
                    lam_env_s(env0, params@, c0, 0) == lam_env_s(assoc_view(env2@), params@, adv(c0, i as nat), i as int),
                decreases params.len() - i,
            {
                let ghost ci = ctx.counter;
                let t = ctx.fresh();
                env_insert(&mut env2, params[i].clone(), Scheme::mono(t.dup()));
                let ghost old_tys = tys@;
                tys.push(t);
                assert(tys@.drop_last() =~= old_tys);
                assert(view_types(tys@) =~= fresh_vars_s(c0, (i + 1) as nat));
                proof {
                    lemma_adv_add(c0, i as nat, 1);
                    reveal_with_fuel(adv, 2);
                }
                i += 1;
            }
            let (s, bt) = match infer_inner(ctx, &env2, mods, body) {
                Err(x) => return Err(x),
                Ok(p) => p,
            };
            let pts = apply_all(&s, &tys);
            Ok((s, Type::fun(pts, bt)))
        },
        _ => unreached(),
    }
}

// ── Applications ──────────────────────────────────────────────────────────────

pub open spec fn args_view(r: Result<(Subst, Vec<Type>), (TypeError, Span)>) -> Result<(SSubst, Seq<SType>), (STypeError, Span)> {
    match r {
        Ok(p) => Ok((p.0@, view_types(p.1@))),
        Err(p) => Err((p.0@, p.1)),
    }
}

fn infer_args(ctx: &mut Ctx, env: &TypeEnv, mods: &Mods, s0: Subst, args: &Vec<Spanned<Expr>>) -> (r: Result<(Subst, Vec<Type>), (TypeError, Span)>)
    ensures
        (final(ctx)@, args_view(r)) == infer_args_s(old(ctx)@, assoc_view(env@), mods_view(mods@), s0@, Seq::empty(), args@, 0),
    decreases args, 0nat, 0int,
{
    let ghost cx0 = ctx@;
    let ghost ss0 = s0@;
    let mut s = s0;
    let mut tys: Vec<Type> = Vec::new();
    let mut i: usize = 0;
    assert(view_types(tys@) =~= Seq::<SType>::empty());
    while i < args.len()
        invariant
            i <= args.len(),
            cx0 == old(ctx)@,
            ss0 == s0@,
            infer_args_s(cx0, assoc_view(env@), mods_view(mods@), ss0, Seq::empty(), args@, 0)
                == infer_args_s(ctx@, assoc_view(env@), mods_view(mods@), s@, view_types(tys@), args@, i as int),
        decreases args.len() - i,
    {
        let env2 = apply_subst_env(&s, env);
        let ghost cxi = ctx@;
        let ghost si = s@;
        let ghost ti = view_types(tys@);
        let (sa, t) = match infer_inner(ctx, &env2, mods, &args[i]) {
            Err(x) => {
                assert(infer_args_s(cxi, assoc_view(env@), mods_view(mods@), si, ti, args@, i as int)
                    == (ctx@, Err::<(SSubst, Seq<SType>), (STypeError, Span)>((x.0@, x.1))));
                return Err(x);
            },
            Ok(p) => p,
        };
        s = compose(&sa, &s);
        let ghost old_tys = tys@;
        tys.push(t);
        assert(tys@.drop_last() =~= old_tys);
        i += 1;
    }
    Ok((s, tys))
}

fn app_finish(ctx: &mut Ctx, s: Subst, f_ty: &Type, tys: Vec<Type>, ret: &Type, span: Span) -> (r: Result<(Subst, Type), (TypeError, Span)>)
    ensures
        (final(ctx)@, ires_view(r)) == app_finish_s(old(ctx)@, s@, f_ty@, view_types(tys@), ret@, span),
{
    proof {
        lemma_view_types(tys@);
    }
    let f_cur = apply_subst(&s, f_ty);
    let tys_s = apply_all(&s, &tys);
    if tys.len() > 0 {
        match try_lift(&mut ctx.counter, &f_cur, &tys_s) {
            Err(er) => {
                return Err((er, span));
            },
            Ok(Some((sl, rt))) => {
                push_lifted(ctx, span);
                let sf = compose(&sl, &s);
                let t = apply_subst(&sf, &rt);
                return Ok((sf, t));
            },
            Ok(None) => {},
        }
    }
    match equal_rank_mismatch(&f_cur, &tys_s) {
        Some(er) => {
            return Err((er, span));
        },
        None => {},
    }
    let ret_s = apply_subst(&s, ret);
    let expected = if tys.len() == 0 { ret_s } else { Type::fun(tys_s, ret_s) };
    match unify(&mut ctx.counter, &f_cur, &expected, UNIFY_DEPTH) {
        Err(er) => Err((er, span)),
        Ok(su) => {
            let sf = compose(&su, &s);
            let t = apply_subst(&sf, ret);
            Ok((sf, t))
        },
    }
}

fn same_name(n: &String, s: &str) -> (r: bool)
    ensures
        r == (n@ == s@),
{
    *n == s.to_owned()
}

fn is_concat_callee(f: &Spanned<Expr>, nargs: usize) -> (r: bool)
    ensures
        r == concat_call(*f, nargs as int),
{
    if nargs != 2 {
        return false;
    }
    match &f.0 {
        Expr::Var(n) => same_name(n, "concat") || same_name(n, "<>") || same_name(n, "append"),
        _ => false,
    }
}

fn last_dim_of(t: &Type) -> (r: Option<Dim>)
    ensures
        match r {
            Some(d) => last_dim(t@) == Some(d@),
            None => last_dim(t@) is None,
        },
{
    match t {
        Type::Shaped(_, sh) => {
            if sh.len() > 0 {
                proof {
                    assert(shape_view(sh@).last() == sh@.last()@);
                }
                Some(sh[sh.len() - 1].dup())
            } else {
                None
            }
        },
        Type::Var(_) => None,
    }
}

/// The length of a concatenation from the lengths of its two arguments.
fn concat_dims(s: Subst, a: &Type, b: &Type, t: Type) -> (r: Result<(Subst, Type), TypeError>)
    ensures
        match r {
            Ok(p) => concat_dims_s(s@, a@, b@, t@) == Ok::<(SSubst, SType), STypeError>((p.0@, p.1@)),
            Err(er) => concat_dims_s(s@, a@, b@, t@) == Err::<(SSubst, SType), STypeError>(er@),
        },
{
    let aa = apply_subst(&s, a);
    let bb = apply_subst(&s, b);
    match (last_dim_of(&aa), last_dim_of(&bb)) {
        (Some(Dim::Nat(m)), Some(Dim::Nat(n))) => {
            if m > u64::MAX - n {
                return Err(TypeError::DimArithmeticRequiresLiterals);
            }
            match last_dim_of(&t) {
                Some(Dim::Var(k)) => {
                    let s1 = Subst::single_dim(k, Dim::Nat(m + n));
                    let sf = compose(&s1, &s);
                    let t2 = apply_subst(&s1, &t);
                    Ok((sf, t2))
                },
                _ => Ok((s, t)),
            }
        },
        _ => Err(TypeError::DimArithmeticRequiresLiterals),
    }
}

fn infer_app(ctx: &mut Ctx, env: &TypeEnv, mods: &Mods, e: &Spanned<Expr>) -> (r: Result<(Subst, Type), (TypeError, Span)>)
    requires
        e.0 is App,
    ensures
        (final(ctx)@, ires_view(r)) == infer_app_s(old(ctx)@, assoc_view(env@), mods_view(mods@), *e),
    decreases e, 1nat, 0int,
{
    match &e.0 {
        Expr::App(f, args) => {
            let ret = ctx.fresh();
            let (s0, f_ty) = match infer_inner(ctx, env, mods, f) {
                Err(x) => return Err(x),
                Ok(p) => p,
            };
            let (s, tys) = match infer_args(ctx, env, mods, s0, args) {
                Err(x) => return Err(x),
                Ok(p) => p,
            };
            proof {
                lemma_view_types(tys@);
            }
            let cat = is_concat_callee(f, tys.len());
            let pair = if cat { Some((tys[0].dup(), tys[1].dup())) } else { None };
            match app_finish(ctx, s, &f_ty, tys, &ret, e.1) {
                Err(x) => Err(x),
                Ok((sf, t)) => match pair {
                    None => Ok((sf, t)),
                    Some((a, b)) => match concat_dims(sf, &a, &b, t) {
                        Ok(p) => Ok(p),
                        Err(er) => Err((er, e.1)),
                    },
                },
            }
        },
        _ => unreached(),
    }
}

// ── Records, fields, tags ─────────────────────────────────────────────────────

pub open spec fn rfields_view(r: Result<(Subst, Vec<(String, Type)>), (TypeError, Span)>)
    -> Result<(SSubst, Seq<(Seq<char>, SType)>), (STypeError, Span)> {
    match r {
        Ok(p) => Ok((p.0@, view_fields(p.1@))),
        Err(p) => Err((p.0@, p.1)),
    }
}

fn infer_rfields(ctx: &mut Ctx, env: &TypeEnv, mods: &Mods, fs: &Vec<(String, Spanned<Expr>)>) -> (r: Result<(Subst, Vec<(String, Type)>), (TypeError, Span)>)
    ensures
        (final(ctx)@, rfields_view(r)) == infer_rfields_s(old(ctx)@, assoc_view(env@), mods_view(mods@), s_empty_subst(), Seq::empty(), fs@, 0),
    decreases fs, 0nat, 0int,
{
    let ghost cx0 = ctx@;
    let mut s = Subst::new();
    let mut fts: Vec<(String, Type)> = Vec::new();
    let mut i: usize = 0;
    assert(view_fields(fts@) =~= Seq::<(Seq<char>, SType)>::empty());
    while i < fs.len()
        invariant
            i <= fs.len(),
            cx0 == old(ctx)@,
            infer_rfields_s(cx0, assoc_view(env@), mods_view(mods@), s_empty_subst(), Seq::empty(), fs@, 0)
                == infer_rfields_s(ctx@, assoc_view(env@), mods_view(mods@), s@, view_fields(fts@), fs@, i as int),
        decreases fs.len() - i,
    {
        let env2 = apply_subst_env(&s, env);
        let (s1, t) = match infer_inner(ctx, &env2, mods, &fs[i].1) {
            Err(x) => return Err(x),
            Ok(p) => p,
        };
        s = compose(&s1, &s);
        let ghost old_fts = fts@;
        fts.push((fs[i].0.clone(), t));
        assert(fts@.drop_last() =~= old_fts);
        i += 1;
    }
    Ok((s, fts))
}

fn infer_record(ctx: &mut Ctx, env: &TypeEnv, mods: &Mods, e: &Spanned<Expr>) -> (r: Result<(Subst, Type), (TypeError, Span)>)
    requires
        e.0 is Record,
    ensures
        (final(ctx)@, ires_view(r)) == infer_record_s(old(ctx)@, assoc_view(env@), mods_view(mods@), *e),
    decreases e, 1nat, 0int,
{
    match &e.0 {
        Expr::Record(fs) => {
            let (s, fts) = match infer_rfields(ctx, env, mods, fs) {
                Err(x) => return Err(x),
                Ok(p) => p,
            };
            Ok((s, Type::scalar(BaseType::Record(fts, None))))
        },
        _ => unreached(),
    }
}

fn find_field_exec(fs: &Vec<(String, Type)>, k: &String) -> (r: Option<Type>)
    ensures
        match r {
            Some(t) => find_field(view_fields(fs@), k@) == Some(t@),
            None => find_field(view_fields(fs@), k@) is None,
        },
{
    proof {
        lemma_view_fields(fs@);
    }
    let ghost vf = view_fields(fs@);
    let mut i: usize = 0;
    assert(vf.skip(0) =~= vf);
    while i < fs.len()
        invariant
            i <= fs.len(),
            vf == view_fields(fs@),
            vf.len() == fs.len(),
            forall|j: int| 0 <= j < fs.len() ==> #[trigger] vf[j] == (fs@[j].0@, fs@[j].1@),
            find_field(vf, k@) == find_field(vf.skip(i as int), k@),
        decreases fs.len() - i,
    {
        assert(vf.skip(i as int)[0] == vf[i as int]);
        if fs[i].0 == *k {
            return Some(fs[i].1.dup());
        }
        assert(vf.skip(i as int).drop_first() =~= vf.skip(i + 1));
        i += 1;
    }
    None
}

fn extend_row(ctx: &mut Ctx, s: Subst, v: &String, name: &String, span: Span) -> (r: Result<(Subst, Type), (TypeError, Span)>)
    ensures
        (final(ctx)@, ires_view(r)) == extend_row_s(old(ctx)@, s@, v@, name@, span),
{
    let ft = ctx.fresh();
    let row = ctx.fresh_name();
    let mut fs: Vec<(String, Type)> = Vec::new();
    fs.push((name.clone(), ft.dup()));
    proof {
        lemma_view_fields(fs@);
    }
    assert(view_fields(fs@) =~= seq![(name@, ft@)]);
    let ext = Type::scalar(BaseType::Record(fs, Some(row)));
    match bind_type(v, &ext) {
        Err(er) => Err((er, span)),
        Ok(su) => Ok((compose(&su, &s), ft)),
    }
}

fn field_finish(ctx: &mut Ctx, s: Subst, ty: Type, name: &String, span: Span) -> (r: Result<(Subst, Type), (TypeError, Span)>)
    ensures
        (final(ctx)@, ires_view(r)) == field_finish_s(old(ctx)@, s@, ty@, name@, span),
{
    match &ty {
        Type::Var(v) => extend_row(ctx, s, v, name, span),
        Type::Shaped(BaseType::Record(fields, row), sh) => {
            if sh.len() == 0 {
                match find_field_exec(fields, name) {
                    Some(ft) => Ok((s, ft)),
                    None => match row {
                        Some(r) => extend_row(ctx, s, r, name, span),
                        None => Err((TypeError::NoSuchField(name.clone(), ty.dup()), span)),
                    },
                }
            } else {
                Err((TypeError::NotARecord(ty.dup()), span))
            }
        },
        _ => Err((TypeError::NotARecord(ty.dup()), span)),
    }
}

fn infer_field(ctx: &mut Ctx, env: &TypeEnv, mods: &Mods, e: &Spanned<Expr>) -> (r: Result<(Subst, Type), (TypeError, Span)>)
    requires
        e.0 is Field,
    ensures
        (final(ctx)@, ires_view(r)) == infer_field_s(old(ctx)@, assoc_view(env@), mods_view(mods@), *e),
    decreases e, 1nat, 0int,
{
    match &e.0 {
        Expr::Field(x, name) => {
            let (s, xt) = match infer_inner(ctx, env, mods, x) {
                Err(er) => return Err(er),
                Ok(p) => p,
            };
            let ty = apply_subst(&s, &xt);
            field_finish(ctx, s, ty, name, e.1)
        },
        _ => unreached(),
    }
}

fn infer_tag(ctx: &mut Ctx, env: &TypeEnv, mods: &Mods, e: &Spanned<Expr>) -> (r: Result<(Subst, Type), (TypeError, Span)>)
    requires
        e.0 is Tag,
    ensures
        (final(ctx)@, ires_view(r)) == infer_tag_s(old(ctx)@, assoc_view(env@), mods_view(mods@), *e),
    decreases e, 1nat, 0int,
{
    match &e.0 {
        Expr::Tag(name, payload) => {
            let (s, pt) = match payload {
                Some(p) => match infer_inner(ctx, env, mods, p) {
                    Err(er) => return Err(er),
                    Ok(q) => q,
                },
                None => (Subst::new(), Type::unit()),
            };
            let row = ctx.fresh_name();
            let mut fs: Vec<(String, Type)> = Vec::new();
            fs.push((name.clone(), pt));
            proof {
                lemma_view_fields(fs@);
            }
            assert(view_fields(fs@) =~= seq![(name@, fs@[0].1@)]);
            Ok((s, Type::scalar(BaseType::Union(fs, Some(row)))))
        },
        _ => unreached(),
    }
}

// ── When ──────────────────────────────────────────────────────────────────────

fn branch_tags(bs: &Vec<(String, Option<String>, Box<Spanned<Expr>>)>, ptys: &Vec<Type>) -> (r: Vec<(String, Type)>)
    requires
        ptys.len() == bs.len(),
    ensures
        view_fields(r@) == branch_tags_s(bs@, view_types(ptys@)),
{
    proof {
        lemma_view_types(ptys@);
    }
    let mut r: Vec<(String, Type)> = Vec::new();
    let mut i: usize = 0;
    while i < bs.len()
        invariant
            i <= bs.len(),
            ptys.len() == bs.len(),
            view_types(ptys@).len() == ptys.len(),
            forall|j: int| 0 <= j < ptys.len() ==> #[trigger] view_types(ptys@)[j] == ptys@[j]@,
            view_fields(r@) == branch_tags_s(bs@, view_types(ptys@)).subrange(0, i as int),
        decreases bs.len() - i,
    {
        let ghost old_r = r@;
        r.push((bs[i].0.clone(), ptys[i].dup()));
        assert(r@.drop_last() =~= old_r);
        assert(view_fields(r@) =~= branch_tags_s(bs@, view_types(ptys@)).subrange(0, i + 1));
        i += 1;
    }
    assert(branch_tags_s(bs@, view_types(ptys@)).subrange(0, bs.len() as int) =~= branch_tags_s(bs@, view_types(ptys@)));
    r
}

/// Whether some branch handles tag `tag`.
fn handles(bs: &Vec<(String, Option<String>, Box<Spanned<Expr>>)>, tag: &String) -> (r: bool)
    ensures
        r == has_branch(bs@, tag@),
{
    let mut k: usize = 0;
    while k < bs.len()
        invariant
            k <= bs.len(),
            forall|j: int| 0 <= j < k ==> #[trigger] bs@[j].0@ != tag@,
        decreases bs.len() - k,
    {
        if bs[k].0 == *tag {
            assert(bs@[k as int].0@ == tag@);
            return true;
        }
        k += 1;
    }
    false
}

/// Whether `t` is a closed union all of whose tags have a branch.
fn all_tags_handled(t: &Type, bs: &Vec<(String, Option<String>, Box<Spanned<Expr>>)>) -> (r: bool)
    ensures
        r == dead_otherwise(t@, bs@),
{
    match t {
        Type::Shaped(BaseType::Union(tags, row), sh) => {
            if row.is_some() {
                return false;
            }
            assert(t@ == SType::Shaped(SBase::Union(view_fields(tags@), None), shape_view(sh@)));
            proof { lemma_view_fields(tags@); }
            let ghost vf = view_fields(tags@);
            let mut j: usize = 0;
            while j < tags.len()
                invariant
                    j <= tags.len(),
                    vf == view_fields(tags@),
                    t@ == SType::Shaped(SBase::Union(vf, None), shape_view(sh@)),
                    vf.len() == tags@.len(),
                    forall|i: int| 0 <= i < tags@.len() ==> #[trigger] vf[i].0 == tags@[i].0@,
                    all_handled(vf, bs@, 0) == all_handled(vf, bs@, j as int),
                decreases tags.len() - j,
            {
                if !handles(bs, &tags[j].0) {
                    return false;
                }
                j += 1;
            }
            true
        },
        _ => false,
    }
}

#[verifier::rlimit(40)]
fn infer_branches(
    ctx: &mut Ctx,
    env: &TypeEnv,
    mods: &Mods,
    s0: Subst,
    ret: &Type,
    ptys: &Vec<Type>,
    bs: &Vec<(String, Option<String>, Box<Spanned<Expr>>)>,
    span: Span,
) -> (r: Result<Subst, (TypeError, Span)>)
    requires
        ptys.len() == bs.len(),
    ensures
        (final(ctx)@, sres_view(r)) == infer_branches_s(old(ctx)@, assoc_view(env@), mods_view(mods@), s0@, ret@, view_types(ptys@), bs@, span, 0),
    decreases bs, 0nat, 0int,
{
    proof {
        lemma_view_types(ptys@);
    }
    let ghost cx0 = ctx@;
    let ghost ss0 = s0@;
    let ghost vp = view_types(ptys@);
    let mut s = s0;
    let mut i: usize = 0;
    while i < bs.len()
        invariant
            i <= bs.len(),
            ptys.len() == bs.len(),
            cx0 == old(ctx)@,
            ss0 == s0@,
            vp == view_types(ptys@),
            vp.len() == ptys.len(),
            forall|j: int| 0 <= j < ptys.len() ==> #[trigger] vp[j] == ptys@[j]@,
            infer_branches_s(cx0, assoc_view(env@), mods_view(mods@), ss0, ret@, vp, bs@, span, 0)
                == infer_branches_s(ctx@, assoc_view(env@), mods_view(mods@), s@, ret@, vp, bs@, span, i as int),
        decreases bs.len() - i,
    {
        assert(vp[i as int] == ptys@[i as int]@);
        let env2 = apply_subst_env(&s, env);
        let (env3, s1) = match &bs[i].1 {
            Some(b) => {
                let mut e3 = env2;
                let pt = apply_subst(&s, &ptys[i]);
                env_insert(&mut e3, b.clone(), Scheme::mono(pt));
                (e3, s)
            },
            None => {
                let pt = apply_subst(&s, &ptys[i]);
                let u = Type::unit();
                match unify(&mut ctx.counter, &pt, &u, UNIFY_DEPTH) {
                    Err(er) => return Err((er, span)),
                    Ok(su) => {
                        let s1 = compose(&su, &s);
                        (env2, s1)
                    },
                }
            },
        };
        let (sb, bt) = match infer_inner(ctx, &env3, mods, &bs[i].2) {
            Err(x) => return Err(x),
            Ok(p) => p,
        };
        let s2 = compose(&sb, &s1);
        let a = apply_subst(&s2, &bt);
        let b = apply_subst(&s2, ret);
        match unify(&mut ctx.counter, &a, &b, UNIFY_DEPTH) {
            Err(er) => return Err((er, bs[i].2.1)),
            Ok(su) => {
                s = compose(&su, &s2);
            },
        }
        i += 1;
    }
    Ok(s)
}

fn infer_otherwise(ctx: &mut Ctx, env: &TypeEnv, mods: &Mods, s: Subst, ret: &Type, ob: &Spanned<Expr>) -> (r: Result<(Subst, Type), (TypeError, Span)>)
    ensures
        (final(ctx)@, ires_view(r)) == otherwise_s(old(ctx)@, assoc_view(env@), mods_view(mods@), s@, ret@, *ob),
    decreases ob, 3nat, 1int,
{
    let env2 = apply_subst_env(&s, env);
    let (sb, bt) = match infer_inner(ctx, &env2, mods, ob) {
        Err(x) => return Err(x),
        Ok(p) => p,
    };
    let s1 = compose(&sb, &s);
    let a = apply_subst(&s1, &bt);
    let b = apply_subst(&s1, ret);
    match unify(&mut ctx.counter, &a, &b, UNIFY_DEPTH) {
        Err(er) => Err((er, ob.1)),
        Ok(su) => {
            let s2 = compose(&su, &s1);
            let t = apply_subst(&s2, ret);
            Ok((s2, t))
        },
    }
}

#[verifier::rlimit(40)]
fn infer_when(ctx: &mut Ctx, env: &TypeEnv, mods: &Mods, e: &Spanned<Expr>) -> (r: Result<(Subst, Type), (TypeError, Span)>)
    requires
        e.0 is When,
    ensures
        (final(ctx)@, ires_view(r)) == infer_when_s(old(ctx)@, assoc_view(env@), mods_view(mods@), *e),
    decreases e, 1nat, 0int,
{
    match &e.0 {
        Expr::When(scrut, bs, otherwise) => {
            let (s0, st) = match infer_inner(ctx, env, mods, scrut) {
                Err(x) => return Err(x),
                Ok(p) => p,
            };
            when_rest(ctx, env, mods, e, s0, st)
        },
        _ => unreached(),
    }
}

fn when_union(ctx: &mut Ctx, bs: &Vec<(String, Option<String>, Box<Spanned<Expr>>)>, open_row: bool) -> (r: (Type, Vec<Type>, Type))
    ensures
        ({
            let w = when_union_s(old(ctx)@.counter, bs@, open_row);
            &&& final(ctx)@ == set_counter(old(ctx)@, w.0)
            &&& r.0@ == w.1
            &&& view_types(r.1@) == w.2
            &&& r.1@.len() == bs@.len()
            &&& r.2@ == w.3
        }),
{
    let ret = ctx.fresh();
    let ptys = fresh_n(ctx, bs.len());
    let tags = branch_tags(bs, &ptys);
    let u_ty = if open_row {
        let r = ctx.fresh_name();
        Type::scalar(BaseType::Union(tags, Some(r)))
    } else {
        Type::scalar(BaseType::Union(tags, None))
    };
    (ret, ptys, u_ty)
}

fn when_rest(ctx: &mut Ctx, env: &TypeEnv, mods: &Mods, e: &Spanned<Expr>, s0: Subst, st: Type) -> (r: Result<(Subst, Type), (TypeError, Span)>)
    requires
        e.0 is When,
    ensures
        (final(ctx)@, ires_view(r)) == when_rest_s(old(ctx)@, assoc_view(env@), mods_view(mods@), *e, s0@, st@),
    decreases e, 0nat, 1int,
{
    match &e.0 {
        Expr::When(_, bs, otherwise) => {
            let (ret, ptys, u_ty) = when_union(ctx, bs, otherwise.is_some());
            let st_s = apply_subst(&s0, &st);
            let su = match unify(&mut ctx.counter, &st_s, &u_ty, UNIFY_DEPTH) {
                Err(er) => return Err((er, e.1)),
                Ok(su) => su,
            };
            let s = compose(&su, &s0);
            when_tail(ctx, env, mods, e, s, &st, &ret, &ptys)
        },
        _ => unreached(),
    }
}

#[verifier::rlimit(40)]
fn when_tail(ctx: &mut Ctx, env: &TypeEnv, mods: &Mods, e: &Spanned<Expr>, s: Subst, st: &Type, ret: &Type, ptys: &Vec<Type>)
    -> (r: Result<(Subst, Type), (TypeError, Span)>)
    requires
        e.0 is When,
        e.0->When_1@.len() == ptys@.len(),
    ensures
        (final(ctx)@, ires_view(r)) == when_tail_s(old(ctx)@, assoc_view(env@), mods_view(mods@), *e, s@, st@, ret@, view_types(ptys@)),
    decreases e, 0nat, 0int,
{
    match &e.0 {
        Expr::When(_, bs, otherwise) => {
            if otherwise.is_some() {
                let sf = apply_subst(&s, st);
                if all_tags_handled(&sf, bs) {
                    return Err((TypeError::DeadOtherwise, e.1));
                }
            }
            let s5 = match infer_branches(ctx, env, mods, s, ret, ptys, bs, e.1) {
                Err(x) => return Err(x),
                Ok(s5) => s5,
            };
            match otherwise {
                None => {
                    let t = apply_subst(&s5, ret);
                    Ok((s5, t))
                },
                Some(ob) => infer_otherwise(ctx, env, mods, s5, ret, ob),
            }
        },
        _ => unreached(),
    }
}

// ── Lists ─────────────────────────────────────────────────────────────────────

fn infer_elems(ctx: &mut Ctx, env: &TypeEnv, mods: &Mods, et: &Type, es: &Vec<Spanned<Expr>>) -> (r: Result<Subst, (TypeError, Span)>)
    ensures
        (final(ctx)@, sres_view(r)) == infer_elems_s(old(ctx)@, assoc_view(env@), mods_view(mods@), s_empty_subst(), et@, es@, 0),
    decreases es, 0nat, 0int,
{
    let ghost cx0 = ctx@;
    let mut s = Subst::new();
    let mut i: usize = 0;
    while i < es.len()
        invariant
            i <= es.len(),
            cx0 == old(ctx)@,
            infer_elems_s(cx0, assoc_view(env@), mods_view(mods@), s_empty_subst(), et@, es@, 0)
                == infer_elems_s(ctx@, assoc_view(env@), mods_view(mods@), s@, et@, es@, i as int),
        decreases es.len() - i,
    {
        let env2 = apply_subst_env(&s, env);
        let (se, te) = match infer_inner(ctx, &env2, mods, &es[i]) {
            Err(x) => return Err(x),
            Ok(p) => p,
        };
        let s1 = compose(&se, &s);
        let a = apply_subst(&s1, &te);
        let b = apply_subst(&s1, et);
        match unify(&mut ctx.counter, &a, &b, UNIFY_DEPTH) {
            Err(er) => return Err((er, es[i].1)),
            Ok(su) => {
                s = compose(&su, &s1);
            },
        }
        i += 1;
    }
    Ok(s)
}

fn infer_list(ctx: &mut Ctx, env: &TypeEnv, mods: &Mods, e: &Spanned<Expr>) -> (r: Result<(Subst, Type), (TypeError, Span)>)
    requires
        e.0 is List,
    ensures
        (final(ctx)@, ires_view(r)) == infer_list_s(old(ctx)@, assoc_view(env@), mods_view(mods@), *e),
    decreases e, 1nat, 0int,
{
    match &e.0 {
        Expr::List(es) => {
            let et = ctx.fresh();
            let s = match infer_elems(ctx, env, mods, &et, es) {
                Err(x) => return Err(x),
                Ok(s) => s,
            };
            let n = es.len() as u64;
            let mut sh: Shape = Vec::new();
            sh.push(Dim::Nat(n));
            assert(shape_view(sh@) =~= seq![SDim::Nat(n)]);
            let r = apply_subst(&s, &et);
            match r {
                Type::Shaped(b, inner) => {
                    let sh2 = append_shape(sh, inner.as_slice());
                    Ok((s, Type::Shaped(b, sh2)))
                },
                Type::Var(_) => {
                    let bn = ctx.fresh_base_name();
                    Ok((s, Type::Shaped(BaseType::Var(bn), sh)))
                },
            }
        },
        _ => unreached(),
    }
}

// ── Blocks ────────────────────────────────────────────────────────────────────

pub open spec fn items_view(r: Result<(TypeEnv, Subst), (TypeError, Span)>) -> Result<(SEnv, SSubst), (STypeError, Span)> {
    match r {
        Ok(p) => Ok((assoc_view(p.0@), p.1@)),
        Err(p) => Err((p.0@, p.1)),
    }
}

fn infer_items(ctx: &mut Ctx, env: &TypeEnv, mods: &Mods, items: &Vec<BlockItem>, span: Span) -> (r: Result<(TypeEnv, Subst), (TypeError, Span)>)
    ensures
        (final(ctx)@, items_view(r)) == infer_items_s(old(ctx)@, mods_view(mods@), assoc_view(env@), s_empty_subst(), 0, items@, span, 0),
    decreases items, 1nat, 0int,
{
    let ghost cx0 = ctx@;
    let ghost env0 = assoc_view(env@);
    let mut env2 = copy_env(env);
    let mut s = Subst::new();
    let mut rc: usize = 0;
    let mut i: usize = 0;
    while i < items.len()
        invariant
            i <= items.len(),
            cx0 == old(ctx)@,
            env0 == assoc_view(env@),
            infer_items_s(cx0, mods_view(mods@), env0, s_empty_subst(), 0, items@, span, 0)
                == infer_items_s(ctx@, mods_view(mods@), assoc_view(env2@), s@, rc, items@, span, i as int),
        decreases items.len() - i,
    {
        let (env4, s3, rc1, more) = match item_step(ctx, mods, env2, s, rc, items, span, i) {
            Err(x) => return Err(x),
            Ok(q) => q,
        };
        if !more {
            return Ok((env4, s3));
        }
        env2 = env4;
        s = s3;
        rc = rc1;
        i += 1;
    }
    Ok((env2, s))
}

pub open spec fn step_view(r: Result<(TypeEnv, Subst, usize, bool), (TypeError, Span)>)
    -> Result<(SEnv, SSubst, usize, bool), (STypeError, Span)> {
    match r {
        Ok(p) => Ok((assoc_view(p.0@), p.1@, p.2, p.3)),
        Err(p) => Err((p.0@, p.1)),
    }
}

fn item_step(ctx: &mut Ctx, mods: &Mods, env2: TypeEnv, s: Subst, rc: usize, items: &Vec<BlockItem>, span: Span, i: usize)
    -> (r: Result<(TypeEnv, Subst, usize, bool), (TypeError, Span)>)
    requires
        i < items.len(),
    ensures
        (final(ctx)@, step_view(r)) == item_step_s(old(ctx)@, mods_view(mods@), assoc_view(env2@), s@, rc, items@, span, i as int),
    decreases items, 0nat, 0int,
{
    let mut env2 = env2;
    let mut s = s;
    let mut rc = rc;
    match &items[i] {
        BlockItem::Bind(name, x) => {
            let env3 = apply_subst_env(&s, &env2);
            let (s1, ty) = match infer_inner(ctx, &env3, mods, x) {
                Err(er) => return Err(er),
                Ok(p) => p,
            };
            let s2 = match assoc_get(&env3, name) {
                Some(ex) => {
                    let ext = ctx.instantiate(ex);
                    let a = apply_subst(&s1, &ty);
                    match unify(&mut ctx.counter, &a, &ext, UNIFY_DEPTH) {
                        Err(er) => return Err((er, x.1)),
                        Ok(su) => compose(&su, &s1),
                    }
                },
                None => s1,
            };
            let env_s2 = apply_subst_env(&s2, &env2);
            let ty2 = apply_subst(&s2, &ty);
            let scheme = generalize(&env_s2, &ty2);
            s = compose(&s2, &s);
            env2 = apply_subst_env(&s, &env2);
            env_insert(&mut env2, name.clone(), scheme);
            Ok((env2, s, rc, true))
        },
        BlockItem::Ann(name, te) => {
            let ann = type_expr_to_type(te, &mut rc);
            let env3 = apply_subst_env(&s, &env2);
            match assoc_get(&env3, name) {
                Some(ex) => {
                    let ext = ctx.instantiate(ex);
                    match unify(&mut ctx.counter, &ext, &ann, UNIFY_DEPTH) {
                        Err(er) => Err((er, span)),
                        Ok(s1) => {
                            s = compose(&s1, &s);
                            env2 = apply_subst_env(&s, &env2);
                            let env_s = apply_subst_env(&s, &env2);
                            let ann_s = apply_subst(&s, &ann);
                            let scheme = generalize(&env_s, &ann_s);
                            env_insert(&mut env2, name.clone(), scheme);
                            Ok((env2, s, rc, true))
                        },
                    }
                },
                None => {
                    let scheme = generalize(&env3, &ann);
                    env_insert(&mut env2, name.clone(), scheme);
                    Ok((env2, s, rc, true))
                },
            }
        },
        BlockItem::MonadicBind(_, _) => Ok((env2, s, rc, false)),
    }
}

fn infer_block(ctx: &mut Ctx, env: &TypeEnv, mods: &Mods, e: &Spanned<Expr>) -> (r: Result<(Subst, Type), (TypeError, Span)>)
    requires
        e.0 is Block,
    ensures
        (final(ctx)@, ires_view(r)) == infer_block_s(old(ctx)@, assoc_view(env@), mods_view(mods@), *e),
    decreases e, 1nat, 0int,
{
    match &e.0 {
        Expr::Block(items, body) => {
            let (env2, s) = match infer_items(ctx, env, mods, items, e.1) {
                Err(x) => return Err(x),
                Ok(p) => p,
            };
            let env3 = apply_subst_env(&s, &env2);
            let (s2, bt) = match infer_inner(ctx, &env3, mods, body) {
                Err(x) => return Err(x),
                Ok(p) => p,
            };
            Ok((compose(&s2, &s), bt))
        },
        _ => unreached(),
    }
}

// ── Indexing ──────────────────────────────────────────────────────────────────

fn infer_upper(ctx: &mut Ctx, env: &TypeEnv, mods: &Mods, s: Subst, t: &Spanned<Expr>) -> (r: Result<Subst, (TypeError, Span)>)
    ensures
        (final(ctx)@, sres_view(r)) == infer_upper_s(old(ctx)@, assoc_view(env@), mods_view(mods@), s@, *t),
    decreases t, 3nat, 1int,
{
    let env2 = apply_subst_env(&s, env);
    let (st, tt) = match infer_inner(ctx, &env2, mods, t) {
        Err(x) => return Err(x),
        Ok(p) => p,
    };
    let s3 = compose(&st, &s);
    let a = apply_subst(&s3, &tt);
    let int_ty = Type::int_();
    match unify(&mut ctx.counter, &a, &int_ty, UNIFY_DEPTH) {
        Err(er) => Err((er, t.1)),
        Ok(su) => Ok(compose(&su, &s3)),
    }
}

#[verifier::rlimit(40)]
fn infer_bounds(ctx: &mut Ctx, env: &TypeEnv, mods: &Mods, s: Subst, ia: &IndexArg) -> (r: Result<Subst, (TypeError, Span)>)
    ensures
        (final(ctx)@, sres_view(r)) == infer_bounds_s(old(ctx)@, assoc_view(env@), mods_view(mods@), s@, *ia),
    decreases ia, 3nat, 1int,
{
    match ia {
        IndexArg::Slice(Some(f), Some(t)) => {
            let env2 = apply_subst_env(&s, env);
            let (sf, ft) = match infer_inner(ctx, &env2, mods, f) {
                Err(x) => return Err(x),
                Ok(p) => p,
            };
            let s1 = compose(&sf, &s);
            let a = apply_subst(&s1, &ft);
            let int_ty = Type::int_();
            match unify(&mut ctx.counter, &a, &int_ty, UNIFY_DEPTH) {
                Err(er) => Err((er, f.1)),
                Ok(su1) => {
                    let s2 = compose(&su1, &s1);
                    infer_upper(ctx, env, mods, s2, t)
                },
            }
        },
        _ => Ok(s),
    }
}

fn slice_dim(ctx: &mut Ctx, f: &Expr, t: &Expr) -> (r: Dim)
    ensures
        (final(ctx)@.counter, r@) == slice_dim_s(old(ctx)@.counter, *f, *t),
        final(ctx)@ == set_counter(old(ctx)@, final(ctx)@.counter),
{
    match (f, t) {
        (Expr::Lit(Lit::Int(a)), Expr::Lit(Lit::Int(b))) => Dim::Nat(b.wrapping_sub(*a) as u64),
        _ => ctx.fresh_dim(),
    }
}

pub open spec fn idx_view(r: Result<(Subst, Shape, Shape), (TypeError, Span)>) -> Result<(SSubst, Seq<SDim>, Seq<SDim>), (STypeError, Span)> {
    match r {
        Ok(p) => Ok((p.0@, shape_view(p.1@), shape_view(p.2@))),
        Err(p) => Err((p.0@, p.1)),
    }
}

fn drop_first_dim(rem: &mut Shape)
    ensures
        shape_view(final(rem)@) == drop1(shape_view(old(rem)@)),
{
    if rem.len() > 0 {
        rem.remove(0);
        assert(shape_view(rem@) =~= shape_view(old(rem)@).drop_first());
    }
}

#[verifier::rlimit(40)]
fn infer_idx(ctx: &mut Ctx, env: &TypeEnv, mods: &Mods, s0: Subst, shape: &Shape, idxs: &Vec<IndexArg>, span: Span)
    -> (r: Result<(Subst, Shape, Shape), (TypeError, Span)>)
    ensures
        (final(ctx)@, idx_view(r)) == infer_idx_s(old(ctx)@, assoc_view(env@), mods_view(mods@), s0@, Seq::empty(), shape_view(shape@), shape@.len(), idxs@, span, 0),
    decreases idxs, 0nat, 0int,
{
    let ghost cx0 = ctx@;
    let ghost ss0 = s0@;
    let ghost rank = shape@.len();
    let mut s = s0;
    let mut res: Shape = Vec::new();
    let mut rem: Shape = super::model::copy_shape(shape.as_slice());
    let mut i: usize = 0;
    assert(shape_view(res@) =~= Seq::<SDim>::empty());
    while i < idxs.len()
        invariant
            i <= idxs.len(),
            cx0 == old(ctx)@,
            ss0 == s0@,
            rank == shape@.len(),
            infer_idx_s(cx0, assoc_view(env@), mods_view(mods@), ss0, Seq::empty(), shape_view(shape@), rank, idxs@, span, 0)
                == infer_idx_s(ctx@, assoc_view(env@), mods_view(mods@), s@, shape_view(res@), shape_view(rem@), rank, idxs@, span, i as int),
        decreases idxs.len() - i,
    {
        match &idxs[i] {
            IndexArg::Scalar(x) => {
                let env2 = apply_subst_env(&s, env);
                let (si, it) = match infer_inner(ctx, &env2, mods, x) {
                    Err(er) => return Err(er),
                    Ok(p) => p,
                };
                let s1 = compose(&si, &s);
                let a = apply_subst(&s1, &it);
                let int_ty = Type::int_();
                match unify(&mut ctx.counter, &a, &int_ty, UNIFY_DEPTH) {
                    Err(er) => return Err((er, x.1)),
                    Ok(su) => {
                        if rem.len() == 0 {
                            return Err((TypeError::IndexOutOfRank { rank: shape.len(), n_indices: idxs.len() }, span));
                        }
                        drop_first_dim(&mut rem);
                        s = compose(&su, &s1);
                    },
                }
            },
            IndexArg::Fancy(x) => {
                let env2 = apply_subst_env(&s, env);
                let (si, it) = match infer_inner(ctx, &env2, mods, x) {
                    Err(er) => return Err(er),
                    Ok(p) => p,
                };
                let s1 = compose(&si, &s);
                let rt = apply_subst(&s1, &it);
                match rt {
                    Type::Shaped(BaseType::Int, ish) => {
                        if rem.len() == 0 {
                            return Err((TypeError::IndexOutOfRank { rank: shape.len(), n_indices: idxs.len() }, span));
                        }
                        drop_first_dim(&mut rem);
                        res = append_shape(res, ish.as_slice());
                        s = s1;
                    },
                    other => {
                        let mut k = String::new();
                        crate::names::push_char(&mut k, 'k');
                        let mut sh: Shape = Vec::new();
                        sh.push(Dim::Var(k));
                        assert(shape_view(sh@) =~= seq![SDim::Var(seq!['k'])]);
                        return Err((TypeError::UnificationFail(Type::Shaped(BaseType::Int, sh), other), x.1));
                    },
                }
            },
            IndexArg::Slice(from, to) => {
                match (from, to) {
                    (Some(f), Some(t)) => {
                        let s4 = match infer_bounds(ctx, env, mods, s, &idxs[i]) {
                            Err(x) => return Err(x),
                            Ok(s4) => s4,
                        };
                        let d = slice_dim(ctx, &f.0, &t.0);
                        let ghost old_res = res@;
                        res.push(d);
                        assert(shape_view(res@) =~= shape_view(old_res).push(d@));
                        drop_first_dim(&mut rem);
                        s = s4;
                    },
                    _ => {
                        let d = ctx.fresh_dim();
                        let ghost old_res = res@;
                        res.push(d);
                        assert(shape_view(res@) =~= shape_view(old_res).push(d@));
                        drop_first_dim(&mut rem);
                    },
                }
            },
        }
        i += 1;
    }
    Ok((s, res, rem))
}

fn infer_index(ctx: &mut Ctx, env: &TypeEnv, mods: &Mods, e: &Spanned<Expr>) -> (r: Result<(Subst, Type), (TypeError, Span)>)
    requires
        e.0 is Index,
    ensures
        (final(ctx)@, ires_view(r)) == infer_index_s(old(ctx)@, assoc_view(env@), mods_view(mods@), *e),
    decreases e, 1nat, 0int,
{
    match &e.0 {
        Expr::Index(arr, idxs) => {
            let (s0, at) = match infer_inner(ctx, env, mods, arr) {
                Err(x) => return Err(x),
                Ok(p) => p,
            };
            let r = apply_subst(&s0, &at);
            match r {
                Type::Shaped(base, shape) => {
                    if idxs.len() > shape.len() {
                        return Err((TypeError::IndexOutOfRank { rank: shape.len(), n_indices: idxs.len() }, e.1));
                    }
                    let (s, res, rem) = match infer_idx(ctx, env, mods, s0, &shape, idxs, e.1) {
                        Err(x) => return Err(x),
                        Ok(p) => p,
                    };
                    Ok((s, Type::Shaped(base, append_shape(res, rem.as_slice()))))
                },
                other => Err((TypeError::NotAnArray(other), e.1)),
            }
        },
        _ => unreached(),
    }
}

} // verus!
