//! The type checker's entry points: inference of a whole expression, of its type
//! scheme, and the checking of a binding or an annotation against the
//! environment.

use vstd::prelude::*;
use crate::ast::{BlockItem, Expr, IndexArg, Span, Spanned, TypeExpr};
use super::annot::{te_s, type_expr_to_type};
use super::ctx::{inst_counter, inst_subst, type_map_types_view, Ctx, SCtx};
use super::env::{
    apply_env_s, apply_subst_env, fbv_env, fdv_env, ftv_env, generalize, generalize_s, lemma_apply_closed_env,
    lemma_generalize_quantifies_free, SEnv, TypeEnv,
};
use super::infer::{infer_inner, mods_view, Mods};
use super::infer_model::{
    all_desugared, branches_desugared, desugared, fields_desugared, idxs_desugared, infer_s,
    items_desugared, SMods,
};
use super::model::{
    assoc_view, lookup, s_empty_subst, InferError, SScheme, SSubst, STypeError, SType, Scheme,
    Subst, Type, TypeError, TypeMap,
};
use super::normalize::{normalize_s, normalize_ty};
use super::subst::{apply_s, apply_subst, assoc_get, ftv};
use super::unify::{unify, unify_s, UNIFY_DEPTH};

verus! {

/// The empty inference context.
pub open spec fn start_ctx() -> SCtx {
    SCtx { counter: 0, types: Seq::empty(), lifted: Seq::empty() }
}

/// Inference of `e` from a fresh context: the substitution, the type, each
/// node's type (by span) with the final substitution applied, and the spans of
/// the lifted applications; or the first error and its span.
pub open spec fn run_infer_s(env: SEnv, mods: SMods, e: Spanned<Expr>)
    -> Result<(SSubst, SType, Seq<(Span, SType)>, Seq<Span>), (STypeError, Span)> {
    let (cx, r) = infer_s(start_ctx(), env, mods, e);
    match r {
        Err(x) => Err(x),
        Ok((s, t)) => Ok((s, t, cx.types.map_values(|p: (Span, SType)| (p.0, apply_s(s, p.1))), cx.lifted)),
    }
}

/// The normalized type of `e`.
pub open spec fn infer_type_s(env: SEnv, mods: SMods, e: Spanned<Expr>) -> Result<SType, (STypeError, Span)> {
    match run_infer_s(env, mods, e) {
        Err(x) => Err(x),
        Ok(r) => Ok(normalize_s(apply_s(r.0, r.1))),
    }
}

/// The type scheme of `e`: its type generalized over the variables the
/// (substituted) environment does not mention.
pub open spec fn infer_scheme_s(env: SEnv, mods: SMods, e: Spanned<Expr>) -> Result<SScheme, (STypeError, Span)> {
    match run_infer_s(env, mods, e) {
        Err(x) => Err(x),
        Ok(r) => Ok(generalize_s(apply_env_s(r.0, env), apply_s(r.0, r.1))),
    }
}

/// The scheme inference gives an expression quantifies each type variable free in
/// its type and not free in the environment (as inference left it) exactly once;
/// when that environment has no free type variables, every free type variable of
/// the type.
pub proof fn lemma_infer_scheme_quantifies(env: SEnv, mods: SMods, e: Spanned<Expr>)
    ensures
        match run_infer_s(env, mods, e) {
            Ok(r) => {
                let sc = infer_scheme_s(env, mods, e)->Ok_0;
                let env1 = apply_env_s(r.0, env);
                &&& infer_scheme_s(env, mods, e) is Ok
                &&& sc.ty == apply_s(r.0, r.1)
                &&& sc.vars.to_set() == ftv(sc.ty).to_set().difference(ftv_env(env1).to_set())
                &&& sc.vars.no_duplicates()
                &&& (ftv_env(env1).len() == 0 ==> sc.vars.to_set() == ftv(sc.ty).to_set())
            },
            Err(x) => infer_scheme_s(env, mods, e) == Err::<SScheme, (STypeError, Span)>(x),
        },
{
    match run_infer_s(env, mods, e) {
        Ok(r) => lemma_generalize_quantifies_free(apply_env_s(r.0, env), apply_s(r.0, r.1)),
        Err(_) => {},
    }
}

/// In an environment where no scheme has a free variable of any kind, the
/// scheme inference gives an expression exists exactly when its type does, its
/// type normalizes to that type, and it quantifies every free type variable of
/// its type, each once.
pub proof fn lemma_infer_scheme_closed_env(env: SEnv, mods: SMods, e: Spanned<Expr>)
    requires
        ftv_env(env).len() == 0,
        fdv_env(env).len() == 0,
        fbv_env(env).len() == 0,
    ensures
        infer_scheme_s(env, mods, e) is Ok <==> infer_type_s(env, mods, e) is Ok,
        infer_scheme_s(env, mods, e) is Ok ==> normalize_s(infer_scheme_s(env, mods, e)->Ok_0.ty) == infer_type_s(env, mods, e)->Ok_0,
        infer_scheme_s(env, mods, e) is Err ==> infer_scheme_s(env, mods, e)->Err_0 == infer_type_s(env, mods, e)->Err_0,
        infer_scheme_s(env, mods, e) is Ok ==> {
            &&& infer_scheme_s(env, mods, e)->Ok_0.vars.to_set() == ftv(infer_scheme_s(env, mods, e)->Ok_0.ty).to_set()
            &&& infer_scheme_s(env, mods, e)->Ok_0.vars.no_duplicates()
        },
{
    lemma_infer_scheme_quantifies(env, mods, e);
    match run_infer_s(env, mods, e) {
        Ok(r) => lemma_apply_closed_env(r.0, env),
        Err(_) => {},
    }
}

pub open spec fn type_map_view(tm: TypeMap) -> (Seq<(Span, SType)>, Seq<Span>) {
    (type_map_types_view(tm.types@), tm.lifted_apps@)
}

pub open spec fn no_mods() -> SMods {
    Seq::empty()
}

/// Runs inference of `expr` with the modules in `mods` (a desugared expression:
/// the parser's output always is).
pub fn run_infer(env: &TypeEnv, mods: &Mods, expr: &Spanned<Expr>) -> (r: Result<(Subst, Type, TypeMap), InferError>)
    requires
        desugared(*expr),
    ensures
        match r {
            Ok(p) => run_infer_s(assoc_view(env@), mods_view(mods@), *expr)
                == Ok::<(SSubst, SType, Seq<(Span, SType)>, Seq<Span>), (STypeError, Span)>((p.0@, p.1@, type_map_view(p.2).0, type_map_view(p.2).1)),
            Err(ie) => run_infer_s(assoc_view(env@), mods_view(mods@), *expr)
                == Err::<(SSubst, SType, Seq<(Span, SType)>, Seq<Span>), (STypeError, Span)>((ie.kind@, ie.span)),
        },
{
    let mut ctx = Ctx::new();
    match infer_inner(&mut ctx, env, mods, expr) {
        Err((kind, span)) => Err(InferError { kind, span }),
        Ok((s, ty)) => {
            let ghost before = type_map_types_view(ctx.type_map.types@);
            let mut types: Vec<(Span, Type)> = Vec::new();
            let mut i: usize = 0;
            while i < ctx.type_map.types.len()
                invariant
                    i <= ctx.type_map.types.len(),
                    before == type_map_types_view(ctx.type_map.types@),
                    type_map_types_view(types@) == before.map_values(|p: (Span, SType)| (p.0, apply_s(s@, p.1))).subrange(0, i as int),
                decreases ctx.type_map.types.len() - i,
            {
                let t = apply_subst(&s, &ctx.type_map.types[i].1);
                let ghost old_types = types@;
                let sp = ctx.type_map.types[i].0;
                assert(before[i as int] == (sp, ctx.type_map.types@[i as int].1@));
                types.push((sp, t));
                assert(type_map_types_view(types@) =~= type_map_types_view(old_types).push((sp, t@)));
                assert(type_map_types_view(types@) =~= before.map_values(|p: (Span, SType)| (p.0, apply_s(s@, p.1))).subrange(0, i + 1));
                i += 1;
            }
            assert(before.map_values(|p: (Span, SType)| (p.0, apply_s(s@, p.1))).subrange(0, before.len() as int)
                =~= before.map_values(|p: (Span, SType)| (p.0, apply_s(s@, p.1))));
            let tm = TypeMap { types, lifted_apps: ctx.type_map.lifted_apps };
            Ok((s, ty, tm))
        },
    }
}

/// The normalized type of `expr` (no modules loaded).
pub fn infer(env: &TypeEnv, expr: &Spanned<Expr>) -> (r: Result<Type, InferError>)
    requires
        desugared(*expr),
    ensures
        match r {
            Ok(t) => infer_type_s(assoc_view(env@), no_mods(), *expr) == Ok::<SType, (STypeError, Span)>(t@),
            Err(ie) => infer_type_s(assoc_view(env@), no_mods(), *expr) == Err::<SType, (STypeError, Span)>((ie.kind@, ie.span)),
        },
{
    let mods: Mods = Vec::new();
    assert(mods_view(mods@) =~= no_mods());
    match run_infer(env, &mods, expr) {
        Err(e) => Err(e),
        Ok((s, ty, _)) => Ok(normalize_ty(apply_subst(&s, &ty))),
    }
}

/// Like [`infer`], with the type of every node.
pub fn infer_with_map(env: &TypeEnv, expr: &Spanned<Expr>) -> (r: Result<(Type, TypeMap), InferError>)
    requires
        desugared(*expr),
    ensures
        match r {
            Ok(p) => infer_type_s(assoc_view(env@), no_mods(), *expr) == Ok::<SType, (STypeError, Span)>(p.0@)
                && run_infer_s(assoc_view(env@), no_mods(), *expr) is Ok
                && type_map_view(p.1) == (run_infer_s(assoc_view(env@), no_mods(), *expr)->Ok_0.2, run_infer_s(assoc_view(env@), no_mods(), *expr)->Ok_0.3),
            Err(ie) => infer_type_s(assoc_view(env@), no_mods(), *expr) == Err::<SType, (STypeError, Span)>((ie.kind@, ie.span)),
        },
{
    let mods: Mods = Vec::new();
    assert(mods_view(mods@) =~= no_mods());
    infer_in(env, &mods, expr)
}

/// The normalized type of `expr` and the type of every node, with the modules
/// in `mods` loaded (the host reads, checks and evaluates each imported file).
pub fn infer_in(env: &TypeEnv, mods: &Mods, expr: &Spanned<Expr>) -> (r: Result<(Type, TypeMap), InferError>)
    requires
        desugared(*expr),
    ensures
        match r {
            Ok(p) => infer_type_s(assoc_view(env@), mods_view(mods@), *expr) == Ok::<SType, (STypeError, Span)>(p.0@)
                && run_infer_s(assoc_view(env@), mods_view(mods@), *expr) is Ok
                && type_map_view(p.1) == (run_infer_s(assoc_view(env@), mods_view(mods@), *expr)->Ok_0.2, run_infer_s(assoc_view(env@), mods_view(mods@), *expr)->Ok_0.3),
            Err(ie) => infer_type_s(assoc_view(env@), mods_view(mods@), *expr) == Err::<SType, (STypeError, Span)>((ie.kind@, ie.span)),
        },
{
    match run_infer(env, mods, expr) {
        Err(e) => Err(e),
        Ok((s, ty, tm)) => Ok((normalize_ty(apply_subst(&s, &ty)), tm)),
    }
}

/// The type scheme of `expr` (no modules loaded).
pub fn infer_scheme(env: &TypeEnv, expr: &Spanned<Expr>) -> (r: Result<Scheme, InferError>)
    requires
        desugared(*expr),
    ensures
        match r {
            Ok(sc) => infer_scheme_s(assoc_view(env@), no_mods(), *expr) == Ok::<SScheme, (STypeError, Span)>(sc@),
            Err(ie) => infer_scheme_s(assoc_view(env@), no_mods(), *expr) == Err::<SScheme, (STypeError, Span)>((ie.kind@, ie.span)),
        },
{
    let mods: Mods = Vec::new();
    assert(mods_view(mods@) =~= no_mods());
    match run_infer(env, &mods, expr) {
        Err(e) => Err(e),
        Ok((s, ty, _)) => {
            let env2 = apply_subst_env(&s, env);
            let t = apply_subst(&s, &ty);
            Ok(generalize(&env2, &t))
        },
    }
}

/// Like [`infer_scheme`], with the type of every node.
pub fn infer_scheme_with_map(env: &TypeEnv, expr: &Spanned<Expr>) -> (r: Result<(Scheme, TypeMap), InferError>)
    requires
        desugared(*expr),
    ensures
        match r {
            Ok(p) => infer_scheme_s(assoc_view(env@), no_mods(), *expr) == Ok::<SScheme, (STypeError, Span)>(p.0@)
                && run_infer_s(assoc_view(env@), no_mods(), *expr) is Ok
                && type_map_view(p.1) == (run_infer_s(assoc_view(env@), no_mods(), *expr)->Ok_0.2, run_infer_s(assoc_view(env@), no_mods(), *expr)->Ok_0.3),
            Err(ie) => infer_scheme_s(assoc_view(env@), no_mods(), *expr) == Err::<SScheme, (STypeError, Span)>((ie.kind@, ie.span)),
        },
{
    let mods: Mods = Vec::new();
    assert(mods_view(mods@) =~= no_mods());
    infer_scheme_in(env, &mods, expr)
}

/// The type scheme of `expr` and the type of every node, with the modules in
/// `mods` loaded.
pub fn infer_scheme_in(env: &TypeEnv, mods: &Mods, expr: &Spanned<Expr>) -> (r: Result<(Scheme, TypeMap), InferError>)
    requires
        desugared(*expr),
    ensures
        match r {
            Ok(p) => infer_scheme_s(assoc_view(env@), mods_view(mods@), *expr) == Ok::<SScheme, (STypeError, Span)>(p.0@)
                && run_infer_s(assoc_view(env@), mods_view(mods@), *expr) is Ok
                && type_map_view(p.1) == (run_infer_s(assoc_view(env@), mods_view(mods@), *expr)->Ok_0.2, run_infer_s(assoc_view(env@), mods_view(mods@), *expr)->Ok_0.3),
            Err(ie) => infer_scheme_s(assoc_view(env@), mods_view(mods@), *expr) == Err::<SScheme, (STypeError, Span)>((ie.kind@, ie.span)),
        },
{
    match run_infer(env, mods, expr) {
        Err(e) => Err(e),
        Ok((s, ty, tm)) => {
            let env2 = apply_subst_env(&s, env);
            let t = apply_subst(&s, &ty);
            Ok((generalize(&env2, &t), tm))
        },
    }
}

// ── Bindings and annotations ──────────────────────────────────────────────────

/// `ty` checked against the scheme `name` already has in `env` (instantiated
/// from counter `c`): the unifier and `ty` under it; anything goes for a new name.
pub open spec fn constrain_s(c: u64, env: SEnv, name: Seq<char>, ty: SType) -> Result<(SSubst, SType), STypeError> {
    match lookup(env, name) {
        Some(ex) => {
            let et = apply_s(inst_subst(c, ex), ex.ty);
            match unify_s(inst_counter(c, ex), ty, et, UNIFY_DEPTH as nat).1 {
                Err(e) => Err(e),
                Ok(s) => Ok((s, apply_s(s, ty))),
            }
        },
        None => Ok((s_empty_subst(), ty)),
    }
}

fn constrain_against_existing(ctx: &mut Ctx, env: &TypeEnv, name: &String, ty: &Type) -> (r: Result<(Subst, Type), TypeError>)
    ensures
        match r {
            Ok(p) => constrain_s(old(ctx)@.counter, assoc_view(env@), name@, ty@) == Ok::<(SSubst, SType), STypeError>((p.0@, p.1@)),
            Err(e) => constrain_s(old(ctx)@.counter, assoc_view(env@), name@, ty@) == Err::<(SSubst, SType), STypeError>(e@),
        },
{
    match assoc_get(env, name) {
        Some(existing) => {
            let existing_ty = ctx.instantiate(existing);
            match unify(&mut ctx.counter, ty, &existing_ty, UNIFY_DEPTH) {
                Err(e) => Err(e),
                Ok(s) => {
                    let resolved = apply_subst(&s, ty);
                    Ok((s, resolved))
                },
            }
        },
        None => Ok((Subst::new(), ty.dup())),
    }
}

/// The scheme a binding of `name` gets: its inferred scheme, instantiated,
/// constrained by the scheme `name` already has, generalized again.
pub open spec fn enforce_binding_s(env: SEnv, name: Seq<char>, inferred: SScheme) -> Result<SScheme, STypeError> {
    let t = apply_s(inst_subst(0, inferred), inferred.ty);
    match constrain_s(inst_counter(0, inferred), env, name, t) {
        Err(e) => Err(e),
        Ok((s, resolved)) => Ok(generalize_s(apply_env_s(s, env), resolved)),
    }
}

/// Checks a new binding of `name` with scheme `inferred` against the scheme
/// `name` already has in `env`, if any.
pub fn enforce_binding(env: &TypeEnv, name: &str, inferred: Scheme) -> (r: Result<Scheme, TypeError>)
    ensures
        match r {
            Ok(sc) => enforce_binding_s(assoc_view(env@), name@, inferred@) == Ok::<SScheme, STypeError>(sc@),
            Err(e) => enforce_binding_s(assoc_view(env@), name@, inferred@) == Err::<SScheme, STypeError>(e@),
        },
{
    let mut ctx = Ctx::new();
    let inferred_ty = ctx.instantiate(&inferred);
    let nm = name.to_owned();
    match constrain_against_existing(&mut ctx, env, &nm, &inferred_ty) {
        Err(e) => Err(e),
        Ok((s, resolved)) => {
            let env2 = apply_subst_env(&s, env);
            Ok(generalize(&env2, &resolved))
        },
    }
}

/// The scheme an annotation `name : te` gives `name`.
pub open spec fn apply_ann_s(env: SEnv, name: Seq<char>, te: TypeExpr) -> Result<SScheme, STypeError> {
    match constrain_s(0, env, name, te_s(te, 0).0) {
        Err(e) => Err(e),
        Ok((s, resolved)) => Ok(generalize_s(apply_env_s(s, env), resolved)),
    }
}

/// Checks the annotation `name : te` against the scheme `name` already has in
/// `env`, if any, and gives the scheme it establishes.
pub fn apply_ann(env: &TypeEnv, name: &str, te: &TypeExpr) -> (r: Result<Scheme, TypeError>)
    ensures
        match r {
            Ok(sc) => apply_ann_s(assoc_view(env@), name@, *te) == Ok::<SScheme, STypeError>(sc@),
            Err(e) => apply_ann_s(assoc_view(env@), name@, *te) == Err::<SScheme, STypeError>(e@),
        },
{
    let mut ctx = Ctx::new();
    let mut rc: usize = 0;
    let ann_ty = type_expr_to_type(te, &mut rc);
    let nm = name.to_owned();
    match constrain_against_existing(&mut ctx, env, &nm, &ann_ty) {
        Err(e) => Err(e),
        Ok((s, resolved)) => {
            let env2 = apply_subst_env(&s, env);
            Ok(generalize(&env2, &resolved))
        },
    }
}

// ── Desugaring check ──────────────────────────────────────────────────────────

/// Whether every block of `e` is free of monadic binds (see [`desugared`]).
pub fn is_desugared(e: &Spanned<Expr>) -> (r: bool)
    ensures
        r == desugared(*e),
    decreases e, 1nat, 0int,
{
    match &e.0 {
        Expr::Var(_) | Expr::Lit(_) | Expr::Import(_) => true,
        Expr::Lam(_, b) => is_desugared(b),
        Expr::App(f, args) => is_desugared(f) && all_is_desugared(args),
        Expr::Block(items, b) => items_is_desugared(items) && is_desugared(b),
        Expr::Record(fs) => fields_is_desugared(fs),
        Expr::Field(x, _) => is_desugared(x),
        Expr::Tag(_, p) => match p {
            Some(x) => is_desugared(x),
            None => true,
        },
        Expr::When(x, bs, o) => {
            is_desugared(x) && branches_is_desugared(bs) && match o {
                Some(ob) => is_desugared(ob),
                None => true,
            }
        },
        Expr::List(es) => all_is_desugared(es),
        Expr::Index(x, idxs) => is_desugared(x) && idxs_is_desugared(idxs),
    }
}

fn all_is_desugared(es: &Vec<Spanned<Expr>>) -> (r: bool)
    ensures
        r == all_desugared(es@, 0),
    decreases es, 0nat, 0int,
{
    let mut i: usize = 0;
    while i < es.len()
        invariant
            i <= es.len(),
            all_desugared(es@, 0) == all_desugared(es@, i as int),
        decreases es.len() - i,
    {
        if !is_desugared(&es[i]) {
            return false;
        }
        i += 1;
    }
    true
}

fn fields_is_desugared(fs: &Vec<(String, Spanned<Expr>)>) -> (r: bool)
    ensures
        r == fields_desugared(fs@, 0),
    decreases fs, 0nat, 0int,
{
    let mut i: usize = 0;
    while i < fs.len()
        invariant
            i <= fs.len(),
            fields_desugared(fs@, 0) == fields_desugared(fs@, i as int),
        decreases fs.len() - i,
    {
        if !is_desugared(&fs[i].1) {
            return false;
        }
        i += 1;
    }
    true
}

fn branches_is_desugared(bs: &Vec<(String, Option<String>, Box<Spanned<Expr>>)>) -> (r: bool)
    ensures
        r == branches_desugared(bs@, 0),
    decreases bs, 0nat, 0int,
{
    let mut i: usize = 0;
    while i < bs.len()
        invariant
            i <= bs.len(),
            branches_desugared(bs@, 0) == branches_desugared(bs@, i as int),
        decreases bs.len() - i,
    {
        if !is_desugared(&bs[i].2) {
            return false;
        }
        i += 1;
    }
    true
}

fn items_is_desugared(items: &Vec<BlockItem>) -> (r: bool)
    ensures
        r == items_desugared(items@, 0),
    decreases items, 0nat, 0int,
{
    let mut i: usize = 0;
    while i < items.len()
        invariant
            i <= items.len(),
            items_desugared(items@, 0) == items_desugared(items@, i as int),
        decreases items.len() - i,
    {
        let ok = match &items[i] {
            BlockItem::Bind(_, x) => is_desugared(x),
            BlockItem::Ann(_, _) => true,
            BlockItem::MonadicBind(_, _) => false,
        };
        if !ok {
            return false;
        }
        i += 1;
    }
    true
}

fn idxs_is_desugared(idxs: &Vec<IndexArg>) -> (r: bool)
    ensures
        r == idxs_desugared(idxs@, 0),
    decreases idxs, 0nat, 0int,
{
    let mut i: usize = 0;
    while i < idxs.len()
        invariant
            i <= idxs.len(),
            idxs_desugared(idxs@, 0) == idxs_desugared(idxs@, i as int),
        decreases idxs.len() - i,
    {
        let ok = match &idxs[i] {
            IndexArg::Scalar(x) => is_desugared(x),
            IndexArg::Fancy(x) => is_desugared(x),
            IndexArg::Slice(f, t) => {
                (match f {
                    Some(x) => is_desugared(x),
                    None => true,
                }) && (match t {
                    Some(x) => is_desugared(x),
                    None => true,
                })
            },
        };
        if !ok {
            return false;
        }
        i += 1;
    }
    true
}

} // verus!
