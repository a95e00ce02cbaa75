//! The model of Algorithm W as this type checker runs it: for a context (fresh-name
//! counter and node-type map), an environment, the table of loaded modules and an
//! expression, the context afterwards and the substitution and type inferred, or
//! the first error with the span it is reported at.

use vstd::prelude::*;
use crate::ast::{BlockItem, Expr, IndexArg, Lit, Span, Spanned};
use super::annot::te_s;
use super::ctx::{adv, gen_name, inst_counter, inst_subst, next_c, SCtx};
use super::env::{apply_env_s, env_insert_s, generalize_s, SEnv};
use super::lift::{equal_rank_mismatch_s, try_lift_s};
use super::model::{
    lookup, s_empty_subst, s_f64, s_fun, s_int, s_scalar, s_str, s_unit, SBase, SDim, SScheme,
    SSubst, STypeError, SType,
};
use super::subst::{apply_s, compose_s};
use super::unify::{bind_type_s, single_dim_s, unify_s, UNIFY_DEPTH};

verus! {

/// Model of an inference outcome.
pub type IRes = Result<(SSubst, SType), (STypeError, Span)>;

/// Model of the table of loaded modules: path, and the module's type or the
/// message of why it could not be loaded.
pub type SMods = Seq<(Seq<char>, Result<SType, Seq<char>>)>;

pub open spec fn set_counter(cx: SCtx, c: u64) -> SCtx {
    SCtx { counter: c, ..cx }
}

pub open spec fn fresh_var(c: u64) -> SType {
    SType::Var(gen_name('t', c))
}

/// `n` fresh type variables from counter `c`.
pub open spec fn fresh_vars_s(c: u64, n: nat) -> Seq<SType> {
    Seq::new(n, |j: int| fresh_var(adv(c, j as nat)))
}

pub open spec fn mono_s(t: SType) -> SScheme {
    SScheme { vars: Seq::empty(), dim_vars: Seq::empty(), base_vars: Seq::empty(), ty: t }
}

pub open spec fn apply_all_s(s: SSubst, ts: Seq<SType>) -> Seq<SType> {
    ts.map_values(|t: SType| apply_s(s, t))
}

/// The first field named `k`.
pub open spec fn find_field(fs: Seq<(Seq<char>, SType)>, k: Seq<char>) -> Option<SType>
    decreases fs.len(),
{
    if fs.len() == 0 {
        None
    } else if fs[0].0 == k {
        Some(fs[0].1)
    } else {
        find_field(fs.drop_first(), k)
    }
}

/// Looking up a field finds it by name: the type given is that of the first
/// entry with exactly the name asked for, and there is none exactly when no entry
/// has that name.
pub proof fn lemma_find_field_by_name(fs: Seq<(Seq<char>, SType)>, k: Seq<char>)
    ensures
        find_field(fs, k) is None <==> forall|i: int| 0 <= i < fs.len() ==> #[trigger] fs[i].0 != k,
        find_field(fs, k) is Some ==> exists|i: int| 0 <= i < fs.len() && #[trigger] fs[i].0 == k
            && fs[i].1 == find_field(fs, k)->Some_0
            && forall|j: int| 0 <= j < i ==> #[trigger] fs[j].0 != k,
    decreases fs.len(),
{
    if fs.len() > 0 {
        let rest = fs.drop_first();
        lemma_find_field_by_name(rest, k);
        if fs[0].0 == k {
            assert(fs[0].0 == k);
        } else {
            assert forall|i: int| 0 < i < fs.len() implies fs[i] == #[trigger] rest[i - 1] by {}
            if find_field(fs, k) is Some {
                let i = choose|i: int| 0 <= i < rest.len() && #[trigger] rest[i].0 == k
                    && rest[i].1 == find_field(rest, k)->Some_0
                    && forall|j: int| 0 <= j < i ==> #[trigger] rest[j].0 != k;
                assert(fs[i + 1] == rest[i]);
                assert forall|j: int| 0 <= j < i + 1 implies #[trigger] fs[j].0 != k by {
                    if j > 0 {
                        assert(fs[j] == rest[j - 1]);
                    }
                }
            } else {
                assert forall|i: int| 0 <= i < fs.len() implies #[trigger] fs[i].0 != k by {
                    if i > 0 {
                        assert(fs[i] == rest[i - 1]);
                    }
                }
            }
            if forall|i: int| 0 <= i < fs.len() ==> #[trigger] fs[i].0 != k {
                assert forall|i: int| 0 <= i < rest.len() implies #[trigger] rest[i].0 != k by {
                    assert(fs[i + 1] == rest[i]);
                }
            }
        }
    }
}

/// The message for an import whose module is not in the table.
pub open spec fn not_loaded_msg(path: Seq<char>) -> Seq<char> {
    path + ": module not loaded"@
}

// ── Inputs ────────────────────────────────────────────────────────────────────

/// Every block of the expression is desugared: it holds no monadic bind (the
/// parser rewrites those into `then` applications).
pub open spec fn desugared(e: Spanned<Expr>) -> bool
    decreases e, 1nat, 0int,
{
    match e.0 {
        Expr::Var(_) | Expr::Lit(_) | Expr::Import(_) => true,
        Expr::Lam(_, b) => desugared(*b),
        Expr::App(f, args) => desugared(*f) && all_desugared(args@, 0),
        Expr::Block(items, b) => items_desugared(items@, 0) && desugared(*b),
        Expr::Record(fs) => fields_desugared(fs@, 0),
        Expr::Field(x, _) => desugared(*x),
        Expr::Tag(_, p) => match p {
            Some(x) => desugared(*x),
            None => true,
        },
        Expr::When(x, bs, o) => desugared(*x) && branches_desugared(bs@, 0) && match o {
            Some(ob) => desugared(*ob),
            None => true,
        },
        Expr::List(es) => all_desugared(es@, 0),
        Expr::Index(x, idxs) => desugared(*x) && idxs_desugared(idxs@, 0),
    }
}

pub open spec fn all_desugared(es: Seq<Spanned<Expr>>, i: int) -> bool
    decreases es, 0nat, es.len() - i,
{
    if i < 0 || i >= es.len() { true } else { desugared(es[i]) && all_desugared(es, i + 1) }
}

pub open spec fn fields_desugared(fs: Seq<(String, Spanned<Expr>)>, i: int) -> bool
    decreases fs, 0nat, fs.len() - i,
{
    if i < 0 || i >= fs.len() { true } else { desugared(fs[i].1) && fields_desugared(fs, i + 1) }
}

pub open spec fn items_desugared(items: Seq<BlockItem>, i: int) -> bool
    decreases items, 0nat, items.len() - i,
{
    if i < 0 || i >= items.len() {
        true
    } else {
        match items[i] {
            BlockItem::Bind(_, x) => desugared(x) && items_desugared(items, i + 1),
            BlockItem::Ann(_, _) => items_desugared(items, i + 1),
            BlockItem::MonadicBind(_, _) => false,
        }
    }
}

pub open spec fn branches_desugared(bs: Seq<(String, Option<String>, Box<Spanned<Expr>>)>, i: int) -> bool
    decreases bs, 0nat, bs.len() - i,
{
    if i < 0 || i >= bs.len() { true } else { desugared(*bs[i].2) && branches_desugared(bs, i + 1) }
}

pub open spec fn idxs_desugared(idxs: Seq<IndexArg>, i: int) -> bool
    decreases idxs, 0nat, idxs.len() - i,
{
    if i < 0 || i >= idxs.len() {
        true
    } else {
        (match idxs[i] {
            IndexArg::Scalar(x) => desugared(x),
            IndexArg::Fancy(x) => desugared(x),
            IndexArg::Slice(f, t) => (match f {
                Some(x) => desugared(x),
                None => true,
            }) && (match t {
                Some(x) => desugared(x),
                None => true,
            }),
        }) && idxs_desugared(idxs, i + 1)
    }
}

// ── Algorithm W ───────────────────────────────────────────────────────────────

/// Inference of `e`; on success its type, with the substitution applied, is
/// recorded for its span.
pub open spec fn infer_s(cx: SCtx, env: SEnv, mods: SMods, e: Spanned<Expr>) -> (SCtx, IRes)
    decreases e, 3nat, 0int,
{
    let (cx1, r) = infer_impl_s(cx, env, mods, e);
    match r {
        Ok(p) => (SCtx { types: cx1.types.push((e.1, apply_s(p.0, p.1))), ..cx1 }, r),
        Err(_) => (cx1, r),
    }
}

pub open spec fn infer_impl_s(cx: SCtx, env: SEnv, mods: SMods, e: Spanned<Expr>) -> (SCtx, IRes)
    decreases e, 2nat, 0int,
{
    match e.0 {
        Expr::Lit(l) => (cx, Ok((s_empty_subst(), match l {
            Lit::Int(_) => s_int(),
            Lit::Float(_) => s_f64(),
            Lit::Str(_) => s_str(),
        }))),
        Expr::Var(name) => match lookup(env, name@) {
            None => (cx, Err((STypeError::UnboundVar(name@), e.1))),
            Some(sc) => (
                set_counter(cx, inst_counter(cx.counter, sc)),
                Ok((s_empty_subst(), apply_s(inst_subst(cx.counter, sc), sc.ty))),
            ),
        },
        Expr::Import(path) => match lookup(mods, path@) {
            Some(Ok(t)) => (cx, Ok((s_empty_subst(), t))),
            Some(Err(m)) => (cx, Err((STypeError::ModuleError(m), e.1))),
            None => (cx, Err((STypeError::ModuleError(not_loaded_msg(path@)), e.1))),
        },
        Expr::Lam(_, _) => infer_lam_s(cx, env, mods, e),
        Expr::App(_, _) => infer_app_s(cx, env, mods, e),
        Expr::Record(_) => infer_record_s(cx, env, mods, e),
        Expr::Field(_, _) => infer_field_s(cx, env, mods, e),
        Expr::Tag(_, _) => infer_tag_s(cx, env, mods, e),
        Expr::When(_, _, _) => infer_when_s(cx, env, mods, e),
        Expr::List(_) => infer_list_s(cx, env, mods, e),
        Expr::Block(_, _) => infer_block_s(cx, env, mods, e),
        Expr::Index(_, _) => infer_index_s(cx, env, mods, e),
    }
}

// ── Lambdas ───────────────────────────────────────────────────────────────────

/// `env` with the parameters from `i` on bound to fresh variables from `c`.
pub open spec fn lam_env_s(env: SEnv, ps: Seq<String>, c: u64, i: int) -> SEnv
    decreases ps.len() - i,
{
    if i < 0 || i >= ps.len() {
        env
    } else {
        lam_env_s(env_insert_s(env, ps[i]@, mono_s(fresh_var(c))), ps, next_c(c), i + 1)
    }
}

/// A lambda: each parameter a fresh variable, then the body.
pub open spec fn infer_lam_s(cx: SCtx, env: SEnv, mods: SMods, e: Spanned<Expr>) -> (SCtx, IRes)
    decreases e, 1nat, 0int,
{
    match e.0 {
        Expr::Lam(ps, body) => {
            let n = ps@.len();
            let c0 = cx.counter;
            let (cx1, r) = infer_s(set_counter(cx, adv(c0, n)), lam_env_s(env, ps@, c0, 0), mods, *body);
            match r {
                Err(x) => (cx1, Err(x)),
                Ok((s, bt)) => (cx1, Ok((s, s_fun(apply_all_s(s, fresh_vars_s(c0, n)), bt)))),
            }
        },
        _ => (cx, Ok((s_empty_subst(), s_int()))),
    }
}

// ── Applications ──────────────────────────────────────────────────────────────

/// The arguments from `i` on, each under the substitution found so far.
pub open spec fn infer_args_s(cx: SCtx, env: SEnv, mods: SMods, s: SSubst, tys: Seq<SType>, args: Seq<Spanned<Expr>>, i: int)
    -> (SCtx, Result<(SSubst, Seq<SType>), (STypeError, Span)>)
    decreases args, 0nat, args.len() - i,
{
    if i < 0 || i >= args.len() {
        (cx, Ok((s, tys)))
    } else {
        let (cx1, r) = infer_s(cx, apply_env_s(s, env), mods, args[i]);
        match r {
            Err(x) => (cx1, Err(x)),
            Ok((sa, t)) => infer_args_s(cx1, env, mods, compose_s(sa, s), tys.push(t), args, i + 1),
        }
    }
}

/// After the function and the arguments: lifting when it applies; otherwise an
/// argument of its parameter's nonzero rank whose shape does not unify with the
/// parameter's is an inner mismatch, and else the function type is unified with
/// `args -> ret` (with `ret` alone for no arguments).
pub open spec fn app_finish_s(cx: SCtx, s: SSubst, f_ty: SType, tys: Seq<SType>, ret: SType, span: Span) -> (SCtx, IRes) {
    let f_cur = apply_s(s, f_ty);
    let tys_s = apply_all_s(s, tys);
    let (c1, lr) = if tys.len() > 0 {
        try_lift_s(cx.counter, f_cur, tys_s)
    } else {
        (cx.counter, Ok(None))
    };
    match lr {
        Err(er) => (set_counter(cx, c1), Err((er, span))),
        Ok(Some((sl, rt))) => {
            let sf = compose_s(sl, s);
            (SCtx { counter: c1, lifted: cx.lifted.push(span), ..cx }, Ok((sf, apply_s(sf, rt))))
        },
        Ok(None) => match equal_rank_mismatch_s(f_cur, tys_s) {
            Some(er) => (set_counter(cx, c1), Err((er, span))),
            None => {
                let expected = if tys.len() == 0 { apply_s(s, ret) } else { s_fun(tys_s, apply_s(s, ret)) };
                let (c2, u) = unify_s(c1, f_cur, expected, UNIFY_DEPTH as nat);
                match u {
                    Err(er) => (set_counter(cx, c2), Err((er, span))),
                    Ok(su) => {
                        let sf = compose_s(su, s);
                        (set_counter(cx, c2), Ok((sf, apply_s(sf, ret))))
                    },
                }
            },
        },
    }
}

/// The names under which the standard environment binds list concatenation.
pub open spec fn concat_name(n: Seq<char>) -> bool {
    n == "concat"@ || n == "<>"@ || n == "append"@
}

/// A call of list concatenation on two arguments.
pub open spec fn concat_call(f: Spanned<Expr>, nargs: int) -> bool {
    nargs == 2 && match f.0 {
        Expr::Var(n) => concat_name(n@),
        _ => false,
    }
}

/// The last dimension of a type's shape, if it has one.
pub open spec fn last_dim(t: SType) -> Option<SDim> {
    match t {
        SType::Shaped(_, sh) => if sh.len() > 0 { Some(sh.last()) } else { None },
        SType::Var(_) => None,
    }
}

/// The length of a concatenation: when both argument lengths (their last
/// dimensions, under `s`) are literals `m` and `n`, a result length that is still a
/// variable becomes the literal `m + n`; any other argument length is an error.
pub open spec fn concat_dims_s(s: SSubst, a: SType, b: SType, t: SType) -> Result<(SSubst, SType), STypeError> {
    match (last_dim(apply_s(s, a)), last_dim(apply_s(s, b))) {
        (Some(SDim::Nat(m)), Some(SDim::Nat(n))) => {
            if m + n > u64::MAX {
                Err(STypeError::DimArithmeticRequiresLiterals)
            } else {
                match last_dim(t) {
                    Some(SDim::Var(k)) => {
                        let s1 = single_dim_s(k, SDim::Nat((m + n) as u64));
                        Ok((compose_s(s1, s), apply_s(s1, t)))
                    },
                    _ => Ok((s, t)),
                }
            }
        },
        _ => Err(STypeError::DimArithmeticRequiresLiterals),
    }
}

pub open spec fn infer_app_s(cx: SCtx, env: SEnv, mods: SMods, e: Spanned<Expr>) -> (SCtx, IRes)
    decreases e, 1nat, 0int,
{
    match e.0 {
        Expr::App(f, args) => {
            let ret = fresh_var(cx.counter);
            let (cx1, r0) = infer_s(set_counter(cx, next_c(cx.counter)), env, mods, *f);
            match r0 {
                Err(x) => (cx1, Err(x)),
                Ok((s0, f_ty)) => {
                    let (cx2, ra) = infer_args_s(cx1, env, mods, s0, Seq::empty(), args@, 0);
                    match ra {
                        Err(x) => (cx2, Err(x)),
                        Ok((s, tys)) => {
                            let (cx3, r3) = app_finish_s(cx2, s, f_ty, tys, ret, e.1);
                            match r3 {
                                Ok((sf, t)) => if concat_call(*f, tys.len() as int) {
                                    match concat_dims_s(sf, tys[0], tys[1], t) {
                                        Ok(p) => (cx3, Ok(p)),
                                        Err(er) => (cx3, Err((er, e.1))),
                                    }
                                } else {
                                    (cx3, Ok((sf, t)))
                                },
                                Err(x) => (cx3, Err(x)),
                            }
                        },
                    }
                },
            }
        },
        _ => (cx, Ok((s_empty_subst(), s_int()))),
    }
}

// ── Records, fields, tags ─────────────────────────────────────────────────────

pub open spec fn infer_rfields_s(
    cx: SCtx,
    env: SEnv,
    mods: SMods,
    s: SSubst,
    fts: Seq<(Seq<char>, SType)>,
    fs: Seq<(String, Spanned<Expr>)>,
    i: int,
) -> (SCtx, Result<(SSubst, Seq<(Seq<char>, SType)>), (STypeError, Span)>)
    decreases fs, 0nat, fs.len() - i,
{
    if i < 0 || i >= fs.len() {
        (cx, Ok((s, fts)))
    } else {
        let (cx1, r) = infer_s(cx, apply_env_s(s, env), mods, fs[i].1);
        match r {
            Err(x) => (cx1, Err(x)),
            Ok((s1, t)) => infer_rfields_s(cx1, env, mods, compose_s(s1, s), fts.push((fs[i].0@, t)), fs, i + 1),
        }
    }
}

/// A record literal is a closed record of its fields' types.
pub open spec fn infer_record_s(cx: SCtx, env: SEnv, mods: SMods, e: Spanned<Expr>) -> (SCtx, IRes)
    decreases e, 1nat, 0int,
{
    match e.0 {
        Expr::Record(fs) => {
            let (cx1, r) = infer_rfields_s(cx, env, mods, s_empty_subst(), Seq::empty(), fs@, 0);
            match r {
                Err(x) => (cx1, Err(x)),
                Ok((s, fts)) => (cx1, Ok((s, s_scalar(SBase::Record(fts, None))))),
            }
        },
        _ => (cx, Ok((s_empty_subst(), s_int()))),
    }
}

/// `row` (or a type variable `v`) extended by the field `name` of a fresh type,
/// with a fresh row after it.
pub open spec fn extend_row_s(cx: SCtx, s: SSubst, v: Seq<char>, name: Seq<char>, span: Span) -> (SCtx, IRes) {
    let c = cx.counter;
    let ft = fresh_var(c);
    let ext = s_scalar(SBase::Record(seq![(name, ft)], Some(gen_name('t', next_c(c)))));
    let cx2 = set_counter(cx, next_c(next_c(c)));
    match bind_type_s(v, ext) {
        Err(er) => (cx2, Err((er, span))),
        Ok(su) => (cx2, Ok((compose_s(su, s), ft))),
    }
}

/// Field access on a value of (substituted) type `ty`.
pub open spec fn field_finish_s(cx: SCtx, s: SSubst, ty: SType, name: Seq<char>, span: Span) -> (SCtx, IRes) {
    match ty {
        SType::Var(v) => extend_row_s(cx, s, v, name, span),
        SType::Shaped(SBase::Record(fields, row), sh) => if sh.len() == 0 {
            match find_field(fields, name) {
                Some(ft) => (cx, Ok((s, ft))),
                None => match row {
                    Some(r) => extend_row_s(cx, s, r, name, span),
                    None => (cx, Err((STypeError::NoSuchField(name, ty), span))),
                },
            }
        } else {
            (cx, Err((STypeError::NotARecord(ty), span)))
        },
        _ => (cx, Err((STypeError::NotARecord(ty), span))),
    }
}

pub open spec fn infer_field_s(cx: SCtx, env: SEnv, mods: SMods, e: Spanned<Expr>) -> (SCtx, IRes)
    decreases e, 1nat, 0int,
{
    match e.0 {
        Expr::Field(x, name) => {
            let (cx1, r) = infer_s(cx, env, mods, *x);
            match r {
                Err(er) => (cx1, Err(er)),
                Ok((s, xt)) => field_finish_s(cx1, s, apply_s(s, xt), name@, e.1),
            }
        },
        _ => (cx, Ok((s_empty_subst(), s_int()))),
    }
}

/// A tag is an open union of that one tag with its payload's type (unit without one).
pub open spec fn infer_tag_s(cx: SCtx, env: SEnv, mods: SMods, e: Spanned<Expr>) -> (SCtx, IRes)
    decreases e, 1nat, 0int,
{
    match e.0 {
        Expr::Tag(name, payload) => {
            let (cx1, r) = match payload {
                Some(p) => infer_s(cx, env, mods, *p),
                None => (cx, Ok((s_empty_subst(), s_unit()))),
            };
            match r {
                Err(er) => (cx1, Err(er)),
                Ok((s, pt)) => (
                    set_counter(cx1, next_c(cx1.counter)),
                    Ok((s, s_scalar(SBase::Union(seq![(name@, pt)], Some(gen_name('t', cx1.counter)))))),
                ),
            }
        },
        _ => (cx, Ok((s_empty_subst(), s_int()))),
    }
}

// ── When ──────────────────────────────────────────────────────────────────────

/// The scrutinee's type is a union closed by its row.
/// Some branch handles tag `tag`.
pub open spec fn has_branch(bs: Seq<(String, Option<String>, Box<Spanned<Expr>>)>, tag: Seq<char>) -> bool {
    exists|k: int| 0 <= k < bs.len() && #[trigger] bs[k].0@ == tag
}

/// Every tag of `tags` from `i` on has a branch.
pub open spec fn all_handled(tags: Seq<(Seq<char>, SType)>, bs: Seq<(String, Option<String>, Box<Spanned<Expr>>)>, i: int) -> bool
    decreases tags.len() - i,
{
    if i < 0 || i >= tags.len() {
        true
    } else {
        has_branch(bs, tags[i].0) && all_handled(tags, bs, i + 1)
    }
}

/// An `otherwise` is dead when the scrutinee is a closed union every tag of
/// which has a branch.
pub open spec fn dead_otherwise(t: SType, bs: Seq<(String, Option<String>, Box<Spanned<Expr>>)>) -> bool {
    match t {
        SType::Shaped(SBase::Union(tags, row), _) => row is None && all_handled(tags, bs, 0),
        _ => false,
    }
}

pub open spec fn branch_tags_s(bs: Seq<(String, Option<String>, Box<Spanned<Expr>>)>, ptys: Seq<SType>) -> Seq<(Seq<char>, SType)> {
    Seq::new(bs.len(), |j: int| (bs[j].0@, ptys[j]))
}

/// The branches from `i` on: a binding gets the payload's type, a branch without
/// one requires a unit payload; each body must agree with `ret`.
pub open spec fn infer_branches_s(
    cx: SCtx,
    env: SEnv,
    mods: SMods,
    s: SSubst,
    ret: SType,
    ptys: Seq<SType>,
    bs: Seq<(String, Option<String>, Box<Spanned<Expr>>)>,
    span: Span,
    i: int,
) -> (SCtx, Result<SSubst, (STypeError, Span)>)
    decreases bs, 0nat, bs.len() - i,
{
    if i < 0 || i >= bs.len() {
        (cx, Ok(s))
    } else {
        let env2 = apply_env_s(s, env);
        let (c1, pre) = match bs[i].1 {
            Some(b) => (cx.counter, Ok((env_insert_s(env2, b@, mono_s(apply_s(s, ptys[i]))), s))),
            None => {
                let (c1, u) = unify_s(cx.counter, apply_s(s, ptys[i]), s_unit(), UNIFY_DEPTH as nat);
                (c1, match u {
                    Err(er) => Err((er, span)),
                    Ok(su) => Ok((env2, compose_s(su, s))),
                })
            },
        };
        match pre {
            Err(x) => (set_counter(cx, c1), Err(x)),
            Ok((env3, s1)) => {
                let (cx2, rb) = infer_s(set_counter(cx, c1), env3, mods, *bs[i].2);
                match rb {
                    Err(x) => (cx2, Err(x)),
                    Ok((sb, bt)) => {
                        let s2 = compose_s(sb, s1);
                        let (c3, u) = unify_s(cx2.counter, apply_s(s2, bt), apply_s(s2, ret), UNIFY_DEPTH as nat);
                        match u {
                            Err(er) => (set_counter(cx2, c3), Err((er, bs[i].2.1))),
                            Ok(su) => infer_branches_s(set_counter(cx2, c3), env, mods, compose_s(su, s2), ret, ptys, bs, span, i + 1),
                        }
                    },
                }
            },
        }
    }
}

/// The `otherwise` body, which must agree with `ret` too.
pub open spec fn otherwise_s(cx: SCtx, env: SEnv, mods: SMods, s: SSubst, ret: SType, ob: Spanned<Expr>) -> (SCtx, IRes)
    decreases ob, 3nat, 1int,
{
    let (cx1, r) = infer_s(cx, apply_env_s(s, env), mods, ob);
    match r {
        Err(x) => (cx1, Err(x)),
        Ok((sb, bt)) => {
            let s1 = compose_s(sb, s);
            let (c2, u) = unify_s(cx1.counter, apply_s(s1, bt), apply_s(s1, ret), UNIFY_DEPTH as nat);
            match u {
                Err(er) => (set_counter(cx1, c2), Err((er, ob.1))),
                Ok(su) => {
                    let s2 = compose_s(su, s1);
                    (set_counter(cx1, c2), Ok((s2, apply_s(s2, ret))))
                },
            }
        },
    }
}

/// `when`: the scrutinee must be a union of the branches' tags (open when there is
/// an `otherwise`, which is then dead if the union turns out closed).
pub open spec fn infer_when_s(cx: SCtx, env: SEnv, mods: SMods, e: Spanned<Expr>) -> (SCtx, IRes)
    decreases e, 1nat, 0int,
{
    match e.0 {
        Expr::When(scrut, bs, otherwise) => {
            let (cx1, r0) = infer_s(cx, env, mods, *scrut);
            match r0 {
                Err(x) => (cx1, Err(x)),
                Ok((s0, st)) => when_rest_s(cx1, env, mods, e, s0, st),
            }
        },
        _ => (cx, Ok((s_empty_subst(), s_int()))),
    }
}

/// The union a `when` expects of its scrutinee, from counter `c`: the counter
/// after it, the result variable, the payload variables and the union.
pub open spec fn when_union_s(c: u64, bs: Seq<(String, Option<String>, Box<Spanned<Expr>>)>, open_row: bool) -> (u64, SType, Seq<SType>, SType) {
    let ret = fresh_var(c);
    let ptys = fresh_vars_s(next_c(c), bs.len());
    let c2 = adv(next_c(c), bs.len());
    let tags = branch_tags_s(bs, ptys);
    if open_row {
        (next_c(c2), ret, ptys, s_scalar(SBase::Union(tags, Some(gen_name('t', c2)))))
    } else {
        (c2, ret, ptys, s_scalar(SBase::Union(tags, None)))
    }
}

/// After the scrutinee (substitution `s0`, type `st`): its union, the branches
/// and the `otherwise` body.
pub open spec fn when_rest_s(cx1: SCtx, env: SEnv, mods: SMods, e: Spanned<Expr>, s0: SSubst, st: SType) -> (SCtx, IRes)
    decreases e, 0nat, 1int,
{
    match e.0 {
        Expr::When(_, bs, otherwise) => {
            let (c3, ret, ptys, u_ty) = when_union_s(cx1.counter, bs@, otherwise is Some);
            let (c4, u) = unify_s(c3, apply_s(s0, st), u_ty, UNIFY_DEPTH as nat);
            match u {
                Err(er) => (set_counter(cx1, c4), Err((er, e.1))),
                Ok(su) => when_tail_s(set_counter(cx1, c4), env, mods, e, compose_s(su, s0), st, ret, ptys),
            }
        },
        _ => (cx1, Ok((s_empty_subst(), s_int()))),
    }
}

/// Once the scrutinee is known to be the union: the dead-`otherwise` check, the
/// branches and the `otherwise` body.
pub open spec fn when_tail_s(cx: SCtx, env: SEnv, mods: SMods, e: Spanned<Expr>, s: SSubst, st: SType, ret: SType, ptys: Seq<SType>) -> (SCtx, IRes)
    decreases e, 0nat, 0int,
{
    match e.0 {
        Expr::When(_, bs, otherwise) => if otherwise is Some && dead_otherwise(apply_s(s, st), bs@) {
            (cx, Err((STypeError::DeadOtherwise, e.1)))
        } else {
            let (cx5, rb) = infer_branches_s(cx, env, mods, s, ret, ptys, bs@, e.1, 0);
            match rb {
                Err(x) => (cx5, Err(x)),
                Ok(s5) => match otherwise {
                    None => (cx5, Ok((s5, apply_s(s5, ret)))),
                    Some(ob) => otherwise_s(cx5, env, mods, s5, ret, *ob),
                },
            }
        },
        _ => (cx, Ok((s_empty_subst(), s_int()))),
    }
}

// ── Lists ─────────────────────────────────────────────────────────────────────

pub open spec fn infer_elems_s(cx: SCtx, env: SEnv, mods: SMods, s: SSubst, et: SType, es: Seq<Spanned<Expr>>, i: int)
    -> (SCtx, Result<SSubst, (STypeError, Span)>)
    decreases es, 0nat, es.len() - i,
{
    if i < 0 || i >= es.len() {
        (cx, Ok(s))
    } else {
        let (cx1, r) = infer_s(cx, apply_env_s(s, env), mods, es[i]);
        match r {
            Err(x) => (cx1, Err(x)),
            Ok((se, te)) => {
                let s1 = compose_s(se, s);
                let (c2, u) = unify_s(cx1.counter, apply_s(s1, te), apply_s(s1, et), UNIFY_DEPTH as nat);
                match u {
                    Err(er) => (set_counter(cx1, c2), Err((er, es[i].1))),
                    Ok(su) => infer_elems_s(set_counter(cx1, c2), env, mods, compose_s(su, s1), et, es, i + 1),
                }
            },
        }
    }
}

/// A list literal of `n` elements of one type `T[..]` is `T[n, ..]`; with an
/// unconstrained element type its element is a fresh base variable.
pub open spec fn infer_list_s(cx: SCtx, env: SEnv, mods: SMods, e: Spanned<Expr>) -> (SCtx, IRes)
    decreases e, 1nat, 0int,
{
    match e.0 {
        Expr::List(es) => {
            let c = cx.counter;
            let et = fresh_var(c);
            let (cx1, r) = infer_elems_s(set_counter(cx, next_c(c)), env, mods, s_empty_subst(), et, es@, 0);
            match r {
                Err(x) => (cx1, Err(x)),
                Ok(s) => {
                    let n = es@.len() as u64;
                    match apply_s(s, et) {
                        SType::Shaped(b, inner) => (cx1, Ok((s, SType::Shaped(b, seq![SDim::Nat(n)] + inner)))),
                        SType::Var(_) => (
                            set_counter(cx1, next_c(cx1.counter)),
                            Ok((s, SType::Shaped(SBase::Var(gen_name('b', cx1.counter)), seq![SDim::Nat(n)]))),
                        ),
                    }
                },
            }
        },
        _ => (cx, Ok((s_empty_subst(), s_int()))),
    }
}

// ── Blocks ────────────────────────────────────────────────────────────────────

/// The items of a block from `i` on, threading the block's environment, the
/// substitution and the annotation row counter.
pub open spec fn infer_items_s(
    cx: SCtx,
    mods: SMods,
    env2: SEnv,
    s: SSubst,
    rc: usize,
    items: Seq<BlockItem>,
    span: Span,
    i: int,
) -> (SCtx, Result<(SEnv, SSubst), (STypeError, Span)>)
    decreases items, 1nat, items.len() - i,
{
    if i < 0 || i >= items.len() {
        (cx, Ok((env2, s)))
    } else {
        let (cx1, r) = item_step_s(cx, mods, env2, s, rc, items, span, i);
        match r {
            Err(x) => (cx1, Err(x)),
            Ok((env4, s3, rc1, more)) => if more {
                infer_items_s(cx1, mods, env4, s3, rc1, items, span, i + 1)
            } else {
                (cx1, Ok((env4, s3)))
            },
        }
    }
}

/// One block item: the environment, substitution and row counter after it, and
/// whether the items go on (a monadic bind, which a desugared block never
/// holds, ends them).
pub open spec fn item_step_s(
    cx: SCtx,
    mods: SMods,
    env2: SEnv,
    s: SSubst,
    rc: usize,
    items: Seq<BlockItem>,
    span: Span,
    i: int,
) -> (SCtx, Result<(SEnv, SSubst, usize, bool), (STypeError, Span)>)
    decreases items, 0nat, 0int,
{
    if i < 0 || i >= items.len() {
        (cx, Ok((env2, s, rc, false)))
    } else {
        match items[i] {
            BlockItem::Bind(name, x) => {
                let env3 = apply_env_s(s, env2);
                let (cx1, r) = infer_s(cx, env3, mods, x);
                match r {
                    Err(er) => (cx1, Err(er)),
                    Ok((s1, ty)) => {
                        let (c2, rs2) = match lookup(env3, name@) {
                            Some(ex) => {
                                let ext = apply_s(inst_subst(cx1.counter, ex), ex.ty);
                                let (c2, u) = unify_s(inst_counter(cx1.counter, ex), apply_s(s1, ty), ext, UNIFY_DEPTH as nat);
                                (c2, match u {
                                    Err(er) => Err((er, x.1)),
                                    Ok(su) => Ok(compose_s(su, s1)),
                                })
                            },
                            None => (cx1.counter, Ok(s1)),
                        };
                        match rs2 {
                            Err(er) => (set_counter(cx1, c2), Err(er)),
                            Ok(s2) => {
                                let scheme = generalize_s(apply_env_s(s2, env2), apply_s(s2, ty));
                                let s3 = compose_s(s2, s);
                                let env4 = env_insert_s(apply_env_s(s3, env2), name@, scheme);
                                (set_counter(cx1, c2), Ok((env4, s3, rc, true)))
                            },
                        }
                    },
                }
            },
            BlockItem::Ann(name, te) => {
                let (ann, rc1) = te_s(te, rc);
                let env3 = apply_env_s(s, env2);
                match lookup(env3, name@) {
                    Some(ex) => {
                        let c0 = cx.counter;
                        let ext = apply_s(inst_subst(c0, ex), ex.ty);
                        let (c1, u) = unify_s(inst_counter(c0, ex), ext, ann, UNIFY_DEPTH as nat);
                        match u {
                            Err(er) => (set_counter(cx, c1), Err((er, span))),
                            Ok(s1) => {
                                let s2 = compose_s(s1, s);
                                let env4 = apply_env_s(s2, env2);
                                let scheme = generalize_s(apply_env_s(s2, env4), apply_s(s2, ann));
                                (set_counter(cx, c1), Ok((env_insert_s(env4, name@, scheme), s2, rc1, true)))
                            },
                        }
                    },
                    None => (cx, Ok((env_insert_s(env2, name@, generalize_s(env3, ann)), s, rc1, true))),
                }
            },
            BlockItem::MonadicBind(_, _) => (cx, Ok((env2, s, rc, false))),
        }
    }
}

/// A block: its items in order, then its body in the environment they built.
pub open spec fn infer_block_s(cx: SCtx, env: SEnv, mods: SMods, e: Spanned<Expr>) -> (SCtx, IRes)
    decreases e, 1nat, 0int,
{
    match e.0 {
        Expr::Block(items, body) => {
            let (cx1, r) = infer_items_s(cx, mods, env, s_empty_subst(), 0, items@, e.1, 0);
            match r {
                Err(x) => (cx1, Err(x)),
                Ok((env2, s)) => {
                    let (cx2, rb) = infer_s(cx1, apply_env_s(s, env2), mods, *body);
                    match rb {
                        Err(x) => (cx2, Err(x)),
                        Ok((s2, bt)) => (cx2, Ok((compose_s(s2, s), bt))),
                    }
                },
            }
        },
        _ => (cx, Ok((s_empty_subst(), s_int()))),
    }
}

// ── Indexing ──────────────────────────────────────────────────────────────────

pub open spec fn drop1(rem: Seq<SDim>) -> Seq<SDim> {
    if rem.len() == 0 { rem } else { rem.drop_first() }
}

/// The dimension a slice `a:b` produces: `b - a` for two integer literals
/// (wrapping, as the `i64` subtraction and cast do), a fresh variable otherwise.
pub open spec fn slice_dim_s(c: u64, f: Expr, t: Expr) -> (u64, SDim) {
    match (f, t) {
        (Expr::Lit(Lit::Int(a)), Expr::Lit(Lit::Int(b))) => (c, SDim::Nat(vstd::wrapping::i64_specs::wrapping_sub(b, a) as u64)),
        _ => (next_c(c), SDim::Var(gen_name('d', c))),
    }
}

pub open spec fn ioor(rank: nat, n: nat) -> STypeError {
    STypeError::IndexOutOfRank { rank: rank as usize, n_indices: n as usize }
}

/// Both bounds of a slice `f:t`, each an `Int`.
pub open spec fn infer_bounds_s(cx: SCtx, env: SEnv, mods: SMods, s: SSubst, ia: IndexArg)
    -> (SCtx, Result<SSubst, (STypeError, Span)>)
    decreases ia, 3nat, 1int,
{
    match ia {
        IndexArg::Slice(Some(f), Some(t)) => {
            let (cx1, r1) = infer_s(cx, apply_env_s(s, env), mods, f);
            match r1 {
                Err(x) => (cx1, Err(x)),
                Ok((sf, ft)) => {
                    let s1 = compose_s(sf, s);
                    let (c2, u1) = unify_s(cx1.counter, apply_s(s1, ft), s_int(), UNIFY_DEPTH as nat);
                    match u1 {
                        Err(er) => (set_counter(cx1, c2), Err((er, f.1))),
                        Ok(su1) => infer_upper_s(set_counter(cx1, c2), env, mods, compose_s(su1, s1), t),
                    }
                },
            }
        },
        _ => (cx, Ok(s)),
    }
}

pub open spec fn infer_upper_s(cx: SCtx, env: SEnv, mods: SMods, s: SSubst, t: Spanned<Expr>)
    -> (SCtx, Result<SSubst, (STypeError, Span)>)
    decreases t, 3nat, 1int,
{
    let (cx3, r2) = infer_s(cx, apply_env_s(s, env), mods, t);
    match r2 {
        Err(x) => (cx3, Err(x)),
        Ok((st, tt)) => {
            let s3 = compose_s(st, s);
            let (c4, u2) = unify_s(cx3.counter, apply_s(s3, tt), s_int(), UNIFY_DEPTH as nat);
            match u2 {
                Err(er) => (set_counter(cx3, c4), Err((er, t.1))),
                Ok(su2) => (set_counter(cx3, c4), Ok(compose_s(su2, s3))),
            }
        },
    }
}

/// The indices from `i` on, consuming the remaining dimensions `rem` and
/// collecting the result's leading dimensions in `res`.
pub open spec fn infer_idx_s(
    cx: SCtx,
    env: SEnv,
    mods: SMods,
    s: SSubst,
    res: Seq<SDim>,
    rem: Seq<SDim>,
    rank: nat,
    idxs: Seq<IndexArg>,
    span: Span,
    i: int,
) -> (SCtx, Result<(SSubst, Seq<SDim>, Seq<SDim>), (STypeError, Span)>)
    decreases idxs, 0nat, idxs.len() - i,
{
    if i < 0 || i >= idxs.len() {
        (cx, Ok((s, res, rem)))
    } else {
        match idxs[i] {
            IndexArg::Scalar(x) => {
                let (cx1, r) = infer_s(cx, apply_env_s(s, env), mods, x);
                match r {
                    Err(er) => (cx1, Err(er)),
                    Ok((si, it)) => {
                        let s1 = compose_s(si, s);
                        let (c2, u) = unify_s(cx1.counter, apply_s(s1, it), s_int(), UNIFY_DEPTH as nat);
                        match u {
                            Err(er) => (set_counter(cx1, c2), Err((er, x.1))),
                            Ok(su) => if rem.len() == 0 {
                                (set_counter(cx1, c2), Err((ioor(rank, idxs.len()), span)))
                            } else {
                                infer_idx_s(set_counter(cx1, c2), env, mods, compose_s(su, s1), res, rem.drop_first(), rank, idxs, span, i + 1)
                            },
                        }
                    },
                }
            },
            IndexArg::Fancy(x) => {
                let (cx1, r) = infer_s(cx, apply_env_s(s, env), mods, x);
                match r {
                    Err(er) => (cx1, Err(er)),
                    Ok((si, it)) => {
                        let s1 = compose_s(si, s);
                        match apply_s(s1, it) {
                            SType::Shaped(SBase::Int, ish) => if rem.len() == 0 {
                                (cx1, Err((ioor(rank, idxs.len()), span)))
                            } else {
                                infer_idx_s(cx1, env, mods, s1, res + ish, rem.drop_first(), rank, idxs, span, i + 1)
                            },
                            other => (cx1, Err((
                                STypeError::UnificationFail(SType::Shaped(SBase::Int, seq![SDim::Var(seq!['k'])]), other),
                                x.1,
                            ))),
                        }
                    },
                }
            },
            IndexArg::Slice(from, to) => match (from, to) {
                (Some(f), Some(t)) => {
                    let (cx1, r) = infer_bounds_s(cx, env, mods, s, idxs[i]);
                    match r {
                        Err(x) => (cx1, Err(x)),
                        Ok(s4) => {
                            let (c5, d) = slice_dim_s(cx1.counter, f.0, t.0);
                            infer_idx_s(set_counter(cx1, c5), env, mods, s4, res.push(d), drop1(rem), rank, idxs, span, i + 1)
                        },
                    }
                },
                _ => infer_idx_s(
                    set_counter(cx, next_c(cx.counter)),
                    env,
                    mods,
                    s,
                    res.push(SDim::Var(gen_name('d', cx.counter))),
                    drop1(rem),
                    rank,
                    idxs,
                    span,
                    i + 1,
                ),
            },
        }
    }
}

/// Indexing an array `T[d1, ..]`: at most rank many indices; a scalar index
/// drops a dimension, a gather by `Int[k..]` replaces it by `k..`, a slice by
/// its length.
pub open spec fn infer_index_s(cx: SCtx, env: SEnv, mods: SMods, e: Spanned<Expr>) -> (SCtx, IRes)
    decreases e, 1nat, 0int,
{
    match e.0 {
        Expr::Index(arr, idxs) => {
            let (cx1, r) = infer_s(cx, env, mods, *arr);
            match r {
                Err(x) => (cx1, Err(x)),
                Ok((s0, at)) => match apply_s(s0, at) {
                    SType::Shaped(base, shape) => if idxs@.len() > shape.len() {
                        (cx1, Err((ioor(shape.len(), idxs@.len()), e.1)))
                    } else {
                        let (cx2, ri) = infer_idx_s(cx1, env, mods, s0, Seq::empty(), shape, shape.len(), idxs@, e.1, 0);
                        match ri {
                            Err(x) => (cx2, Err(x)),
                            Ok((s, res, rem)) => (cx2, Ok((s, SType::Shaped(base, res + rem)))),
                        }
                    },
                    other => (cx1, Err((STypeError::NotAnArray(other), e.1))),
                },
            }
        },
        _ => (cx, Ok((s_empty_subst(), s_int()))),
    }
}

// ── Desugaring facts ──────────────────────────────────────────────────────────

pub open spec fn item_ok(it: BlockItem) -> bool {
    match it {
        BlockItem::Bind(_, x) => desugared(x),
        BlockItem::Ann(_, _) => true,
        BlockItem::MonadicBind(_, _) => false,
    }
}

pub open spec fn idx_ok(ia: IndexArg) -> bool {
    match ia {
        IndexArg::Scalar(x) => desugared(x),
        IndexArg::Fancy(x) => desugared(x),
        IndexArg::Slice(f, t) => (match f {
            Some(x) => desugared(x),
            None => true,
        }) && (match t {
            Some(x) => desugared(x),
            None => true,
        }),
    }
}

pub proof fn lemma_all_desugared(es: Seq<Spanned<Expr>>, i: int)
    requires
        0 <= i <= es.len(),
    ensures
        all_desugared(es, i) <==> forall|j: int| i <= j < es.len() ==> desugared(#[trigger] es[j]),
    decreases es.len() - i,
{
    if i < es.len() {
        lemma_all_desugared(es, i + 1);
    }
}

pub proof fn lemma_fields_desugared(fs: Seq<(String, Spanned<Expr>)>, i: int)
    requires
        0 <= i <= fs.len(),
    ensures
        fields_desugared(fs, i) <==> forall|j: int| i <= j < fs.len() ==> desugared(#[trigger] fs[j].1),
    decreases fs.len() - i,
{
    if i < fs.len() {
        lemma_fields_desugared(fs, i + 1);
    }
}

pub proof fn lemma_items_desugared(items: Seq<BlockItem>, i: int)
    requires
        0 <= i <= items.len(),
    ensures
        items_desugared(items, i) <==> forall|j: int| i <= j < items.len() ==> item_ok(#[trigger] items[j]),
    decreases items.len() - i,
{
    if i < items.len() {
        lemma_items_desugared(items, i + 1);
    }
}

pub proof fn lemma_branches_desugared(bs: Seq<(String, Option<String>, Box<Spanned<Expr>>)>, i: int)
    requires
        0 <= i <= bs.len(),
    ensures
        branches_desugared(bs, i) <==> forall|j: int| i <= j < bs.len() ==> desugared(*(#[trigger] bs[j]).2),
    decreases bs.len() - i,
{
    if i < bs.len() {
        lemma_branches_desugared(bs, i + 1);
    }
}

pub proof fn lemma_idxs_desugared(idxs: Seq<IndexArg>, i: int)
    requires
        0 <= i <= idxs.len(),
    ensures
        idxs_desugared(idxs, i) <==> forall|j: int| i <= j < idxs.len() ==> idx_ok(#[trigger] idxs[j]),
    decreases idxs.len() - i,
{
    if i < idxs.len() {
        lemma_idxs_desugared(idxs, i + 1);
    }
}

} // verus!
