//! Type environments, schemes, generalization.

use vstd::prelude::*;
use super::model::{assoc_view, copy_names, copy_string, lookup, names_view, SScheme, SSubst, SType, Scheme, Subst, Type};
use super::subst::{
    apply_s, apply_subst, fbv, fbv_into, fdv_type, fdv_type_into, ftv, ftv_into, lemma_apply_binds_none,
    names_contain,
};

verus! {

/// A type environment: each name's scheme. Names are unique (insertion replaces).
pub type TypeEnv = Vec<(String, Scheme)>;

/// Model of a type environment.
pub type SEnv = Seq<(Seq<char>, SScheme)>;

/// `s` without the entries whose names are listed in `ks`.
pub open spec fn remove_keys<T>(s: Seq<(Seq<char>, T)>, ks: Seq<Seq<char>>) -> Seq<(Seq<char>, T)>
    decreases s.len(),
{
    if s.len() == 0 {
        Seq::empty()
    } else {
        let rest = remove_keys(s.drop_last(), ks);
        if ks.contains(s.last().0) { rest } else { rest.push(s.last()) }
    }
}

/// The part of `s` that a scheme's quantified variables do not shadow.
pub open spec fn subst_without(s: SSubst, sc: SScheme) -> SSubst {
    SSubst {
        types: remove_keys(s.types, sc.vars),
        dims: remove_keys(s.dims, sc.dim_vars),
        bases: remove_keys(s.bases, sc.base_vars),
    }
}

/// `s` applied to a scheme: its quantified variables are left alone.
pub open spec fn apply_scheme_s(s: SSubst, sc: SScheme) -> SScheme {
    SScheme { ty: apply_s(subst_without(s, sc), sc.ty), ..sc }
}

/// `s` applied to every scheme of an environment.
pub open spec fn apply_env_s(s: SSubst, env: SEnv) -> SEnv {
    env.map_values(|p: (Seq<char>, SScheme)| (p.0, apply_scheme_s(s, p.1)))
}

/// `env` with `k` bound to `sc` (replacing any earlier binding of `k`).
pub open spec fn env_insert_s(env: SEnv, k: Seq<char>, sc: SScheme) -> SEnv {
    remove_keys(env, seq![k]).push((k, sc))
}

/// The elements of `xs` not in `excl`, each once, in order of first occurrence.
pub open spec fn dedup_without(xs: Seq<Seq<char>>, excl: Seq<Seq<char>>) -> Seq<Seq<char>>
    decreases xs.len(),
{
    if xs.len() == 0 {
        Seq::empty()
    } else {
        let r = dedup_without(xs.drop_last(), excl);
        if excl.contains(xs.last()) || r.contains(xs.last()) { r } else { r.push(xs.last()) }
    }
}

/// The elements of `xs` not in `excl` (repeats kept).
pub open spec fn without(xs: Seq<Seq<char>>, excl: Seq<Seq<char>>) -> Seq<Seq<char>>
    decreases xs.len(),
{
    if xs.len() == 0 {
        Seq::empty()
    } else {
        let r = without(xs.drop_last(), excl);
        if excl.contains(xs.last()) { r } else { r.push(xs.last()) }
    }
}

pub open spec fn ftv_scheme(sc: SScheme) -> Seq<Seq<char>> {
    without(ftv(sc.ty), sc.vars)
}

pub open spec fn fdv_scheme(sc: SScheme) -> Seq<Seq<char>> {
    without(fdv_type(sc.ty), sc.dim_vars)
}

pub open spec fn fbv_scheme(sc: SScheme) -> Seq<Seq<char>> {
    without(fbv(sc.ty), sc.base_vars)
}

/// The free type variables of an environment.
pub open spec fn ftv_env(env: SEnv) -> Seq<Seq<char>>
    decreases env.len(),
{
    if env.len() == 0 { Seq::empty() } else { ftv_env(env.drop_last()) + ftv_scheme(env.last().1) }
}

pub open spec fn fdv_env(env: SEnv) -> Seq<Seq<char>>
    decreases env.len(),
{
    if env.len() == 0 { Seq::empty() } else { fdv_env(env.drop_last()) + fdv_scheme(env.last().1) }
}

pub open spec fn fbv_env(env: SEnv) -> Seq<Seq<char>>
    decreases env.len(),
{
    if env.len() == 0 { Seq::empty() } else { fbv_env(env.drop_last()) + fbv_scheme(env.last().1) }
}

/// The scheme that quantifies every variable of `ty` not free in `env`.
pub open spec fn generalize_s(env: SEnv, ty: SType) -> SScheme {
    SScheme {
        vars: dedup_without(ftv(ty), ftv_env(env)),
        dim_vars: dedup_without(fdv_type(ty), fdv_env(env)),
        base_vars: dedup_without(fbv(ty), fbv_env(env)),
        ty,
    }
}

/// The elements `dedup_without` keeps are those of `xs` not in `excl`, each once.
pub proof fn lemma_dedup_without(xs: Seq<Seq<char>>, excl: Seq<Seq<char>>)
    ensures
        dedup_without(xs, excl).to_set() == xs.to_set().difference(excl.to_set()),
        dedup_without(xs, excl).no_duplicates(),
    decreases xs.len(),
{
    if xs.len() > 0 {
        let r = dedup_without(xs.drop_last(), excl);
        lemma_dedup_without(xs.drop_last(), excl);
        assert(xs =~= xs.drop_last().push(xs.last()));
        assert(xs.to_set() =~= xs.drop_last().to_set().insert(xs.last())) by {
            assert forall|x: Seq<char>| xs.to_set().contains(x) <==> xs.drop_last().to_set().insert(xs.last()).contains(x) by {
                if xs.to_set().contains(x) {
                    let i = choose|i: int| 0 <= i < xs.len() && xs[i] == x;
                    if i < xs.len() - 1 {
                        assert(xs.drop_last()[i] == x);
                    }
                }
                if xs.drop_last().to_set().contains(x) {
                    let i = choose|i: int| 0 <= i < xs.drop_last().len() && xs.drop_last()[i] == x;
                    assert(xs[i] == x);
                }
                if x == xs.last() {
                    assert(xs[xs.len() - 1] == x);
                }
            }
        }
        if excl.contains(xs.last()) || r.contains(xs.last()) {
            assert(dedup_without(xs, excl).to_set() =~= xs.to_set().difference(excl.to_set())) by {
                if r.contains(xs.last()) {
                    assert(r.to_set().contains(xs.last()));
                }
            }
        } else {
            assert(r.push(xs.last()).to_set() =~= r.to_set().insert(xs.last())) by {
                assert forall|x: Seq<char>| r.push(xs.last()).to_set().contains(x) <==> r.to_set().insert(xs.last()).contains(x) by {
                    if r.push(xs.last()).to_set().contains(x) {
                        let i = choose|i: int| 0 <= i < r.push(xs.last()).len() && r.push(xs.last())[i] == x;
                        if i < r.len() {
                            assert(r[i] == x);
                        }
                    }
                    if r.to_set().contains(x) {
                        let i = choose|i: int| 0 <= i < r.len() && r[i] == x;
                        assert(r.push(xs.last())[i] == x);
                    }
                    if x == xs.last() {
                        assert(r.push(xs.last())[r.len() as int] == x);
                    }
                }
            }
            assert(!excl.to_set().contains(xs.last()));
            assert(dedup_without(xs, excl).to_set() =~= xs.to_set().difference(excl.to_set()));
            assert forall|i: int, j: int| 0 <= i < r.push(xs.last()).len() && 0 <= j < r.push(xs.last()).len() && i != j
                implies r.push(xs.last())[i] != r.push(xs.last())[j] by {
                if i < r.len() && j < r.len() {
                } else if i == r.len() {
                    assert(r[j] == r.push(xs.last())[j]);
                } else {
                    assert(r[i] == r.push(xs.last())[i]);
                }
            }
        }
    }
}

/// Generalization quantifies exactly the variables free in the type and not free
/// in the environment, each once (type, dimension and base variables alike). In
/// an environment with no free variables, every free variable of the type is
/// quantified.
pub proof fn lemma_generalize_quantifies_free(env: SEnv, ty: SType)
    ensures
        generalize_s(env, ty).vars.to_set() == ftv(ty).to_set().difference(ftv_env(env).to_set()),
        generalize_s(env, ty).dim_vars.to_set() == fdv_type(ty).to_set().difference(fdv_env(env).to_set()),
        generalize_s(env, ty).base_vars.to_set() == fbv(ty).to_set().difference(fbv_env(env).to_set()),
        generalize_s(env, ty).vars.no_duplicates(),
        generalize_s(env, ty).dim_vars.no_duplicates(),
        generalize_s(env, ty).base_vars.no_duplicates(),
        generalize_s(env, ty).ty == ty,
        ftv_env(env).len() == 0 ==> generalize_s(env, ty).vars.to_set() == ftv(ty).to_set(),
{
    lemma_dedup_without(ftv(ty), ftv_env(env));
    lemma_dedup_without(fdv_type(ty), fdv_env(env));
    lemma_dedup_without(fbv(ty), fbv_env(env));
    if ftv_env(env).len() == 0 {
        assert(ftv_env(env).to_set() =~= Set::<Seq<char>>::empty());
        assert(ftv(ty).to_set().difference(Set::<Seq<char>>::empty()) =~= ftv(ty).to_set());
    }
}

proof fn lemma_without_empty(xs: Seq<Seq<char>>, excl: Seq<Seq<char>>)
    requires
        without(xs, excl).len() == 0,
    ensures
        forall|i: int| 0 <= i < xs.len() ==> excl.contains(#[trigger] xs[i]),
    decreases xs.len(),
{
    if xs.len() > 0 {
        let r = without(xs.drop_last(), excl);
        assert(excl.contains(xs.last()));
        lemma_without_empty(xs.drop_last(), excl);
        assert forall|i: int| 0 <= i < xs.len() implies excl.contains(#[trigger] xs[i]) by {
            if i < xs.len() - 1 {
                assert(xs.drop_last()[i] == xs[i]);
            }
        }
    }
}

proof fn lemma_remove_keys_none<T>(m: Seq<(Seq<char>, T)>, ks: Seq<Seq<char>>, k: Seq<char>)
    requires
        ks.contains(k),
    ensures
        lookup(remove_keys(m, ks), k) is None,
    decreases m.len(),
{
    if m.len() > 0 {
        lemma_remove_keys_none(m.drop_last(), ks, k);
        let rest = remove_keys(m.drop_last(), ks);
        if !ks.contains(m.last().0) {
            assert(rest.push(m.last()).drop_last() =~= rest);
            assert(m.last().0 != k);
        }
    }
}

/// A scheme with no free variable of any kind is left alone by every substitution.
pub proof fn lemma_apply_closed_scheme(s: SSubst, sc: SScheme)
    requires
        ftv_scheme(sc).len() == 0,
        fdv_scheme(sc).len() == 0,
        fbv_scheme(sc).len() == 0,
    ensures
        apply_scheme_s(s, sc) == sc,
{
    let s2 = subst_without(s, sc);
    lemma_without_empty(ftv(sc.ty), sc.vars);
    lemma_without_empty(fdv_type(sc.ty), sc.dim_vars);
    lemma_without_empty(fbv(sc.ty), sc.base_vars);
    assert forall|i: int| 0 <= i < ftv(sc.ty).len() implies lookup(s2.types, #[trigger] ftv(sc.ty)[i]) is None by {
        lemma_remove_keys_none(s.types, sc.vars, ftv(sc.ty)[i]);
    }
    assert forall|i: int| 0 <= i < fdv_type(sc.ty).len() implies lookup(s2.dims, #[trigger] fdv_type(sc.ty)[i]) is None by {
        lemma_remove_keys_none(s.dims, sc.dim_vars, fdv_type(sc.ty)[i]);
    }
    assert forall|i: int| 0 <= i < fbv(sc.ty).len() implies lookup(s2.bases, #[trigger] fbv(sc.ty)[i]) is None by {
        lemma_remove_keys_none(s.bases, sc.base_vars, fbv(sc.ty)[i]);
    }
    lemma_apply_binds_none(s2, sc.ty);
}

proof fn lemma_closed_env_each(env: SEnv)
    requires
        ftv_env(env).len() == 0,
        fdv_env(env).len() == 0,
        fbv_env(env).len() == 0,
    ensures
        forall|i: int| 0 <= i < env.len() ==> {
            &&& ftv_scheme(#[trigger] env[i].1).len() == 0
            &&& fdv_scheme(env[i].1).len() == 0
            &&& fbv_scheme(env[i].1).len() == 0
        },
    decreases env.len(),
{
    if env.len() > 0 {
        lemma_closed_env_each(env.drop_last());
        assert forall|i: int| 0 <= i < env.len() implies {
            &&& ftv_scheme(#[trigger] env[i].1).len() == 0
            &&& fdv_scheme(env[i].1).len() == 0
            &&& fbv_scheme(env[i].1).len() == 0
        } by {
            if i < env.len() - 1 {
                assert(env.drop_last()[i] == env[i]);
            }
        }
    }
}

/// An environment in which no scheme has a free variable of any kind is left
/// alone by every substitution.
pub proof fn lemma_apply_closed_env(s: SSubst, env: SEnv)
    requires
        ftv_env(env).len() == 0,
        fdv_env(env).len() == 0,
        fbv_env(env).len() == 0,
    ensures
        apply_env_s(s, env) == env,
{
    lemma_closed_env_each(env);
    assert forall|i: int| 0 <= i < env.len() implies #[trigger] apply_env_s(s, env)[i] == env[i] by {
        lemma_apply_closed_scheme(s, env[i].1);
    }
    assert(apply_env_s(s, env) =~= env);
}

fn remove_keys_exec<T: View>(v: &Vec<(String, T)>, ks: &Vec<String>, dup: impl Fn(&T) -> T) -> (r: Vec<(String, T)>)
    requires
        forall|x: &T| #[trigger] dup.requires((x,)),
        forall|x: &T, y: T| dup.ensures((x,), y) ==> y@ == x@,
    ensures
        assoc_view(r@) == remove_keys(assoc_view(v@), names_view(ks@)),
{
    let mut r: Vec<(String, T)> = Vec::new();
    let mut i: usize = 0;
    assert(assoc_view(v@.take(0)) =~= Seq::<(Seq<char>, T::V)>::empty());
    while i < v.len()
        invariant
            i <= v.len(),
            forall|x: &T| #[trigger] dup.requires((x,)),
            forall|x: &T, y: T| dup.ensures((x,), y) ==> y@ == x@,
            assoc_view(r@) == remove_keys(assoc_view(v@.take(i as int)), names_view(ks@)),
        decreases v.len() - i,
    {
        assert(assoc_view(v@.take(i + 1)).drop_last() =~= assoc_view(v@.take(i as int)));
        assert(assoc_view(v@.take(i + 1)).last() == (v@[i as int].0@, v@[i as int].1@));
        if !names_contain(ks, &v[i].0) {
            let k = v[i].0.clone();
            let x = dup(&v[i].1);
            let ghost before = assoc_view(r@);
            r.push((k, x));
            assert(assoc_view(r@) =~= before.push((v@[i as int].0@, v@[i as int].1@)));
        }
        i += 1;
    }
    assert(v@.take(v.len() as int) =~= v@);
    r
}

/// `s` applied to a scheme; its quantified variables are not substituted.
pub fn apply_subst_scheme(s: &Subst, scheme: &Scheme) -> (r: Scheme)
    ensures
        r@ == apply_scheme_s(s@, scheme@),
{
    let s2 = Subst {
        types: remove_keys_exec(&s.types, &scheme.vars, |t: &Type| -> (y: Type) ensures y@ == t@ { t.dup() }),
        dims: remove_keys_exec(&s.dims, &scheme.dim_vars, |d: &super::model::Dim| -> (y: super::model::Dim) ensures y@ == d@ { d.dup() }),
        bases: remove_keys_exec(&s.bases, &scheme.base_vars, |b: &super::model::BaseType| -> (y: super::model::BaseType) ensures y@ == b@ { b.dup() }),
    };
    Scheme {
        vars: copy_names(&scheme.vars),
        dim_vars: copy_names(&scheme.dim_vars),
        base_vars: copy_names(&scheme.base_vars),
        ty: apply_subst(&s2, &scheme.ty),
    }
}

/// `s` applied to every scheme of `env`.
pub fn apply_subst_env(s: &Subst, env: &TypeEnv) -> (r: TypeEnv)
    ensures
        assoc_view(r@) == apply_env_s(s@, assoc_view(env@)),
{
    let mut r: TypeEnv = Vec::new();
    let mut i: usize = 0;
    while i < env.len()
        invariant
            i <= env.len(),
            r@.len() == i,
            forall|j: int| 0 <= j < i ==> (r@[j].0@, #[trigger] r@[j].1@) == (env@[j].0@, apply_scheme_s(s@, env@[j].1@)),
        decreases env.len() - i,
    {
        let sc = apply_subst_scheme(s, &env[i].1);
        let k = env[i].0.clone();
        r.push((k, sc));
        i += 1;
    }
    assert forall|j: int| 0 <= j < r@.len() implies #[trigger] assoc_view(r@)[j] == apply_env_s(s@, assoc_view(env@))[j] by {
        assert((r@[j].0@, r@[j].1@) == (env@[j].0@, apply_scheme_s(s@, env@[j].1@)));
    }
    assert(assoc_view(r@) =~= apply_env_s(s@, assoc_view(env@)));
    r
}

/// Binds `k` to `sc` in `env`, replacing any earlier binding of `k`.
pub fn env_insert(env: &mut TypeEnv, k: String, sc: Scheme)
    ensures
        assoc_view(final(env)@) == env_insert_s(assoc_view(old(env)@), k@, sc@),
{
    let mut ks: Vec<String> = Vec::new();
    ks.push(copy_string(&k));
    assert(names_view(ks@) =~= seq![k@]);
    let mut kept = remove_keys_exec(env, &ks, |x: &Scheme| -> (y: Scheme) ensures y@ == x@ { x.dup() });
    let ghost before = assoc_view(kept@);
    kept.push((k, sc));
    assert(assoc_view(kept@) =~= before.push((k@, sc@)));
    *env = kept;
}

/// A copy of `env`.
pub fn copy_env(env: &TypeEnv) -> (r: TypeEnv)
    ensures
        assoc_view(r@) == assoc_view(env@),
{
    let mut r: TypeEnv = Vec::new();
    let mut i: usize = 0;
    while i < env.len()
        invariant
            i <= env.len(),
            r@.len() == i,
            forall|j: int| 0 <= j < i ==> (r@[j].0@, #[trigger] r@[j].1@) == (env@[j].0@, env@[j].1@),
        decreases env.len() - i,
    {
        r.push((env[i].0.clone(), env[i].1.dup()));
        i += 1;
    }
    assert forall|j: int| 0 <= j < r@.len() implies #[trigger] assoc_view(r@)[j] == assoc_view(env@)[j] by {
        assert((r@[j].0@, r@[j].1@) == (env@[j].0@, env@[j].1@));
    }
    assert(assoc_view(r@) =~= assoc_view(env@));
    r
}

fn without_into(xs: &Vec<String>, excl: &Vec<String>, out: &mut Vec<String>)
    ensures
        names_view(final(out)@) == names_view(old(out)@) + without(names_view(xs@), names_view(excl@)),
{
    let ghost start = names_view(out@);
    let mut i: usize = 0;
    assert(names_view(xs@.take(0)) =~= Seq::<Seq<char>>::empty());
    assert(start + Seq::<Seq<char>>::empty() =~= start);
    while i < xs.len()
        invariant
            i <= xs.len(),
            names_view(out@) == start + without(names_view(xs@.take(i as int)), names_view(excl@)),
        decreases xs.len() - i,
    {
        assert(names_view(xs@.take(i + 1)).drop_last() =~= names_view(xs@.take(i as int)));
        assert(names_view(xs@.take(i + 1)).last() == xs@[i as int]@);
        if !names_contain(excl, &xs[i]) {
            let ghost before = names_view(out@);
            out.push(xs[i].clone());
            assert(names_view(out@) =~= before.push(xs@[i as int]@));
        }
        assert(names_view(out@) =~= start + without(names_view(xs@.take(i + 1)), names_view(excl@)));
        i += 1;
    }
    assert(xs@.take(xs.len() as int) =~= xs@);
}

/// The elements of `xs` not in `excl`, each once.
fn dedup_without_exec(xs: &Vec<String>, excl: &Vec<String>) -> (r: Vec<String>)
    ensures
        names_view(r@) == dedup_without(names_view(xs@), names_view(excl@)),
{
    let mut r: Vec<String> = Vec::new();
    let mut i: usize = 0;
    assert(names_view(xs@.take(0)) =~= Seq::<Seq<char>>::empty());
    assert(names_view(r@) =~= Seq::<Seq<char>>::empty());
    while i < xs.len()
        invariant
            i <= xs.len(),
            names_view(r@) == dedup_without(names_view(xs@.take(i as int)), names_view(excl@)),
        decreases xs.len() - i,
    {
        assert(names_view(xs@.take(i + 1)).drop_last() =~= names_view(xs@.take(i as int)));
        assert(names_view(xs@.take(i + 1)).last() == xs@[i as int]@);
        if !names_contain(excl, &xs[i]) && !names_contain(&r, &xs[i]) {
            let ghost before = names_view(r@);
            r.push(xs[i].clone());
            assert(names_view(r@) =~= before.push(xs@[i as int]@));
        }
        i += 1;
    }
    assert(xs@.take(xs.len() as int) =~= xs@);
    r
}

/// The free type, dimension and base variables of `env` (as three lists).
fn env_free_vars(env: &TypeEnv) -> (r: (Vec<String>, Vec<String>, Vec<String>))
    ensures
        names_view(r.0@) == ftv_env(assoc_view(env@)),
        names_view(r.1@) == fdv_env(assoc_view(env@)),
        names_view(r.2@) == fbv_env(assoc_view(env@)),
{
    let mut tv: Vec<String> = Vec::new();
    let mut dv: Vec<String> = Vec::new();
    let mut bv: Vec<String> = Vec::new();
    let mut i: usize = 0;
    assert(assoc_view(env@.take(0)) =~= Seq::<(Seq<char>, SScheme)>::empty());
    assert(names_view(tv@) =~= Seq::<Seq<char>>::empty());
    assert(names_view(dv@) =~= Seq::<Seq<char>>::empty());
    assert(names_view(bv@) =~= Seq::<Seq<char>>::empty());
    while i < env.len()
        invariant
            i <= env.len(),
            names_view(tv@) == ftv_env(assoc_view(env@.take(i as int))),
            names_view(dv@) == fdv_env(assoc_view(env@.take(i as int))),
            names_view(bv@) == fbv_env(assoc_view(env@.take(i as int))),
        decreases env.len() - i,
    {
        let sc = &env[i].1;
        assert(assoc_view(env@.take(i + 1)).drop_last() =~= assoc_view(env@.take(i as int)));
        assert(assoc_view(env@.take(i + 1)).last().1 == sc@);
        let mut t: Vec<String> = Vec::new();
        ftv_into(&sc.ty, &mut t);
        assert(names_view(t@) =~= ftv(sc.ty@));
        without_into(&t, &sc.vars, &mut tv);
        let mut d: Vec<String> = Vec::new();
        fdv_type_into(&sc.ty, &mut d);
        assert(names_view(d@) =~= fdv_type(sc.ty@));
        without_into(&d, &sc.dim_vars, &mut dv);
        let mut b: Vec<String> = Vec::new();
        fbv_into(&sc.ty, &mut b);
        assert(names_view(b@) =~= fbv(sc.ty@));
        without_into(&b, &sc.base_vars, &mut bv);
        i += 1;
    }
    assert(env@.take(env.len() as int) =~= env@);
    (tv, dv, bv)
}

/// Quantifies every type, dimension and base variable of `ty` that is not free in `env`.
pub fn generalize(env: &TypeEnv, ty: &Type) -> (r: Scheme)
    ensures
        r@ == generalize_s(assoc_view(env@), ty@),
{
    let (etv, edv, ebv) = env_free_vars(env);
    let mut t: Vec<String> = Vec::new();
    ftv_into(ty, &mut t);
    assert(names_view(t@) =~= ftv(ty@));
    let mut d: Vec<String> = Vec::new();
    fdv_type_into(ty, &mut d);
    assert(names_view(d@) =~= fdv_type(ty@));
    let mut b: Vec<String> = Vec::new();
    fbv_into(ty, &mut b);
    assert(names_view(b@) =~= fbv(ty@));
    Scheme {
        vars: dedup_without_exec(&t, &etv),
        dim_vars: dedup_without_exec(&d, &edv),
        base_vars: dedup_without_exec(&b, &ebv),
        ty: ty.dup(),
    }
}

} // verus!
