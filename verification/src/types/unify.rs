//! Unification of dimensions, shapes, types and rows.

use vstd::prelude::*;
use super::ctx::{gen_name, next_c};
use super::model::{
    assoc_view, copy_fields, copy_opt_string, lemma_view_fields, lemma_view_fields_assoc,
    lemma_view_types, lookup, names_view, opt_name_view, s_empty_subst, s_scalar, shape_view,
    view_fields, view_types, BaseType, Dim, SBase, SDim, SSubst, STypeError, SType, Subst, Type,
    TypeError,
};
use super::subst::{
    apply_base_s, apply_dim_subst, apply_s, apply_subst, apply_subst_base, assoc_get, compose,
    compose_s, fbv_base, fbv_base_into, ftv, ftv_exec, has_key, lemma_compose_dim, names_contain, sub_dim,
    sub_fields, sub_shape,
};

verus! {

/// How deeply unification may nest before it gives up with `UnificationFail`.
/// Nesting follows the structure of the types being unified.
pub const UNIFY_DEPTH: u64 = 100000;

pub open spec fn single_dim_s(k: Seq<char>, d: SDim) -> SSubst {
    SSubst { types: Seq::empty(), dims: seq![(k, d)], bases: Seq::empty() }
}

pub open spec fn single_type_s(k: Seq<char>, t: SType) -> SSubst {
    SSubst { types: seq![(k, t)], dims: Seq::empty(), bases: Seq::empty() }
}

pub open spec fn single_base_s(k: Seq<char>, b: SBase) -> SSubst {
    SSubst { types: Seq::empty(), dims: Seq::empty(), bases: seq![(k, b)] }
}

// ── Dimensions and shapes ─────────────────────────────────────────────────────

/// Two equal literals unify; a variable unifies with anything (a variable with
/// itself trivially); two different literals do not.
pub open spec fn unify_dim_s(d1: SDim, d2: SDim) -> Result<SSubst, STypeError> {
    match d1 {
        SDim::Nat(a) => match d2 {
            SDim::Nat(b) => if a == b { Ok(s_empty_subst()) } else { Err(STypeError::DimMismatch(d1, d2)) },
            SDim::Var(v) => Ok(single_dim_s(v, d1)),
        },
        SDim::Var(a) => match d2 {
            SDim::Var(b) => if a == b { Ok(s_empty_subst()) } else { Ok(single_dim_s(a, d2)) },
            SDim::Nat(_) => Ok(single_dim_s(a, d2)),
        },
    }
}

pub fn unify_dim(d1: &Dim, d2: &Dim) -> (r: Result<Subst, TypeError>)
    ensures
        match r {
            Ok(s) => unify_dim_s(d1@, d2@) == Ok::<SSubst, STypeError>(s@),
            Err(e) => unify_dim_s(d1@, d2@) == Err::<SSubst, STypeError>(e@),
        },
{
    match d1 {
        Dim::Nat(a) => match d2 {
            Dim::Nat(b) => if *a == *b { Ok(Subst::new()) } else { Err(TypeError::DimMismatch(d1.dup(), d2.dup())) },
            Dim::Var(v) => Ok(Subst::single_dim(v.clone(), d1.dup())),
        },
        Dim::Var(a) => match d2 {
            Dim::Var(b) => if *a == *b { Ok(Subst::new()) } else { Ok(Subst::single_dim(a.clone(), d2.dup())) },
            Dim::Nat(_) => Ok(Subst::single_dim(a.clone(), d2.dup())),
        },
    }
}

pub open spec fn fold_shapes(s: SSubst, sh1: Seq<SDim>, sh2: Seq<SDim>, i: int) -> Result<SSubst, STypeError>
    decreases sh1.len() - i,
{
    if i >= sh1.len() || i < 0 {
        Ok(s)
    } else {
        match unify_dim_s(sub_dim(s, sh1[i]), sub_dim(s, sh2[i])) {
            Err(e) => Err(e),
            Ok(s2) => fold_shapes(compose_s(s2, s), sh1, sh2, i + 1),
        }
    }
}

/// Shapes unify when they have the same rank and their dimensions unify pairwise,
/// left to right, each pair under the bindings found so far.
pub open spec fn unify_shapes_s(sh1: Seq<SDim>, sh2: Seq<SDim>) -> Result<SSubst, STypeError> {
    if sh1.len() != sh2.len() {
        Err(STypeError::RankMismatch(sh1, sh2))
    } else {
        fold_shapes(s_empty_subst(), sh1, sh2, 0)
    }
}

/// Whether `s` binds the dimension `d` (a variable).
pub open spec fn binds_dim(s: SSubst, d: SDim) -> bool {
    match d {
        SDim::Var(v) => lookup(s.dims, v) is Some,
        SDim::Nat(_) => false,
    }
}

/// Whether what `s` gives any dimension is a dimension `s` leaves alone.
pub open spec fn dims_idempotent(s: SSubst) -> bool {
    forall|d: SDim| !binds_dim(s, #[trigger] sub_dim(s, d))
}

/// Unifying two dimensions gives a substitution under which they are equal.
pub proof fn lemma_unify_dim_equalizes(d1: SDim, d2: SDim)
    requires
        unify_dim_s(d1, d2) is Ok,
    ensures
        sub_dim(unify_dim_s(d1, d2)->Ok_0, d1) == sub_dim(unify_dim_s(d1, d2)->Ok_0, d2),
{
    lemma_unify_dim_binding(d1, d2);
    let s2 = unify_dim_s(d1, d2)->Ok_0;
    match d1 {
        SDim::Var(v) => assert(lookup(s2.dims, v) == lookup(s2.dims, v)),
        SDim::Nat(_) => {},
    }
    match d2 {
        SDim::Var(v) => assert(lookup(s2.dims, v) == lookup(s2.dims, v)),
        SDim::Nat(_) => {},
    }
}

proof fn lemma_lookup_single<T>(k0: Seq<char>, v: T, k: Seq<char>)
    ensures
        lookup(seq![(k0, v)], k) == (if k == k0 { Some(v) } else { None }),
{
    let x = seq![(k0, v)];
    assert(x.len() == 1);
    assert(x.last() == (k0, v));
    assert(x.drop_last() =~= Seq::<(Seq<char>, T)>::empty());
    assert(lookup(x.drop_last(), k) is None);
}

/// What unifying two dimensions binds: nothing, or one variable of the two to
/// the other dimension.
proof fn lemma_unify_dim_binding(d1: SDim, d2: SDim)
    requires
        unify_dim_s(d1, d2) is Ok,
    ensures
        ({
            let s2 = unify_dim_s(d1, d2)->Ok_0;
            &&& s2.dims.len() <= 1
            &&& s2.dims.len() == 0 ==> d1 == d2
            &&& s2.dims.len() == 1 ==> {
                &&& (SDim::Var(s2.dims[0].0) == d1 && s2.dims[0].1 == d2)
                    || (SDim::Var(s2.dims[0].0) == d2 && s2.dims[0].1 == d1)
                &&& s2.dims[0].1 != SDim::Var(s2.dims[0].0)
            }
            &&& forall|k: Seq<char>| #[trigger] lookup(s2.dims, k) == (if s2.dims.len() == 1 && k == s2.dims[0].0 {
                Some(s2.dims[0].1)
            } else {
                None::<SDim>
            })
        }),
{
    let s2 = unify_dim_s(d1, d2)->Ok_0;
    assert forall|k: Seq<char>| #[trigger] lookup(s2.dims, k) == (if s2.dims.len() == 1 && k == s2.dims[0].0 {
        Some(s2.dims[0].1)
    } else {
        None::<SDim>
    }) by {
        if s2.dims.len() == 1 {
            assert(s2.dims =~= seq![(s2.dims[0].0, s2.dims[0].1)]);
            lemma_lookup_single(s2.dims[0].0, s2.dims[0].1, k);
        }
    }
}

proof fn lemma_fold_shapes_equalizes(s: SSubst, sh1: Seq<SDim>, sh2: Seq<SDim>, i: int)
    requires
        sh1.len() == sh2.len(),
        0 <= i <= sh1.len(),
        dims_idempotent(s),
        forall|j: int| 0 <= j < i ==> sub_dim(s, #[trigger] sh1[j]) == sub_dim(s, sh2[j]),
        fold_shapes(s, sh1, sh2, i) is Ok,
    ensures
        forall|j: int| 0 <= j < sh1.len()
            ==> sub_dim(fold_shapes(s, sh1, sh2, i)->Ok_0, #[trigger] sh1[j]) == sub_dim(fold_shapes(s, sh1, sh2, i)->Ok_0, sh2[j]),
    decreases sh1.len() - i,
{
    if i < sh1.len() {
        let x1 = sub_dim(s, sh1[i]);
        let x2 = sub_dim(s, sh2[i]);
        let s2 = unify_dim_s(x1, x2)->Ok_0;
        let s3 = compose_s(s2, s);
        assert(!binds_dim(s, x1));
        assert(!binds_dim(s, x2));
        lemma_unify_dim_binding(x1, x2);
        assert forall|k: Seq<char>| !(#[trigger] lookup(s2.dims, k) is Some && lookup(s.dims, k) is Some) by {
            if lookup(s2.dims, k) is Some {
                assert(x1 == SDim::Var(k) || x2 == SDim::Var(k));
            }
        }
        assert forall|d: SDim| #[trigger] sub_dim(s3, d) == sub_dim(s2, sub_dim(s, d)) by {
            lemma_compose_dim(s2, s, d);
        }
        lemma_unify_dim_equalizes(x1, x2);
        assert forall|d: SDim| !binds_dim(s3, #[trigger] sub_dim(s3, d)) by {
            let y = sub_dim(s, d);
            let z = sub_dim(s2, y);
            assert(sub_dim(s3, d) == z);
            assert(!binds_dim(s, y));
            assert(!binds_dim(s, z)) by {
                if s2.dims.len() == 1 && y == SDim::Var(s2.dims[0].0) {
                    assert(z == s2.dims[0].1);
                }
            }
            assert(!binds_dim(s2, z)) by {
                if s2.dims.len() == 1 {
                    if y == SDim::Var(s2.dims[0].0) {
                        assert(z == s2.dims[0].1);
                    }
                }
            }
            match z {
                SDim::Var(v) => {
                    lemma_compose_dim(s2, s, z);
                    assert(sub_dim(s3, z) == z);
                    assert(lookup(s3.dims, v) is None) by {
                        crate::types::subst::lemma_lookup_concat(
                            crate::types::subst::sub_dims_assoc(s2, s.dims), s2.dims, v);
                        let f = |x: SDim| sub_dim(s2, x);
                        assert(crate::types::subst::sub_dims_assoc(s2, s.dims)
                            == s.dims.map_values(|p: (Seq<char>, SDim)| (p.0, f(p.1))));
                        crate::types::subst::lemma_lookup_map_values(s.dims, f, v);
                    }
                },
                SDim::Nat(_) => {},
            }
        }
        assert forall|j: int| 0 <= j < i + 1 implies sub_dim(s3, #[trigger] sh1[j]) == sub_dim(s3, sh2[j]) by {
            if j < i {
                assert(sub_dim(s, sh1[j]) == sub_dim(s, sh2[j]));
            }
        }
        lemma_fold_shapes_equalizes(s3, sh1, sh2, i + 1);
    }
}

/// Unifying two shapes gives a substitution under which they are equal.
pub proof fn lemma_unify_shapes_equalizes(sh1: Seq<SDim>, sh2: Seq<SDim>)
    requires
        unify_shapes_s(sh1, sh2) is Ok,
    ensures
        sub_shape(unify_shapes_s(sh1, sh2)->Ok_0, sh1) == sub_shape(unify_shapes_s(sh1, sh2)->Ok_0, sh2),
{
    let e = s_empty_subst();
    assert forall|d: SDim| !binds_dim(e, #[trigger] sub_dim(e, d)) by {
        match d {
            SDim::Var(v) => assert(lookup(e.dims, v) is None),
            SDim::Nat(_) => {},
        }
    }
    lemma_fold_shapes_equalizes(e, sh1, sh2, 0);
    let r = unify_shapes_s(sh1, sh2)->Ok_0;
    assert(sub_shape(r, sh1) =~= sub_shape(r, sh2)) by {
        assert forall|j: int| 0 <= j < sh1.len() implies sub_shape(r, sh1)[j] == sub_shape(r, sh2)[j] by {
            assert(sub_dim(r, sh1[j]) == sub_dim(r, sh2[j]));
        }
    }
}

pub fn unify_shapes(s1: &[Dim], s2: &[Dim]) -> (r: Result<Subst, TypeError>)
    ensures
        match r {
            Ok(s) => unify_shapes_s(shape_view(s1@), shape_view(s2@)) == Ok::<SSubst, STypeError>(s@),
            Err(e) => unify_shapes_s(shape_view(s1@), shape_view(s2@)) == Err::<SSubst, STypeError>(e@),
        },
{
    if s1.len() != s2.len() {
        return Err(TypeError::RankMismatch(super::model::copy_shape(s1), super::model::copy_shape(s2)));
    }
    let ghost v1 = shape_view(s1@);
    let ghost v2 = shape_view(s2@);
    let mut s = Subst::new();
    let mut i: usize = 0;
    while i < s1.len()
        invariant
            i <= s1.len(),
            s1.len() == s2.len(),
            v1 == shape_view(s1@),
            v2 == shape_view(s2@),
            fold_shapes(s_empty_subst(), v1, v2, 0) == fold_shapes(s@, v1, v2, i as int),
        decreases s1.len() - i,
    {
        let d1 = apply_dim_subst(&s, &s1[i]);
        let d2 = apply_dim_subst(&s, &s2[i]);
        match unify_dim(&d1, &d2) {
            Err(e) => return Err(e),
            Ok(sd) => {
                s = compose(&sd, &s);
            },
        }
        i += 1;
    }
    Ok(s)
}

// ── Variables ─────────────────────────────────────────────────────────────────

/// Binding `var` to `ty`: nothing to do if `ty` is `var` itself, an infinite type
/// if `var` occurs in `ty`, otherwise the single binding.
pub open spec fn bind_type_s(var: Seq<char>, ty: SType) -> Result<SSubst, STypeError> {
    if ty == SType::Var(var) {
        Ok(s_empty_subst())
    } else if ftv(ty).contains(var) {
        Err(STypeError::InfiniteType(var, ty))
    } else {
        Ok(single_type_s(var, ty))
    }
}

pub fn bind_type(var: &String, ty: &Type) -> (r: Result<Subst, TypeError>)
    ensures
        match r {
            Ok(s) => bind_type_s(var@, ty@) == Ok::<SSubst, STypeError>(s@),
            Err(e) => bind_type_s(var@, ty@) == Err::<SSubst, STypeError>(e@),
        },
{
    if let Type::Var(v) = ty {
        if *v == *var {
            return Ok(Subst::new());
        }
    }
    let fv = ftv_exec(ty);
    if names_contain(&fv, var) {
        return Err(TypeError::InfiniteType(var.clone(), ty.dup()));
    }
    Ok(Subst::single_type(var.clone(), ty.dup()))
}

// ── Types ─────────────────────────────────────────────────────────────────────

/// A record (or, with `is_union`, a union) type of rank 0.
pub open spec fn make_row_s(fs: Seq<(Seq<char>, SType)>, row: Option<Seq<char>>, is_union: bool) -> SType {
    if is_union { s_scalar(SBase::Union(fs, row)) } else { s_scalar(SBase::Record(fs, row)) }
}

/// The entries of `a` whose names `b` lacks.
pub open spec fn only_fields(a: Seq<(Seq<char>, SType)>, b: Seq<(Seq<char>, SType)>) -> Seq<(Seq<char>, SType)>
    decreases a.len(),
{
    if a.len() == 0 {
        Seq::empty()
    } else {
        let r = only_fields(a.drop_last(), b);
        if has_key(b, a.last().0) { r } else { r.push(a.last()) }
    }
}

pub open spec fn apply_fields_s(s: SSubst, fs: Seq<(Seq<char>, SType)>) -> Seq<(Seq<char>, SType)> {
    sub_fields(s, fs, s.types.len())
}

/// Unification of two types from counter `c` (which supplies fresh row variables):
/// the counter afterwards and the unifier or the reason there is none.
/// Gives up with `UnificationFail` when nesting exceeds `fuel`.
pub open spec fn unify_s(c: u64, t1: SType, t2: SType, fuel: nat) -> (u64, Result<SSubst, STypeError>)
    decreases fuel, 3nat, 0nat,
{
    if fuel == 0 {
        (c, Err(STypeError::UnificationFail(t1, t2)))
    } else {
        match t1 {
            SType::Var(a) => match t2 {
                SType::Var(b) => if a == b { (c, Ok(s_empty_subst())) } else { (c, bind_type_s(a, t2)) },
                _ => (c, bind_type_s(a, t2)),
            },
            SType::Shaped(b1, s1) => match t2 {
                SType::Var(a) => (c, bind_type_s(a, t1)),
                SType::Shaped(b2, s2) => match unify_shapes_s(s1, s2) {
                    Err(e) => (c, Err(e)),
                    Ok(ss) => {
                        let (c2, r) = unify_base_s(c, apply_base_s(ss, b1), apply_base_s(ss, b2), t1, t2, fuel);
                        match r {
                            Err(e) => (c2, Err(e)),
                            Ok(sb) => (c2, Ok(compose_s(sb, ss))),
                        }
                    },
                },
            },
        }
    }
}

pub open spec fn unify_base_s(c: u64, b1: SBase, b2: SBase, o1: SType, o2: SType, fuel: nat) -> (u64, Result<SSubst, STypeError>)
    decreases fuel, 2nat, 0nat,
{
    let uf = Err(STypeError::UnificationFail(o1, o2));
    if fuel == 0 {
        (c, uf)
    } else {
        match b1 {
            SBase::Var(a) => match b2 {
                SBase::Var(b) => if a == b {
                    (c, Ok(s_empty_subst()))
                } else if fbv_base(b2).contains(a) {
                    (c, uf)
                } else {
                    (c, Ok(single_base_s(a, b2)))
                },
                _ => if fbv_base(b2).contains(a) { (c, uf) } else { (c, Ok(single_base_s(a, b2))) },
            },
            _ => match b2 {
                SBase::Var(a) => if fbv_base(b1).contains(a) { (c, uf) } else { (c, Ok(single_base_s(a, b1))) },
                _ => match (b1, b2) {
                    (SBase::Int, SBase::Int) => (c, Ok(s_empty_subst())),
                    (SBase::F64, SBase::F64) => (c, Ok(s_empty_subst())),
                    (SBase::Str, SBase::Str) => (c, Ok(s_empty_subst())),
                    (SBase::Bool, SBase::Bool) => (c, Ok(s_empty_subst())),
                    (SBase::Fun(ps1, r1), SBase::Fun(ps2, r2)) => unify_fun_s(c, ps1, *r1, ps2, *r2, o1, o2, fuel),
                    (SBase::Task(ok1, err1), SBase::Task(ok2, err2)) => unify_task_s(c, *ok1, *err1, *ok2, *err2, o1, o2, fuel),
                    (SBase::Record(f1, row1), SBase::Record(f2, row2)) => unify_rows_s(c, f1, row1, f2, row2, false, fuel),
                    (SBase::Union(f1, row1), SBase::Union(f2, row2)) => unify_rows_s(c, f1, row1, f2, row2, true, fuel),
                    _ => (c, uf),
                },
            },
        }
    }
}

/// Functions unify when they take as many parameters and parameters and results
/// unify pairwise, left to right.
pub open spec fn unify_fun_s(c: u64, ps1: Seq<SType>, r1: SType, ps2: Seq<SType>, r2: SType, o1: SType, o2: SType, fuel: nat) -> (u64, Result<SSubst, STypeError>)
    decreases fuel, 1nat, 0nat,
{
    if fuel == 0 || ps1.len() != ps2.len() {
        (c, Err(STypeError::UnificationFail(o1, o2)))
    } else {
        let (c1, rp) = unify_params_s(c, s_empty_subst(), ps1, ps2, 0, fuel);
        match rp {
            Err(e) => (c1, Err(e)),
            Ok(s) => {
                let (c2, rr) = unify_s(c1, apply_s(s, r1), apply_s(s, r2), (fuel - 1) as nat);
                match rr {
                    Err(e) => (c2, Err(e)),
                    Ok(sr) => (c2, Ok(compose_s(sr, s))),
                }
            },
        }
    }
}

/// Tasks unify when their results and then their errors unify.
pub open spec fn unify_task_s(c: u64, ok1: SType, err1: SType, ok2: SType, err2: SType, o1: SType, o2: SType, fuel: nat) -> (u64, Result<SSubst, STypeError>)
    decreases fuel, 1nat, 0nat,
{
    if fuel == 0 {
        (c, Err(STypeError::UnificationFail(o1, o2)))
    } else {
        let (c1, r1) = unify_s(c, ok1, ok2, (fuel - 1) as nat);
        match r1 {
            Err(e) => (c1, Err(e)),
            Ok(s1) => {
                let (c2, r2) = unify_s(c1, apply_s(s1, err1), apply_s(s1, err2), (fuel - 1) as nat);
                match r2 {
                    Err(e) => (c2, Err(e)),
                    Ok(s2) => (c2, Ok(compose_s(s2, s1))),
                }
            },
        }
    }
}

pub open spec fn unify_params_s(c: u64, s: SSubst, ps1: Seq<SType>, ps2: Seq<SType>, i: int, fuel: nat) -> (u64, Result<SSubst, STypeError>)
    decreases fuel, 0nat, ps1.len() - i,
{
    if i >= ps1.len() || i < 0 || fuel == 0 {
        (c, Ok(s))
    } else {
        let (c1, r) = unify_s(c, apply_s(s, ps1[i]), apply_s(s, ps2[i]), (fuel - 1) as nat);
        match r {
            Err(e) => (c1, Err(e)),
            Ok(s2) => unify_params_s(c1, compose_s(s2, s), ps1, ps2, i + 1, fuel),
        }
    }
}

pub open spec fn unify_shared_s(c: u64, s: SSubst, f1: Seq<(Seq<char>, SType)>, f2: Seq<(Seq<char>, SType)>, i: int, fuel: nat) -> (u64, Result<SSubst, STypeError>)
    decreases fuel, 0nat, f1.len() - i,
{
    if i >= f1.len() || i < 0 || fuel == 0 {
        (c, Ok(s))
    } else {
        match lookup(f2, f1[i].0) {
            None => unify_shared_s(c, s, f1, f2, i + 1, fuel),
            Some(ty2) => {
                let (c1, r) = unify_s(c, apply_s(s, f1[i].1), apply_s(s, ty2), (fuel - 1) as nat);
                match r {
                    Err(e) => (c1, Err(e)),
                    Ok(s2) => unify_shared_s(c1, compose_s(s2, s), f1, f2, i + 1, fuel),
                }
            },
        }
    }
}

/// Row unification, shared by records and unions: the fields both sides have are
/// unified; the fields only one side has must be absorbed by the other side's row
/// variable (a fresh row variable is shared when both sides have extra fields);
/// a closed side cannot absorb anything.
pub open spec fn unify_rows_s(
    c: u64,
    f1: Seq<(Seq<char>, SType)>,
    row1: Option<Seq<char>>,
    f2: Seq<(Seq<char>, SType)>,
    row2: Option<Seq<char>>,
    is_union: bool,
    fuel: nat,
) -> (u64, Result<SSubst, STypeError>)
    decreases fuel, 1nat, 0nat,
{
    let uf = Err(STypeError::UnificationFail(make_row_s(f1, row1, is_union), make_row_s(f2, row2, is_union)));
    if fuel == 0 {
        (c, uf)
    } else {
        let (c1, rs) = unify_shared_s(c, s_empty_subst(), f1, f2, 0, fuel);
        match rs {
            Err(e) => (c1, Err(e)),
            Ok(s) => {
                let only1 = apply_fields_s(s, only_fields(f1, f2));
                let only2 = apply_fields_s(s, only_fields(f2, f1));
                if only1.len() > 0 && only2.len() > 0 {
                    let shared = gen_name('t', c1);
                    let c2 = next_c(c1);
                    match row2 {
                        None => (c2, uf),
                        Some(r2) => match bind_type_s(r2, make_row_s(only1, Some(shared), is_union)) {
                            Err(e) => (c2, Err(e)),
                            Ok(su) => {
                                let sa = compose_s(su, s);
                                match row1 {
                                    None => (c2, uf),
                                    Some(r1) => match bind_type_s(r1, make_row_s(only2, Some(shared), is_union)) {
                                        Err(e) => (c2, Err(e)),
                                        Ok(su2) => (c2, Ok(compose_s(su2, sa))),
                                    },
                                }
                            },
                        },
                    }
                } else if only1.len() > 0 {
                    match row2 {
                        None => (c1, uf),
                        Some(r2) => match bind_type_s(r2, make_row_s(only1, row1, is_union)) {
                            Err(e) => (c1, Err(e)),
                            Ok(su) => (c1, Ok(compose_s(su, s))),
                        },
                    }
                } else if only2.len() > 0 {
                    match row1 {
                        None => (c1, uf),
                        Some(r1) => match bind_type_s(r1, apply_s(s, make_row_s(only2, row2, is_union))) {
                            Err(e) => (c1, Err(e)),
                            Ok(su) => (c1, Ok(compose_s(su, s))),
                        },
                    }
                } else {
                    match row1 {
                        Some(r1) => match row2 {
                            Some(r2) => {
                                let (c2, r) = unify_s(c1, SType::Var(r1), SType::Var(r2), (fuel - 1) as nat);
                                match r {
                                    Err(e) => (c2, Err(e)),
                                    Ok(su) => (c2, Ok(compose_s(su, s))),
                                }
                            },
                            None => match bind_type_s(r1, make_row_s(Seq::empty(), None, is_union)) {
                                Err(e) => (c1, Err(e)),
                                Ok(su) => (c1, Ok(compose_s(su, s))),
                            },
                        },
                        None => match row2 {
                            Some(r2) => match bind_type_s(r2, make_row_s(Seq::empty(), None, is_union)) {
                                Err(e) => (c1, Err(e)),
                                Ok(su) => (c1, Ok(compose_s(su, s))),
                            },
                            None => (c1, Ok(compose_s(s_empty_subst(), s))),
                        },
                    }
                }
            },
        }
    }
}


// ── Executable unification ────────────────────────────────────────────────────

/// Model of a unification outcome.
pub open spec fn res_view(r: Result<Subst, TypeError>) -> Result<SSubst, STypeError> {
    match r {
        Ok(s) => Ok(s@),
        Err(e) => Err(e@),
    }
}

fn make_row(fs: Vec<(String, Type)>, row: Option<String>, is_union: bool) -> (r: Type)
    ensures
        r@ == make_row_s(view_fields(fs@), opt_name_view(row), is_union),
{
    if is_union {
        Type::scalar(BaseType::Union(fs, row))
    } else {
        Type::scalar(BaseType::Record(fs, row))
    }
}

fn row_fail(
    f1: &Vec<(String, Type)>,
    row1: &Option<String>,
    f2: &Vec<(String, Type)>,
    row2: &Option<String>,
    is_union: bool,
) -> (e: TypeError)
    ensures
        e@ == STypeError::UnificationFail(
            make_row_s(view_fields(f1@), opt_name_view(*row1), is_union),
            make_row_s(view_fields(f2@), opt_name_view(*row2), is_union),
        ),
{
    TypeError::UnificationFail(
        make_row(copy_fields(f1), copy_opt_string(row1), is_union),
        make_row(copy_fields(f2), copy_opt_string(row2), is_union),
    )
}

fn base_has_var(b: &BaseType, a: &String) -> (r: bool)
    ensures
        r == fbv_base(b@).contains(a@),
{
    let mut out: Vec<String> = Vec::new();
    assert(names_view(out@) =~= Seq::<Seq<char>>::empty());
    fbv_base_into(b, &mut out);
    assert(names_view(out@) =~= fbv_base(b@));
    names_contain(&out, a)
}

fn only_fields_exec(a: &Vec<(String, Type)>, b: &Vec<(String, Type)>) -> (r: Vec<(String, Type)>)
    ensures
        view_fields(r@) == only_fields(view_fields(a@), view_fields(b@)),
{
    let mut out: Vec<(String, Type)> = Vec::new();
    let mut i: usize = 0;
    proof {
        lemma_view_fields_assoc(b@);
    }
    assert(a@.take(0) =~= Seq::<(String, Type)>::empty());
    while i < a.len()
        invariant
            i <= a.len(),
            view_fields(b@) == assoc_view(b@),
            view_fields(out@) == only_fields(view_fields(a@.take(i as int)), view_fields(b@)),
        decreases a.len() - i,
    {
        let present = super::subst::has_key_exec(b, &a[i].0);
        let ghost before = out@;
        let ghost vt = view_fields(a@.take(i + 1));
        assert(a@.take(i + 1).drop_last() =~= a@.take(i as int));
        assert(a@.take(i + 1).last() == a@[i as int]);
        assert(vt.drop_last() == view_fields(a@.take(i as int)));
        assert(vt.last() == (a@[i as int].0@, a@[i as int].1@));
        if !present {
            out.push((a[i].0.clone(), a[i].1.dup()));
            assert(out@.drop_last() =~= before);
        }
        i += 1;
    }
    assert(a@.take(a.len() as int) =~= a@);
    out
}

/// Unifies `t1` with `t2`, drawing fresh row variables from the counter `c`.
pub fn unify(c: &mut u64, t1: &Type, t2: &Type, fuel: u64) -> (r: Result<Subst, TypeError>)
    ensures
        *final(c) == unify_s(*old(c), t1@, t2@, fuel as nat).0,
        res_view(r) == unify_s(*old(c), t1@, t2@, fuel as nat).1,
    decreases fuel, 3nat, 0nat,
{
    if fuel == 0 {
        return Err(TypeError::UnificationFail(t1.dup(), t2.dup()));
    }
    match t1 {
        Type::Var(a) => match t2 {
            Type::Var(b) => if *a == *b { Ok(Subst::new()) } else { bind_type(a, t2) },
            _ => bind_type(a, t2),
        },
        Type::Shaped(b1, s1) => match t2 {
            Type::Var(a) => bind_type(a, t1),
            Type::Shaped(b2, s2) => match unify_shapes(s1.as_slice(), s2.as_slice()) {
                Err(e) => Err(e),
                Ok(ss) => {
                    let b1s = apply_subst_base(&ss, b1);
                    let b2s = apply_subst_base(&ss, b2);
                    match unify_base(c, &b1s, &b2s, t1, t2, fuel) {
                        Err(e) => Err(e),
                        Ok(sb) => Ok(compose(&sb, &ss)),
                    }
                },
            },
        },
    }
}

fn unify_base(c: &mut u64, b1: &BaseType, b2: &BaseType, o1: &Type, o2: &Type, fuel: u64) -> (r: Result<Subst, TypeError>)
    ensures
        *final(c) == unify_base_s(*old(c), b1@, b2@, o1@, o2@, fuel as nat).0,
        res_view(r) == unify_base_s(*old(c), b1@, b2@, o1@, o2@, fuel as nat).1,
    decreases fuel, 2nat, 0nat,
{
    if fuel == 0 {
        return Err(TypeError::UnificationFail(o1.dup(), o2.dup()));
    }
    if let BaseType::Var(a) = b1 {
        if let BaseType::Var(b) = b2 {
            if *a == *b {
                return Ok(Subst::new());
            }
        }
        if base_has_var(b2, a) {
            return Err(TypeError::UnificationFail(o1.dup(), o2.dup()));
        }
        return Ok(Subst::single_base(a.clone(), b2.dup()));
    }
    if let BaseType::Var(a) = b2 {
        if base_has_var(b1, a) {
            return Err(TypeError::UnificationFail(o1.dup(), o2.dup()));
        }
        return Ok(Subst::single_base(a.clone(), b1.dup()));
    }
    match (b1, b2) {
        (BaseType::Int, BaseType::Int) => Ok(Subst::new()),
        (BaseType::F64, BaseType::F64) => Ok(Subst::new()),
        (BaseType::Str, BaseType::Str) => Ok(Subst::new()),
        (BaseType::Bool, BaseType::Bool) => Ok(Subst::new()),
        (BaseType::Fun(ps1, r1), BaseType::Fun(ps2, r2)) => unify_fun(c, ps1, r1, ps2, r2, o1, o2, fuel),
        (BaseType::Task(ok1, err1), BaseType::Task(ok2, err2)) => unify_task(c, ok1, err1, ok2, err2, o1, o2, fuel),
        (BaseType::Record(f1, row1), BaseType::Record(f2, row2)) => unify_rows(c, f1, row1, f2, row2, false, fuel),
        (BaseType::Union(f1, row1), BaseType::Union(f2, row2)) => unify_rows(c, f1, row1, f2, row2, true, fuel),
        _ => Err(TypeError::UnificationFail(o1.dup(), o2.dup())),
    }
}

fn unify_params(c: &mut u64, ps1: &Vec<Type>, ps2: &Vec<Type>, fuel: u64) -> (r: Result<Subst, TypeError>)
    requires
        fuel > 0,
        ps1.len() == ps2.len(),
    ensures
        *final(c) == unify_params_s(*old(c), s_empty_subst(), view_types(ps1@), view_types(ps2@), 0, fuel as nat).0,
        res_view(r) == unify_params_s(*old(c), s_empty_subst(), view_types(ps1@), view_types(ps2@), 0, fuel as nat).1,
    decreases fuel, 0nat, 0nat,
{
    let ghost c0 = *c;
    let ghost v1 = view_types(ps1@);
    let ghost v2 = view_types(ps2@);
    proof {
        lemma_view_types(ps1@);
        lemma_view_types(ps2@);
    }
    let mut s = Subst::new();
    let mut i: usize = 0;
    while i < ps1.len()
        invariant
            i <= ps1.len(),
            ps1.len() == ps2.len(),
            fuel > 0,
            v1 == view_types(ps1@),
            v2 == view_types(ps2@),
            v1.len() == ps1.len(),
            v2.len() == ps2.len(),
            forall|j: int| 0 <= j < ps1.len() ==> #[trigger] v1[j] == ps1@[j]@,
            forall|j: int| 0 <= j < ps2.len() ==> #[trigger] v2[j] == ps2@[j]@,
            c0 == *old(c),
            unify_params_s(c0, s_empty_subst(), v1, v2, 0, fuel as nat)
                == unify_params_s(*c, s@, v1, v2, i as int, fuel as nat),
        decreases ps1.len() - i,
    {
        let a1 = apply_subst(&s, &ps1[i]);
        let a2 = apply_subst(&s, &ps2[i]);
        let ghost ci = *c;
        let ghost si = s@;
        let r = unify(c, &a1, &a2, fuel - 1);
        assert(unify_params_s(ci, si, v1, v2, i as int, fuel as nat) == ({
            let (c1, r1) = unify_s(ci, apply_s(si, v1[i as int]), apply_s(si, v2[i as int]), (fuel - 1) as nat);
            match r1 {
                Err(e) => (c1, Err(e)),
                Ok(s2) => unify_params_s(c1, compose_s(s2, si), v1, v2, i + 1, fuel as nat),
            }
        }));
        match r {
            Err(e) => return Err(e),
            Ok(s2) => {
                s = compose(&s2, &s);
            },
        }
        i += 1;
    }
    Ok(s)
}

fn unify_fun(
    c: &mut u64,
    ps1: &Vec<Type>,
    r1: &Type,
    ps2: &Vec<Type>,
    r2: &Type,
    o1: &Type,
    o2: &Type,
    fuel: u64,
) -> (r: Result<Subst, TypeError>)
    ensures
        *final(c) == unify_fun_s(*old(c), view_types(ps1@), r1@, view_types(ps2@), r2@, o1@, o2@, fuel as nat).0,
        res_view(r) == unify_fun_s(*old(c), view_types(ps1@), r1@, view_types(ps2@), r2@, o1@, o2@, fuel as nat).1,
    decreases fuel, 1nat, 0nat,
{
    proof {
        lemma_view_types(ps1@);
        lemma_view_types(ps2@);
    }
    if fuel == 0 || ps1.len() != ps2.len() {
        return Err(TypeError::UnificationFail(o1.dup(), o2.dup()));
    }
    match unify_params(c, ps1, ps2, fuel) {
        Err(e) => Err(e),
        Ok(s) => {
            let a1 = apply_subst(&s, r1);
            let a2 = apply_subst(&s, r2);
            match unify(c, &a1, &a2, fuel - 1) {
                Err(e) => Err(e),
                Ok(sr) => Ok(compose(&sr, &s)),
            }
        },
    }
}

fn unify_task(
    c: &mut u64,
    ok1: &Type,
    err1: &Type,
    ok2: &Type,
    err2: &Type,
    o1: &Type,
    o2: &Type,
    fuel: u64,
) -> (r: Result<Subst, TypeError>)
    ensures
        *final(c) == unify_task_s(*old(c), ok1@, err1@, ok2@, err2@, o1@, o2@, fuel as nat).0,
        res_view(r) == unify_task_s(*old(c), ok1@, err1@, ok2@, err2@, o1@, o2@, fuel as nat).1,
    decreases fuel, 1nat, 0nat,
{
    if fuel == 0 {
        return Err(TypeError::UnificationFail(o1.dup(), o2.dup()));
    }
    match unify(c, ok1, ok2, fuel - 1) {
        Err(e) => Err(e),
        Ok(s1) => {
            let e1 = apply_subst(&s1, err1);
            let e2 = apply_subst(&s1, err2);
            match unify(c, &e1, &e2, fuel - 1) {
                Err(e) => Err(e),
                Ok(s2) => Ok(compose(&s2, &s1)),
            }
        },
    }
}

fn unify_shared(c: &mut u64, f1: &Vec<(String, Type)>, f2: &Vec<(String, Type)>, fuel: u64) -> (r: Result<Subst, TypeError>)
    requires
        fuel > 0,
    ensures
        *final(c) == unify_shared_s(*old(c), s_empty_subst(), view_fields(f1@), view_fields(f2@), 0, fuel as nat).0,
        res_view(r) == unify_shared_s(*old(c), s_empty_subst(), view_fields(f1@), view_fields(f2@), 0, fuel as nat).1,
    decreases fuel, 0nat, 0nat,
{
    let ghost c0 = *c;
    let ghost vf1 = view_fields(f1@);
    let ghost vf2 = view_fields(f2@);
    proof {
        lemma_view_fields(f1@);
        lemma_view_fields_assoc(f2@);
    }
    let mut s = Subst::new();
    let mut i: usize = 0;
    while i < f1.len()
        invariant
            i <= f1.len(),
            fuel > 0,
            vf1 == view_fields(f1@),
            vf2 == view_fields(f2@),
            vf2 == assoc_view(f2@),
            vf1.len() == f1.len(),
            forall|j: int| 0 <= j < f1.len() ==> #[trigger] vf1[j] == (f1@[j].0@, f1@[j].1@),
            c0 == *old(c),
            unify_shared_s(c0, s_empty_subst(), vf1, vf2, 0, fuel as nat)
                == unify_shared_s(*c, s@, vf1, vf2, i as int, fuel as nat),
        decreases f1.len() - i,
    {
        let ghost ci = *c;
        let ghost si = s@;
        assert(vf1[i as int] == (f1@[i as int].0@, f1@[i as int].1@));
        match assoc_get(f2, &f1[i].0) {
            None => {},
            Some(ty2) => {
                let a1 = apply_subst(&s, &f1[i].1);
                let a2 = apply_subst(&s, ty2);
                match unify(c, &a1, &a2, fuel - 1) {
                    Err(e) => return Err(e),
                    Ok(s2) => {
                        s = compose(&s2, &s);
                    },
                }
            },
        }
        i += 1;
    }
    Ok(s)
}

fn unify_rows(
    c: &mut u64,
    f1: &Vec<(String, Type)>,
    row1: &Option<String>,
    f2: &Vec<(String, Type)>,
    row2: &Option<String>,
    is_union: bool,
    fuel: u64,
) -> (r: Result<Subst, TypeError>)
    ensures
        *final(c) == unify_rows_s(*old(c), view_fields(f1@), opt_name_view(*row1), view_fields(f2@), opt_name_view(*row2), is_union, fuel as nat).0,
        res_view(r) == unify_rows_s(*old(c), view_fields(f1@), opt_name_view(*row1), view_fields(f2@), opt_name_view(*row2), is_union, fuel as nat).1,
    decreases fuel, 1nat, 0nat,
{
    if fuel == 0 {
        return Err(row_fail(f1, row1, f2, row2, is_union));
    }
    let s = match unify_shared(c, f1, f2, fuel) {
        Err(e) => return Err(e),
        Ok(s) => s,
    };
    let o1 = only_fields_exec(f1, f2);
    let o2 = only_fields_exec(f2, f1);
    let only1 = super::subst::apply_subst_fields(&s, &o1);
    let only2 = super::subst::apply_subst_fields(&s, &o2);
    proof {
        lemma_view_fields(only1@);
        lemma_view_fields(only2@);
    }
    if only1.len() > 0 && only2.len() > 0 {
        let shared = super::ctx::make_name('t', *c);
        *c = super::ctx::bump(*c);
        match row2 {
            None => Err(row_fail(f1, row1, f2, row2, is_union)),
            Some(r2) => match bind_type(r2, &make_row(only1, Some(shared.clone()), is_union)) {
                Err(e) => Err(e),
                Ok(su) => {
                    let sa = compose(&su, &s);
                    match row1 {
                        None => Err(row_fail(f1, row1, f2, row2, is_union)),
                        Some(r1) => match bind_type(r1, &make_row(only2, Some(shared), is_union)) {
                            Err(e) => Err(e),
                            Ok(su2) => Ok(compose(&su2, &sa)),
                        },
                    }
                },
            },
        }
    } else if only1.len() > 0 {
        match row2 {
            None => Err(row_fail(f1, row1, f2, row2, is_union)),
            Some(r2) => match bind_type(r2, &make_row(only1, copy_opt_string(row1), is_union)) {
                Err(e) => Err(e),
                Ok(su) => Ok(compose(&su, &s)),
            },
        }
    } else if only2.len() > 0 {
        match row1 {
            None => Err(row_fail(f1, row1, f2, row2, is_union)),
            Some(r1) => {
                let rest = apply_subst(&s, &make_row(only2, copy_opt_string(row2), is_union));
                match bind_type(r1, &rest) {
                    Err(e) => Err(e),
                    Ok(su) => Ok(compose(&su, &s)),
                }
            },
        }
    } else {
        match row1 {
            Some(r1) => match row2 {
                Some(r2) => {
                    let v1 = Type::Var(r1.clone());
                    let v2 = Type::Var(r2.clone());
                    match unify(c, &v1, &v2, fuel - 1) {
                        Err(e) => Err(e),
                        Ok(su) => Ok(compose(&su, &s)),
                    }
                },
                None => match bind_type(r1, &make_row(Vec::new(), None, is_union)) {
                    Err(e) => Err(e),
                    Ok(su) => Ok(compose(&su, &s)),
                },
            },
            None => match row2 {
                Some(r2) => match bind_type(r2, &make_row(Vec::new(), None, is_union)) {
                    Err(e) => Err(e),
                    Ok(su) => Ok(compose(&su, &s)),
                },
                None => Ok(compose(&Subst::new(), &s)),
            },
        }
    }
}

} // verus!
