//! Applying and composing substitutions, and the free variables of types.

use vstd::prelude::*;
use crate::names::{seq_lt, str_less};
use super::model::{
    assoc_view, lemma_view_fields, lemma_view_fields_assoc, lemma_view_types, lookup,
    opt_name_view, shape_view, view_fields, view_type, view_types, names_view, s_shape, BaseType,
    Dim, SBase, SDim, SSubst, SType, Subst, Type,
};

verus! {

// ── Association lists ─────────────────────────────────────────────────────────

pub open spec fn has_key<T>(s: Seq<(Seq<char>, T)>, k: Seq<char>) -> bool {
    exists|i: int| 0 <= i < s.len() && s[i].0 == k
}

/// Looks up `k`: the value of its last entry, if any.
pub fn assoc_get<'a, T: View>(v: &'a Vec<(String, T)>, k: &String) -> (r: Option<&'a T>)
    ensures
        match r {
            Some(x) => lookup(assoc_view(v@), k@) == Some(x@),
            None => lookup(assoc_view(v@), k@) is None,
        },
{
    let mut i = v.len();
    assert(v@.take(i as int) =~= v@);
    while i > 0
        invariant
            i <= v.len(),
            lookup(assoc_view(v@), k@) == lookup(assoc_view(v@.take(i as int)), k@),
        decreases i,
    {
        i -= 1;
        assert(assoc_view(v@.take(i + 1)).drop_last() =~= assoc_view(v@.take(i as int)));
        assert(assoc_view(v@.take(i + 1)).last() == (v@[i as int].0@, v@[i as int].1@));
        if v[i].0 == *k {
            return Some(&v[i].1);
        }
    }
    assert(assoc_view(v@.take(0)) =~= Seq::<(Seq<char>, T::V)>::empty());
    None
}

// ── Sorting fields by name ────────────────────────────────────────────────────

/// Inserts `x` after every entry whose name does not sort after `x`'s name.
pub open spec fn insert_sorted(sorted: Seq<(Seq<char>, SType)>, x: (Seq<char>, SType)) -> Seq<(Seq<char>, SType)>
    decreases sorted.len(),
{
    if sorted.len() == 0 {
        seq![x]
    } else if seq_lt(x.0, sorted.last().0) {
        insert_sorted(sorted.drop_last(), x).push(sorted.last())
    } else {
        sorted.push(x)
    }
}

/// The stable sort of `s` by name.
pub open spec fn sort_fields(s: Seq<(Seq<char>, SType)>) -> Seq<(Seq<char>, SType)>
    decreases s.len(),
{
    if s.len() == 0 {
        Seq::empty()
    } else {
        insert_sorted(sort_fields(s.drop_last()), s.last())
    }
}

/// `acc` followed by each entry of `extra` whose name is not yet present.
pub open spec fn merge_fields(acc: Seq<(Seq<char>, SType)>, extra: Seq<(Seq<char>, SType)>) -> Seq<(Seq<char>, SType)>
    decreases extra.len(),
{
    if extra.len() == 0 {
        acc
    } else {
        let x = extra[0];
        merge_fields(if has_key(acc, x.0) { acc } else { acc.push(x) }, extra.drop_first())
    }
}

proof fn lemma_insert_sorted_at(sorted: Seq<(Seq<char>, SType)>, x: (Seq<char>, SType), p: int)
    requires
        0 <= p <= sorted.len(),
        forall|j: int| p <= j < sorted.len() ==> seq_lt(x.0, #[trigger] sorted[j].0),
        p > 0 ==> !seq_lt(x.0, sorted[p - 1].0),
    ensures
        insert_sorted(sorted, x) == sorted.insert(p, x),
    decreases sorted.len(),
{
    if sorted.len() == 0 {
        assert(sorted.insert(p, x) =~= seq![x]);
    } else if p == sorted.len() {
        assert(sorted.insert(p, x) =~= sorted.push(x));
    } else {
        lemma_insert_sorted_at(sorted.drop_last(), x, p);
        assert(sorted.drop_last().insert(p, x).push(sorted.last()) =~= sorted.insert(p, x));
    }
}

/// Sorts fields by name, stably (as `sort_by` on the names does).
pub fn sort_fields_exec(v: Vec<(String, Type)>) -> (r: Vec<(String, Type)>)
    ensures
        assoc_view(r@) == sort_fields(assoc_view(v@)),
{
    let mut v = v;
    let ghost orig = assoc_view(v@);
    let mut out: Vec<(String, Type)> = Vec::new();
    let mut done: usize = 0;
    let n0 = v.len();
    while v.len() > 0
        invariant
            done + v.len() == orig.len(),
            orig.len() == n0,
            assoc_view(v@) == orig.skip(done as int),
            assoc_view(out@) == sort_fields(orig.take(done as int)),
        decreases v.len(),
    {
        let ghost old_v = v@;
        let x = v.remove(0);
        assert(v@ =~= old_v.subrange(1, old_v.len() as int));
        assert(orig.skip(done as int)[0] == (x.0@, x.1@));
        assert forall|j: int| 0 <= j < v@.len() implies #[trigger] assoc_view(v@)[j] == orig.skip(done + 1)[j] by {
            assert(assoc_view(old_v)[j + 1] == orig.skip(done as int)[j + 1]);
        }
        assert(assoc_view(v@) =~= orig.skip(done + 1));
        let mut p = out.len();
        while p > 0 && str_less(&x.0, &out[p - 1].0)
            invariant
                p <= out.len(),
                forall|j: int| p <= j < out.len() ==> seq_lt(x.0@, #[trigger] out@[j].0@),
            decreases p,
        {
            p -= 1;
        }
        let ghost before = assoc_view(out@);
        proof {
            assert forall|j: int| p <= j < before.len() implies seq_lt(x.0@, #[trigger] before[j].0) by {
                assert(before[j].0 == out@[j].0@);
            }
            if p > 0 {
                assert(before[p - 1].0 == out@[p - 1].0@);
            }
            lemma_insert_sorted_at(before, (x.0@, x.1@), p as int);
        }
        out.insert(p, x);
        assert(assoc_view(out@) =~= before.insert(p as int, (x.0@, x.1@)));
        assert(orig.take(done + 1).drop_last() =~= orig.take(done as int));
        assert(orig.take(done + 1).last() == orig.skip(done as int)[0]);
        done += 1;
    }
    assert(orig.take(done as int) =~= orig);
    out
}

pub(crate) fn has_key_exec(acc: &Vec<(String, Type)>, k: &String) -> (r: bool)
    ensures
        r == has_key(assoc_view(acc@), k@),
{
    let mut i: usize = 0;
    while i < acc.len()
        invariant
            i <= acc.len(),
            forall|j: int| 0 <= j < i ==> acc@[j].0@ != k@,
        decreases acc.len() - i,
    {
        if acc[i].0 == *k {
            assert(assoc_view(acc@)[i as int].0 == k@);
            return true;
        }
        i += 1;
    }
    assert forall|j: int| 0 <= j < assoc_view(acc@).len() implies assoc_view(acc@)[j].0 != k@ by {
        assert(assoc_view(acc@)[j].0 == acc@[j].0@);
    }
    false
}

/// `acc` followed by the entries of `extra` whose names it lacks.
pub fn merge_fields_exec(acc: Vec<(String, Type)>, extra: Vec<(String, Type)>) -> (r: Vec<(String, Type)>)
    ensures
        assoc_view(r@) == merge_fields(assoc_view(acc@), assoc_view(extra@)),
{
    let mut acc = acc;
    let mut extra = extra;
    let ghost whole = assoc_view(extra@);
    let ghost acc0 = assoc_view(acc@);
    let ghost mut k: int = 0;
    assert(whole.skip(0) =~= whole);
    while extra.len() > 0
        invariant
            0 <= k <= whole.len(),
            assoc_view(extra@) == whole.skip(k),
            merge_fields(acc0, whole) == merge_fields(assoc_view(acc@), whole.skip(k)),
        decreases extra.len(),
    {
        let x = extra.remove(0);
        assert(whole.skip(k)[0] == (x.0@, x.1@));
        assert(whole.skip(k).drop_first() =~= whole.skip(k + 1));
        let present = has_key_exec(&acc, &x.0);
        if !present {
            let ghost a = assoc_view(acc@);
            acc.push(x);
            assert(assoc_view(acc@) =~= a.push(whole.skip(k)[0]));
        }
        assert(assoc_view(extra@) =~= whole.skip(k + 1));
        proof {
            k = k + 1;
        }
    }
    acc
}

// ── Applying a substitution ───────────────────────────────────────────────────

pub open spec fn sub_dim(s: SSubst, d: SDim) -> SDim {
    match d {
        SDim::Nat(_) => d,
        SDim::Var(v) => match lookup(s.dims, v) {
            Some(x) => x,
            None => d,
        },
    }
}

pub open spec fn sub_shape(s: SSubst, sh: Seq<SDim>) -> Seq<SDim> {
    sh.map_values(|d: SDim| sub_dim(s, d))
}

/// The base of a record or union whose row variable `r` is bound to `bound`
/// (already substituted): a closed or open record/union of the same kind has its
/// fields merged in (the result sorted by name), a type variable renames the row,
/// and anything else leaves the row as it was.
pub open spec fn with_row(nf: Seq<(Seq<char>, SType)>, r: Seq<char>, bound: SType, is_union: bool) -> SBase {
    let keep = if is_union { SBase::Union(nf, Some(r)) } else { SBase::Record(nf, Some(r)) };
    match bound {
        SType::Var(v) => if is_union { SBase::Union(nf, Some(v)) } else { SBase::Record(nf, Some(v)) },
        SType::Shaped(b, sh) => if sh.len() != 0 {
            keep
        } else {
            match b {
                SBase::Record(extra, extra_row) => if is_union {
                    keep
                } else {
                    SBase::Record(sort_fields(merge_fields(nf, extra)), extra_row)
                },
                SBase::Union(extra, extra_row) => if is_union {
                    SBase::Union(sort_fields(merge_fields(nf, extra)), extra_row)
                } else {
                    keep
                },
                _ => keep,
            }
        },
    }
}

/// `s` applied to a type. A row variable bound in `s` is followed at most `fuel`
/// times along one path; `fuel` = the number of type entries of `s` follows every
/// chain of distinct row variables.
pub open spec fn sub_type(s: SSubst, t: SType, fuel: nat) -> SType
    decreases fuel, t,
{
    match t {
        SType::Var(n) => match lookup(s.types, n) {
            Some(x) => x,
            None => t,
        },
        SType::Shaped(b, sh) => SType::Shaped(sub_base(s, b, fuel), sub_shape(s, sh)),
    }
}

pub open spec fn sub_types(s: SSubst, ts: Seq<SType>, fuel: nat) -> Seq<SType>
    decreases fuel, ts,
{
    if ts.len() == 0 {
        Seq::empty()
    } else {
        sub_types(s, ts.drop_last(), fuel).push(sub_type(s, ts.last(), fuel))
    }
}

pub open spec fn sub_fields(s: SSubst, fs: Seq<(Seq<char>, SType)>, fuel: nat) -> Seq<(Seq<char>, SType)>
    decreases fuel, fs,
{
    if fs.len() == 0 {
        Seq::empty()
    } else {
        sub_fields(s, fs.drop_last(), fuel).push((fs.last().0, sub_type(s, fs.last().1, fuel)))
    }
}

pub open spec fn sub_base(s: SSubst, b: SBase, fuel: nat) -> SBase
    decreases fuel, b,
{
    match b {
        SBase::Var(v) => match lookup(s.bases, v) {
            Some(x) => x,
            None => b,
        },
        SBase::Record(fs, row) => {
            let nf = sub_fields(s, fs, fuel);
            match row {
                None => SBase::Record(nf, None),
                Some(r) => match lookup(s.types, r) {
                    None => SBase::Record(nf, Some(r)),
                    Some(bound) => if fuel == 0 {
                        SBase::Record(nf, Some(r))
                    } else {
                        with_row(nf, r, sub_type(s, bound, (fuel - 1) as nat), false)
                    },
                },
            }
        },
        SBase::Union(fs, row) => {
            let nf = sub_fields(s, fs, fuel);
            match row {
                None => SBase::Union(nf, None),
                Some(r) => match lookup(s.types, r) {
                    None => SBase::Union(nf, Some(r)),
                    Some(bound) => if fuel == 0 {
                        SBase::Union(nf, Some(r))
                    } else {
                        with_row(nf, r, sub_type(s, bound, (fuel - 1) as nat), true)
                    },
                },
            }
        },
        SBase::Fun(ps, r) => SBase::Fun(sub_types(s, ps, fuel), Box::new(sub_type(s, *r, fuel))),
        SBase::Task(o, e) => SBase::Task(Box::new(sub_type(s, *o, fuel)), Box::new(sub_type(s, *e, fuel))),
        _ => b,
    }
}

/// `s` applied to a type (the model of [`apply_subst`]).
pub open spec fn apply_s(s: SSubst, t: SType) -> SType {
    sub_type(s, t, s.types.len())
}

/// `s` applied to a base type (the model of [`apply_subst_base`]).
pub open spec fn apply_base_s(s: SSubst, b: SBase) -> SBase {
    sub_base(s, b, s.types.len())
}

pub fn apply_dim_subst(s: &Subst, d: &Dim) -> (r: Dim)
    ensures
        r@ == sub_dim(s@, d@),
{
    match d {
        Dim::Nat(n) => Dim::Nat(*n),
        Dim::Var(v) => match assoc_get(&s.dims, v) {
            Some(x) => x.dup(),
            None => Dim::Var(v.clone()),
        },
    }
}

pub fn apply_subst_shape(s: &Subst, sh: &[Dim]) -> (r: Vec<Dim>)
    ensures
        shape_view(r@) == sub_shape(s@, shape_view(sh@)),
{
    let mut r: Vec<Dim> = Vec::new();
    let mut i: usize = 0;
    while i < sh.len()
        invariant
            i <= sh.len(),
            r@.len() == i,
            forall|j: int| 0 <= j < i ==> #[trigger] r@[j]@ == sub_dim(s@, sh@[j]@),
        decreases sh.len() - i,
    {
        r.push(apply_dim_subst(s, &sh[i]));
        i += 1;
    }
    assert(shape_view(r@) =~= sub_shape(s@, shape_view(sh@)));
    r
}

fn sub_type_exec(s: &Subst, t: &Type, fuel: usize) -> (r: Type)
    ensures
        r@ == sub_type(s@, t@, fuel as nat),
    decreases fuel, t,
{
    match t {
        Type::Var(n) => match assoc_get(&s.types, n) {
            Some(x) => x.dup(),
            None => Type::Var(n.clone()),
        },
        Type::Shaped(b, sh) => Type::Shaped(sub_base_exec(s, b, fuel), apply_subst_shape(s, sh.as_slice())),
    }
}

fn sub_types_exec(s: &Subst, ts: &Vec<Type>, fuel: usize) -> (r: Vec<Type>)
    ensures
        view_types(r@) == sub_types(s@, view_types(ts@), fuel as nat),
    decreases fuel, ts,
{
    let mut r: Vec<Type> = Vec::new();
    let mut i: usize = 0;
    proof {
        lemma_view_types(ts@);
    }
    while i < ts.len()
        invariant
            i <= ts.len(),
            view_types(ts@).len() == ts@.len(),
            forall|j: int| 0 <= j < ts@.len() ==> #[trigger] view_types(ts@)[j] == view_type(ts@[j]),
            view_types(r@) == sub_types(s@, view_types(ts@).take(i as int), fuel as nat),
        decreases ts.len() - i,
    {
        let t = sub_type_exec(s, &ts[i], fuel);
        let ghost r_old = r@;
        r.push(t);
        assert(r@.drop_last() =~= r_old);
        assert(view_types(ts@).take(i + 1).drop_last() =~= view_types(ts@).take(i as int));
        i += 1;
    }
    assert(view_types(ts@).take(ts.len() as int) =~= view_types(ts@));
    r
}

fn sub_fields_exec(s: &Subst, fs: &Vec<(String, Type)>, fuel: usize) -> (r: Vec<(String, Type)>)
    ensures
        view_fields(r@) == sub_fields(s@, view_fields(fs@), fuel as nat),
    decreases fuel, fs,
{
    let mut r: Vec<(String, Type)> = Vec::new();
    let mut i: usize = 0;
    proof {
        lemma_view_fields(fs@);
    }
    while i < fs.len()
        invariant
            i <= fs.len(),
            view_fields(fs@).len() == fs@.len(),
            forall|j: int| 0 <= j < fs@.len() ==> #[trigger] view_fields(fs@)[j] == (fs@[j].0@, view_type(fs@[j].1)),
            view_fields(r@) == sub_fields(s@, view_fields(fs@).take(i as int), fuel as nat),
        decreases fs.len() - i,
    {
        let t = sub_type_exec(s, &fs[i].1, fuel);
        let k = fs[i].0.clone();
        let ghost r_old = r@;
        r.push((k, t));
        assert(r@.drop_last() =~= r_old);
        assert(view_fields(fs@).take(i + 1).drop_last() =~= view_fields(fs@).take(i as int));
        i += 1;
    }
    assert(view_fields(fs@).take(fs.len() as int) =~= view_fields(fs@));
    r
}

/// The base of a record (`is_union` false) or union whose row `r` is bound to the
/// already substituted `bound`.
fn with_row_exec(nf: Vec<(String, Type)>, r: &String, bound: Type, is_union: bool) -> (out: BaseType)
    ensures
        out@ == with_row(view_fields(nf@), r@, bound@, is_union),
{
    match bound {
        Type::Var(v) => if is_union { BaseType::Union(nf, Some(v)) } else { BaseType::Record(nf, Some(v)) },
        Type::Shaped(b, sh) => {
            if sh.len() != 0 {
                if is_union { BaseType::Union(nf, Some(r.clone())) } else { BaseType::Record(nf, Some(r.clone())) }
            } else {
                match b {
                    BaseType::Record(extra, extra_row) => if is_union {
                        BaseType::Union(nf, Some(r.clone()))
                    } else {
                        proof {
                            lemma_view_fields_assoc(nf@);
                            lemma_view_fields_assoc(extra@);
                        }
                        let merged = merge_fields_exec(nf, extra);
                        let sorted = sort_fields_exec(merged);
                        proof {
                            lemma_view_fields_assoc(sorted@);
                        }
                        BaseType::Record(sorted, extra_row)
                    },
                    BaseType::Union(extra, extra_row) => if is_union {
                        proof {
                            lemma_view_fields_assoc(nf@);
                            lemma_view_fields_assoc(extra@);
                        }
                        let merged = merge_fields_exec(nf, extra);
                        let sorted = sort_fields_exec(merged);
                        proof {
                            lemma_view_fields_assoc(sorted@);
                        }
                        BaseType::Union(sorted, extra_row)
                    } else {
                        BaseType::Record(nf, Some(r.clone()))
                    },
                    _ => if is_union { BaseType::Union(nf, Some(r.clone())) } else { BaseType::Record(nf, Some(r.clone())) },
                }
            }
        },
    }
}

fn sub_base_exec(s: &Subst, b: &BaseType, fuel: usize) -> (r: BaseType)
    ensures
        r@ == sub_base(s@, b@, fuel as nat),
    decreases fuel, b,
{
    match b {
        BaseType::Var(v) => match assoc_get(&s.bases, v) {
            Some(x) => x.dup(),
            None => BaseType::Var(v.clone()),
        },
        BaseType::Int => BaseType::Int,
        BaseType::F64 => BaseType::F64,
        BaseType::Str => BaseType::Str,
        BaseType::Bool => BaseType::Bool,
        BaseType::Record(fs, row) | BaseType::Union(fs, row) => {
            let is_union = match b { BaseType::Union(..) => true, _ => false };
            let nf = sub_fields_exec(s, fs, fuel);
            match row {
                None => if is_union { BaseType::Union(nf, None) } else { BaseType::Record(nf, None) },
                Some(r) => match assoc_get(&s.types, r) {
                    None => if is_union { BaseType::Union(nf, Some(r.clone())) } else { BaseType::Record(nf, Some(r.clone())) },
                    Some(bound) => if fuel == 0 {
                        if is_union { BaseType::Union(nf, Some(r.clone())) } else { BaseType::Record(nf, Some(r.clone())) }
                    } else {
                        let bound_applied = sub_type_exec(s, bound, fuel - 1);
                        with_row_exec(nf, r, bound_applied, is_union)
                    },
                },
            }
        },
        BaseType::Fun(ps, r) => BaseType::Fun(sub_types_exec(s, ps, fuel), Box::new(sub_type_exec(s, r, fuel))),
        BaseType::Task(o, e) => BaseType::Task(Box::new(sub_type_exec(s, o, fuel)), Box::new(sub_type_exec(s, e, fuel))),
    }
}

/// Applies `s` to `ty`: type, dimension and base variables are replaced by their
/// bindings, and a record's or union's bound row variable is resolved (its fields
/// merged in, sorted by name).
pub fn apply_subst(s: &Subst, ty: &Type) -> (r: Type)
    ensures
        r@ == apply_s(s@, ty@),
{
    sub_type_exec(s, ty, s.types.len())
}

/// Applies `s` to the type of each field.
pub fn apply_subst_fields(s: &Subst, fs: &Vec<(String, Type)>) -> (r: Vec<(String, Type)>)
    ensures
        view_fields(r@) == sub_fields(s@, view_fields(fs@), s@.types.len()),
{
    sub_fields_exec(s, fs, s.types.len())
}

/// Applies `s` to a base type.
pub fn apply_subst_base(s: &Subst, b: &BaseType) -> (r: BaseType)
    ensures
        r@ == apply_base_s(s@, b@),
{
    sub_base_exec(s, b, s.types.len())
}


pub proof fn lemma_sub_types(s: SSubst, ts: Seq<SType>, fuel: nat)
    ensures
        sub_types(s, ts, fuel).len() == ts.len(),
        forall|i: int| 0 <= i < ts.len() ==> #[trigger] sub_types(s, ts, fuel)[i] == sub_type(s, ts[i], fuel),
    decreases ts.len(),
{
    if ts.len() > 0 {
        lemma_sub_types(s, ts.drop_last(), fuel);
    }
}

pub proof fn lemma_sub_fields(s: SSubst, fs: Seq<(Seq<char>, SType)>, fuel: nat)
    ensures
        sub_fields(s, fs, fuel).len() == fs.len(),
        forall|i: int| 0 <= i < fs.len() ==> #[trigger] sub_fields(s, fs, fuel)[i] == (fs[i].0, sub_type(s, fs[i].1, fuel)),
    decreases fs.len(),
{
    if fs.len() > 0 {
        lemma_sub_fields(s, fs.drop_last(), fuel);
    }
}

// ── Composition ───────────────────────────────────────────────────────────────

pub open spec fn sub_dims_assoc(s: SSubst, ds: Seq<(Seq<char>, SDim)>) -> Seq<(Seq<char>, SDim)> {
    ds.map_values(|p: (Seq<char>, SDim)| (p.0, sub_dim(s, p.1)))
}

pub open spec fn sub_bases_assoc(s: SSubst, bs: Seq<(Seq<char>, SBase)>) -> Seq<(Seq<char>, SBase)> {
    bs.map_values(|p: (Seq<char>, SBase)| (p.0, apply_base_s(s, p.1)))
}

/// `s1 ∘ s2`: `s1` applied to every binding of `s2`, then the bindings of `s1`,
/// which win where both bind a name.
pub open spec fn compose_s(s1: SSubst, s2: SSubst) -> SSubst {
    SSubst {
        types: sub_fields(s1, s2.types, s1.types.len()) + s1.types,
        dims: sub_dims_assoc(s1, s2.dims) + s1.dims,
        bases: sub_bases_assoc(s1, s2.bases) + s1.bases,
    }
}

/// Whether the row variable of every record and union inside `t` (if it has
/// one) is bound by neither `s1` nor `s2`.
pub open spec fn rows_unbound(s1: SSubst, s2: SSubst, t: SType) -> bool
    decreases t,
{
    match t {
        SType::Var(_) => true,
        SType::Shaped(b, _) => rows_unbound_base(s1, s2, b),
    }
}

pub open spec fn row_unbound(s1: SSubst, s2: SSubst, row: Option<Seq<char>>) -> bool {
    match row {
        None => true,
        Some(r) => lookup(s1.types, r) is None && lookup(s2.types, r) is None,
    }
}

pub open spec fn rows_unbound_base(s1: SSubst, s2: SSubst, b: SBase) -> bool
    decreases b,
{
    match b {
        SBase::Record(fs, row) => row_unbound(s1, s2, row) && rows_unbound_fields(s1, s2, fs),
        SBase::Union(fs, row) => row_unbound(s1, s2, row) && rows_unbound_fields(s1, s2, fs),
        SBase::Fun(ps, r) => rows_unbound_types(s1, s2, ps) && rows_unbound(s1, s2, *r),
        SBase::Task(o, e) => rows_unbound(s1, s2, *o) && rows_unbound(s1, s2, *e),
        _ => true,
    }
}

pub open spec fn rows_unbound_types(s1: SSubst, s2: SSubst, ts: Seq<SType>) -> bool
    decreases ts,
{
    if ts.len() == 0 { true } else { rows_unbound_types(s1, s2, ts.drop_last()) && rows_unbound(s1, s2, ts.last()) }
}

pub open spec fn rows_unbound_fields(s1: SSubst, s2: SSubst, fs: Seq<(Seq<char>, SType)>) -> bool
    decreases fs,
{
    if fs.len() == 0 { true } else { rows_unbound_fields(s1, s2, fs.drop_last()) && rows_unbound(s1, s2, fs.last().1) }
}

/// Whether no name is bound by both `s1` and `s2` (of the same kind).
pub open spec fn no_common_binding(s1: SSubst, s2: SSubst) -> bool {
    &&& forall|k: Seq<char>| !(#[trigger] lookup(s1.types, k) is Some && lookup(s2.types, k) is Some)
    &&& forall|k: Seq<char>| !(#[trigger] lookup(s1.dims, k) is Some && lookup(s2.dims, k) is Some)
    &&& forall|k: Seq<char>| !(#[trigger] lookup(s1.bases, k) is Some && lookup(s2.bases, k) is Some)
}

pub proof fn lemma_lookup_concat<T>(x: Seq<(Seq<char>, T)>, y: Seq<(Seq<char>, T)>, k: Seq<char>)
    ensures
        lookup(x + y, k) == (match lookup(y, k) {
            Some(v) => Some(v),
            None => lookup(x, k),
        }),
    decreases y.len(),
{
    if y.len() > 0 {
        assert((x + y).drop_last() =~= x + y.drop_last());
        assert((x + y).last() == y.last());
        lemma_lookup_concat(x, y.drop_last(), k);
    } else {
        assert(x + y =~= x);
    }
}

proof fn lemma_lookup_sub_fields(s: SSubst, fs: Seq<(Seq<char>, SType)>, fuel: nat, k: Seq<char>)
    ensures
        lookup(sub_fields(s, fs, fuel), k) == (match lookup(fs, k) {
            Some(v) => Some(sub_type(s, v, fuel)),
            None => None,
        }),
    decreases fs.len(),
{
    if fs.len() > 0 {
        lemma_lookup_sub_fields(s, fs.drop_last(), fuel, k);
        let x = sub_fields(s, fs, fuel);
        assert(x.drop_last() =~= sub_fields(s, fs.drop_last(), fuel));
        assert(x.last() == (fs.last().0, sub_type(s, fs.last().1, fuel)));
        assert(x.len() > 0);
    }
}

pub proof fn lemma_lookup_map_values<A, B>(xs: Seq<(Seq<char>, A)>, f: spec_fn(A) -> B, k: Seq<char>)
    ensures
        lookup(xs.map_values(|p: (Seq<char>, A)| (p.0, f(p.1))), k) == (match lookup(xs, k) {
            Some(v) => Some(f(v)),
            None => None,
        }),
    decreases xs.len(),
{
    let ys = xs.map_values(|p: (Seq<char>, A)| (p.0, f(p.1)));
    if xs.len() > 0 {
        assert(ys.drop_last() =~= xs.drop_last().map_values(|p: (Seq<char>, A)| (p.0, f(p.1))));
        lemma_lookup_map_values(xs.drop_last(), f, k);
    }
}

/// Applying `s1 ∘ s2` to a dimension is applying `s2`, then `s1`, when no
/// dimension variable is bound by both.
pub proof fn lemma_compose_dim(s1: SSubst, s2: SSubst, d: SDim)
    requires
        forall|k: Seq<char>| !(#[trigger] lookup(s1.dims, k) is Some && lookup(s2.dims, k) is Some),
    ensures
        sub_dim(compose_s(s1, s2), d) == sub_dim(s1, sub_dim(s2, d)),
{
    match d {
        SDim::Nat(_) => {},
        SDim::Var(v) => {
            let f = |x: SDim| sub_dim(s1, x);
            assert(sub_dims_assoc(s1, s2.dims) == s2.dims.map_values(|p: (Seq<char>, SDim)| (p.0, f(p.1))));
            lemma_lookup_map_values(s2.dims, f, v);
            lemma_lookup_concat(sub_dims_assoc(s1, s2.dims), s1.dims, v);
            assert(!(lookup(s1.dims, v) is Some && lookup(s2.dims, v) is Some));
        },
    }
}

proof fn lemma_compose_shape(s1: SSubst, s2: SSubst, sh: Seq<SDim>)
    requires
        no_common_binding(s1, s2),
    ensures
        sub_shape(compose_s(s1, s2), sh) == sub_shape(s1, sub_shape(s2, sh)),
{
    assert forall|i: int| 0 <= i < sh.len() implies sub_shape(compose_s(s1, s2), sh)[i] == sub_shape(s1, sub_shape(s2, sh))[i] by {
        lemma_compose_dim(s1, s2, sh[i]);
    }
    assert(sub_shape(compose_s(s1, s2), sh) =~= sub_shape(s1, sub_shape(s2, sh)));
}

proof fn lemma_compose_row(s1: SSubst, s2: SSubst, row: Option<Seq<char>>)
    requires
        row_unbound(s1, s2, row),
    ensures
        row matches Some(r) ==> lookup(compose_s(s1, s2).types, r) is None,
{
    match row {
        Some(r) => {
            lemma_lookup_sub_fields(s1, s2.types, s1.types.len(), r);
            lemma_lookup_concat(sub_fields(s1, s2.types, s1.types.len()), s1.types, r);
        },
        None => {},
    }
}

proof fn lemma_compose_type(s1: SSubst, s2: SSubst, t: SType, f: nat, f2: nat)
    requires
        no_common_binding(s1, s2),
        rows_unbound(s1, s2, t),
    ensures
        sub_type(compose_s(s1, s2), t, f) == sub_type(s1, sub_type(s2, t, f2), s1.types.len()),
    decreases t,
{
    match t {
        SType::Var(n) => {
            lemma_lookup_sub_fields(s1, s2.types, s1.types.len(), n);
            lemma_lookup_concat(sub_fields(s1, s2.types, s1.types.len()), s1.types, n);
            assert(!(lookup(s1.types, n) is Some && lookup(s2.types, n) is Some));
        },
        SType::Shaped(b, sh) => {
            lemma_compose_base(s1, s2, b, f, f2);
            lemma_compose_shape(s1, s2, sh);
        },
    }
}

proof fn lemma_compose_base(s1: SSubst, s2: SSubst, b: SBase, f: nat, f2: nat)
    requires
        no_common_binding(s1, s2),
        rows_unbound_base(s1, s2, b),
    ensures
        sub_base(compose_s(s1, s2), b, f) == sub_base(s1, sub_base(s2, b, f2), s1.types.len()),
    decreases b,
{
    match b {
        SBase::Var(v) => {
            let g = |x: SBase| apply_base_s(s1, x);
            assert(sub_bases_assoc(s1, s2.bases) == s2.bases.map_values(|p: (Seq<char>, SBase)| (p.0, g(p.1))));
            lemma_lookup_map_values(s2.bases, g, v);
            lemma_lookup_concat(sub_bases_assoc(s1, s2.bases), s1.bases, v);
            assert(!(lookup(s1.bases, v) is Some && lookup(s2.bases, v) is Some));
        },
        SBase::Record(fs, row) => {
            lemma_compose_fields(s1, s2, fs, f, f2);
            lemma_compose_row(s1, s2, row);
        },
        SBase::Union(fs, row) => {
            lemma_compose_fields(s1, s2, fs, f, f2);
            lemma_compose_row(s1, s2, row);
        },
        SBase::Fun(ps, r) => {
            lemma_compose_types(s1, s2, ps, f, f2);
            lemma_compose_type(s1, s2, *r, f, f2);
        },
        SBase::Task(o, e) => {
            lemma_compose_type(s1, s2, *o, f, f2);
            lemma_compose_type(s1, s2, *e, f, f2);
        },
        _ => {},
    }
}

proof fn lemma_compose_types(s1: SSubst, s2: SSubst, ts: Seq<SType>, f: nat, f2: nat)
    requires
        no_common_binding(s1, s2),
        rows_unbound_types(s1, s2, ts),
    ensures
        sub_types(compose_s(s1, s2), ts, f) == sub_types(s1, sub_types(s2, ts, f2), s1.types.len()),
    decreases ts,
{
    if ts.len() > 0 {
        lemma_compose_types(s1, s2, ts.drop_last(), f, f2);
        lemma_compose_type(s1, s2, ts.last(), f, f2);
        let mid = sub_types(s2, ts, f2);
        assert(mid.drop_last() =~= sub_types(s2, ts.drop_last(), f2));
        assert(mid.last() == sub_type(s2, ts.last(), f2));
        assert(mid.len() > 0);
    }
}

proof fn lemma_compose_fields(s1: SSubst, s2: SSubst, fs: Seq<(Seq<char>, SType)>, f: nat, f2: nat)
    requires
        no_common_binding(s1, s2),
        rows_unbound_fields(s1, s2, fs),
    ensures
        sub_fields(compose_s(s1, s2), fs, f) == sub_fields(s1, sub_fields(s2, fs, f2), s1.types.len()),
    decreases fs,
{
    if fs.len() > 0 {
        lemma_compose_fields(s1, s2, fs.drop_last(), f, f2);
        lemma_compose_type(s1, s2, fs.last().1, f, f2);
        let mid = sub_fields(s2, fs, f2);
        assert(mid.drop_last() =~= sub_fields(s2, fs.drop_last(), f2));
        assert(mid.last() == (fs.last().0, sub_type(s2, fs.last().1, f2)));
        assert(mid.len() > 0);
    }
}

/// Applying `s1 ∘ s2` is applying `s2` and then `s1`, to every type none of
/// whose row variables either substitution binds, when no name is bound by both
/// substitutions.
pub proof fn lemma_compose_applies_in_turn(s1: SSubst, s2: SSubst, t: SType)
    requires
        no_common_binding(s1, s2),
        rows_unbound(s1, s2, t),
    ensures
        apply_s(compose_s(s1, s2), t) == apply_s(s1, apply_s(s2, t)),
{
    lemma_compose_type(s1, s2, t, compose_s(s1, s2).types.len(), s2.types.len());
}

/// `s1 ∘ s2`: applying the result is applying `s2`, then `s1`.
pub fn compose(s1: &Subst, s2: &Subst) -> (r: Subst)
    ensures
        r@ == compose_s(s1@, s2@),
{
    let fuel = s1.types.len();
    let mut types: Vec<(String, Type)> = Vec::new();
    let mut i: usize = 0;
    proof {
        lemma_sub_fields(s1@, s2@.types, fuel as nat);
    }
    while i < s2.types.len()
        invariant
            i <= s2.types.len(),
            fuel == s1.types.len(),
            types@.len() == i,
            sub_fields(s1@, s2@.types, fuel as nat).len() == s2@.types.len(),
            forall|j: int| 0 <= j < s2@.types.len() ==> #[trigger] sub_fields(s1@, s2@.types, fuel as nat)[j] == (s2@.types[j].0, sub_type(s1@, s2@.types[j].1, fuel as nat)),
            forall|j: int| 0 <= j < i ==> (types@[j].0@, #[trigger] types@[j].1@) == sub_fields(s1@, s2@.types, fuel as nat)[j],
        decreases s2.types.len() - i,
    {
        let t = apply_subst(s1, &s2.types[i].1);
        let k = s2.types[i].0.clone();
        assert(s2@.types[i as int] == (s2.types@[i as int].0@, s2.types@[i as int].1@));
        types.push((k, t));
        i += 1;
    }
    let mut j: usize = 0;
    let n = types.len();
    while j < s1.types.len()
        invariant
            j <= s1.types.len(),
            n == s2.types.len(),
            types@.len() == n + j,
            sub_fields(s1@, s2@.types, fuel as nat).len() == s2@.types.len(),
            forall|k: int| 0 <= k < n ==> (types@[k].0@, #[trigger] types@[k].1@) == sub_fields(s1@, s2@.types, fuel as nat)[k],
            forall|k: int| 0 <= k < j ==> (types@[n + k].0@, #[trigger] types@[n + k].1@) == s1@.types[k],
        decreases s1.types.len() - j,
    {
        let t = s1.types[j].1.dup();
        let k = s1.types[j].0.clone();
        types.push((k, t));
        j += 1;
    }
    assert forall|k: int| 0 <= k < types@.len() implies #[trigger] assoc_view(types@)[k] == (sub_fields(s1@, s2@.types, fuel as nat) + s1@.types)[k] by {
        if k < n {
            assert((types@[k].0@, types@[k].1@) == sub_fields(s1@, s2@.types, fuel as nat)[k]);
        } else {
            assert((types@[n + (k - n)].0@, types@[n + (k - n)].1@) == s1@.types[k - n]);
        }
    }
    assert(assoc_view(types@) =~= sub_fields(s1@, s2@.types, fuel as nat) + s1@.types);

    let mut dims: Vec<(String, Dim)> = Vec::new();
    let mut i: usize = 0;
    while i < s2.dims.len()
        invariant
            i <= s2.dims.len(),
            dims@.len() == i,
            forall|j: int| 0 <= j < i ==> (dims@[j].0@, #[trigger] dims@[j].1@) == sub_dims_assoc(s1@, s2@.dims)[j],
        decreases s2.dims.len() - i,
    {
        let d = apply_dim_subst(s1, &s2.dims[i].1);
        let k = s2.dims[i].0.clone();
        dims.push((k, d));
        i += 1;
    }
    assert(sub_dims_assoc(s1@, s2@.dims).len() == s2.dims@.len());
    let mut j: usize = 0;
    let n = dims.len();
    while j < s1.dims.len()
        invariant
            j <= s1.dims.len(),
            n == s2.dims.len(),
            dims@.len() == n + j,
            sub_dims_assoc(s1@, s2@.dims).len() == n,
            forall|k: int| 0 <= k < n ==> (dims@[k].0@, #[trigger] dims@[k].1@) == sub_dims_assoc(s1@, s2@.dims)[k],
            forall|k: int| 0 <= k < j ==> (dims@[n + k].0@, #[trigger] dims@[n + k].1@) == s1@.dims[k],
        decreases s1.dims.len() - j,
    {
        let d = s1.dims[j].1.dup();
        let k = s1.dims[j].0.clone();
        dims.push((k, d));
        j += 1;
    }
    assert forall|k: int| 0 <= k < dims@.len() implies #[trigger] assoc_view(dims@)[k] == (sub_dims_assoc(s1@, s2@.dims) + s1@.dims)[k] by {
        if k < n {
            assert((dims@[k].0@, dims@[k].1@) == sub_dims_assoc(s1@, s2@.dims)[k]);
        } else {
            assert((dims@[n + (k - n)].0@, dims@[n + (k - n)].1@) == s1@.dims[k - n]);
        }
    }
    assert(assoc_view(dims@) =~= sub_dims_assoc(s1@, s2@.dims) + s1@.dims);

    let mut bases: Vec<(String, BaseType)> = Vec::new();
    let mut i: usize = 0;
    while i < s2.bases.len()
        invariant
            i <= s2.bases.len(),
            bases@.len() == i,
            forall|j: int| 0 <= j < i ==> (bases@[j].0@, #[trigger] bases@[j].1@) == sub_bases_assoc(s1@, s2@.bases)[j],
        decreases s2.bases.len() - i,
    {
        let b = apply_subst_base(s1, &s2.bases[i].1);
        let k = s2.bases[i].0.clone();
        bases.push((k, b));
        i += 1;
    }
    assert(sub_bases_assoc(s1@, s2@.bases).len() == s2.bases@.len());
    let mut j: usize = 0;
    let n = bases.len();
    while j < s1.bases.len()
        invariant
            j <= s1.bases.len(),
            n == s2.bases.len(),
            bases@.len() == n + j,
            sub_bases_assoc(s1@, s2@.bases).len() == n,
            forall|k: int| 0 <= k < n ==> (bases@[k].0@, #[trigger] bases@[k].1@) == sub_bases_assoc(s1@, s2@.bases)[k],
            forall|k: int| 0 <= k < j ==> (bases@[n + k].0@, #[trigger] bases@[n + k].1@) == s1@.bases[k],
        decreases s1.bases.len() - j,
    {
        let b = s1.bases[j].1.dup();
        let k = s1.bases[j].0.clone();
        bases.push((k, b));
        j += 1;
    }
    assert forall|k: int| 0 <= k < bases@.len() implies #[trigger] assoc_view(bases@)[k] == (sub_bases_assoc(s1@, s2@.bases) + s1@.bases)[k] by {
        if k < n {
            assert((bases@[k].0@, bases@[k].1@) == sub_bases_assoc(s1@, s2@.bases)[k]);
        } else {
            assert((bases@[n + (k - n)].0@, bases@[n + (k - n)].1@) == s1@.bases[k - n]);
        }
    }
    assert(assoc_view(bases@) =~= sub_bases_assoc(s1@, s2@.bases) + s1@.bases);
    Subst { types, dims, bases }
}

// ── Free variables ────────────────────────────────────────────────────────────

pub open spec fn opt_seq(o: Option<Seq<char>>) -> Seq<Seq<char>> {
    match o {
        Some(r) => seq![r],
        None => Seq::empty(),
    }
}

/// The free type variables of a type (row variables included), in order of
/// occurrence, possibly repeated.
pub open spec fn ftv(t: SType) -> Seq<Seq<char>>
    decreases t,
{
    match t {
        SType::Var(n) => seq![n],
        SType::Shaped(b, _) => ftv_base(b),
    }
}

pub open spec fn ftv_base(b: SBase) -> Seq<Seq<char>>
    decreases b,
{
    match b {
        SBase::Record(fs, row) => ftv_fields(fs) + opt_seq(row),
        SBase::Union(fs, row) => ftv_fields(fs) + opt_seq(row),
        SBase::Fun(ps, r) => ftv_types(ps) + ftv(*r),
        SBase::Task(o, e) => ftv(*o) + ftv(*e),
        _ => Seq::empty(),
    }
}

pub open spec fn ftv_types(ts: Seq<SType>) -> Seq<Seq<char>>
    decreases ts,
{
    if ts.len() == 0 {
        Seq::empty()
    } else {
        ftv_types(ts.drop_last()) + ftv(ts.last())
    }
}

pub open spec fn ftv_fields(fs: Seq<(Seq<char>, SType)>) -> Seq<Seq<char>>
    decreases fs,
{
    if fs.len() == 0 {
        Seq::empty()
    } else {
        ftv_fields(fs.drop_last()) + ftv(fs.last().1)
    }
}

/// The dimension variables of a shape, in order.
pub open spec fn fdv_shape(sh: Seq<SDim>) -> Seq<Seq<char>>
    decreases sh.len(),
{
    if sh.len() == 0 {
        Seq::empty()
    } else {
        fdv_shape(sh.drop_last()) + match sh.last() {
            SDim::Var(v) => seq![v],
            SDim::Nat(_) => Seq::<Seq<char>>::empty(),
        }
    }
}

/// The dimension variables of a type, at every depth: those of its shape, then
/// those of its base's components.
pub open spec fn fdv_type(t: SType) -> Seq<Seq<char>>
    decreases t,
{
    match t {
        SType::Var(_) => Seq::empty(),
        SType::Shaped(b, sh) => fdv_shape(sh) + fdv_base(b),
    }
}

pub open spec fn fdv_base(b: SBase) -> Seq<Seq<char>>
    decreases b,
{
    match b {
        SBase::Record(fs, _) => fdv_fields(fs),
        SBase::Union(fs, _) => fdv_fields(fs),
        SBase::Fun(ps, r) => fdv_types(ps) + fdv_type(*r),
        SBase::Task(o, e) => fdv_type(*o) + fdv_type(*e),
        _ => Seq::empty(),
    }
}

pub open spec fn fdv_types(ts: Seq<SType>) -> Seq<Seq<char>>
    decreases ts,
{
    if ts.len() == 0 {
        Seq::empty()
    } else {
        fdv_types(ts.drop_last()) + fdv_type(ts.last())
    }
}

pub open spec fn fdv_fields(fs: Seq<(Seq<char>, SType)>) -> Seq<Seq<char>>
    decreases fs,
{
    if fs.len() == 0 {
        Seq::empty()
    } else {
        fdv_fields(fs.drop_last()) + fdv_type(fs.last().1)
    }
}

/// The free base variables of a type.
pub open spec fn fbv(t: SType) -> Seq<Seq<char>>
    decreases t,
{
    match t {
        SType::Shaped(b, _) => fbv_base(b),
        SType::Var(_) => Seq::empty(),
    }
}

pub open spec fn fbv_base(b: SBase) -> Seq<Seq<char>>
    decreases b,
{
    match b {
        SBase::Var(v) => seq![v],
        SBase::Record(fs, _) => fbv_fields(fs),
        SBase::Union(fs, _) => fbv_fields(fs),
        SBase::Fun(ps, r) => fbv_types(ps) + fbv(*r),
        SBase::Task(o, e) => fbv(*o) + fbv(*e),
        _ => Seq::empty(),
    }
}

pub open spec fn fbv_types(ts: Seq<SType>) -> Seq<Seq<char>>
    decreases ts,
{
    if ts.len() == 0 {
        Seq::empty()
    } else {
        fbv_types(ts.drop_last()) + fbv(ts.last())
    }
}

pub open spec fn fbv_fields(fs: Seq<(Seq<char>, SType)>) -> Seq<Seq<char>>
    decreases fs,
{
    if fs.len() == 0 {
        Seq::empty()
    } else {
        fbv_fields(fs.drop_last()) + fbv(fs.last().1)
    }
}

fn push_name(out: &mut Vec<String>, n: &String)
    ensures
        names_view(final(out)@) == names_view(old(out)@) + seq![n@],
{
    out.push(n.clone());
    assert(names_view(out@) =~= names_view(old(out)@) + seq![n@]);
}

/// Appends the free type variables of `t` to `out`.
pub fn ftv_into(t: &Type, out: &mut Vec<String>)
    ensures
        names_view(final(out)@) == names_view(old(out)@) + ftv(t@),
    decreases t,
{
    match t {
        Type::Var(n) => push_name(out, n),
        Type::Shaped(b, _) => ftv_base_into(b, out),
    }
}

fn ftv_fields_into(fs: &Vec<(String, Type)>, out: &mut Vec<String>)
    ensures
        names_view(final(out)@) == names_view(old(out)@) + ftv_fields(view_fields(fs@)),
    decreases fs,
{
    let ghost start = names_view(out@);
    let mut i: usize = 0;
    assert(view_fields(fs@.take(0)) =~= Seq::empty());
    assert(start + ftv_fields(Seq::empty()) =~= start);
    while i < fs.len()
        invariant
            i <= fs.len(),
            names_view(out@) == start + ftv_fields(view_fields(fs@.take(i as int))),
        decreases fs.len() - i,
    {
        ftv_into(&fs[i].1, out);
        assert(fs@.take(i + 1).drop_last() =~= fs@.take(i as int));
        assert(view_fields(fs@.take(i + 1)).drop_last() =~= view_fields(fs@.take(i as int)));
        assert(names_view(out@) =~= start + ftv_fields(view_fields(fs@.take(i + 1))));
        i += 1;
    }
    assert(fs@.take(fs.len() as int) =~= fs@);
}

fn ftv_types_into(ts: &Vec<Type>, out: &mut Vec<String>)
    ensures
        names_view(final(out)@) == names_view(old(out)@) + ftv_types(view_types(ts@)),
    decreases ts,
{
    let ghost start = names_view(out@);
    let mut i: usize = 0;
    assert(view_types(ts@.take(0)) =~= Seq::empty());
    assert(start + ftv_types(Seq::empty()) =~= start);
    while i < ts.len()
        invariant
            i <= ts.len(),
            names_view(out@) == start + ftv_types(view_types(ts@.take(i as int))),
        decreases ts.len() - i,
    {
        ftv_into(&ts[i], out);
        assert(ts@.take(i + 1).drop_last() =~= ts@.take(i as int));
        assert(view_types(ts@.take(i + 1)).drop_last() =~= view_types(ts@.take(i as int)));
        assert(names_view(out@) =~= start + ftv_types(view_types(ts@.take(i + 1))));
        i += 1;
    }
    assert(ts@.take(ts.len() as int) =~= ts@);
}

pub fn ftv_base_into(b: &BaseType, out: &mut Vec<String>)
    ensures
        names_view(final(out)@) == names_view(old(out)@) + ftv_base(b@),
    decreases b,
{
    match b {
        BaseType::Record(fs, row) => {
            ftv_fields_into(fs, out);
            match row {
                Some(r) => push_name(out, r),
                None => {}
            }
            assert(names_view(out@) =~= names_view(old(out)@) + (ftv_fields(view_fields(fs@)) + opt_seq(opt_name_view(*row))));
        },
        BaseType::Union(fs, row) => {
            ftv_fields_into(fs, out);
            match row {
                Some(r) => push_name(out, r),
                None => {}
            }
            assert(names_view(out@) =~= names_view(old(out)@) + (ftv_fields(view_fields(fs@)) + opt_seq(opt_name_view(*row))));
        },
        BaseType::Fun(ps, r) => {
            ftv_types_into(ps, out);
            ftv_into(r, out);
            assert(names_view(out@) =~= names_view(old(out)@) + (ftv_types(view_types(ps@)) + ftv(r@)));
        },
        BaseType::Task(o, e) => {
            ftv_into(o, out);
            ftv_into(e, out);
            assert(names_view(out@) =~= names_view(old(out)@) + (ftv(o@) + ftv(e@)));
        },
        _ => {
            assert(names_view(out@) =~= names_view(old(out)@) + ftv_base(b@));
        },
    }
}

fn fdv_shape_into(sh: &[Dim], out: &mut Vec<String>)
    ensures
        names_view(final(out)@) == names_view(old(out)@) + fdv_shape(shape_view(sh@)),
{
    let ghost start = names_view(out@);
    let mut i: usize = 0;
    while i < sh.len()
        invariant
            i <= sh.len(),
            names_view(out@) == start + fdv_shape(shape_view(sh@.take(i as int))),
        decreases sh.len() - i,
    {
        assert(shape_view(sh@.take(i + 1)).drop_last() =~= shape_view(sh@.take(i as int)));
        assert(shape_view(sh@.take(i + 1)).last() == sh@[i as int]@);
        match &sh[i] {
            Dim::Var(v) => push_name(out, v),
            Dim::Nat(_) => {}
        }
        assert(names_view(out@) =~= start + fdv_shape(shape_view(sh@.take(i + 1))));
        i += 1;
    }
    assert(sh@.take(sh.len() as int) =~= sh@);
}

/// Appends the dimension variables of `t` (see [`fdv_type`]) to `out`.
pub fn fdv_type_into(t: &Type, out: &mut Vec<String>)
    ensures
        names_view(final(out)@) == names_view(old(out)@) + fdv_type(t@),
    decreases t,
{
    match t {
        Type::Var(_) => {
            assert(names_view(out@) =~= names_view(old(out)@) + fdv_type(t@));
        },
        Type::Shaped(b, sh) => {
            fdv_shape_into(sh.as_slice(), out);
            fdv_base_into(b, out);
            assert(names_view(out@) =~= names_view(old(out)@) + fdv_type(t@));
        },
    }
}

fn fdv_fields_into(fs: &Vec<(String, Type)>, out: &mut Vec<String>)
    ensures
        names_view(final(out)@) == names_view(old(out)@) + fdv_fields(view_fields(fs@)),
    decreases fs,
{
    let ghost start = names_view(out@);
    let mut i: usize = 0;
    assert(view_fields(fs@.take(0)) =~= Seq::empty());
    assert(start + fdv_fields(Seq::empty()) =~= start);
    while i < fs.len()
        invariant
            i <= fs.len(),
            names_view(out@) == start + fdv_fields(view_fields(fs@.take(i as int))),
        decreases fs.len() - i,
    {
        fdv_type_into(&fs[i].1, out);
        assert(fs@.take(i + 1).drop_last() =~= fs@.take(i as int));
        assert(view_fields(fs@.take(i + 1)).drop_last() =~= view_fields(fs@.take(i as int)));
        assert(names_view(out@) =~= start + fdv_fields(view_fields(fs@.take(i + 1))));
        i += 1;
    }
    assert(fs@.take(fs.len() as int) =~= fs@);
}

fn fdv_types_into(ts: &Vec<Type>, out: &mut Vec<String>)
    ensures
        names_view(final(out)@) == names_view(old(out)@) + fdv_types(view_types(ts@)),
    decreases ts,
{
    let ghost start = names_view(out@);
    let mut i: usize = 0;
    assert(view_types(ts@.take(0)) =~= Seq::empty());
    assert(start + fdv_types(Seq::empty()) =~= start);
    while i < ts.len()
        invariant
            i <= ts.len(),
            names_view(out@) == start + fdv_types(view_types(ts@.take(i as int))),
        decreases ts.len() - i,
    {
        fdv_type_into(&ts[i], out);
        assert(ts@.take(i + 1).drop_last() =~= ts@.take(i as int));
        assert(view_types(ts@.take(i + 1)).drop_last() =~= view_types(ts@.take(i as int)));
        assert(names_view(out@) =~= start + fdv_types(view_types(ts@.take(i + 1))));
        i += 1;
    }
    assert(ts@.take(ts.len() as int) =~= ts@);
}

fn fdv_base_into(b: &BaseType, out: &mut Vec<String>)
    ensures
        names_view(final(out)@) == names_view(old(out)@) + fdv_base(b@),
    decreases b,
{
    match b {
        BaseType::Record(fs, _) | BaseType::Union(fs, _) => {
            fdv_fields_into(fs, out);
        },
        BaseType::Fun(ps, r) => {
            fdv_types_into(ps, out);
            fdv_type_into(r, out);
            assert(names_view(out@) =~= names_view(old(out)@) + (fdv_types(view_types(ps@)) + fdv_type(r@)));
        },
        BaseType::Task(o, e) => {
            fdv_type_into(o, out);
            fdv_type_into(e, out);
            assert(names_view(out@) =~= names_view(old(out)@) + (fdv_type(o@) + fdv_type(e@)));
        },
        _ => {
            assert(names_view(out@) =~= names_view(old(out)@) + fdv_base(b@));
        },
    }
}

/// Appends the free base variables of `t` to `out`.
pub fn fbv_into(t: &Type, out: &mut Vec<String>)
    ensures
        names_view(final(out)@) == names_view(old(out)@) + fbv(t@),
    decreases t,
{
    match t {
        Type::Var(_) => {
            assert(names_view(out@) =~= names_view(old(out)@) + fbv(t@));
        },
        Type::Shaped(b, _) => fbv_base_into(b, out),
    }
}

fn fbv_fields_into(fs: &Vec<(String, Type)>, out: &mut Vec<String>)
    ensures
        names_view(final(out)@) == names_view(old(out)@) + fbv_fields(view_fields(fs@)),
    decreases fs,
{
    let ghost start = names_view(out@);
    let mut i: usize = 0;
    assert(view_fields(fs@.take(0)) =~= Seq::empty());
    assert(start + fbv_fields(Seq::empty()) =~= start);
    while i < fs.len()
        invariant
            i <= fs.len(),
            names_view(out@) == start + fbv_fields(view_fields(fs@.take(i as int))),
        decreases fs.len() - i,
    {
        fbv_into(&fs[i].1, out);
        assert(fs@.take(i + 1).drop_last() =~= fs@.take(i as int));
        assert(view_fields(fs@.take(i + 1)).drop_last() =~= view_fields(fs@.take(i as int)));
        assert(names_view(out@) =~= start + fbv_fields(view_fields(fs@.take(i + 1))));
        i += 1;
    }
    assert(fs@.take(fs.len() as int) =~= fs@);
}

fn fbv_types_into(ts: &Vec<Type>, out: &mut Vec<String>)
    ensures
        names_view(final(out)@) == names_view(old(out)@) + fbv_types(view_types(ts@)),
    decreases ts,
{
    let ghost start = names_view(out@);
    let mut i: usize = 0;
    assert(view_types(ts@.take(0)) =~= Seq::empty());
    assert(start + fbv_types(Seq::empty()) =~= start);
    while i < ts.len()
        invariant
            i <= ts.len(),
            names_view(out@) == start + fbv_types(view_types(ts@.take(i as int))),
        decreases ts.len() - i,
    {
        fbv_into(&ts[i], out);
        assert(ts@.take(i + 1).drop_last() =~= ts@.take(i as int));
        assert(view_types(ts@.take(i + 1)).drop_last() =~= view_types(ts@.take(i as int)));
        assert(names_view(out@) =~= start + fbv_types(view_types(ts@.take(i + 1))));
        i += 1;
    }
    assert(ts@.take(ts.len() as int) =~= ts@);
}

pub fn fbv_base_into(b: &BaseType, out: &mut Vec<String>)
    ensures
        names_view(final(out)@) == names_view(old(out)@) + fbv_base(b@),
    decreases b,
{
    match b {
        BaseType::Var(v) => push_name(out, v),
        BaseType::Record(fs, _) => fbv_fields_into(fs, out),
        BaseType::Union(fs, _) => fbv_fields_into(fs, out),
        BaseType::Fun(ps, r) => {
            fbv_types_into(ps, out);
            fbv_into(r, out);
            assert(names_view(out@) =~= names_view(old(out)@) + (fbv_types(view_types(ps@)) + fbv(r@)));
        },
        BaseType::Task(o, e) => {
            fbv_into(o, out);
            fbv_into(e, out);
            assert(names_view(out@) =~= names_view(old(out)@) + (fbv(o@) + fbv(e@)));
        },
        _ => {
            assert(names_view(out@) =~= names_view(old(out)@) + fbv_base(b@));
        },
    }
}

/// The free type variables of `t`.
pub fn ftv_exec(t: &Type) -> (r: Vec<String>)
    ensures
        names_view(r@) == ftv(t@),
{
    let mut out: Vec<String> = Vec::new();
    assert(names_view(out@) =~= Seq::<Seq<char>>::empty());
    ftv_into(t, &mut out);
    assert(names_view(out@) =~= ftv(t@));
    out
}

/// Whether `k` occurs in `v`.
pub fn names_contain(v: &Vec<String>, k: &String) -> (r: bool)
    ensures
        r == names_view(v@).contains(k@),
{
    let mut i: usize = 0;
    while i < v.len()
        invariant
            i <= v.len(),
            forall|j: int| 0 <= j < i ==> v@[j]@ != k@,
        decreases v.len() - i,
    {
        if v[i] == *k {
            assert(names_view(v@)[i as int] == k@);
            return true;
        }
        i += 1;
    }
    assert(!names_view(v@).contains(k@)) by {
        assert forall|j: int| 0 <= j < names_view(v@).len() implies names_view(v@)[j] != k@ by {
            assert(names_view(v@)[j] == v@[j]@);
        }
    }
    false
}


// ── Substitutions that leave a type alone ─────────────────────────────────────

/// No name of `xs` is bound in `m`.
pub open spec fn none_bound<T>(xs: Seq<Seq<char>>, m: Seq<(Seq<char>, T)>) -> bool {
    forall|i: int| 0 <= i < xs.len() ==> lookup(m, #[trigger] xs[i]) is None
}

proof fn lemma_none_bound_add<T>(a: Seq<Seq<char>>, b: Seq<Seq<char>>, m: Seq<(Seq<char>, T)>)
    requires
        none_bound(a + b, m),
    ensures
        none_bound(a, m),
        none_bound(b, m),
{
    assert forall|i: int| 0 <= i < a.len() implies lookup(m, #[trigger] a[i]) is None by {
        assert((a + b)[i] == a[i]);
    }
    assert forall|i: int| 0 <= i < b.len() implies lookup(m, #[trigger] b[i]) is None by {
        assert((a + b)[a.len() + i] == b[i]);
    }
}

/// `s` binds no variable of `t` (of any kind).
pub open spec fn binds_none(s: SSubst, t: SType) -> bool {
    none_bound(ftv(t), s.types) && none_bound(fdv_type(t), s.dims) && none_bound(fbv(t), s.bases)
}

pub open spec fn binds_none_base(s: SSubst, b: SBase) -> bool {
    none_bound(ftv_base(b), s.types) && none_bound(fdv_base(b), s.dims) && none_bound(fbv_base(b), s.bases)
}

proof fn lemma_sub_shape_id(s: SSubst, sh: Seq<SDim>)
    requires
        none_bound(fdv_shape(sh), s.dims),
    ensures
        sub_shape(s, sh) == sh,
    decreases sh.len(),
{
    if sh.len() > 0 {
        let last_vars = match sh.last() {
            SDim::Var(v) => seq![v],
            SDim::Nat(_) => Seq::<Seq<char>>::empty(),
        };
        lemma_none_bound_add(fdv_shape(sh.drop_last()), last_vars, s.dims);
        lemma_sub_shape_id(s, sh.drop_last());
        match sh.last() {
            SDim::Var(v) => assert(last_vars[0] == v),
            SDim::Nat(_) => {},
        }
        assert forall|i: int| 0 <= i < sh.len() implies #[trigger] sub_shape(s, sh)[i] == sh[i] by {
            if i < sh.len() - 1 {
                assert(sub_shape(s, sh.drop_last())[i] == sh.drop_last()[i]);
            }
        }
        assert(sub_shape(s, sh) =~= sh);
    } else {
        assert(sub_shape(s, sh) =~= sh);
    }
}

proof fn lemma_sub_type_id(s: SSubst, t: SType, f: nat)
    requires
        binds_none(s, t),
    ensures
        sub_type(s, t, f) == t,
    decreases t,
{
    match t {
        SType::Var(n) => {
            assert(ftv(t)[0] == n);
        },
        SType::Shaped(b, sh) => {
            lemma_none_bound_add(fdv_shape(sh), fdv_base(b), s.dims);
            lemma_sub_base_id(s, b, f);
            lemma_sub_shape_id(s, sh);
        },
    }
}

proof fn lemma_sub_base_id(s: SSubst, b: SBase, f: nat)
    requires
        binds_none_base(s, b),
    ensures
        sub_base(s, b, f) == b,
    decreases b,
{
    match b {
        SBase::Var(v) => {
            assert(fbv_base(b)[0] == v);
        },
        SBase::Record(fs, row) => {
            lemma_none_bound_add(ftv_fields(fs), opt_seq(row), s.types);
            lemma_sub_fields_id(s, fs, f);
            match row {
                Some(r) => assert(opt_seq(row)[0] == r),
                None => {},
            }
        },
        SBase::Union(fs, row) => {
            lemma_none_bound_add(ftv_fields(fs), opt_seq(row), s.types);
            lemma_sub_fields_id(s, fs, f);
            match row {
                Some(r) => assert(opt_seq(row)[0] == r),
                None => {},
            }
        },
        SBase::Fun(ps, r) => {
            lemma_none_bound_add(ftv_types(ps), ftv(*r), s.types);
            lemma_none_bound_add(fdv_types(ps), fdv_type(*r), s.dims);
            lemma_none_bound_add(fbv_types(ps), fbv(*r), s.bases);
            lemma_sub_types_id(s, ps, f);
            lemma_sub_type_id(s, *r, f);
        },
        SBase::Task(o, e) => {
            lemma_none_bound_add(ftv(*o), ftv(*e), s.types);
            lemma_none_bound_add(fdv_type(*o), fdv_type(*e), s.dims);
            lemma_none_bound_add(fbv(*o), fbv(*e), s.bases);
            lemma_sub_type_id(s, *o, f);
            lemma_sub_type_id(s, *e, f);
        },
        _ => {},
    }
}

proof fn lemma_sub_types_id(s: SSubst, ts: Seq<SType>, f: nat)
    requires
        none_bound(ftv_types(ts), s.types),
        none_bound(fdv_types(ts), s.dims),
        none_bound(fbv_types(ts), s.bases),
    ensures
        sub_types(s, ts, f) == ts,
    decreases ts,
{
    if ts.len() > 0 {
        lemma_none_bound_add(ftv_types(ts.drop_last()), ftv(ts.last()), s.types);
        lemma_none_bound_add(fdv_types(ts.drop_last()), fdv_type(ts.last()), s.dims);
        lemma_none_bound_add(fbv_types(ts.drop_last()), fbv(ts.last()), s.bases);
        lemma_sub_types_id(s, ts.drop_last(), f);
        lemma_sub_type_id(s, ts.last(), f);
        assert(ts.drop_last().push(ts.last()) =~= ts);
    } else {
        assert(sub_types(s, ts, f) =~= ts);
    }
}

proof fn lemma_sub_fields_id(s: SSubst, fs: Seq<(Seq<char>, SType)>, f: nat)
    requires
        none_bound(ftv_fields(fs), s.types),
        none_bound(fdv_fields(fs), s.dims),
        none_bound(fbv_fields(fs), s.bases),
    ensures
        sub_fields(s, fs, f) == fs,
    decreases fs,
{
    if fs.len() > 0 {
        lemma_none_bound_add(ftv_fields(fs.drop_last()), ftv(fs.last().1), s.types);
        lemma_none_bound_add(fdv_fields(fs.drop_last()), fdv_type(fs.last().1), s.dims);
        lemma_none_bound_add(fbv_fields(fs.drop_last()), fbv(fs.last().1), s.bases);
        lemma_sub_fields_id(s, fs.drop_last(), f);
        lemma_sub_type_id(s, fs.last().1, f);
        assert(fs.drop_last().push((fs.last().0, fs.last().1)) =~= fs);
    } else {
        assert(sub_fields(s, fs, f) =~= fs);
    }
}

/// A substitution that binds no variable of `t` leaves `t` as it is.
pub proof fn lemma_apply_binds_none(s: SSubst, t: SType)
    requires
        binds_none(s, t),
    ensures
        apply_s(s, t) == t,
{
    lemma_sub_type_id(s, t, s.types.len());
}

} // verus!
