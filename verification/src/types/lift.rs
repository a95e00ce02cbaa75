//! Broadcasting of array shapes, and the element-wise lifting of a function
//! application over arguments of higher rank than the parameters.

use vstd::prelude::*;
use super::model::{
    lookup, copy_shape, lemma_view_types, s_shape, shape_view, view_types, BaseType, Dim, SBase, SDim, SSubst, Shape,
    STypeError, SType, Subst, Type, TypeError, s_empty_subst,
};
use super::subst::{apply_s, apply_subst, apply_subst_shape, compose, compose_s, sub_shape};
use super::unify::{
    fold_shapes, lemma_unify_shapes_equalizes, res_view, unify, unify_s, unify_shapes, unify_shapes_s, UNIFY_DEPTH,
};

verus! {

// ── Broadcasting ──────────────────────────────────────────────────────────────

/// Two shapes broadcast when the shorter one unifies with the start of the
/// longer one (so two dimension variables broadcast by unifying): the
/// substitution found and the longer shape under it.
pub open spec fn broadcast_s(s1: Seq<SDim>, s2: Seq<SDim>) -> Result<(SSubst, Seq<SDim>), STypeError> {
    let short = if s1.len() <= s2.len() { s1 } else { s2 };
    let long = if s1.len() <= s2.len() { s2 } else { s1 };
    match unify_shapes_s(short, long.subrange(0, short.len() as int)) {
        Err(_) => Err(STypeError::BroadcastFail(s1, s2)),
        Ok(su) => Ok((su, sub_shape(su, long))),
    }
}

/// The first `k` dimensions of `s`.
fn take_shape(s: &[Dim], k: usize) -> (r: Shape)
    requires
        k <= s.len(),
    ensures
        shape_view(r@) == shape_view(s@).subrange(0, k as int),
{
    let mut r: Vec<Dim> = Vec::new();
    let mut i: usize = 0;
    while i < k
        invariant
            i <= k,
            k <= s.len(),
            shape_view(r@) == shape_view(s@).subrange(0, i as int),
        decreases k - i,
    {
        let ghost r0 = r@;
        r.push(s[i].dup());
        assert(shape_view(r@) =~= shape_view(r0).push(s@[i as int]@));
        assert(shape_view(s@).subrange(0, i + 1) =~= shape_view(s@).subrange(0, i as int).push(s@[i as int]@));
        i += 1;
    }
    r
}

/// Broadcasts two shapes (see [`broadcast_s`]).
pub fn broadcast(s1: &[Dim], s2: &[Dim]) -> (r: Result<(Subst, Shape), TypeError>)
    ensures
        match r {
            Ok(p) => broadcast_s(shape_view(s1@), shape_view(s2@)) == Ok::<(SSubst, Seq<SDim>), STypeError>((p.0@, shape_view(p.1@))),
            Err(e) => broadcast_s(shape_view(s1@), shape_view(s2@)) == Err::<(SSubst, Seq<SDim>), STypeError>(e@),
        },
{
    let (short, long) = if s1.len() <= s2.len() { (s1, s2) } else { (s2, s1) };
    let start = take_shape(long, short.len());
    match unify_shapes(short, start.as_slice()) {
        Err(_) => Err(TypeError::BroadcastFail(copy_shape(s1), copy_shape(s2))),
        Ok(su) => {
            let sh = apply_subst_shape(&su, long);
            Ok((su, sh))
        },
    }
}

/// Every dimension of the shape is a literal.
pub open spec fn literal_shape(sh: Seq<SDim>) -> bool {
    forall|i: int| 0 <= i < sh.len() ==> #[trigger] sh[i] is Nat
}

proof fn lemma_fold_literal(s: SSubst, a: Seq<SDim>, b: Seq<SDim>, i: int)
    requires
        literal_shape(a),
        literal_shape(b),
        a.len() == b.len(),
        0 <= i <= a.len(),
    ensures
        fold_shapes(s, a, b, i) is Ok <==> forall|j: int| i <= j < a.len() ==> a[j] == b[j],
    decreases a.len() - i,
{
    if i < a.len() {
        assert(a[i] is Nat && b[i] is Nat);
        lemma_fold_literal(compose_s(s_empty_subst(), s), a, b, i + 1);
    }
}

proof fn lemma_sub_literal(s: SSubst, sh: Seq<SDim>)
    requires
        literal_shape(sh),
    ensures
        sub_shape(s, sh) == sh,
{
    assert forall|i: int| 0 <= i < sh.len() implies #[trigger] sub_shape(s, sh)[i] == sh[i] by {
        assert(sh[i] is Nat);
    }
    assert(sub_shape(s, sh) =~= sh);
}

/// Shapes of literal dimensions broadcast exactly when the shorter is a prefix
/// of the longer, to the longer.
pub proof fn lemma_broadcast_literal(s1: Seq<SDim>, s2: Seq<SDim>)
    requires
        literal_shape(s1),
        literal_shape(s2),
    ensures
        broadcast_s(s1, s2) is Ok <==> (s1.is_prefix_of(s2) || s2.is_prefix_of(s1)),
        broadcast_s(s1, s2) is Ok ==> broadcast_s(s1, s2)->Ok_0.1 == if s1.len() <= s2.len() { s2 } else { s1 },
{
    let short = if s1.len() <= s2.len() { s1 } else { s2 };
    let long = if s1.len() <= s2.len() { s2 } else { s1 };
    let start = long.subrange(0, short.len() as int);
    assert(literal_shape(start));
    lemma_fold_literal(s_empty_subst(), short, start, 0);
    if unify_shapes_s(short, start) is Ok {
        lemma_sub_literal(unify_shapes_s(short, start)->Ok_0, long);
        assert(short =~= start);
    }
    if s1.is_prefix_of(s2) || s2.is_prefix_of(s1) {
        assert(short =~= start);
    }
}

/// Broadcasting literal shapes does not depend on the order of its arguments:
/// it succeeds for both orders or for neither, with the same shape.
pub proof fn lemma_broadcast_symmetric(s1: Seq<SDim>, s2: Seq<SDim>)
    requires
        literal_shape(s1),
        literal_shape(s2),
    ensures
        broadcast_s(s1, s2) is Ok <==> broadcast_s(s2, s1) is Ok,
        broadcast_s(s1, s2) is Ok ==> broadcast_s(s1, s2)->Ok_0.1 == broadcast_s(s2, s1)->Ok_0.1,
{
    lemma_broadcast_literal(s1, s2);
    lemma_broadcast_literal(s2, s1);
    if s1.is_prefix_of(s2) && s2.is_prefix_of(s1) {
        assert(s1 =~= s2);
    }
}

/// A successful broadcast of literal shapes is the longer shape, and both
/// shapes are prefixes of it.
pub proof fn lemma_broadcast_prefixes(s1: Seq<SDim>, s2: Seq<SDim>)
    requires
        literal_shape(s1),
        literal_shape(s2),
        broadcast_s(s1, s2) is Ok,
    ensures
        s1.is_prefix_of(broadcast_s(s1, s2)->Ok_0.1),
        s2.is_prefix_of(broadcast_s(s1, s2)->Ok_0.1),
        broadcast_s(s1, s2)->Ok_0.1.len() == if s1.len() < s2.len() { s2.len() } else { s1.len() },
{
    lemma_broadcast_literal(s1, s2);
    assert(s1.subrange(0, s1.len() as int) =~= s1);
    assert(s2.subrange(0, s2.len() as int) =~= s2);
}

proof fn lemma_fold_same(a: Seq<SDim>, i: int)
    requires
        0 <= i <= a.len(),
    ensures
        fold_shapes(s_empty_subst(), a, a, i) == Ok::<SSubst, STypeError>(s_empty_subst()),
    decreases a.len() - i,
{
    if i < a.len() {
        let e = s_empty_subst();
        match a[i] {
            SDim::Var(v) => assert(lookup(e.dims, v) is None),
            SDim::Nat(_) => {},
        }
        assert(compose_s(e, e) =~= e) by {
            assert(compose_s(e, e).types =~= e.types);
            assert(compose_s(e, e).dims =~= e.dims);
            assert(compose_s(e, e).bases =~= e.bases);
        }
        lemma_fold_same(a, i + 1);
    }
}

/// Broadcasting shapes of any dimensions: when one shape is a prefix of the
/// other, the result is the longer one with nothing bound; when the shorter does
/// not unify with the start of the longer, it is `BroadcastFail`; and on success
/// both shapes, under the substitution found, are prefixes of the result, which
/// is the longer shape under it.
pub proof fn lemma_broadcast_shapes(s1: Seq<SDim>, s2: Seq<SDim>)
    ensures
        (s1.is_prefix_of(s2) || s2.is_prefix_of(s1)) ==> broadcast_s(s1, s2)
            == Ok::<(SSubst, Seq<SDim>), STypeError>((s_empty_subst(), if s1.len() <= s2.len() { s2 } else { s1 })),
        ({
            let short = if s1.len() <= s2.len() { s1 } else { s2 };
            let long = if s1.len() <= s2.len() { s2 } else { s1 };
            unify_shapes_s(short, long.subrange(0, short.len() as int)) is Err
        }) ==> broadcast_s(s1, s2) == Err::<(SSubst, Seq<SDim>), STypeError>(STypeError::BroadcastFail(s1, s2)),
        broadcast_s(s1, s2) is Ok ==> {
            let (su, b) = broadcast_s(s1, s2)->Ok_0;
            &&& sub_shape(su, s1).is_prefix_of(b)
            &&& sub_shape(su, s2).is_prefix_of(b)
            &&& b == sub_shape(su, if s1.len() <= s2.len() { s2 } else { s1 })
        },
{
    let short = if s1.len() <= s2.len() { s1 } else { s2 };
    let long = if s1.len() <= s2.len() { s2 } else { s1 };
    let start = long.subrange(0, short.len() as int);
    if s1.is_prefix_of(s2) || s2.is_prefix_of(s1) {
        assert(short =~= start);
        lemma_fold_same(short, 0);
        let e = s_empty_subst();
        assert(sub_shape(e, long) =~= long) by {
            assert forall|i: int| 0 <= i < long.len() implies #[trigger] sub_shape(e, long)[i] == long[i] by {
                match long[i] {
                    SDim::Var(v) => assert(lookup(e.dims, v) is None),
                    SDim::Nat(_) => {},
                }
            }
        }
    }
    if unify_shapes_s(short, start) is Ok {
        let su = unify_shapes_s(short, start)->Ok_0;
        lemma_unify_shapes_equalizes(short, start);
        let b = sub_shape(su, long);
        assert(sub_shape(su, start) =~= b.subrange(0, short.len() as int));
        assert(sub_shape(su, short).is_prefix_of(b));
        assert(b.subrange(0, b.len() as int) =~= b);
        assert(b.is_prefix_of(b));
    }
}

// ── Lifting ───────────────────────────────────────────────────────────────────

/// The parameters and result of a scalar function type.
pub open spec fn fun_parts(t: SType) -> Option<(Seq<SType>, SType)> {
    match t {
        SType::Shaped(SBase::Fun(ps, r), sh) => if sh.len() == 0 { Some((ps, *r)) } else { None },
        _ => None,
    }
}

/// Some argument has a higher rank than its parameter.
pub open spec fn needs_lift(ps: Seq<SType>, args: Seq<SType>) -> bool {
    exists|i: int| 0 <= i < ps.len() && #[trigger] s_shape(args[i]).len() > s_shape(ps[i]).len()
}

/// The rank-0 version of a type (a type variable as it is).
pub open spec fn scalar_of(t: SType) -> SType {
    match t {
        SType::Shaped(b, _) => SType::Shaped(b, Seq::empty()),
        SType::Var(_) => t,
    }
}

/// For each parameter from `i` on: the argument's trailing dimensions must unify
/// with the parameter's shape; its leading dimensions are collected in `outers`,
/// and the rank-0 parameter and argument types in `pairs`.
pub open spec fn lift_shapes_s(
    s: SSubst,
    outers: Seq<Seq<SDim>>,
    pairs: Seq<(SType, SType)>,
    ps: Seq<SType>,
    args: Seq<SType>,
    i: int,
) -> Result<(SSubst, Seq<Seq<SDim>>, Seq<(SType, SType)>), STypeError>
    decreases ps.len() - i,
{
    if i < 0 || i >= ps.len() {
        Ok((s, outers, pairs))
    } else {
        let param = apply_s(s, ps[i]);
        let arg = apply_s(s, args[i]);
        let p = s_shape(param);
        let a = s_shape(arg);
        if a.len() < p.len() {
            Err(STypeError::RankPolymorphicInnerMismatch { expected: p, got: a })
        } else {
            let k = a.len() - p.len();
            let inner = a.subrange(k, a.len() as int);
            match unify_shapes_s(inner, p) {
                Err(_) => Err(STypeError::RankPolymorphicInnerMismatch { expected: p, got: inner }),
                Ok(us) => lift_shapes_s(
                    compose_s(us, s),
                    outers.push(a.subrange(0, k)),
                    pairs.push((scalar_of(param), scalar_of(arg))),
                    ps,
                    args,
                    i + 1,
                ),
            }
        }
    }
}

/// Unifies the rank-0 parameter and argument types from `i` on.
pub open spec fn lift_bases_s(c: u64, s: SSubst, pairs: Seq<(SType, SType)>, i: int) -> (u64, Result<SSubst, STypeError>)
    decreases pairs.len() - i,
{
    if i < 0 || i >= pairs.len() {
        (c, Ok(s))
    } else {
        let (c1, r) = unify_s(c, apply_s(s, pairs[i].0), apply_s(s, pairs[i].1), UNIFY_DEPTH as nat);
        match r {
            Err(e) => (c1, Err(e)),
            Ok(su) => lift_bases_s(c1, compose_s(su, s), pairs, i + 1),
        }
    }
}

/// Broadcasts `acc` with each of `outers` from `i` on, under the substitution
/// `s` found so far: the final substitution and shape.
pub open spec fn broadcast_all_s(s: SSubst, acc: Seq<SDim>, outers: Seq<Seq<SDim>>, i: int) -> Result<(SSubst, Seq<SDim>), STypeError>
    decreases outers.len() - i,
{
    if i < 0 || i >= outers.len() {
        Ok((s, acc))
    } else {
        match broadcast_s(sub_shape(s, acc), sub_shape(s, outers[i])) {
            Err(e) => Err(e),
            Ok((sb, b)) => broadcast_all_s(compose_s(sb, s), b, outers, i + 1),
        }
    }
}

/// For each parameter from `i` on whose argument has the same nonzero rank,
/// the shapes must unify: the first that do not, as an inner mismatch.
pub open spec fn inner_check_s(ps: Seq<SType>, args: Seq<SType>, i: int) -> Option<STypeError>
    decreases ps.len() - i,
{
    if i < 0 || i >= ps.len() {
        None
    } else {
        let p = s_shape(ps[i]);
        let a = s_shape(args[i]);
        if p.len() > 0 && a.len() == p.len() && unify_shapes_s(a, p) is Err {
            Some(STypeError::RankPolymorphicInnerMismatch { expected: p, got: a })
        } else {
            inner_check_s(ps, args, i + 1)
        }
    }
}

/// The lifted result: the outer shape in front of the result's own shape; a
/// result still a type variable `b` becomes the open element `b` of the outer
/// shape.
pub open spec fn lift_result_s(ret: SType, outer: Seq<SDim>) -> SType {
    match ret {
        SType::Shaped(b, sh) => SType::Shaped(b, outer + sh),
        SType::Var(v) => if outer.len() == 0 { ret } else { SType::Shaped(SBase::Var(v), outer) },
    }
}

/// A call that is not lifted, of a scalar function of that arity, with an
/// argument of the same nonzero rank as its parameter whose shape does not unify
/// with the parameter's: the first such, as an inner mismatch.
pub open spec fn equal_rank_mismatch_s(f: SType, args: Seq<SType>) -> Option<STypeError> {
    match fun_parts(f) {
        None => None,
        Some((ps, _)) => if ps.len() != args.len() || needs_lift(ps, args) {
            None
        } else {
            inner_check_s(ps, args, 0)
        },
    }
}

/// Lifting of `f` applied to arguments of types `args`, from counter `c`: `None`
/// when `f` is not a scalar function of that arity or no argument outranks its
/// parameter; otherwise the substitution and the lifted result type, or the error.
pub open spec fn try_lift_s(c: u64, f: SType, args: Seq<SType>) -> (u64, Result<Option<(SSubst, SType)>, STypeError>) {
    match fun_parts(f) {
        None => (c, Ok(None)),
        Some((ps, ret)) => if ps.len() != args.len() {
            (c, Ok(None))
        } else if !needs_lift(ps, args) {
            (c, Ok(None))
        } else {
            match lift_shapes_s(s_empty_subst(), Seq::empty(), Seq::empty(), ps, args, 0) {
                Err(e) => (c, Err(e)),
                Ok((s1, outers, pairs)) => {
                    let (c1, rb) = lift_bases_s(c, s1, pairs, 0);
                    match rb {
                        Err(e) => (c1, Err(e)),
                        Ok(s2) => match broadcast_all_s(s2, Seq::empty(), outers, 0) {
                            Err(e) => (c1, Err(e)),
                            Ok((s3, outer)) => (c1, Ok(Some((s3, lift_result_s(apply_s(s3, ret), outer))))),
                        },
                    }
                },
            }
        },
    }
}

/// Model of a lifting outcome.
pub open spec fn lift_view(r: Result<Option<(Subst, Type)>, TypeError>) -> Result<Option<(SSubst, SType)>, STypeError> {
    match r {
        Ok(Some(p)) => Ok(Some((p.0@, p.1@))),
        Ok(None) => Ok(None),
        Err(e) => Err(e@),
    }
}

pub open spec fn opt_err_view(r: Option<TypeError>) -> Option<STypeError> {
    match r {
        Some(e) => Some(e@),
        None => None,
    }
}

pub open spec fn shapes_view(v: Seq<Vec<Dim>>) -> Seq<Seq<SDim>> {
    v.map_values(|sh: Vec<Dim>| shape_view(sh@))
}

pub open spec fn pairs_view(v: Seq<(Type, Type)>) -> Seq<(SType, SType)> {
    v.map_values(|p: (Type, Type)| (p.0@, p.1@))
}

fn scalar_of_exec(t: &Type) -> (r: Type)
    ensures
        r@ == scalar_of(t@),
{
    match t {
        Type::Shaped(b, _) => {
            let e: Shape = Vec::new();
            assert(shape_view(e@) =~= Seq::<SDim>::empty());
            Type::Shaped(b.dup(), e)
        },
        Type::Var(_) => t.dup(),
    }
}

fn shape_range(sh: &[Dim], lo: usize, hi: usize) -> (r: Shape)
    requires
        lo <= hi <= sh.len(),
    ensures
        shape_view(r@) == shape_view(sh@).subrange(lo as int, hi as int),
{
    let mut r: Shape = Vec::new();
    let mut i: usize = lo;
    while i < hi
        invariant
            lo <= i <= hi <= sh.len(),
            shape_view(r@) == shape_view(sh@).subrange(lo as int, i as int),
        decreases hi - i,
    {
        let ghost old_r = r@;
        let d = sh[i].dup();
        r.push(d);
        assert(r@ == old_r.push(d));
        assert(shape_view(r@) =~= shape_view(old_r).push(d@));
        assert(shape_view(r@) =~= shape_view(sh@).subrange(lo as int, i + 1));
        i += 1;
    }
    r
}

pub(crate) fn append_shape(a: Shape, b: &[Dim]) -> (r: Shape)
    ensures
        shape_view(r@) == shape_view(a@) + shape_view(b@),
{
    let mut r = a;
    let mut m: usize = 0;
    let ghost a0 = shape_view(r@);
    while m < b.len()
        invariant
            m <= b.len(),
            shape_view(r@) == a0 + shape_view(b@).subrange(0, m as int),
        decreases b.len() - m,
    {
        let ghost old_r = r@;
        let d = b[m].dup();
        r.push(d);
        assert(r@ == old_r.push(d));
        assert(shape_view(r@) =~= shape_view(old_r).push(d@));
        assert(shape_view(r@) =~= a0 + shape_view(b@).subrange(0, m + 1));
        m += 1;
    }
    assert(shape_view(b@).subrange(0, b.len() as int) =~= shape_view(b@));
    r
}

fn needs_lift_exec(ps: &Vec<Type>, args: &Vec<Type>) -> (r: bool)
    requires
        ps.len() == args.len(),
    ensures
        r == needs_lift(view_types(ps@), view_types(args@)),
{
    proof {
        lemma_view_types(ps@);
        lemma_view_types(args@);
    }
    let ghost vps = view_types(ps@);
    let ghost vargs = view_types(args@);
    let mut i: usize = 0;
    while i < ps.len()
        invariant
            i <= ps.len(),
            ps.len() == args.len(),
            vps == view_types(ps@),
            vargs == view_types(args@),
            vps.len() == ps.len(),
            vargs.len() == args.len(),
            forall|j: int| 0 <= j < ps.len() ==> #[trigger] vps[j] == ps@[j]@,
            forall|j: int| 0 <= j < args.len() ==> #[trigger] vargs[j] == args@[j]@,
            forall|j: int| 0 <= j < i ==> !(#[trigger] s_shape(vargs[j]).len() > s_shape(vps[j]).len()),
        decreases ps.len() - i,
    {
        let pr = ps[i].shape().len();
        let ar = args[i].shape().len();
        assert(vps[i as int] == ps@[i as int]@);
        assert(vargs[i as int] == args@[i as int]@);
        assert(pr == s_shape(vps[i as int]).len());
        assert(ar == s_shape(vargs[i as int]).len());
        if ar > pr {
            assert(s_shape(vargs[i as int]).len() > s_shape(vps[i as int]).len());
            return true;
        }
        i += 1;
    }
    false
}

fn lift_shapes(params: &Vec<Type>, arg_tys: &Vec<Type>) -> (r: Result<(Subst, Vec<Shape>, Vec<(Type, Type)>), TypeError>)
    requires
        params.len() == arg_tys.len(),
    ensures
        match r {
            Ok(t) => lift_shapes_s(s_empty_subst(), Seq::empty(), Seq::empty(), view_types(params@), view_types(arg_tys@), 0)
                == Ok::<(SSubst, Seq<Seq<SDim>>, Seq<(SType, SType)>), STypeError>((t.0@, shapes_view(t.1@), pairs_view(t.2@))),
            Err(e) => lift_shapes_s(s_empty_subst(), Seq::empty(), Seq::empty(), view_types(params@), view_types(arg_tys@), 0)
                == Err::<(SSubst, Seq<Seq<SDim>>, Seq<(SType, SType)>), STypeError>(e@),
        },
{
    proof {
        lemma_view_types(params@);
        lemma_view_types(arg_tys@);
    }
    let ghost vps = view_types(params@);
    let ghost vargs = view_types(arg_tys@);
    let mut s = Subst::new();
    let mut outers: Vec<Shape> = Vec::new();
    let mut pairs: Vec<(Type, Type)> = Vec::new();
    let mut i: usize = 0;
    assert(shapes_view(outers@) =~= Seq::<Seq<SDim>>::empty());
    assert(pairs_view(pairs@) =~= Seq::<(SType, SType)>::empty());
    while i < params.len()
        invariant
            i <= params.len(),
            params.len() == arg_tys.len(),
            vps == view_types(params@),
            vargs == view_types(arg_tys@),
            vps.len() == params.len(),
            vargs.len() == arg_tys.len(),
            forall|j: int| 0 <= j < params.len() ==> #[trigger] vps[j] == params@[j]@,
            forall|j: int| 0 <= j < arg_tys.len() ==> #[trigger] vargs[j] == arg_tys@[j]@,
            lift_shapes_s(s_empty_subst(), Seq::empty(), Seq::empty(), vps, vargs, 0)
                == lift_shapes_s(s@, shapes_view(outers@), pairs_view(pairs@), vps, vargs, i as int),
        decreases params.len() - i,
    {
        assert(vps[i as int] == params@[i as int]@);
        assert(vargs[i as int] == arg_tys@[i as int]@);
        let param = apply_subst(&s, &params[i]);
        let arg = apply_subst(&s, &arg_tys[i]);
        let p_shape = param.shape();
        let a_shape = arg.shape();
        if a_shape.len() < p_shape.len() {
            return Err(TypeError::RankPolymorphicInnerMismatch { expected: copy_shape(p_shape), got: copy_shape(a_shape) });
        }
        let k = a_shape.len() - p_shape.len();
        let inner = shape_range(a_shape, k, a_shape.len());
        let outer = shape_range(a_shape, 0, k);
        let us = match unify_shapes(inner.as_slice(), p_shape) {
            Err(_) => {
                return Err(TypeError::RankPolymorphicInnerMismatch { expected: copy_shape(p_shape), got: inner });
            },
            Ok(us) => us,
        };
        s = compose(&us, &s);
        let ps_ = scalar_of_exec(&param);
        let as_ = scalar_of_exec(&arg);
        let ghost o_old = outers@;
        let ghost p_old = pairs@;
        outers.push(outer);
        pairs.push((ps_, as_));
        assert(shapes_view(outers@) =~= shapes_view(o_old).push(shape_view(outer@)));
        assert(pairs_view(pairs@) =~= pairs_view(p_old).push((ps_@, as_@)));
        i += 1;
    }
    Ok((s, outers, pairs))
}

fn lift_bases(c: &mut u64, s0: Subst, pairs: &Vec<(Type, Type)>) -> (r: Result<Subst, TypeError>)
    ensures
        *final(c) == lift_bases_s(*old(c), s0@, pairs_view(pairs@), 0).0,
        res_view(r) == lift_bases_s(*old(c), s0@, pairs_view(pairs@), 0).1,
{
    let ghost vpairs = pairs_view(pairs@);
    let ghost c0 = *c;
    let mut s = s0;
    let mut j: usize = 0;
    while j < pairs.len()
        invariant
            j <= pairs.len(),
            vpairs == pairs_view(pairs@),
            c0 == *old(c),
            lift_bases_s(c0, s0@, vpairs, 0) == lift_bases_s(*c, s@, vpairs, j as int),
        decreases pairs.len() - j,
    {
        let a = apply_subst(&s, &pairs[j].0);
        let b = apply_subst(&s, &pairs[j].1);
        assert(vpairs[j as int] == (pairs@[j as int].0@, pairs@[j as int].1@));
        match unify(c, &a, &b, UNIFY_DEPTH) {
            Err(e) => return Err(e),
            Ok(su) => {
                s = compose(&su, &s);
            },
        }
        j += 1;
    }
    Ok(s)
}

fn broadcast_all(s0: Subst, outers: &Vec<Shape>) -> (r: Result<(Subst, Shape), TypeError>)
    ensures
        match r {
            Ok(p) => broadcast_all_s(s0@, Seq::empty(), shapes_view(outers@), 0) == Ok::<(SSubst, Seq<SDim>), STypeError>((p.0@, shape_view(p.1@))),
            Err(e) => broadcast_all_s(s0@, Seq::empty(), shapes_view(outers@), 0) == Err::<(SSubst, Seq<SDim>), STypeError>(e@),
        },
{
    let ghost vouters = shapes_view(outers@);
    let ghost vs0 = s0@;
    assert(vouters == shapes_view(outers@));
    let mut s = s0;
    let mut acc: Shape = Vec::new();
    let mut k: usize = 0;
    assert(shape_view(acc@) =~= Seq::<SDim>::empty());
    while k < outers.len()
        invariant
            k <= outers.len(),
            vouters == shapes_view(outers@),
            vs0 == s0@,
            broadcast_all_s(vs0, Seq::empty(), vouters, 0) == broadcast_all_s(s@, shape_view(acc@), vouters, k as int),
        decreases outers.len() - k,
    {
        assert(vouters[k as int] == shape_view(outers@[k as int]@));
        let a = apply_subst_shape(&s, acc.as_slice());
        let o = apply_subst_shape(&s, outers[k].as_slice());
        assert(shape_view(o@) == sub_shape(s@, vouters[k as int]));
        match broadcast(a.as_slice(), o.as_slice()) {
            Err(e) => {
                assert(broadcast_all_s(s@, shape_view(acc@), vouters, k as int) == Err::<(SSubst, Seq<SDim>), STypeError>(e@));
                return Err(e);
            },
            Ok((sb, b)) => {
                s = compose(&sb, &s);
                acc = b;
            },
        }
        k += 1;
    }
    Ok((s, acc))
}

fn inner_check(ps: &Vec<Type>, args: &Vec<Type>) -> (r: Option<TypeError>)
    requires
        ps.len() == args.len(),
    ensures
        opt_err_view(r) == inner_check_s(view_types(ps@), view_types(args@), 0),
{
    proof {
        lemma_view_types(ps@);
        lemma_view_types(args@);
    }
    let ghost vps = view_types(ps@);
    let ghost vargs = view_types(args@);
    let mut i: usize = 0;
    while i < ps.len()
        invariant
            i <= ps.len(),
            ps.len() == args.len(),
            vps == view_types(ps@),
            vargs == view_types(args@),
            vps.len() == ps.len(),
            vargs.len() == args.len(),
            forall|j: int| 0 <= j < ps.len() ==> #[trigger] vps[j] == ps@[j]@,
            forall|j: int| 0 <= j < args.len() ==> #[trigger] vargs[j] == args@[j]@,
            inner_check_s(vps, vargs, 0) == inner_check_s(vps, vargs, i as int),
        decreases ps.len() - i,
    {
        let p = ps[i].shape();
        let a = args[i].shape();
        assert(vps[i as int] == ps@[i as int]@);
        assert(vargs[i as int] == args@[i as int]@);
        if p.len() > 0 && a.len() == p.len() {
            match unify_shapes(a, p) {
                Err(_) => {
                    return Some(TypeError::RankPolymorphicInnerMismatch { expected: copy_shape(p), got: copy_shape(a) });
                },
                Ok(_) => {},
            }
        }
        i += 1;
    }
    None
}

fn lift_result(ret: Type, outer: Shape) -> (r: Type)
    ensures
        r@ == lift_result_s(ret@, shape_view(outer@)),
{
    match ret {
        Type::Shaped(b, sh) => Type::Shaped(b, append_shape(outer, sh.as_slice())),
        Type::Var(v) => if outer.len() == 0 { Type::Var(v) } else { Type::Shaped(BaseType::Var(v), outer) },
    }
}

/// Lifting of a function of type `f_ty` applied to arguments of types `arg_tys`
/// (see [`try_lift_s`]); fresh row variables come from the counter `c`.
pub fn try_lift(c: &mut u64, f_ty: &Type, arg_tys: &Vec<Type>) -> (r: Result<Option<(Subst, Type)>, TypeError>)
    ensures
        *final(c) == try_lift_s(*old(c), f_ty@, view_types(arg_tys@)).0,
        lift_view(r) == try_lift_s(*old(c), f_ty@, view_types(arg_tys@)).1,
{
    let (params, ret) = match f_ty {
        Type::Shaped(BaseType::Fun(ps, r), sh) => {
            if sh.len() != 0 {
                return Ok(None);
            }
            (ps, r)
        },
        _ => {
            return Ok(None);
        },
    };
    proof {
        lemma_view_types(params@);
        lemma_view_types(arg_tys@);
    }
    if params.len() != arg_tys.len() {
        return Ok(None);
    }
    if !needs_lift_exec(params, arg_tys) {
        return Ok(None);
    }
    let (s1, outers, pairs) = match lift_shapes(params, arg_tys) {
        Err(e) => return Err(e),
        Ok(t) => t,
    };
    let s2 = match lift_bases(c, s1, &pairs) {
        Err(e) => return Err(e),
        Ok(s2) => s2,
    };
    let (s3, outer) = match broadcast_all(s2, &outers) {
        Err(e) => return Err(e),
        Ok(o) => o,
    };
    let ret_applied = apply_subst(&s3, ret);
    let result_ty = lift_result(ret_applied, outer);
    Ok(Some((s3, result_ty)))
}

/// The inner mismatch of a call that is not lifted (see [`equal_rank_mismatch_s`]).
pub fn equal_rank_mismatch(f_ty: &Type, arg_tys: &Vec<Type>) -> (r: Option<TypeError>)
    ensures
        opt_err_view(r) == equal_rank_mismatch_s(f_ty@, view_types(arg_tys@)),
{
    let params = match f_ty {
        Type::Shaped(BaseType::Fun(ps, _), sh) => {
            if sh.len() != 0 {
                return None;
            }
            ps
        },
        _ => {
            return None;
        },
    };
    proof {
        lemma_view_types(params@);
        lemma_view_types(arg_tys@);
    }
    if params.len() != arg_tys.len() || needs_lift_exec(params, arg_tys) {
        return None;
    }
    inner_check(params, arg_tys)
}

} // verus!
