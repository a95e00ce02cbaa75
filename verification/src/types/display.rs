//! The plain-text rendering of types and type errors.

use vstd::prelude::*;
use vstd::string::*;
use crate::names::{decimal, push_decimal};
use super::model::{
    lemma_view_fields, lemma_view_types, shape_view, s_unit, view_fields, view_types, BaseType,
    Dim, InferError, SBase, SDim, STypeError, SType, Type, TypeError,
};

verus! {

// ── The model ─────────────────────────────────────────────────────────────────

/// `parts` joined by `sep`.
pub open spec fn join_s(parts: Seq<Seq<char>>, sep: Seq<char>) -> Seq<char>
    decreases parts.len(),
{
    if parts.len() == 0 {
        Seq::empty()
    } else if parts.len() == 1 {
        parts[0]
    } else {
        join_s(parts.drop_last(), sep) + sep + parts.last()
    }
}

pub open spec fn dim_text(d: SDim) -> Seq<char> {
    match d {
        SDim::Nat(n) => decimal(n as nat),
        SDim::Var(v) => v,
    }
}

/// A shape as `[d1, d2]` (`[]` for a scalar).
pub open spec fn shape_text(sh: Seq<SDim>) -> Seq<char> {
    "["@ + join_s(sh.map_values(|d: SDim| dim_text(d)), ", "@) + "]"@
}

pub open spec fn is_fun_s(t: SType) -> bool {
    match t {
        SType::Shaped(SBase::Fun(_, _), _) => true,
        _ => false,
    }
}

/// A type as text: `Int`, `F64[3, n]`, `{x: Int | *}`, `[None, Some Int]`,
/// `Int Int -> Int` (function parameters in parentheses), `Task(a, e)`.
pub open spec fn type_text(t: SType) -> Seq<char>
    decreases t, 1nat,
{
    match t {
        SType::Var(n) => n,
        SType::Shaped(b, sh) => base_text(b) + if sh.len() == 0 { Seq::empty() } else { shape_text(sh) },
    }
}

pub open spec fn field_texts(fs: Seq<(Seq<char>, SType)>) -> Seq<Seq<char>>
    decreases fs, 0nat,
{
    if fs.len() == 0 {
        Seq::empty()
    } else {
        field_texts(fs.drop_last()).push(fs.last().0 + ": "@ + type_text(fs.last().1))
    }
}

pub open spec fn tag_texts(fs: Seq<(Seq<char>, SType)>) -> Seq<Seq<char>>
    decreases fs, 0nat,
{
    if fs.len() == 0 {
        Seq::empty()
    } else {
        tag_texts(fs.drop_last()).push(
            if fs.last().1 == s_unit() { fs.last().0 } else { fs.last().0 + " "@ + type_text(fs.last().1) },
        )
    }
}

pub open spec fn param_texts(ps: Seq<SType>) -> Seq<Seq<char>>
    decreases ps, 0nat,
{
    if ps.len() == 0 {
        Seq::empty()
    } else {
        param_texts(ps.drop_last()).push(
            if is_fun_s(ps.last()) { "("@ + type_text(ps.last()) + ")"@ } else { type_text(ps.last()) },
        )
    }
}

pub open spec fn base_text(b: SBase) -> Seq<char>
    decreases b, 1nat,
{
    match b {
        SBase::Var(v) => v,
        SBase::Int => "Int"@,
        SBase::F64 => "F64"@,
        SBase::Str => "Str"@,
        SBase::Bool => "Bool"@,
        SBase::Record(fs, row) => {
            let pairs = field_texts(fs);
            match row {
                None => "{"@ + join_s(pairs, ", "@) + "}"@,
                Some(_) => if pairs.len() == 0 { "{*}"@ } else { "{"@ + join_s(pairs, ", "@) + " | *}"@ },
            }
        },
        SBase::Union(fs, row) => {
            let tags = tag_texts(fs);
            match row {
                None => "["@ + join_s(tags, ", "@) + "]"@,
                Some(_) => if tags.len() == 0 { "[*]"@ } else { "["@ + join_s(tags, ", "@) + " | *]"@ },
            }
        },
        SBase::Fun(ps, r) => join_s(param_texts(ps), " "@) + " -> "@ + type_text(*r),
        SBase::Task(o, e) => "Task("@ + type_text(*o) + ", "@ + type_text(*e) + ")"@,
    }
}

// ── Rendering ─────────────────────────────────────────────────────────────────

fn push_str(out: &mut String, s: &str)
    ensures
        final(out)@ == old(out)@ + s@,
{
    out.append(s);
}

fn push_dim(out: &mut String, d: &Dim)
    ensures
        final(out)@ == old(out)@ + dim_text(d@),
{
    match d {
        Dim::Nat(n) => push_decimal(out, *n),
        Dim::Var(v) => out.append(v.as_str()),
    }
}

/// Appends `[d1, d2, ..]`.
pub fn push_shape(out: &mut String, sh: &[Dim])
    ensures
        final(out)@ == old(out)@ + shape_text(shape_view(sh@)),
{
    let ghost texts = shape_view(sh@).map_values(|d: SDim| dim_text(d));
    let ghost start = out@;
    push_str(out, "[");
    let mut i: usize = 0;
    while i < sh.len()
        invariant
            i <= sh.len(),
            texts == shape_view(sh@).map_values(|d: SDim| dim_text(d)),
            out@ == start + "["@ + join_s(texts.subrange(0, i as int), ", "@),
        decreases sh.len() - i,
    {
        let ghost before = out@;
        if i > 0 {
            push_str(out, ", ");
        }
        push_dim(out, &sh[i]);
        proof {
            let sub = texts.subrange(0, i + 1);
            assert(sub.drop_last() =~= texts.subrange(0, i as int));
            assert(sub.last() == dim_text(sh@[i as int]@));
            if i == 0 {
                assert(sub.len() == 1);
                assert(out@ =~= start + "["@ + join_s(sub, ", "@));
            } else {
                assert(out@ =~= start + "["@ + join_s(sub, ", "@));
            }
        }
        i += 1;
    }
    assert(texts.subrange(0, sh.len() as int) =~= texts);
    push_str(out, "]");
    assert(out@ =~= start + shape_text(shape_view(sh@)));
}

pub(crate) fn is_unit(t: &Type) -> (r: bool)
    ensures
        r == (t@ == s_unit()),
{
    match t {
        Type::Shaped(BaseType::Record(fs, row), sh) => {
            proof {
                lemma_view_fields(fs@);
            }
            if fs.len() != 0 {
                assert(view_fields(fs@).len() != 0);
                return false;
            }
            if sh.len() != 0 {
                assert(shape_view(sh@).len() != 0);
                return false;
            }
            match row {
                Some(_) => false,
                None => {
                    assert(view_fields(fs@) =~= Seq::<(Seq<char>, SType)>::empty());
                    assert(shape_view(sh@) =~= Seq::<SDim>::empty());
                    true
                },
            }
        },
        _ => false,
    }
}

pub(crate) fn is_fun(t: &Type) -> (r: bool)
    ensures
        r == is_fun_s(t@),
{
    match t {
        Type::Shaped(BaseType::Fun(_, _), _) => true,
        _ => false,
    }
}

/// Appends the text of `t` (see [`type_text`]).
pub fn push_type(out: &mut String, t: &Type)
    ensures
        final(out)@ == old(out)@ + type_text(t@),
    decreases t, 1nat,
{
    match t {
        Type::Var(n) => out.append(n.as_str()),
        Type::Shaped(b, sh) => {
            let ghost start = out@;
            push_base(out, b);
            if sh.len() > 0 {
                push_shape(out, sh.as_slice());
            }
            assert(out@ =~= start + type_text(t@));
        },
    }
}

/// Appends `fs` rendered by `f` (fields, tags or parameters) joined by `sep`.
fn push_fields(out: &mut String, fs: &Vec<(String, Type)>, tags: bool)
    ensures
        final(out)@ == old(out)@ + join_s(
            if tags { tag_texts(view_fields(fs@)) } else { field_texts(view_fields(fs@)) },
            ", "@,
        ),
    decreases fs, 0nat,
{
    proof {
        lemma_view_fields(fs@);
    }
    let ghost vf = view_fields(fs@);
    let ghost texts = if tags { tag_texts(vf) } else { field_texts(vf) };
    let ghost start = out@;
    let mut i: usize = 0;
    assert(vf.subrange(0, 0) =~= Seq::<(Seq<char>, SType)>::empty());
    while i < fs.len()
        invariant
            i <= fs.len(),
            vf == view_fields(fs@),
            vf.len() == fs.len(),
            forall|j: int| 0 <= j < fs.len() ==> #[trigger] vf[j] == (fs@[j].0@, fs@[j].1@),
            texts == if tags { tag_texts(vf) } else { field_texts(vf) },
            out@ == start + join_s(
                if tags { tag_texts(vf.subrange(0, i as int)) } else { field_texts(vf.subrange(0, i as int)) },
                ", "@,
            ),
        decreases fs.len() - i,
    {
        let ghost before = out@;
        if i > 0 {
            push_str(out, ", ");
        }
        let ghost mid = out@;
        out.append(fs[i].0.as_str());
        if tags {
            if !is_unit(&fs[i].1) {
                push_str(out, " ");
                push_type(out, &fs[i].1);
            }
        } else {
            push_str(out, ": ");
            push_type(out, &fs[i].1);
        }
        proof {
            let sub = vf.subrange(0, i + 1);
            assert(sub.drop_last() =~= vf.subrange(0, i as int));
            assert(sub.last() == vf[i as int]);
            let ts = if tags { tag_texts(sub) } else { field_texts(sub) };
            let ts0 = if tags { tag_texts(vf.subrange(0, i as int)) } else { field_texts(vf.subrange(0, i as int)) };
            assert(ts.drop_last() == ts0);
            assert(ts.len() == i + 1) by {
                lemma_texts_len(sub, tags);
            }
            assert(out@ =~= mid + ts.last());
            if i == 0 {
                assert(out@ =~= start + join_s(ts, ", "@));
            } else {
                assert(out@ =~= start + join_s(ts, ", "@));
            }
        }
        i += 1;
    }
    assert(vf.subrange(0, fs.len() as int) =~= vf);
}

proof fn lemma_texts_len(fs: Seq<(Seq<char>, SType)>, tags: bool)
    ensures
        (if tags { tag_texts(fs) } else { field_texts(fs) }).len() == fs.len(),
    decreases fs.len(),
{
    if fs.len() > 0 {
        lemma_texts_len(fs.drop_last(), tags);
    }
}

proof fn lemma_param_texts_len(ps: Seq<SType>)
    ensures
        param_texts(ps).len() == ps.len(),
    decreases ps.len(),
{
    if ps.len() > 0 {
        lemma_param_texts_len(ps.drop_last());
    }
}

fn push_params(out: &mut String, ps: &Vec<Type>)
    ensures
        final(out)@ == old(out)@ + join_s(param_texts(view_types(ps@)), " "@),
    decreases ps, 0nat,
{
    proof {
        lemma_view_types(ps@);
    }
    let ghost vp = view_types(ps@);
    let ghost start = out@;
    let mut i: usize = 0;
    assert(vp.subrange(0, 0) =~= Seq::<SType>::empty());
    while i < ps.len()
        invariant
            i <= ps.len(),
            vp == view_types(ps@),
            vp.len() == ps.len(),
            forall|j: int| 0 <= j < ps.len() ==> #[trigger] vp[j] == ps@[j]@,
            out@ == start + join_s(param_texts(vp.subrange(0, i as int)), " "@),
        decreases ps.len() - i,
    {
        if i > 0 {
            push_str(out, " ");
        }
        let ghost mid = out@;
        if is_fun(&ps[i]) {
            push_str(out, "(");
            push_type(out, &ps[i]);
            push_str(out, ")");
        } else {
            push_type(out, &ps[i]);
        }
        proof {
            let sub = vp.subrange(0, i + 1);
            assert(sub.drop_last() =~= vp.subrange(0, i as int));
            assert(sub.last() == vp[i as int]);
            lemma_param_texts_len(sub);
            let ts = param_texts(sub);
            assert(ts.drop_last() == param_texts(vp.subrange(0, i as int)));
            assert(out@ =~= mid + ts.last());
            if i == 0 {
                assert(out@ =~= start + join_s(ts, " "@));
            } else {
                assert(out@ =~= start + join_s(ts, " "@));
            }
        }
        i += 1;
    }
    assert(vp.subrange(0, ps.len() as int) =~= vp);
}

fn push_base(out: &mut String, b: &BaseType)
    ensures
        final(out)@ == old(out)@ + base_text(b@),
    decreases b, 1nat,
{
    let ghost start = out@;
    match b {
        BaseType::Var(v) => out.append(v.as_str()),
        BaseType::Int => push_str(out, "Int"),
        BaseType::F64 => push_str(out, "F64"),
        BaseType::Str => push_str(out, "Str"),
        BaseType::Bool => push_str(out, "Bool"),
        BaseType::Record(fs, row) => {
            proof {
                lemma_texts_len(view_fields(fs@), false);
                lemma_view_fields(fs@);
            }
            if row.is_some() && fs.len() == 0 {
                push_str(out, "{*}");
            } else {
                push_str(out, "{");
                push_fields(out, fs, false);
                if row.is_some() {
                    push_str(out, " | *}");
                } else {
                    push_str(out, "}");
                }
            }
            assert(out@ =~= start + base_text(b@));
        },
        BaseType::Union(fs, row) => {
            proof {
                lemma_texts_len(view_fields(fs@), true);
                lemma_view_fields(fs@);
            }
            if row.is_some() && fs.len() == 0 {
                push_str(out, "[*]");
            } else {
                push_str(out, "[");
                push_fields(out, fs, true);
                if row.is_some() {
                    push_str(out, " | *]");
                } else {
                    push_str(out, "]");
                }
            }
            assert(out@ =~= start + base_text(b@));
        },
        BaseType::Fun(ps, r) => {
            push_params(out, ps);
            push_str(out, " -> ");
            push_type(out, r);
            assert(out@ =~= start + base_text(b@));
        },
        BaseType::Task(o, e) => {
            push_str(out, "Task(");
            push_type(out, o);
            push_str(out, ", ");
            push_type(out, e);
            push_str(out, ")");
            assert(out@ =~= start + base_text(b@));
        },
    }
}

impl Type {
    /// The type as plain text (see [`type_text`]).
    pub fn to_text(&self) -> (r: String)
        ensures
            r@ == type_text(self@),
    {
        let mut out = String::new();
        push_type(&mut out, self);
        assert(out@ =~= type_text(self@));
        out
    }
}

// ── Error messages ────────────────────────────────────────────────────────────

/// The message of a type error.
pub open spec fn error_text(e: STypeError) -> Seq<char> {
    match e {
        STypeError::UnificationFail(a, b) => "type mismatch: expected `"@ + type_text(a) + "`, got `"@ + type_text(b) + "`"@,
        STypeError::InfiniteType(v, t) => "recursive type: `"@ + v + "` expands to `"@ + type_text(t) + "`"@,
        STypeError::UnboundVar(n) => "unknown variable `"@ + n + "`"@,
        STypeError::NotARecord(t) => "not a record — has type `"@ + type_text(t) + "`"@,
        STypeError::NoSuchField(n, t) => "no field `"@ + n + "` on `"@ + type_text(t) + "`"@,
        STypeError::NotAUnion(t) => "not a tagged union — has type `"@ + type_text(t) + "`"@,
        STypeError::DeadOtherwise => "`otherwise` is unreachable: all tags already handled"@,
        STypeError::ModuleError(m) => "module error: "@ + m,
        STypeError::RankMismatch(a, b) => "rank mismatch: "@ + shape_text(a) + " vs "@ + shape_text(b),
        STypeError::DimMismatch(a, b) => "dimension mismatch: "@ + dim_text(a) + " vs "@ + dim_text(b),
        STypeError::DimArithmeticRequiresLiterals => "dimension arithmetic requires literal dimensions"@,
        STypeError::RankPolymorphicInnerMismatch { expected, got } =>
            "rank-polymorphic inner shape mismatch: expected "@ + shape_text(expected) + ", got "@ + shape_text(got),
        STypeError::BroadcastFail(a, b) => "broadcast fail: "@ + shape_text(a) + " vs "@ + shape_text(b),
        STypeError::IndexOutOfRank { rank, n_indices } =>
            "too many indices: array has rank "@ + decimal(rank as nat) + ", got "@ + decimal(n_indices as nat) + " indices"@,
        STypeError::SliceRequiresLiterals => "slice bounds must be literal integers for static shape"@,
        STypeError::NotAnArray(t) => "not an array — has type `"@ + type_text(t) + "`"@,
    }
}

impl TypeError {
    /// The error's message (see [`error_text`]).
    pub fn message(&self) -> (r: String)
        ensures
            r@ == error_text(self@),
    {
        let mut out = String::new();
        match self {
            TypeError::UnificationFail(a, b) => {
                push_str(&mut out, "type mismatch: expected `");
                push_type(&mut out, a);
                push_str(&mut out, "`, got `");
                push_type(&mut out, b);
                push_str(&mut out, "`");
            },
            TypeError::InfiniteType(v, t) => {
                push_str(&mut out, "recursive type: `");
                out.append(v.as_str());
                push_str(&mut out, "` expands to `");
                push_type(&mut out, t);
                push_str(&mut out, "`");
            },
            TypeError::UnboundVar(n) => {
                push_str(&mut out, "unknown variable `");
                out.append(n.as_str());
                push_str(&mut out, "`");
            },
            TypeError::NotARecord(t) => {
                push_str(&mut out, "not a record — has type `");
                push_type(&mut out, t);
                push_str(&mut out, "`");
            },
            TypeError::NoSuchField(n, t) => {
                push_str(&mut out, "no field `");
                out.append(n.as_str());
                push_str(&mut out, "` on `");
                push_type(&mut out, t);
                push_str(&mut out, "`");
            },
            TypeError::NotAUnion(t) => {
                push_str(&mut out, "not a tagged union — has type `");
                push_type(&mut out, t);
                push_str(&mut out, "`");
            },
            TypeError::DeadOtherwise => push_str(&mut out, "`otherwise` is unreachable: all tags already handled"),
            TypeError::ModuleError(m) => {
                push_str(&mut out, "module error: ");
                out.append(m.as_str());
            },
            TypeError::RankMismatch(a, b) => {
                push_str(&mut out, "rank mismatch: ");
                push_shape(&mut out, a.as_slice());
                push_str(&mut out, " vs ");
                push_shape(&mut out, b.as_slice());
            },
            TypeError::DimMismatch(a, b) => {
                push_str(&mut out, "dimension mismatch: ");
                push_dim(&mut out, a);
                push_str(&mut out, " vs ");
                push_dim(&mut out, b);
            },
            TypeError::DimArithmeticRequiresLiterals => push_str(&mut out, "dimension arithmetic requires literal dimensions"),
            TypeError::RankPolymorphicInnerMismatch { expected, got } => {
                push_str(&mut out, "rank-polymorphic inner shape mismatch: expected ");
                push_shape(&mut out, expected.as_slice());
                push_str(&mut out, ", got ");
                push_shape(&mut out, got.as_slice());
            },
            TypeError::BroadcastFail(a, b) => {
                push_str(&mut out, "broadcast fail: ");
                push_shape(&mut out, a.as_slice());
                push_str(&mut out, " vs ");
                push_shape(&mut out, b.as_slice());
            },
            TypeError::IndexOutOfRank { rank, n_indices } => {
                push_str(&mut out, "too many indices: array has rank ");
                push_decimal(&mut out, *rank as u64);
                push_str(&mut out, ", got ");
                push_decimal(&mut out, *n_indices as u64);
                push_str(&mut out, " indices");
            },
            TypeError::SliceRequiresLiterals => push_str(&mut out, "slice bounds must be literal integers for static shape"),
            TypeError::NotAnArray(t) => {
                push_str(&mut out, "not an array — has type `");
                push_type(&mut out, t);
                push_str(&mut out, "`");
            },
        }
        assert(out@ =~= error_text(self@));
        out
    }
}

impl InferError {
    /// The message of the error's kind.
    pub fn message(&self) -> (r: String)
        ensures
            r@ == error_text(self.kind@),
    {
        self.kind.message()
    }
}

} // verus!
