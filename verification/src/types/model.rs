//! The type language and its mathematical model.
//!
//! Every executable type has a view (`@`) in which names are character sequences;
//! contracts throughout the type checker are stated over these views.

use vstd::prelude::*;
use crate::ast::Span;

verus! {

// ── Dimensions ────────────────────────────────────────────────────────────────

/// One dimension of an array shape.
#[derive(Debug, PartialEq)]
pub enum Dim {
    /// Literal dimension — known statically.
    Nat(u64),
    /// Unification variable.
    Var(String),
}

/// Model of a [`Dim`].
pub enum SDim {
    Nat(u64),
    Var(Seq<char>),
}

impl View for Dim {
    type V = SDim;

    open spec fn view(&self) -> SDim {
        match self {
            Dim::Nat(n) => SDim::Nat(*n),
            Dim::Var(v) => SDim::Var(v@),
        }
    }
}

/// An array shape; `[]` is a scalar.
pub type Shape = Vec<Dim>;

/// Model of a shape.
pub open spec fn shape_view(s: Seq<Dim>) -> Seq<SDim> {
    s.map_values(|d: Dim| d@)
}

// ── Types ─────────────────────────────────────────────────────────────────────

/// The element part of a type.
#[derive(Debug, PartialEq)]
pub enum BaseType {
    Int,
    F64,
    Str,
    Bool,
    Record(Vec<(String, Type)>, Option<String>),
    Union(Vec<(String, Type)>, Option<String>),
    Fun(Vec<Type>, Box<Type>),
    Task(Box<Type>, Box<Type>),
    /// Element type variable, ranging over scalar base types.
    Var(String),
}

/// A type: a base type with a shape, or an HM type variable.
#[derive(Debug, PartialEq)]
pub enum Type {
    /// Every value type: base + shape (`[]` = scalar).
    Shaped(BaseType, Shape),
    /// HM type variable.
    Var(String),
}

/// Model of a [`BaseType`].
pub enum SBase {
    Int,
    F64,
    Str,
    Bool,
    Record(Seq<(Seq<char>, SType)>, Option<Seq<char>>),
    Union(Seq<(Seq<char>, SType)>, Option<Seq<char>>),
    Fun(Seq<SType>, Box<SType>),
    Task(Box<SType>, Box<SType>),
    Var(Seq<char>),
}

/// Model of a [`Type`].
pub enum SType {
    Shaped(SBase, Seq<SDim>),
    Var(Seq<char>),
}

pub open spec fn opt_name_view(o: Option<String>) -> Option<Seq<char>> {
    match o {
        Some(s) => Some(s@),
        None => None,
    }
}

pub open spec fn names_view(v: Seq<String>) -> Seq<Seq<char>> {
    v.map_values(|s: String| s@)
}

pub open spec fn view_type(t: Type) -> SType
    decreases t,
{
    match t {
        Type::Var(n) => SType::Var(n@),
        Type::Shaped(b, sh) => SType::Shaped(view_base(b), shape_view(sh@)),
    }
}

pub open spec fn view_base(b: BaseType) -> SBase
    decreases b,
{
    match b {
        BaseType::Int => SBase::Int,
        BaseType::F64 => SBase::F64,
        BaseType::Str => SBase::Str,
        BaseType::Bool => SBase::Bool,
        BaseType::Var(v) => SBase::Var(v@),
        BaseType::Record(fs, row) => SBase::Record(view_fields(fs@), opt_name_view(row)),
        BaseType::Union(fs, row) => SBase::Union(view_fields(fs@), opt_name_view(row)),
        BaseType::Fun(ps, r) => SBase::Fun(view_types(ps@), Box::new(view_type(*r))),
        BaseType::Task(o, e) => SBase::Task(Box::new(view_type(*o)), Box::new(view_type(*e))),
    }
}

pub open spec fn view_types(ts: Seq<Type>) -> Seq<SType>
    decreases ts,
{
    if ts.len() == 0 {
        Seq::empty()
    } else {
        view_types(ts.drop_last()).push(view_type(ts.last()))
    }
}

pub open spec fn view_fields(fs: Seq<(String, Type)>) -> Seq<(Seq<char>, SType)>
    decreases fs,
{
    if fs.len() == 0 {
        Seq::empty()
    } else {
        view_fields(fs.drop_last()).push((fs.last().0@, view_type(fs.last().1)))
    }
}

impl View for Type {
    type V = SType;

    open spec fn view(&self) -> SType {
        view_type(*self)
    }
}

impl View for BaseType {
    type V = SBase;

    open spec fn view(&self) -> SBase {
        view_base(*self)
    }
}

pub proof fn lemma_view_types(ts: Seq<Type>)
    ensures
        view_types(ts).len() == ts.len(),
        forall|i: int| 0 <= i < ts.len() ==> #[trigger] view_types(ts)[i] == view_type(ts[i]),
    decreases ts.len(),
{
    if ts.len() > 0 {
        lemma_view_types(ts.drop_last());
    }
}

pub proof fn lemma_view_fields(fs: Seq<(String, Type)>)
    ensures
        view_fields(fs).len() == fs.len(),
        forall|i: int|
            0 <= i < fs.len() ==> #[trigger] view_fields(fs)[i] == (fs[i].0@, view_type(fs[i].1)),
    decreases fs.len(),
{
    if fs.len() > 0 {
        lemma_view_fields(fs.drop_last());
    }
}


// ── Constructors ──────────────────────────────────────────────────────────────

pub open spec fn s_scalar(b: SBase) -> SType {
    SType::Shaped(b, Seq::empty())
}

pub open spec fn s_int() -> SType {
    s_scalar(SBase::Int)
}

pub open spec fn s_f64() -> SType {
    s_scalar(SBase::F64)
}

pub open spec fn s_str() -> SType {
    s_scalar(SBase::Str)
}

pub open spec fn s_bool() -> SType {
    s_scalar(SBase::Bool)
}

/// The unit type `{}` — the empty closed record.
pub open spec fn s_unit() -> SType {
    s_scalar(SBase::Record(Seq::empty(), None))
}

/// The empty closed union `[]`.
pub open spec fn s_never() -> SType {
    s_scalar(SBase::Union(Seq::empty(), None))
}

pub open spec fn s_fun(ps: Seq<SType>, r: SType) -> SType {
    s_scalar(SBase::Fun(ps, Box::new(r)))
}

pub open spec fn s_task(ok: SType, err: SType) -> SType {
    s_scalar(SBase::Task(Box::new(ok), Box::new(err)))
}

/// The shape of a type; a type variable has the scalar shape.
pub open spec fn s_shape(t: SType) -> Seq<SDim> {
    match t {
        SType::Shaped(_, sh) => sh,
        SType::Var(_) => Seq::empty(),
    }
}

impl Type {
    /// A scalar (rank-0) type with base `b`.
    pub fn scalar(b: BaseType) -> (r: Self)
        ensures
            r@ == s_scalar(b@),
    {
        let r = Type::Shaped(b, Vec::new());
        assert(shape_view(Seq::<Dim>::empty()) =~= Seq::<SDim>::empty());
        r
    }

    pub fn int_() -> (r: Self)
        ensures
            r@ == s_int(),
    {
        Type::scalar(BaseType::Int)
    }

    pub fn f64_() -> (r: Self)
        ensures
            r@ == s_f64(),
    {
        Type::scalar(BaseType::F64)
    }

    pub fn str_() -> (r: Self)
        ensures
            r@ == s_str(),
    {
        Type::scalar(BaseType::Str)
    }

    pub fn bool_() -> (r: Self)
        ensures
            r@ == s_bool(),
    {
        Type::scalar(BaseType::Bool)
    }

    /// The unit type `{}`.
    pub fn unit() -> (r: Self)
        ensures
            r@ == s_unit(),
    {
        let b = BaseType::Record(Vec::new(), None);
        assert(view_fields(Seq::<(String, Type)>::empty()) =~= Seq::empty());
        Type::scalar(b)
    }

    /// The empty union `[]`, which has no values.
    pub fn never() -> (r: Self)
        ensures
            r@ == s_never(),
    {
        let b = BaseType::Union(Vec::new(), None);
        assert(view_fields(Seq::<(String, Type)>::empty()) =~= Seq::empty());
        Type::scalar(b)
    }

    /// The function type `params -> ret`.
    pub fn fun(params: Vec<Type>, ret: Type) -> (r: Self)
        ensures
            r@ == s_fun(view_types(params@), ret@),
    {
        Type::scalar(BaseType::Fun(params, Box::new(ret)))
    }

    /// A type with base `b` and shape `shape`.
    pub fn shaped(b: BaseType, shape: Shape) -> (r: Self)
        ensures
            r@ == SType::Shaped(b@, shape_view(shape@)),
    {
        Type::Shaped(b, shape)
    }

    /// `Task(ok, err)`.
    pub fn task(ok: Type, err: Type) -> (r: Self)
        ensures
            r@ == s_task(ok@, err@),
    {
        Type::scalar(BaseType::Task(Box::new(ok), Box::new(err)))
    }

    /// The shape of this type (scalar for a type variable).
    pub fn shape(&self) -> (r: &[Dim])
        ensures
            shape_view(r@) == s_shape(self@),
    {
        match self {
            Type::Shaped(_, s) => s.as_slice(),
            Type::Var(_) => {
                let e: &[Dim] = &[];
                assert(shape_view(e@) =~= Seq::<SDim>::empty());
                e
            }
        }
    }
}

// ── Copies with a known result ────────────────────────────────────────────────

pub fn copy_string(s: &String) -> (r: String)
    ensures
        r@ == s@,
{
    s.clone()
}

pub fn copy_opt_string(o: &Option<String>) -> (r: Option<String>)
    ensures
        opt_name_view(r) == opt_name_view(*o),
{
    match o {
        Some(s) => Some(s.clone()),
        None => None,
    }
}

pub fn copy_names(v: &Vec<String>) -> (r: Vec<String>)
    ensures
        names_view(r@) == names_view(v@),
{
    let mut r: Vec<String> = Vec::new();
    let mut i: usize = 0;
    while i < v.len()
        invariant
            i <= v.len(),
            r@.len() == i,
            forall|j: int| 0 <= j < i ==> #[trigger] r@[j]@ == v@[j]@,
        decreases v.len() - i,
    {
        r.push(v[i].clone());
        i += 1;
    }
    assert(names_view(r@) =~= names_view(v@));
    r
}

/// Product of two literal dimensions; `None` when either is a variable.
pub open spec fn dim_mul_s(a: SDim, b: SDim) -> Option<SDim> {
    match (a, b) {
        (SDim::Nat(m), SDim::Nat(n)) => Some(SDim::Nat((m * n) as u64)),
        _ => None,
    }
}

/// Sum of two literal dimensions; `None` when either is a variable.
pub open spec fn dim_add_s(a: SDim, b: SDim) -> Option<SDim> {
    match (a, b) {
        (SDim::Nat(m), SDim::Nat(n)) => Some(SDim::Nat((m + n) as u64)),
        _ => None,
    }
}

/// Difference of two literal dimensions; `None` when either is a variable or the
/// second exceeds the first.
pub open spec fn dim_sub_s(a: SDim, b: SDim) -> Option<SDim> {
    match (a, b) {
        (SDim::Nat(m), SDim::Nat(n)) => if n <= m { Some(SDim::Nat((m - n) as u64)) } else { None },
        _ => None,
    }
}

pub open spec fn opt_dim_view(o: Option<Dim>) -> Option<SDim> {
    match o {
        Some(d) => Some(d@),
        None => None,
    }
}

impl Dim {
    /// Dimension arithmetic works on literals only: `m * n`.
    pub fn mul(a: &Dim, b: &Dim) -> (r: Option<Dim>)
        requires
            match (a@, b@) {
                (SDim::Nat(m), SDim::Nat(n)) => m * n <= u64::MAX,
                _ => true,
            },
        ensures
            opt_dim_view(r) == dim_mul_s(a@, b@),
    {
        match (a, b) {
            (Dim::Nat(m), Dim::Nat(n)) => Some(Dim::Nat(*m * *n)),
            _ => None,
        }
    }

    /// `m + n` of two literals.
    pub fn add(a: &Dim, b: &Dim) -> (r: Option<Dim>)
        requires
            match (a@, b@) {
                (SDim::Nat(m), SDim::Nat(n)) => m + n <= u64::MAX,
                _ => true,
            },
        ensures
            opt_dim_view(r) == dim_add_s(a@, b@),
    {
        match (a, b) {
            (Dim::Nat(m), Dim::Nat(n)) => Some(Dim::Nat(*m + *n)),
            _ => None,
        }
    }

    /// `m - n` of two literals with `n <= m`.
    pub fn sub(a: &Dim, b: &Dim) -> (r: Option<Dim>)
        ensures
            opt_dim_view(r) == dim_sub_s(a@, b@),
    {
        match (a, b) {
            (Dim::Nat(m), Dim::Nat(n)) => if *n <= *m { Some(Dim::Nat(*m - *n)) } else { None },
            _ => None,
        }
    }

    pub fn dup(&self) -> (r: Dim)
        ensures
            r@ == self@,
    {
        match self {
            Dim::Nat(n) => Dim::Nat(*n),
            Dim::Var(v) => Dim::Var(v.clone()),
        }
    }
}

pub fn copy_shape(s: &[Dim]) -> (r: Shape)
    ensures
        shape_view(r@) == shape_view(s@),
{
    let mut r: Vec<Dim> = Vec::new();
    let mut i: usize = 0;
    while i < s.len()
        invariant
            i <= s.len(),
            r@.len() == i,
            forall|j: int| 0 <= j < i ==> #[trigger] r@[j]@ == s@[j]@,
        decreases s.len() - i,
    {
        r.push(s[i].dup());
        i += 1;
    }
    assert(shape_view(r@) =~= shape_view(s@));
    r
}

impl Type {
    pub fn dup(&self) -> (r: Type)
        ensures
            r@ == self@,
        decreases self,
    {
        match self {
            Type::Var(v) => Type::Var(v.clone()),
            Type::Shaped(b, sh) => Type::Shaped(b.dup(), copy_shape(sh.as_slice())),
        }
    }
}

impl BaseType {
    pub fn dup(&self) -> (r: BaseType)
        ensures
            r@ == self@,
        decreases self,
    {
        match self {
            BaseType::Int => BaseType::Int,
            BaseType::F64 => BaseType::F64,
            BaseType::Str => BaseType::Str,
            BaseType::Bool => BaseType::Bool,
            BaseType::Var(v) => BaseType::Var(v.clone()),
            BaseType::Record(fs, row) => BaseType::Record(copy_fields(fs), copy_opt_string(row)),
            BaseType::Union(fs, row) => BaseType::Union(copy_fields(fs), copy_opt_string(row)),
            BaseType::Fun(ps, r) => BaseType::Fun(copy_types(ps), Box::new((**r).dup())),
            BaseType::Task(o, e) => BaseType::Task(Box::new((**o).dup()), Box::new((**e).dup())),
        }
    }
}

pub fn copy_types(ts: &Vec<Type>) -> (r: Vec<Type>)
    ensures
        view_types(r@) == view_types(ts@),
    decreases ts,
{
    let mut r: Vec<Type> = Vec::new();
    let mut i: usize = 0;
    while i < ts.len()
        invariant
            i <= ts.len(),
            view_types(r@) == view_types(ts@.take(i as int)),
        decreases ts.len() - i,
    {
        let t = ts[i].dup();
        let ghost r_old = r@;
        r.push(t);
        assert(r@.drop_last() =~= r_old);
        assert(ts@.take(i + 1).drop_last() =~= ts@.take(i as int));
        i += 1;
    }
    assert(ts@.take(ts.len() as int) =~= ts@);
    r
}


pub fn copy_fields(fs: &Vec<(String, Type)>) -> (r: Vec<(String, Type)>)
    ensures
        view_fields(r@) == view_fields(fs@),
    decreases fs,
{
    let mut r: Vec<(String, Type)> = Vec::new();
    let mut i: usize = 0;
    while i < fs.len()
        invariant
            i <= fs.len(),
            view_fields(r@) == view_fields(fs@.take(i as int)),
        decreases fs.len() - i,
    {
        let t = fs[i].1.dup();
        let k = fs[i].0.clone();
        let ghost r_old = r@;
        r.push((k, t));
        assert(r@.drop_last() =~= r_old);
        assert(fs@.take(i + 1).drop_last() =~= fs@.take(i as int));
        i += 1;
    }
    assert(fs@.take(fs.len() as int) =~= fs@);
    r
}

// ── Schemes and substitutions ─────────────────────────────────────────────────

/// A type scheme `∀ vars dim_vars base_vars. ty`.
#[derive(Debug)]
pub struct Scheme {
    /// Type variables.
    pub vars: Vec<String>,
    /// Dimension variables.
    pub dim_vars: Vec<String>,
    /// Base type variables.
    pub base_vars: Vec<String>,
    pub ty: Type,
}

/// Model of a [`Scheme`].
pub struct SScheme {
    pub vars: Seq<Seq<char>>,
    pub dim_vars: Seq<Seq<char>>,
    pub base_vars: Seq<Seq<char>>,
    pub ty: SType,
}

impl View for Scheme {
    type V = SScheme;

    open spec fn view(&self) -> SScheme {
        SScheme {
            vars: names_view(self.vars@),
            dim_vars: names_view(self.dim_vars@),
            base_vars: names_view(self.base_vars@),
            ty: self.ty@,
        }
    }
}

impl Scheme {
    /// A scheme that quantifies nothing.
    pub fn mono(ty: Type) -> (r: Self)
        ensures
            r@ == (SScheme { vars: Seq::empty(), dim_vars: Seq::empty(), base_vars: Seq::empty(), ty: ty@ }),
    {
        let r = Scheme { vars: Vec::new(), dim_vars: Vec::new(), base_vars: Vec::new(), ty };
        assert(names_view(r.vars@) =~= Seq::<Seq<char>>::empty());
        r
    }

    pub fn dup(&self) -> (r: Self)
        ensures
            r@ == self@,
    {
        Scheme {
            vars: copy_names(&self.vars),
            dim_vars: copy_names(&self.dim_vars),
            base_vars: copy_names(&self.base_vars),
            ty: self.ty.dup(),
        }
    }
}

/// A substitution for type, dimension and base variables.
///
/// Each part is an association list in which the LAST entry for a name is the one
/// that counts.
#[derive(Debug)]
pub struct Subst {
    pub types: Vec<(String, Type)>,
    pub dims: Vec<(String, Dim)>,
    pub bases: Vec<(String, BaseType)>,
}

/// Model of a [`Subst`].
pub struct SSubst {
    pub types: Seq<(Seq<char>, SType)>,
    pub dims: Seq<(Seq<char>, SDim)>,
    pub bases: Seq<(Seq<char>, SBase)>,
}

/// Model of an association list: each name by its characters, each value by its view.
pub open spec fn assoc_view<T: View>(v: Seq<(String, T)>) -> Seq<(Seq<char>, T::V)> {
    v.map_values(|p: (String, T)| (p.0@, p.1@))
}

pub proof fn lemma_view_fields_assoc(fs: Seq<(String, Type)>)
    ensures
        view_fields(fs) == assoc_view(fs),
{
    lemma_view_fields(fs);
    assert(view_fields(fs) =~= assoc_view(fs));
}

impl View for Subst {
    type V = SSubst;

    open spec fn view(&self) -> SSubst {
        SSubst {
            types: assoc_view(self.types@),
            dims: assoc_view(self.dims@),
            bases: assoc_view(self.bases@),
        }
    }
}

/// The value bound to `k` in an association list: its last entry for `k`.
pub open spec fn lookup<T>(s: Seq<(Seq<char>, T)>, k: Seq<char>) -> Option<T>
    decreases s.len(),
{
    if s.len() == 0 {
        None
    } else if s.last().0 == k {
        Some(s.last().1)
    } else {
        lookup(s.drop_last(), k)
    }
}

pub open spec fn s_empty_subst() -> SSubst {
    SSubst { types: Seq::empty(), dims: Seq::empty(), bases: Seq::empty() }
}

impl Subst {
    /// The empty substitution.
    pub fn new() -> (r: Self)
        ensures
            r@ == s_empty_subst(),
    {
        let r = Subst { types: Vec::new(), dims: Vec::new(), bases: Vec::new() };
        assert(assoc_view(r.types@) =~= Seq::<(Seq<char>, SType)>::empty());
        assert(assoc_view(r.dims@) =~= Seq::<(Seq<char>, SDim)>::empty());
        assert(assoc_view(r.bases@) =~= Seq::<(Seq<char>, SBase)>::empty());
        r
    }

    /// The substitution that maps the type variable `k` to `v` and nothing else.
    pub fn single_type(k: String, v: Type) -> (r: Self)
        ensures
            r@ == (SSubst { types: seq![(k@, v@)], dims: Seq::empty(), bases: Seq::empty() }),
    {
        let mut types: Vec<(String, Type)> = Vec::new();
        types.push((k, v));
        let s = Subst { types, dims: Vec::new(), bases: Vec::new() };
        assert(assoc_view(s.types@) =~= seq![(k@, v@)]);
        assert(assoc_view(s.dims@) =~= Seq::<(Seq<char>, SDim)>::empty());
        assert(assoc_view(s.bases@) =~= Seq::<(Seq<char>, SBase)>::empty());
        s
    }

    /// The substitution that maps the dimension variable `k` to `v` and nothing else.
    pub fn single_dim(k: String, v: Dim) -> (r: Self)
        ensures
            r@ == (SSubst { types: Seq::empty(), dims: seq![(k@, v@)], bases: Seq::empty() }),
    {
        let mut dims: Vec<(String, Dim)> = Vec::new();
        dims.push((k, v));
        let s = Subst { types: Vec::new(), dims, bases: Vec::new() };
        assert(assoc_view(s.types@) =~= Seq::<(Seq<char>, SType)>::empty());
        assert(assoc_view(s.dims@) =~= seq![(k@, v@)]);
        assert(assoc_view(s.bases@) =~= Seq::<(Seq<char>, SBase)>::empty());
        s
    }
}

impl Subst {
    /// The substitution that maps the base variable `k` to `v` and nothing else.
    pub fn single_base(k: String, v: BaseType) -> (r: Self)
        ensures
            r@ == (SSubst { types: Seq::empty(), dims: Seq::empty(), bases: seq![(k@, v@)] }),
    {
        let mut bases: Vec<(String, BaseType)> = Vec::new();
        bases.push((k, v));
        let s = Subst { types: Vec::new(), dims: Vec::new(), bases };
        assert(assoc_view(s.types@) =~= Seq::<(Seq<char>, SType)>::empty());
        assert(assoc_view(s.dims@) =~= Seq::<(Seq<char>, SDim)>::empty());
        assert(assoc_view(s.bases@) =~= seq![(k@, v@)]);
        s
    }
}

// ── Errors ────────────────────────────────────────────────────────────────────

/// Why a program does not type-check.
#[derive(Debug)]
pub enum TypeError {
    UnificationFail(Type, Type),
    InfiniteType(String, Type),
    UnboundVar(String),
    NotARecord(Type),
    NoSuchField(String, Type),
    NotAUnion(Type),
    DeadOtherwise,
    ModuleError(String),
    RankMismatch(Shape, Shape),
    DimMismatch(Dim, Dim),
    DimArithmeticRequiresLiterals,
    RankPolymorphicInnerMismatch { expected: Shape, got: Shape },
    BroadcastFail(Shape, Shape),
    IndexOutOfRank { rank: usize, n_indices: usize },
    SliceRequiresLiterals,
    NotAnArray(Type),
}

/// Model of a [`TypeError`].
pub enum STypeError {
    UnificationFail(SType, SType),
    InfiniteType(Seq<char>, SType),
    UnboundVar(Seq<char>),
    NotARecord(SType),
    NoSuchField(Seq<char>, SType),
    NotAUnion(SType),
    DeadOtherwise,
    ModuleError(Seq<char>),
    RankMismatch(Seq<SDim>, Seq<SDim>),
    DimMismatch(SDim, SDim),
    DimArithmeticRequiresLiterals,
    RankPolymorphicInnerMismatch { expected: Seq<SDim>, got: Seq<SDim> },
    BroadcastFail(Seq<SDim>, Seq<SDim>),
    IndexOutOfRank { rank: usize, n_indices: usize },
    SliceRequiresLiterals,
    NotAnArray(SType),
}

impl View for TypeError {
    type V = STypeError;

    open spec fn view(&self) -> STypeError {
        match self {
            TypeError::UnificationFail(a, b) => STypeError::UnificationFail(a@, b@),
            TypeError::InfiniteType(v, t) => STypeError::InfiniteType(v@, t@),
            TypeError::UnboundVar(n) => STypeError::UnboundVar(n@),
            TypeError::NotARecord(t) => STypeError::NotARecord(t@),
            TypeError::NoSuchField(n, t) => STypeError::NoSuchField(n@, t@),
            TypeError::NotAUnion(t) => STypeError::NotAUnion(t@),
            TypeError::DeadOtherwise => STypeError::DeadOtherwise,
            TypeError::ModuleError(m) => STypeError::ModuleError(m@),
            TypeError::RankMismatch(a, b) => STypeError::RankMismatch(shape_view(a@), shape_view(b@)),
            TypeError::DimMismatch(a, b) => STypeError::DimMismatch(a@, b@),
            TypeError::DimArithmeticRequiresLiterals => STypeError::DimArithmeticRequiresLiterals,
            TypeError::RankPolymorphicInnerMismatch { expected, got } =>
                STypeError::RankPolymorphicInnerMismatch { expected: shape_view(expected@), got: shape_view(got@) },
            TypeError::BroadcastFail(a, b) => STypeError::BroadcastFail(shape_view(a@), shape_view(b@)),
            TypeError::IndexOutOfRank { rank, n_indices } =>
                STypeError::IndexOutOfRank { rank: *rank, n_indices: *n_indices },
            TypeError::SliceRequiresLiterals => STypeError::SliceRequiresLiterals,
            TypeError::NotAnArray(t) => STypeError::NotAnArray(t@),
        }
    }
}

/// A type error together with the source range it is reported at.
#[derive(Debug)]
pub struct InferError {
    pub kind: TypeError,
    pub span: Span,
}

/// The type inferred for each node (by its span), and the applications that were
/// lifted element-wise over arrays.
#[derive(Debug)]
pub struct TypeMap {
    pub types: Vec<(Span, Type)>,
    pub lifted_apps: Vec<Span>,
}

} // verus!
