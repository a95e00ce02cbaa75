//! The Coda syntax tree.
//!
//! Infix `a + b` desugars to `App(Var("+"), [a, b])` and template strings
//! `` `hi {name}` `` desugar to `App(Var("++"), [Lit(Str("hi ")), name])`.
use vstd::prelude::*;

verus! {

/// Character range `start..end` of a node in the source text.
#[derive(Debug, Clone, Copy, PartialEq, Eq)]
pub struct Span {
    pub start: usize,
    pub end: usize,
}

/// A node together with its source range: `.0` is the node, `.1` its span.
#[derive(Debug, PartialEq)]
pub struct Spanned<T>(pub T, pub Span);

/// A dimension in a surface shape annotation: `Int[3, n]`.
#[derive(Debug, PartialEq)]
pub enum DimExpr {
    Nat(u64),
    Var(String),
}

/// Surface type syntax — used in annotations.
#[derive(Debug, PartialEq)]
pub enum TypeExpr {
    Var(String),
    Con(String),
    /// `Con(te, ...)` — applied type constructor, e.g. `Task(Int, Str)`.
    App(String, Vec<TypeExpr>),
    Fun(Vec<TypeExpr>, Box<TypeExpr>),
    /// `None` = closed record, `Some(row_var)` = open record.
    Record(Vec<(String, TypeExpr)>, Option<String>),
    Union(Vec<(String, Option<TypeExpr>)>, Option<String>),
    /// `T[d1, d2, ...]` — an array type with a static shape.
    Shaped(Box<TypeExpr>, Vec<DimExpr>),
    /// A bare natural-number literal in type position.
    Nat(u64),
}

/// A statement inside a block: a value binding, a type annotation, or a monadic bind.
/// `MonadicBind` is desugared to `then(e, \x -> rest)` at parse time in block and
/// file context.
#[derive(Debug, PartialEq)]
pub enum BlockItem {
    Bind(String, Spanned<Expr>),
    Ann(String, TypeExpr),
    MonadicBind(String, Spanned<Expr>),
}

/// One index inside `arr[...]`.
#[derive(Debug, PartialEq)]
pub enum IndexArg {
    /// `arr[i]` — an integer index; consumes one dimension.
    Scalar(Spanned<Expr>),
    /// `arr[[i, j]]` — a gather by an integer array.
    Fancy(Spanned<Expr>),
    /// `arr[a:b]`, `arr[:b]`, `arr[a:]`, `arr[:]`.
    Slice(Option<Spanned<Expr>>, Option<Spanned<Expr>>),
}

/// Core AST.
#[derive(Debug, PartialEq)]
pub enum Expr {
    Var(String),
    Lam(Vec<String>, Box<Spanned<Expr>>),
    App(Box<Spanned<Expr>>, Vec<Spanned<Expr>>),
    Lit(Lit),
    /// `(x = e1; y : T; body)` — bindings and annotations scoped to body.
    Block(Vec<BlockItem>, Box<Spanned<Expr>>),
    /// `{field: expr, ...}`
    Record(Vec<(String, Spanned<Expr>)>),
    /// `expr.field`
    Field(Box<Spanned<Expr>>, String),
    /// `Tag` or `Tag expr`
    Tag(String, Option<Box<Spanned<Expr>>>),
    /// `when scrutinee is (Tag binding? -> body)+ (otherwise body)?`
    When(Box<Spanned<Expr>>, Vec<(String, Option<String>, Box<Spanned<Expr>>)>, Option<Box<Spanned<Expr>>>),
    /// `import \`path\`` — statically known path.
    Import(String),
    /// `[e1, e2, ...]` — list (array) literal.
    List(Vec<Spanned<Expr>>),
    /// `arr[i, j:k, ...]`
    Index(Box<Spanned<Expr>>, Vec<IndexArg>),
}

/// Literals. A float literal keeps its source digits (`3.14`); only its type matters
/// to the type checker and the code generator.
#[derive(Debug, PartialEq)]
pub enum Lit {
    Int(i64),
    Float(String),
    Str(String),
}

} // verus!
