//! Types, substitutions, unification and Hindley–Milner inference with
//! row-polymorphic records/unions and statically shaped arrays.

pub mod model;

pub use self::model::{BaseType, Dim, InferError, Scheme, Shape, Subst, Type, TypeError, TypeMap};
pub mod subst;
pub mod env;
pub mod ctx;
pub mod unify;
pub mod lift;
pub mod annot;
pub mod infer_model;
pub mod infer;
pub mod normalize;
pub mod api;
pub mod repl;
pub mod stdenv;
pub mod display;
pub mod pretty;
