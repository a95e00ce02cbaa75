//! One step of an interactive session: how a line's binding, annotation or
//! monadic bind is typed against the session's environment. The host evaluates
//! what types and then binds the name to the scheme given here.

use vstd::prelude::*;
use crate::ast::{BlockItem, Span};
use super::api::{
    apply_ann, apply_ann_s, enforce_binding, enforce_binding_s, infer_scheme_in, infer_scheme_s, run_infer_s,
    type_map_view,
};
use super::env::TypeEnv;
use super::infer::{mods_view, Mods};
use super::infer_model::{desugared, mono_s};
use super::model::{assoc_view, BaseType, InferError, SBase, SScheme, STypeError, SType, Scheme, Type, TypeError, TypeMap};

verus! {

/// How an item of an interactive line types.
pub enum ItemTyping {
    /// An annotation: the scheme it establishes.
    Annotated(Scheme),
    /// A binding: its scheme, checked against the one the name already has, and
    /// the type of every node of its expression.
    Bound(Scheme, TypeMap),
    /// A monadic bind: the scheme of the value the task gives, and the type of
    /// every node of the task's expression.
    Ran(Scheme, TypeMap),
}

/// Why an item of an interactive line does not type.
pub enum ItemTypeError {
    /// An annotation the name's scheme does not meet.
    Annotation(TypeError),
    /// An expression that does not type, or a binding whose scheme does not
    /// meet the one the name already has (reported at the start of the line).
    Infer(InferError),
    /// A monadic bind of an expression that is not a task: its type.
    NotATask(Type),
}

/// The value type of a task type of rank 0.
pub open spec fn task_ok_s(t: SType) -> Option<SType> {
    match t {
        SType::Shaped(SBase::Task(ok, _), sh) => if sh.len() == 0 { Some(*ok) } else { None },
        _ => None,
    }
}

/// The span that errors of a whole line carry.
pub open spec fn line_start() -> Span {
    Span { start: 0, end: 0 }
}

/// Whether the expressions of an item are free of monadic binds.
pub open spec fn item_desugared(item: BlockItem) -> bool {
    match item {
        BlockItem::Ann(_, _) => true,
        BlockItem::Bind(_, e) => desugared(e),
        BlockItem::MonadicBind(_, e) => desugared(e),
    }
}

/// What typing `item` against `env` with the modules `mods` gives: `r` is the
/// outcome of [`type_item`].
pub open spec fn item_typed(env: TypeEnv, mods: Mods, item: BlockItem, r: Result<ItemTyping, ItemTypeError>) -> bool {
    let ev = assoc_view(env@);
    let mv = mods_view(mods@);
    match item {
        BlockItem::Ann(n, te) => match r {
            Ok(ItemTyping::Annotated(sc)) => apply_ann_s(ev, n@, te) == Ok::<SScheme, STypeError>(sc@),
            Err(ItemTypeError::Annotation(e)) => apply_ann_s(ev, n@, te) == Err::<SScheme, STypeError>(e@),
            _ => false,
        },
        BlockItem::Bind(n, e) => match infer_scheme_s(ev, mv, e) {
            Err(x) => match r {
                Err(ItemTypeError::Infer(ie)) => (ie.kind@, ie.span) == x,
                _ => false,
            },
            Ok(s0) => match enforce_binding_s(ev, n@, s0) {
                Err(k) => match r {
                    Err(ItemTypeError::Infer(ie)) => ie.kind@ == k && ie.span == line_start(),
                    _ => false,
                },
                Ok(s1) => match r {
                    Ok(ItemTyping::Bound(sc, tm)) => sc@ == s1 && run_infer_s(ev, mv, e) is Ok
                        && type_map_view(tm) == (run_infer_s(ev, mv, e)->Ok_0.2, run_infer_s(ev, mv, e)->Ok_0.3),
                    _ => false,
                },
            },
        },
        BlockItem::MonadicBind(_, e) => match infer_scheme_s(ev, mv, e) {
            Err(x) => match r {
                Err(ItemTypeError::Infer(ie)) => (ie.kind@, ie.span) == x,
                _ => false,
            },
            Ok(s0) => match task_ok_s(s0.ty) {
                None => match r {
                    Err(ItemTypeError::NotATask(t)) => t@ == s0.ty,
                    _ => false,
                },
                Some(ok) => match r {
                    Ok(ItemTyping::Ran(sc, tm)) => sc@ == mono_s(ok) && run_infer_s(ev, mv, e) is Ok
                        && type_map_view(tm) == (run_infer_s(ev, mv, e)->Ok_0.2, run_infer_s(ev, mv, e)->Ok_0.3),
                    _ => false,
                },
            },
        },
    }
}

/// Types one item of an interactive line against the session's environment
/// (see [`item_typed`]).
pub fn type_item(env: &TypeEnv, mods: &Mods, item: &BlockItem) -> (r: Result<ItemTyping, ItemTypeError>)
    requires
        item_desugared(*item),
    ensures
        item_typed(*env, *mods, *item, r),
{
    match item {
        BlockItem::Ann(n, te) => match apply_ann(env, n.as_str(), te) {
            Ok(sc) => Ok(ItemTyping::Annotated(sc)),
            Err(e) => Err(ItemTypeError::Annotation(e)),
        },
        BlockItem::Bind(n, e) => match infer_scheme_in(env, mods, e) {
            Err(ie) => Err(ItemTypeError::Infer(ie)),
            Ok((s0, tm)) => match enforce_binding(env, n.as_str(), s0) {
                Err(k) => Err(ItemTypeError::Infer(InferError { kind: k, span: Span { start: 0, end: 0 } })),
                Ok(s1) => Ok(ItemTyping::Bound(s1, tm)),
            },
        },
        BlockItem::MonadicBind(_, e) => match infer_scheme_in(env, mods, e) {
            Err(ie) => Err(ItemTypeError::Infer(ie)),
            Ok((s0, tm)) => {
                let ok = match &s0.ty {
                    Type::Shaped(BaseType::Task(ok, _), sh) => if sh.len() == 0 { Some(ok.dup()) } else { None },
                    _ => None,
                };
                match ok {
                    Some(t) => Ok(ItemTyping::Ran(Scheme::mono(t), tm)),
                    None => Err(ItemTypeError::NotATask(s0.ty)),
                }
            },
        },
    }
}

} // verus!
