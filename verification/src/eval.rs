//! The errors of evaluation. (The evaluator itself works on run-time values
//! that hold floating-point numbers and host closures; it lives with the
//! program, outside this library.)

use vstd::prelude::*;
use vstd::string::*;
use crate::names::{decimal, push_decimal};
use crate::types::display::join_s;

verus! {

/// Why evaluation stopped.
#[derive(Debug)]
pub enum EvalError {
    UnboundVar(String),
    TypeMismatch { expected: &'static str, got: String },
    ArityMismatch { expected: usize, got: usize },
    NoSuchField(String),
    NoMatchingBranch(String),
    ModuleError(String),
}

/// The message of an evaluation error.
pub open spec fn eval_error_text(e: EvalError) -> Seq<char> {
    match e {
        EvalError::UnboundVar(n) => "unbound variable: "@ + n@,
        EvalError::TypeMismatch { expected, got } => "type error: expected "@ + expected@ + ", got "@ + got@,
        EvalError::ArityMismatch { expected, got } =>
            "arity error: expected "@ + decimal(expected as nat) + " args, got "@ + decimal(got as nat),
        EvalError::NoSuchField(n) => "no such field: "@ + n@,
        EvalError::NoMatchingBranch(t) => "no matching branch for tag: "@ + t@,
        EvalError::ModuleError(m) => "module error: "@ + m@,
    }
}

impl EvalError {
    /// The error's message (see [`eval_error_text`]).
    pub fn message(&self) -> (r: String)
        ensures
            r@ == eval_error_text(*self),
    {
        let mut out = String::new();
        match self {
            EvalError::UnboundVar(n) => {
                out.append("unbound variable: ");
                out.append(n.as_str());
            },
            EvalError::TypeMismatch { expected, got } => {
                out.append("type error: expected ");
                out.append(expected);
                out.append(", got ");
                out.append(got.as_str());
            },
            EvalError::ArityMismatch { expected, got } => {
                out.append("arity error: expected ");
                push_decimal(&mut out, *expected as u64);
                out.append(" args, got ");
                push_decimal(&mut out, *got as u64);
            },
            EvalError::NoSuchField(n) => {
                out.append("no such field: ");
                out.append(n.as_str());
            },
            EvalError::NoMatchingBranch(t) => {
                out.append("no matching branch for tag: ");
                out.append(t.as_str());
            },
            EvalError::ModuleError(m) => {
                out.append("module error: ");
                out.append(m.as_str());
            },
        }
        assert(out@ =~= eval_error_text(*self));
        out
    }
}

// ── Runtime shapes ────────────────────────────────────────────────────────────

/// A runtime shape as `[d1, d2]`.
pub open spec fn dims_text(s: Seq<usize>) -> Seq<char> {
    "["@ + join_s(s.map_values(|d: usize| decimal(d as nat)), ", "@) + "]"@
}

/// The shorter shape is a prefix of the longer one.
pub open spec fn shapes_agree(s1: Seq<usize>, s2: Seq<usize>) -> bool {
    forall|i: int| 0 <= i < s1.len() && i < s2.len() ==> s1[i] == s2[i]
}

/// The message for shapes that do not broadcast.
pub open spec fn no_broadcast_text(s1: Seq<usize>, s2: Seq<usize>) -> Seq<char> {
    "cannot broadcast shapes "@ + dims_text(s1) + " and "@ + dims_text(s2)
}

fn push_dims(out: &mut String, s: &[usize])
    ensures
        final(out)@ == old(out)@ + dims_text(s@),
{
    let ghost texts = s@.map_values(|d: usize| decimal(d as nat));
    let ghost start = out@;
    out.append("[");
    let mut i: usize = 0;
    while i < s.len()
        invariant
            i <= s.len(),
            texts == s@.map_values(|d: usize| decimal(d as nat)),
            out@ == start + "["@ + join_s(texts.subrange(0, i as int), ", "@),
        decreases s.len() - i,
    {
        if i > 0 {
            out.append(", ");
        }
        push_decimal(out, s[i] as u64);
        proof {
            let sub = texts.subrange(0, i + 1);
            assert(sub.drop_last() =~= texts.subrange(0, i as int));
            if i == 0 {
                assert(sub.len() == 1);
                assert(out@ =~= start + "["@ + join_s(sub, ", "@));
            } else {
                assert(out@ =~= start + "["@ + join_s(sub, ", "@));
            }
        }
        i += 1;
    }
    assert(texts.subrange(0, s.len() as int) =~= texts);
    out.append("]");
    assert(out@ =~= start + dims_text(s@));
}

/// The shape two runtime shapes broadcast to: the longer one, when the shorter
/// is a prefix of it (a scalar's empty shape broadcasts to anything).
pub fn broadcast_shape_pair(s1: &[usize], s2: &[usize]) -> (r: Result<Vec<usize>, EvalError>)
    ensures
        match r {
            Ok(v) => shapes_agree(s1@, s2@) && v@ == if s1.len() <= s2.len() { s2@ } else { s1@ },
            Err(e) => !shapes_agree(s1@, s2@) && match e {
                EvalError::TypeMismatch { expected, got } => expected@ == "compatible shapes for broadcasting"@
                    && got@ == no_broadcast_text(s1@, s2@),
                _ => false,
            },
        },
{
    let n = if s1.len() <= s2.len() { s1.len() } else { s2.len() };
    let mut i: usize = 0;
    while i < n
        invariant
            n <= s1.len(),
            n <= s2.len(),
            n == s1.len() || n == s2.len(),
            i <= n,
            forall|j: int| 0 <= j < i ==> s1@[j] == s2@[j],
        decreases n - i,
    {
        if s1[i] != s2[i] {
            let mut got = String::new();
            got.append("cannot broadcast shapes ");
            push_dims(&mut got, s1);
            got.append(" and ");
            push_dims(&mut got, s2);
            assert(got@ =~= no_broadcast_text(s1@, s2@));
            return Err(EvalError::TypeMismatch { expected: "compatible shapes for broadcasting", got });
        }
        i += 1;
    }
    let longer = if s1.len() <= s2.len() { s2 } else { s1 };
    let mut v: Vec<usize> = Vec::new();
    let mut j: usize = 0;
    while j < longer.len()
        invariant
            j <= longer.len(),
            v@ == longer@.subrange(0, j as int),
        decreases longer.len() - j,
    {
        v.push(longer[j]);
        assert(v@ =~= longer@.subrange(0, j + 1));
        j += 1;
    }
    assert(longer@.subrange(0, longer.len() as int) =~= longer@);
    Ok(v)
}

/// The shapes of a list, as sequences.
pub open spec fn shapes_view(shapes: Seq<Vec<usize>>) -> Seq<Seq<usize>> {
    shapes.map_values(|v: Vec<usize>| v@)
}

/// Broadcasting `acc` with `shapes[i..]` in turn: the shape they all broadcast
/// to, or the first pair (the shape so far, the next shape) that does not.
pub open spec fn broadcast_from(shapes: Seq<Seq<usize>>, i: int, acc: Seq<usize>) -> Result<Seq<usize>, (Seq<usize>, Seq<usize>)>
    decreases shapes.len() - i,
{
    if i < 0 || i >= shapes.len() {
        Ok(acc)
    } else if shapes_agree(acc, shapes[i]) {
        broadcast_from(shapes, i + 1, if acc.len() <= shapes[i].len() { shapes[i] } else { acc })
    } else {
        Err((acc, shapes[i]))
    }
}

/// The shape a lifted application's arguments broadcast to, given each
/// argument's shape (`[]` for a scalar), from the left.
pub fn broadcast_shapes(shapes: &Vec<Vec<usize>>) -> (r: Result<Vec<usize>, EvalError>)
    ensures
        match r {
            Ok(v) => broadcast_from(shapes_view(shapes@), 0, Seq::empty()) == Ok::<Seq<usize>, (Seq<usize>, Seq<usize>)>(v@),
            Err(e) => match broadcast_from(shapes_view(shapes@), 0, Seq::empty()) {
                Err((a, b)) => match e {
                    EvalError::TypeMismatch { expected, got } => expected@ == "compatible shapes for broadcasting"@
                        && got@ == no_broadcast_text(a, b),
                    _ => false,
                },
                Ok(_) => false,
            },
        },
{
    let ghost sv = shapes_view(shapes@);
    let mut result: Vec<usize> = Vec::new();
    let mut i: usize = 0;
    while i < shapes.len()
        invariant
            i <= shapes.len(),
            sv == shapes_view(shapes@),
            broadcast_from(sv, 0, Seq::empty()) == broadcast_from(sv, i as int, result@),
        decreases shapes.len() - i,
    {
        assert(sv[i as int] == shapes@[i as int]@);
        result = match broadcast_shape_pair(result.as_slice(), shapes[i].as_slice()) {
            Ok(v) => v,
            Err(e) => return Err(e),
        };
        i += 1;
    }
    Ok(result)
}

} // verus!
