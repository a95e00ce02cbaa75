//! What the code generator writes, as functions on a model of its state: the
//! compiler's counter, string constants and finished lambda functions, and the
//! function being built (its finished blocks, the current block and the values
//! it owns a reference to).

use vstd::prelude::*;
use crate::ast::{BlockItem, Expr, Lit, Spanned};
use crate::codegen_model::{fv, module_key};
use crate::names::{decimal, names_set, signed_decimal, sorted_names};
use crate::types::ctx::next_c;

verus! {

// ── State ─────────────────────────────────────────────────────────────────────

/// Model of the compiler: the counter for fresh names, the string constants
/// (global name, content) and the lambda functions made so far.
pub struct CgC {
    pub n: u64,
    pub cs: Seq<(Seq<char>, Seq<char>)>,
    pub fns: Seq<Seq<char>>,
}

/// Model of a function being built: finished blocks (label, instructions), the
/// current block's label and instructions, and the values it owns.
pub struct CgF {
    pub done: Seq<(Seq<char>, Seq<Seq<char>>)>,
    pub label: Seq<char>,
    pub instrs: Seq<Seq<char>>,
    pub owned: Seq<Seq<char>>,
}

/// The global name of the `i`-th string constant: `@str_{i}`.
pub open spec fn const_name(i: nat) -> Seq<char> {
    seq!['@', 's', 't', 'r', '_'] + decimal(i)
}

/// A fresh value `%{prefix}_{n}`.
pub open spec fn ssa_g(c: CgC, prefix: Seq<char>) -> (CgC, Seq<char>) {
    (CgC { n: next_c(c.n), cs: c.cs, fns: c.fns }, seq!['%'] + prefix + seq!['_'] + decimal(c.n as nat))
}

/// A fresh label `{prefix}_{n}`.
pub open spec fn label_g(c: CgC, prefix: Seq<char>) -> (CgC, Seq<char>) {
    (CgC { n: next_c(c.n), cs: c.cs, fns: c.fns }, prefix + seq!['_'] + decimal(c.n as nat))
}

/// The index of the first constant from `i` on holding `s`, or the table's length.
pub open spec fn const_at(cs: Seq<(Seq<char>, Seq<char>)>, s: Seq<char>, i: int) -> int
    decreases cs.len() - i,
{
    if i < 0 || i >= cs.len() {
        cs.len() as int
    } else if cs[i].1 == s {
        i
    } else {
        const_at(cs, s, i + 1)
    }
}

/// The constant holding `s`: the one already in the table, or a new one at its end.
pub open spec fn const_g(c: CgC, s: Seq<char>) -> (CgC, Seq<char>) {
    let i = const_at(c.cs, s, 0);
    if 0 <= i < c.cs.len() {
        (c, c.cs[i].0)
    } else {
        (
            CgC { n: c.n, cs: c.cs.push((const_name(c.cs.len()), s)), fns: c.fns },
            const_name(c.cs.len()),
        )
    }
}

/// Different constants have different names.
pub proof fn lemma_const_name_injective(i: nat, j: nat)
    requires
        const_name(i) == const_name(j),
    ensures
        i == j,
{
    let p = seq!['@', 's', 't', 'r', '_'];
    assert(const_name(i).skip(5) =~= decimal(i));
    assert(const_name(j).skip(5) =~= decimal(j));
    crate::names::lemma_decimal_injective(i, j);
}

pub open spec fn emit_g(f: CgF, line: Seq<char>) -> CgF {
    CgF { done: f.done, label: f.label, instrs: f.instrs.push(line), owned: f.owned }
}

/// Seals the current block and starts block `label`, owning nothing.
pub open spec fn next_block_g(f: CgF, label: Seq<char>) -> CgF {
    CgF { done: f.done.push((f.label, f.instrs)), label, instrs: Seq::empty(), owned: Seq::empty() }
}

pub open spec fn own_g(f: CgF, v: Seq<char>) -> CgF {
    if f.owned.contains(v) {
        f
    } else {
        CgF { done: f.done, label: f.label, instrs: f.instrs, owned: f.owned.push(v) }
    }
}

/// The index of the first owned value from `i` on equal to `v`, or the length.
pub open spec fn owned_at(o: Seq<Seq<char>>, v: Seq<char>, i: int) -> int
    decreases o.len() - i,
{
    if i < 0 || i >= o.len() {
        o.len() as int
    } else if o[i] == v {
        i
    } else {
        owned_at(o, v, i + 1)
    }
}

/// Stops owning `v`; whether it was owned.
pub open spec fn disown_g(f: CgF, v: Seq<char>) -> (CgF, bool) {
    let i = owned_at(f.owned, v, 0);
    if 0 <= i < f.owned.len() {
        (CgF { done: f.done, label: f.label, instrs: f.instrs, owned: f.owned.remove(i) }, true)
    } else {
        (f, false)
    }
}

pub open spec fn release_t(v: Seq<char>) -> Seq<char> {
    "call void @coda_release(ptr "@ + v + ")"@
}

pub open spec fn retain_t(v: Seq<char>) -> Seq<char> {
    "call void @coda_retain(ptr "@ + v + ")"@
}

pub open spec fn release_if_owned_g(f: CgF, v: Seq<char>) -> CgF {
    let (f1, was) = disown_g(f, v);
    if was { emit_g(f1, release_t(v)) } else { f1 }
}

/// A release of each of `vs` but `x`, in order.
pub open spec fn release_lines(vs: Seq<Seq<char>>, x: Seq<char>) -> Seq<Seq<char>>
    decreases vs.len(),
{
    if vs.len() == 0 {
        Seq::empty()
    } else if vs.last() == x {
        release_lines(vs.drop_last(), x)
    } else {
        release_lines(vs.drop_last(), x).push(release_t(vs.last()))
    }
}

/// Hands `x` over to the caller: retains it if it was borrowed, releases every
/// other owned value, and owns nothing after.
pub open spec fn prepare_export_g(f: CgF, x: Seq<char>) -> CgF {
    let f1 = if f.owned.contains(x) { f } else { emit_g(f, retain_t(x)) };
    CgF { done: f1.done, label: f1.label, instrs: f1.instrs + release_lines(f1.owned, x), owned: Seq::empty() }
}

// ── Instruction texts ─────────────────────────────────────────────────────────

/// `{dst} = {call}(ptr {arg})`.
pub open spec fn call1_t(dst: Seq<char>, call: Seq<char>, arg: Seq<char>) -> Seq<char> {
    dst + " = "@ + call + "(ptr "@ + arg + ")"@
}

/// `{dst} = {call}(ptr {a}, ptr {b})`.
pub open spec fn call2_t(dst: Seq<char>, call: Seq<char>, a: Seq<char>, b: Seq<char>) -> Seq<char> {
    dst + " = "@ + call + "(ptr "@ + a + ", ptr "@ + b + ")"@
}

/// `{dst} = alloca [{n} x ptr]`.
pub open spec fn alloca_t(dst: Seq<char>, n: nat) -> Seq<char> {
    dst + " = alloca ["@ + decimal(n) + " x ptr]"@
}

/// `{dst} = getelementptr [{n} x ptr], ptr {arr}, i32 0, i32 {i}`.
pub open spec fn gep_t(dst: Seq<char>, n: nat, arr: Seq<char>, i: nat) -> Seq<char> {
    dst + " = getelementptr ["@ + decimal(n) + " x ptr], ptr "@ + arr + ", i32 0, i32 "@ + decimal(i)
}

/// `store ptr {v}, ptr {p}`.
pub open spec fn store_t(v: Seq<char>, p: Seq<char>) -> Seq<char> {
    "store ptr "@ + v + ", ptr "@ + p
}

/// `{dst} = call i1 @coda_str_eq(ptr {tn}, ptr {tag})`.
pub open spec fn str_eq_t(dst: Seq<char>, tn: Seq<char>, tag: Seq<char>) -> Seq<char> {
    dst + " = call i1 @coda_str_eq(ptr "@ + tn + ", ptr "@ + tag + ")"@
}

/// `{dst} = call ptr @coda_apply(ptr {f}, ptr {arr}, i32 {n})` (`null` and `0`
/// for no arguments).
pub open spec fn apply_t(dst: Seq<char>, f: Seq<char>, arr: Seq<char>, n: nat) -> Seq<char> {
    if n == 0 {
        dst + " = call ptr @coda_apply(ptr "@ + f + ", ptr null, i32 0)"@
    } else {
        dst + " = call ptr @coda_apply(ptr "@ + f + ", ptr "@ + arr + ", i32 "@ + decimal(n) + ")"@
    }
}

// ── Composite emissions ───────────────────────────────────────────────────────

/// Stores `vals[i..]` into the stack array `arr` of `n` slots, each through a
/// fresh pointer `%{prefix}_k`.
pub open spec fn stores_g(c: CgC, f: CgF, arr: Seq<char>, vals: Seq<Seq<char>>, prefix: Seq<char>, n: nat, i: int) -> (CgC, CgF)
    decreases vals.len() - i,
{
    if i < 0 || i >= vals.len() {
        (c, f)
    } else {
        let (c1, gep) = ssa_g(c, prefix);
        let f1 = emit_g(emit_g(f, gep_t(gep, n, arr, i as nat)), store_t(vals[i], gep));
        stores_g(c1, f1, arr, vals, prefix, n, i + 1)
    }
}

/// Applies `fv` to `args`; the result is owned.
pub open spec fn apply_g(c: CgC, f: CgF, fv: Seq<char>, args: Seq<Seq<char>>) -> (CgC, CgF, Seq<char>) {
    let (c1, r) = ssa_g(c, "app"@);
    if args.len() == 0 {
        (c1, own_g(emit_g(f, apply_t(r, fv, Seq::empty(), 0)), r), r)
    } else {
        let (c2, arr) = ssa_g(c1, "argarr"@);
        let (c3, f3) = stores_g(c2, emit_g(f, alloca_t(arr, args.len())), arr, args, "agep"@, args.len(), 0);
        (c3, own_g(emit_g(f3, apply_t(r, fv, arr, args.len())), r), r)
    }
}

/// Releases each of `vals[i..]` that is owned.
pub open spec fn release_all_g(f: CgF, vals: Seq<Seq<char>>, i: int) -> CgF
    decreases vals.len() - i,
{
    if i < 0 || i >= vals.len() {
        f
    } else {
        release_all_g(release_if_owned_g(f, vals[i]), vals, i + 1)
    }
}

/// The key and value stores of a record from field `i` on.
pub open spec fn record_stores_g(
    c: CgC,
    f: CgF,
    karr: Seq<char>,
    varr: Seq<char>,
    keys: Seq<Seq<char>>,
    vals: Seq<Seq<char>>,
    i: int,
) -> (CgC, CgF)
    decreases keys.len() - i,
{
    if i < 0 || i >= keys.len() {
        (c, f)
    } else {
        let n = keys.len();
        let (c1, kgep) = ssa_g(c, "kgep"@);
        let (c2, vgep) = ssa_g(c1, "vgep"@);
        let f1 = emit_g(emit_g(f, gep_t(kgep, n, karr, i as nat)), store_t(keys[i], kgep));
        let f2 = emit_g(emit_g(f1, gep_t(vgep, n, varr, i as nat)), store_t(vals[i], vgep));
        record_stores_g(c2, f2, karr, varr, keys, vals, i + 1)
    }
}

/// Lines `at..at + 4` of `out` fill slot `j` of the key array `karr` and of the
/// value array `varr` (each of `n` slots) with `key` and `val`: a pointer to the
/// key slot, the key stored through it, a pointer to the value slot, the value
/// stored through that one.
pub open spec fn fills_slot(
    out: Seq<Seq<char>>,
    at: int,
    n: nat,
    karr: Seq<char>,
    varr: Seq<char>,
    j: nat,
    key: Seq<char>,
    val: Seq<char>,
) -> bool {
    exists|gk: Seq<char>, gv: Seq<char>|
        {
            &&& #[trigger] gep_t(gk, n, karr, j) == out[at]
            &&& out[at + 1] == store_t(key, gk)
            &&& #[trigger] gep_t(gv, n, varr, j) == out[at + 2]
            &&& out[at + 3] == store_t(val, gv)
        }
}

/// Field `j` of a record fills slot `j` of both arrays: from field `i` on, four
/// lines per field are appended, and those of field `j` store `keys[j]` into
/// slot `j` of the key array and `vals[j]` into slot `j` of the value array.
pub proof fn lemma_record_slots_pair_fields(
    c: CgC,
    f: CgF,
    karr: Seq<char>,
    varr: Seq<char>,
    keys: Seq<Seq<char>>,
    vals: Seq<Seq<char>>,
    i: int,
)
    requires
        keys.len() == vals.len(),
        0 <= i <= keys.len(),
    ensures
        ({
            let out = record_stores_g(c, f, karr, varr, keys, vals, i).1.instrs;
            let base = f.instrs.len() as int;
            &&& out.len() == base + 4 * (keys.len() - i)
            &&& out.subrange(0, base) == f.instrs
            &&& forall|j: int|
                i <= j < keys.len() ==> #[trigger] fills_slot(
                    out,
                    base + 4 * (j - i),
                    keys.len(),
                    karr,
                    varr,
                    j as nat,
                    keys[j],
                    vals[j],
                )
        }),
    decreases keys.len() - i,
{
    let n = keys.len();
    let base = f.instrs.len() as int;
    let out = record_stores_g(c, f, karr, varr, keys, vals, i).1.instrs;
    if i < n {
        let (c1, kgep) = ssa_g(c, "kgep"@);
        let (c2, vgep) = ssa_g(c1, "vgep"@);
        let f1 = emit_g(emit_g(f, gep_t(kgep, n, karr, i as nat)), store_t(keys[i], kgep));
        let f2 = emit_g(emit_g(f1, gep_t(vgep, n, varr, i as nat)), store_t(vals[i], vgep));
        lemma_record_slots_pair_fields(c2, f2, karr, varr, keys, vals, i + 1);
        assert(out == record_stores_g(c2, f2, karr, varr, keys, vals, i + 1).1.instrs);
        assert(f2.instrs.len() == base + 4);
        assert(out.subrange(0, base + 4) == f2.instrs);
        assert(out.subrange(0, base) =~= f2.instrs.subrange(0, base));
        assert(f2.instrs.subrange(0, base) =~= f.instrs);
        assert forall|j: int| i <= j < n implies #[trigger] fills_slot(
            out,
            base + 4 * (j - i),
            n,
            karr,
            varr,
            j as nat,
            keys[j],
            vals[j],
        ) by {
            if j == i {
                assert(out[base] == f2.instrs[base]);
                assert(out[base + 1] == f2.instrs[base + 1]);
                assert(out[base + 2] == f2.instrs[base + 2]);
                assert(out[base + 3] == f2.instrs[base + 3]);
                assert(gep_t(kgep, n, karr, j as nat) == out[base + 4 * (j - i)]);
                assert(gep_t(vgep, n, varr, j as nat) == out[base + 4 * (j - i) + 2]);
            } else {
                assert(base + 4 + 4 * (j - (i + 1)) == base + 4 * (j - i));
                assert(fills_slot(out, base + 4 + 4 * (j - (i + 1)), n, karr, varr, j as nat, keys[j], vals[j]));
            }
        }
    } else {
        assert(out == f.instrs);
        assert(out.subrange(0, base) =~= f.instrs);
    }
}

/// A record of `keys` (constant names) and `vals`; the result is owned and the
/// values are released.
pub open spec fn record_g(c: CgC, f: CgF, keys: Seq<Seq<char>>, vals: Seq<Seq<char>>) -> (CgC, CgF, Seq<char>) {
    let (c1, r) = ssa_g(c, "rec"@);
    let n = keys.len();
    if n == 0 {
        (c1, own_g(emit_g(f, r + " = call ptr @coda_mk_unit()"@), r), r)
    } else {
        let (c2, karr) = ssa_g(c1, "karr"@);
        let (c3, varr) = ssa_g(c2, "varr"@);
        let f1 = emit_g(emit_g(f, alloca_t(karr, n)), alloca_t(varr, n));
        let (c4, f2) = record_stores_g(c3, f1, karr, varr, keys, vals, 0);
        let t = r + " = call ptr @coda_mk_record(ptr "@ + karr + ", ptr "@ + varr + ", i32 "@ + decimal(n) + ")"@;
        (c4, release_all_g(own_g(emit_g(f2, t), r), vals, 0), r)
    }
}

/// A list of `elems`; the result is owned and the elements are released.
pub open spec fn list_g(c: CgC, f: CgF, elems: Seq<Seq<char>>) -> (CgC, CgF, Seq<char>) {
    let (c1, r) = ssa_g(c, "list"@);
    let n = elems.len();
    if n == 0 {
        (c1, own_g(emit_g(f, r + " = call ptr @coda_mk_list(ptr null, i32 0)"@), r), r)
    } else {
        let (c2, arr) = ssa_g(c1, "larr"@);
        let (c3, f3) = stores_g(c2, emit_g(f, alloca_t(arr, n)), arr, elems, "lgep"@, n, 0);
        let t = r + " = call ptr @coda_mk_list(ptr "@ + arr + ", i32 "@ + decimal(n) + ")"@;
        (c3, release_all_g(own_g(emit_g(f3, t), r), elems, 0), r)
    }
}


// ── Environments and captures ─────────────────────────────────────────────────

/// The value of `name` in `env`: its last binding.
pub open spec fn lookup_g(env: Seq<(Seq<char>, Seq<char>)>, name: Seq<char>) -> Option<Seq<char>>
    decreases env.len(),
{
    if env.len() == 0 {
        None
    } else if env.last().0 == name {
        Some(env.last().1)
    } else {
        lookup_g(env.drop_last(), name)
    }
}

pub open spec fn keys_g(env: Seq<(Seq<char>, Seq<char>)>) -> Set<Seq<char>> {
    env.map_values(|p: (Seq<char>, Seq<char>)| p.0).to_set()
}

/// The names of a finite set in increasing order.
pub open spec fn sorted_of(s: Set<Seq<char>>) -> Seq<Seq<char>> {
    choose|q: Seq<Seq<char>>| sorted_names(q) && q.to_set() == s
}

/// The captures of a lambda: the free variables of its body that the
/// environment binds, in name order, each with its value.
pub open spec fn caps_g(env: Seq<(Seq<char>, Seq<char>)>, params: Seq<String>, body: Spanned<Expr>) -> Seq<(Seq<char>, Seq<char>)> {
    sorted_of(fv(body, names_set(params)).intersect(keys_g(env))).map_values(
        |n: Seq<char>| (n, lookup_g(env, n)->Some_0),
    )
}

/// `%{prefix}_{j}`, a name fixed by position.
pub open spec fn slot_name(prefix: Seq<char>, j: nat) -> Seq<char> {
    prefix + decimal(j)
}

/// The start of a lambda's body from capture `j` on: each capture loaded from
/// the closure's capture array.
pub open spec fn cap_loads_g(f: CgF, n: nat, j: nat) -> CgF
    decreases n - j,
{
    if j >= n {
        f
    } else {
        let p = slot_name("%cp_"@, j);
        let v = slot_name("%cap_"@, j);
        let f1 = emit_g(emit_g(f, p + " = getelementptr ptr, ptr %caps, i32 "@ + decimal(j)), v + " = load ptr, ptr "@ + p);
        cap_loads_g(f1, n, j + 1)
    }
}

/// Then each argument from `j` on: loaded, retained and owned.
pub open spec fn arg_loads_g(f: CgF, n: nat, j: nat) -> CgF
    decreases n - j,
{
    if j >= n {
        f
    } else {
        let p = slot_name("%ap_"@, j);
        let v = slot_name("%arg_"@, j);
        let f1 = emit_g(emit_g(emit_g(f, p + " = getelementptr ptr, ptr %args, i32 "@ + decimal(j)), v + " = load ptr, ptr "@ + p), retain_t(v));
        arg_loads_g(own_g(f1, v), n, j + 1)
    }
}

/// The environment of a lambda's body: its captures, then its parameters.
pub open spec fn lam_env_g(caps: Seq<(Seq<char>, Seq<char>)>, params: Seq<String>) -> Seq<(Seq<char>, Seq<char>)> {
    Seq::new(caps.len(), |j: int| (caps[j].0, slot_name("%cap_"@, j as nat)))
        + Seq::new(params.len(), |j: int| (params[j]@, slot_name("%arg_"@, j as nat)))
}

/// The text of a lambda function named `name` with body `f`.
pub open spec fn lam_fn_text(name: Seq<char>, f: CgF) -> Seq<char> {
    "define ptr @"@ + name + "(ptr %caps, ptr %args, i32 %nargs) {\n"@ + body_text(f) + "}"@
}

/// The phi operands `[ v, %label ]`, separated by `, `.
pub open spec fn phi_text(es: Seq<(Seq<char>, Seq<char>)>) -> Seq<char>
    decreases es.len(),
{
    if es.len() == 0 {
        Seq::empty()
    } else if es.len() == 1 {
        "[ "@ + es[0].0 + ", %"@ + es[0].1 + " ]"@
    } else {
        phi_text(es.drop_last()) + ", "@ + "[ "@ + es.last().0 + ", %"@ + es.last().1 + " ]"@
    }
}

/// `count` fresh labels `{prefix}_k`.
pub open spec fn labels_g(c: CgC, prefix: Seq<char>, count: nat) -> (CgC, Seq<Seq<char>>)
    decreases count,
{
    if count == 0 {
        (c, Seq::empty())
    } else {
        let (c1, ls) = labels_g(c, prefix, (count - 1) as nat);
        let (c2, l) = label_g(c1, prefix);
        (c2, ls.push(l))
    }
}

/// A check block `label`: compare the tag name `tn` with `tag`, go to `target`
/// on a match and to `miss` otherwise.
pub open spec fn check_g(c: CgC, f: CgF, label: Seq<char>, tag: Seq<char>, tn: Seq<char>, target: Seq<char>, miss: Seq<char>) -> (CgC, CgF) {
    let f1 = next_block_g(f, label);
    let (c1, tag_g) = const_g(c, tag);
    let (c2, hit) = ssa_g(c1, "cmp"@);
    (c2, emit_g(emit_g(f1, str_eq_t(hit, tn, tag_g)), "br i1 "@ + hit + ", label %"@ + target + ", label %"@ + miss))
}

// ── Expressions ───────────────────────────────────────────────────────────────

/// What compiling `e` in `env` does to the state, and the value that holds its
/// result (`None` where compilation fails; the state is then of no interest).
pub open spec fn cg_g(c: CgC, f: CgF, env: Seq<(Seq<char>, Seq<char>)>, e: Spanned<Expr>) -> (CgC, CgF, Option<Seq<char>>)
    decreases e, 2nat, 0int,
{
    match e.0 {
        Expr::Lit(Lit::Int(n)) => {
            let (c1, r) = ssa_g(c, "int"@);
            (c1, own_g(emit_g(f, r + " = call ptr @coda_mk_int(i64 "@ + signed_decimal(n as int) + ")"@), r), Some(r))
        },
        Expr::Lit(Lit::Str(st)) => {
            let (c1, g) = const_g(c, st@);
            let (c2, r) = ssa_g(c1, "str"@);
            (c2, own_g(emit_g(f, call1_t(r, "call ptr @coda_mk_str"@, g)), r), Some(r))
        },
        Expr::Lit(Lit::Float(_)) => (c, f, None),
        Expr::Var(name) => (c, f, lookup_g(env, name@)),
        Expr::Lam(params, body) => lam_g(c, f, env, params@, *body),
        Expr::App(fx, args) => {
            let (c1, f1, fr) = cg_g(c, f, env, *fx);
            match fr {
                None => (c1, f1, None),
                Some(fv) => {
                    let (c2, f2, ar) = args_g(c1, f1, env, args@, 0, Seq::empty());
                    match ar {
                        None => (c2, f2, None),
                        Some(avs) => {
                            let (c3, f3, r) = apply_g(c2, f2, fv, avs);
                            (c3, f3, Some(r))
                        },
                    }
                },
            }
        },
        Expr::Block(items, body) => {
            let (c1, f1, env2) = items_g(c, f, env, items@, 0);
            match env2 {
                None => (c1, f1, None),
                Some(env3) => cg_g(c1, f1, env3, *body),
            }
        },
        Expr::Record(fs) => {
            let (c1, f1, kv) = fields_g(c, f, env, fs@, 0, Seq::empty(), Seq::empty());
            match kv {
                None => (c1, f1, None),
                Some((keys, vals)) => {
                    let (c2, f2, r) = record_g(c1, f1, keys, vals);
                    (c2, f2, Some(r))
                },
            }
        },
        Expr::Field(x, field) => {
            let (c1, f1, rr) = cg_g(c, f, env, *x);
            match rr {
                None => (c1, f1, None),
                Some(rec) => {
                    let (c2, g) = const_g(c1, field@);
                    let (c3, r) = ssa_g(c2, "field"@);
                    (c3, emit_g(f1, call2_t(r, "call ptr @coda_field_get"@, rec, g)), Some(r))
                },
            }
        },
        Expr::Tag(name, payload) => {
            let (c1, ng) = const_g(c, name@);
            let (c2, f2, pr) = match payload {
                Some(x) => cg_g(c1, f, env, *x),
                None => {
                    let (c2, u) = ssa_g(c1, "unit"@);
                    (c2, own_g(emit_g(f, u + " = call ptr @coda_mk_unit()"@), u), Some(u))
                },
            };
            match pr {
                None => (c2, f2, None),
                Some(p) => {
                    let (c3, r) = ssa_g(c2, "tag"@);
                    let f3 = own_g(emit_g(f2, call2_t(r, "call ptr @coda_mk_tag"@, ng, p)), r);
                    (c3, release_if_owned_g(f3, p), Some(r))
                },
            }
        },
        Expr::When(scrut, branches, otherwise) => when_g(c, f, env, e),
        Expr::List(es) => {
            let (c1, f1, ar) = args_g(c, f, env, es@, 0, Seq::empty());
            match ar {
                None => (c1, f1, None),
                Some(vs) => {
                    let (c2, f2, r) = list_g(c1, f1, vs);
                    (c2, f2, Some(r))
                },
            }
        },
        Expr::Import(p) => (c, f, lookup_g(env, module_key(p@))),
        Expr::Index(_, _) => (c, f, None),
    }
}

/// Compiles `es[i..]` left to right, adding their values to `acc`.
pub open spec fn args_g(c: CgC, f: CgF, env: Seq<(Seq<char>, Seq<char>)>, es: Seq<Spanned<Expr>>, i: int, acc: Seq<Seq<char>>) -> (CgC, CgF, Option<Seq<Seq<char>>>)
    decreases es, 0nat, es.len() - i,
{
    if i < 0 || i >= es.len() {
        (c, f, Some(acc))
    } else {
        let (c1, f1, r) = cg_g(c, f, env, es[i]);
        match r {
            None => (c1, f1, None),
            Some(v) => args_g(c1, f1, env, es, i + 1, acc.push(v)),
        }
    }
}

/// Compiles the fields `fs[i..]`: each key's constant, then its value.
pub open spec fn fields_g(
    c: CgC,
    f: CgF,
    env: Seq<(Seq<char>, Seq<char>)>,
    fs: Seq<(String, Spanned<Expr>)>,
    i: int,
    keys: Seq<Seq<char>>,
    vals: Seq<Seq<char>>,
) -> (CgC, CgF, Option<(Seq<Seq<char>>, Seq<Seq<char>>)>)
    decreases fs, 0nat, fs.len() - i,
{
    if i < 0 || i >= fs.len() {
        (c, f, Some((keys, vals)))
    } else {
        let (c1, g) = const_g(c, fs[i].0@);
        let (c2, f2, r) = cg_g(c1, f, env, fs[i].1);
        match r {
            None => (c2, f2, None),
            Some(v) => fields_g(c2, f2, env, fs, i + 1, keys.push(g), vals.push(v)),
        }
    }
}

/// Compiles the items `items[i..]` of a block: each binding's value joins the
/// environment.
pub open spec fn items_g(c: CgC, f: CgF, env: Seq<(Seq<char>, Seq<char>)>, items: Seq<BlockItem>, i: int) -> (CgC, CgF, Option<Seq<(Seq<char>, Seq<char>)>>)
    decreases items, 0nat, items.len() - i,
{
    if i < 0 || i >= items.len() {
        (c, f, Some(env))
    } else {
        match items[i] {
            BlockItem::Bind(name, x) => {
                let (c1, f1, r) = cg_g(c, f, env, x);
                match r {
                    None => (c1, f1, None),
                    Some(v) => items_g(c1, f1, env.push((name@, v)), items, i + 1),
                }
            },
            _ => items_g(c, f, env, items, i + 1),
        }
    }
}

/// A lambda: its function (captures and arguments loaded, the body compiled and
/// returned) joins the compiler's functions; here a closure of it over the
/// captures, owned.
pub open spec fn lam_g(c: CgC, f: CgF, env: Seq<(Seq<char>, Seq<char>)>, params: Seq<String>, body: Spanned<Expr>) -> (CgC, CgF, Option<Seq<char>>)
    decreases body, 3nat, 0int,
{
    let caps = caps_g(env, params, body);
    let n = caps.len();
    let name = "lam_"@ + decimal(c.n as nat);
    let c1 = CgC { n: next_c(c.n), cs: c.cs, fns: c.fns };
    let lf = arg_loads_g(cap_loads_g(fresh_f(), n, 0), params.len(), 0);
    let (c2, lf2, br) = cg_g(c1, lf, lam_env_g(caps, params), body);
    match br {
        None => (c2, f, None),
        Some(res) => {
            let lf3 = emit_g(prepare_export_g(lf2, res), "ret ptr "@ + res);
            let c3 = CgC { n: c2.n, cs: c2.cs, fns: c2.fns.push(lam_fn_text(name, lf3)) };
            let (c4, r) = ssa_g(c3, "clos"@);
            let vals = caps.map_values(|p: (Seq<char>, Seq<char>)| p.1);
            let (c6, f4) = if n == 0 {
                (c4, emit_g(f, r + " = call ptr @coda_mk_closure(ptr @"@ + name + ", ptr null, i32 0)"@))
            } else {
                let (c5, arr) = ssa_g(c4, "caps"@);
                let (c6, f2) = stores_g(c5, emit_g(f, alloca_t(arr, n)), arr, vals, "cgep"@, n, 0);
                let f3 = emit_g(f2, r + " = call ptr @coda_mk_closure(ptr @"@ + name + ", ptr "@ + arr + ", i32 "@ + decimal(n) + ")"@);
                (c6, release_all_g(f3, vals, 0))
            };
            (c6, own_g(f4, r), Some(r))
        },
    }
}

/// A branch body, with its payload binding (if any) in scope.
pub open spec fn branch_g(c: CgC, f: CgF, env: Seq<(Seq<char>, Seq<char>)>, scrut: Seq<char>, binding: Option<String>, body: Spanned<Expr>) -> (CgC, CgF, Option<Seq<char>>)
    decreases body, 3nat, 0int,
{
    match binding {
        Some(b) => {
            let (c1, p) = ssa_g(c, "payload"@);
            cg_g(c1, emit_g(f, call1_t(p, "call ptr @coda_tag_payload"@, scrut)), env.push((b@, p)), body)
        },
        None => cg_g(c, f, env, body),
    }
}

/// The fixed facts of one `when`: the names it made before its branches.
pub struct WhenCx {
    pub scrut: Seq<char>,
    pub tn: Seq<char>,
    pub merge: Seq<char>,
    pub branch_labels: Seq<Seq<char>>,
    pub check_labels: Seq<Seq<char>>,
    pub last_miss: Seq<char>,
}

/// The branches from `i` on: each in its block, its result handed to the merge
/// block (an entry of `phis`), then the check of the next tag.
pub open spec fn branches_g(
    c: CgC,
    f: CgF,
    env: Seq<(Seq<char>, Seq<char>)>,
    w: WhenCx,
    bs: Seq<(String, Option<String>, Box<Spanned<Expr>>)>,
    i: int,
    phis: Seq<(Seq<char>, Seq<char>)>,
) -> (CgC, CgF, Option<Seq<(Seq<char>, Seq<char>)>>)
    decreases bs, 0nat, bs.len() - i,
{
    if i < 0 || i >= bs.len() || i >= w.branch_labels.len() {
        (c, f, Some(phis))
    } else {
        let f1 = next_block_g(f, w.branch_labels[i]);
        let (c2, f2, br) = branch_g(c, f1, env, w.scrut, bs[i].1, *bs[i].2);
        match br {
            None => (c2, f2, None),
            Some(result) => {
                let f3 = emit_g(prepare_export_g(f2, result), "br label %"@ + w.merge);
                let phis1 = phis.push((result, f2.label));
                if i + 1 < bs.len() {
                    let miss = if i + 2 < bs.len() { w.check_labels[i + 1] } else { w.last_miss };
                    let (c4, f4) = check_g(c2, f3, w.check_labels[i], bs[i + 1].0@, w.tn, w.branch_labels[i + 1], miss);
                    branches_g(c4, f4, env, w, bs, i + 1, phis1)
                } else {
                    branches_g(c2, f3, env, w, bs, i + 1, phis1)
                }
            },
        }
    }
}

/// `when`: the tag name of the scrutinee compared with each branch's tag in
/// turn, each branch in a block of its own, an `otherwise` block or an
/// unreachable one, and a merge block whose phi is the result.
pub open spec fn when_g(c: CgC, f: CgF, env: Seq<(Seq<char>, Seq<char>)>, e: Spanned<Expr>) -> (CgC, CgF, Option<Seq<char>>)
    decreases e, 1nat, 0int,
{
    match e.0 {
        Expr::When(scrutinee, bs, otherwise) => {
            let (c1, f1, sr) = cg_g(c, f, env, *scrutinee);
            match sr {
                None => (c1, f1, None),
                Some(scrut) => {
                    let (f2, was) = disown_g(f1, scrut);
                    let (c2, tn) = ssa_g(c1, "tn"@);
                    let f3 = emit_g(f2, call1_t(tn, "call ptr @coda_tag_name"@, scrut));
                    let (c3, merge) = label_g(c2, "merge"@);
                    let nb = bs@.len();
                    let (c4, bls) = labels_g(c3, "branch"@, nb);
                    let (c5, cls) = labels_g(c4, "check"@, if nb > 0 { (nb - 1) as nat } else { 0 });
                    let (c6, ol) = match otherwise {
                        Some(_) => {
                            let (c6, l) = label_g(c5, "otherwise"@);
                            (c6, Some(l))
                        },
                        None => (c5, None),
                    };
                    let (c7, nm) = match ol {
                        Some(_) => (c6, None),
                        None => {
                            let (c7, l) = label_g(c6, "no_match"@);
                            (c7, Some(l))
                        },
                    };
                    let last_miss = match ol {
                        Some(l) => l,
                        None => match nm {
                            Some(l) => l,
                            None => merge,
                        },
                    };
                    let first_miss = if nb > 1 { cls[0] } else { last_miss };
                    let (c8, f4) = if nb > 0 {
                        let (c8a, tag_g) = const_g(c7, bs@[0].0@);
                        let (c8, hit) = ssa_g(c8a, "cmp"@);
                        (c8, emit_g(emit_g(f3, str_eq_t(hit, tn, tag_g)), "br i1 "@ + hit + ", label %"@ + bls[0] + ", label %"@ + first_miss))
                    } else {
                        (c7, emit_g(f3, "br label %"@ + match ol { Some(l) => l, None => merge }))
                    };
                    let w = WhenCx { scrut, tn, merge, branch_labels: bls, check_labels: cls, last_miss };
                    let (c9, f5, ph) = branches_g(c8, f4, env, w, bs@, 0, Seq::empty());
                    match ph {
                        None => (c9, f5, None),
                        Some(phis) => {
                            let (c10, f6, or) = match otherwise {
                                Some(body) => {
                                    let fo = next_block_g(f5, match ol { Some(l) => l, None => merge });
                                    let (c10, f6, r) = cg_g(c9, fo, env, *body);
                                    match r {
                                        None => (c10, f6, None),
                                        Some(result) => (
                                            c10,
                                            emit_g(prepare_export_g(f6, result), "br label %"@ + merge),
                                            Some(phis.push((result, f6.label))),
                                        ),
                                    }
                                },
                                None => (c9, f5, Some(phis)),
                            };
                            match or {
                                None => (c10, f6, None),
                                Some(phis2) => {
                                    let f7 = match nm {
                                        Some(l) => emit_g(next_block_g(f6, l), "unreachable"@),
                                        None => f6,
                                    };
                                    let f8 = next_block_g(f7, merge);
                                    let (c11, r) = ssa_g(c10, "when"@);
                                    let t = if phis2.len() == 0 {
                                        r + " = call ptr @coda_mk_unit()"@
                                    } else {
                                        r + " = phi ptr "@ + phi_text(phis2)
                                    };
                                    let f9 = own_g(emit_g(f8, t), r);
                                    let f10 = if was { emit_g(f9, call1_t("call void"@, "@coda_release"@, scrut)) } else { f9 };
                                    (c11, f10, Some(r))
                                },
                            }
                        },
                    }
                },
            }
        },
        _ => (c, f, None),
    }
}

// ── Printing a function ───────────────────────────────────────────────────────

/// Each instruction on a line of its own, indented by two spaces.
pub open spec fn lines_text(is: Seq<Seq<char>>) -> Seq<char>
    decreases is.len(),
{
    if is.len() == 0 {
        Seq::empty()
    } else {
        lines_text(is.drop_last()) + "  "@ + is.last() + "\n"@
    }
}

pub open spec fn blocks_g_text(bs: Seq<(Seq<char>, Seq<Seq<char>>)>) -> Seq<char>
    decreases bs.len(),
{
    if bs.len() == 0 {
        Seq::empty()
    } else {
        blocks_g_text(bs.drop_last()) + bs.last().0 + ":\n"@ + lines_text(bs.last().1)
    }
}

/// The function body as printed: every block, the current one last.
pub open spec fn body_text(f: CgF) -> Seq<char> {
    blocks_g_text(f.done) + f.label + ":\n"@ + lines_text(f.instrs)
}

/// A fresh function builder: block `entry`, nothing owned.
pub open spec fn fresh_f() -> CgF {
    CgF { done: Seq::empty(), label: "entry"@, instrs: Seq::empty(), owned: Seq::empty() }
}

} // verus!
