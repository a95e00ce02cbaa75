//! Renaming of the variables of a type to `a`, `b`, … in order of first
//! occurrence, for display and comparison.

use vstd::prelude::*;
use vstd::string::*;
use crate::names::{decimal, digit_char, lemma_decimal_injective, lemma_decimal_len, push_char, seq_lt};
use super::ctx::{gen_name, next_c};
use super::model::{
    lemma_view_fields, lemma_view_fields_assoc, lemma_view_types, lookup, shape_view, view_fields,
    view_types, BaseType, Dim, SBase, SDim, SType, Shape, Type,
};
use super::subst::{insert_sorted, sort_fields, sort_fields_exec};

verus! {

/// Model of the renaming table: original key to new name.
pub type NMap = Seq<(Seq<char>, Seq<char>)>;

/// The `n`-th new name: `a` to `z`, then `t26`, `t27`, ….
pub open spec fn var_name_s(n: u64) -> Seq<char> {
    if n < 26 { seq![(97 + n) as char] } else { gen_name('t', n) }
}

/// The new name of `key`: the one already given, or the next one.
pub open spec fn rename_s(key: Seq<char>, m: NMap, n: u64) -> (Seq<char>, NMap, u64) {
    match lookup(m, key) {
        Some(v) => (v, m, n),
        None => (var_name_s(n), m.push((key, var_name_s(n))), next_c(n)),
    }
}

pub open spec fn dim_key(v: Seq<char>) -> Seq<char> {
    "dim:"@ + v
}

pub open spec fn base_key(v: Seq<char>) -> Seq<char> {
    "base:"@ + v
}

pub open spec fn norm_type_s(t: SType, m: NMap, n: u64) -> (SType, NMap, u64)
    decreases t, 1nat, 0int,
{
    match t {
        SType::Var(v) => {
            let (r, m1, n1) = rename_s(v, m, n);
            (SType::Var(r), m1, n1)
        },
        SType::Shaped(b, sh) => {
            let (b1, m1, n1) = norm_base_s(b, m, n);
            let (sh1, m2, n2) = norm_dims_s(sh, m1, n1, Seq::empty(), 0);
            (SType::Shaped(b1, sh1), m2, n2)
        },
    }
}

pub open spec fn norm_dims_s(sh: Seq<SDim>, m: NMap, n: u64, acc: Seq<SDim>, i: int) -> (Seq<SDim>, NMap, u64)
    decreases sh.len() - i,
{
    if i < 0 || i >= sh.len() {
        (acc, m, n)
    } else {
        match sh[i] {
            SDim::Nat(k) => norm_dims_s(sh, m, n, acc.push(SDim::Nat(k)), i + 1),
            SDim::Var(v) => {
                let (r, m1, n1) = rename_s(dim_key(v), m, n);
                norm_dims_s(sh, m1, n1, acc.push(SDim::Var(r)), i + 1)
            },
        }
    }
}

pub open spec fn norm_row_s(row: Option<Seq<char>>, m: NMap, n: u64) -> (Option<Seq<char>>, NMap, u64) {
    match row {
        None => (None, m, n),
        Some(r) => {
            let (r1, m1, n1) = rename_s(r, m, n);
            (Some(r1), m1, n1)
        },
    }
}

pub open spec fn norm_base_s(b: SBase, m: NMap, n: u64) -> (SBase, NMap, u64)
    decreases b, 1nat, 0int,
{
    match b {
        SBase::Var(v) => {
            let (r, m1, n1) = rename_s(base_key(v), m, n);
            (SBase::Var(r), m1, n1)
        },
        SBase::Record(fs, row) => {
            let (fs1, m1, n1) = norm_fields_s(fs, m, n, Seq::empty(), 0);
            let (r1, m2, n2) = norm_row_s(row, m1, n1);
            (SBase::Record(fs1, r1), m2, n2)
        },
        SBase::Union(fs, row) => {
            let (fs1, m1, n1) = norm_fields_s(fs, m, n, Seq::empty(), 0);
            let (r1, m2, n2) = norm_row_s(row, m1, n1);
            (SBase::Union(sort_fields(fs1), r1), m2, n2)
        },
        SBase::Fun(ps, r) => {
            let (ps1, m1, n1) = norm_types_s(ps, m, n, Seq::empty(), 0);
            let (r1, m2, n2) = norm_type_s(*r, m1, n1);
            (SBase::Fun(ps1, Box::new(r1)), m2, n2)
        },
        SBase::Task(o, e) => {
            let (o1, m1, n1) = norm_type_s(*o, m, n);
            let (e1, m2, n2) = norm_type_s(*e, m1, n1);
            (SBase::Task(Box::new(o1), Box::new(e1)), m2, n2)
        },
        _ => (b, m, n),
    }
}

pub open spec fn norm_types_s(ts: Seq<SType>, m: NMap, n: u64, acc: Seq<SType>, i: int) -> (Seq<SType>, NMap, u64)
    decreases ts, 0nat, ts.len() - i,
{
    if i < 0 || i >= ts.len() {
        (acc, m, n)
    } else {
        let (t1, m1, n1) = norm_type_s(ts[i], m, n);
        norm_types_s(ts, m1, n1, acc.push(t1), i + 1)
    }
}

pub open spec fn norm_fields_s(fs: Seq<(Seq<char>, SType)>, m: NMap, n: u64, acc: Seq<(Seq<char>, SType)>, i: int)
    -> (Seq<(Seq<char>, SType)>, NMap, u64)
    decreases fs, 0nat, fs.len() - i,
{
    if i < 0 || i >= fs.len() {
        (acc, m, n)
    } else {
        let (t1, m1, n1) = norm_type_s(fs[i].1, m, n);
        norm_fields_s(fs, m1, n1, acc.push((fs[i].0, t1)), i + 1)
    }
}

/// `t` with its variables renamed `a`, `b`, … in order of first occurrence
/// (type, row, dimension and base variables each keep their own kind), and the
/// tags of each union sorted by name.
pub open spec fn normalize_s(t: SType) -> SType {
    norm_type_s(t, Seq::empty(), 0).0
}


// ── Normalizing twice ─────────────────────────────────────────────────────────

/// No character of `s` is `:`.
pub open spec fn no_colon(s: Seq<char>) -> bool {
    forall|i: int| 0 <= i < s.len() ==> s[i] != ':'
}

/// A type or row variable name that cannot be mistaken for the renaming key of a
/// dimension or base variable.
pub open spec fn plain_name(v: Seq<char>) -> bool {
    !"dim:"@.is_prefix_of(v) && !"base:"@.is_prefix_of(v)
}

/// The renaming key of a variable of kind `k`: type (or row), dimension, base.
pub open spec fn kind_key(k: nat, v: Seq<char>) -> Seq<char> {
    if k == 0 { v } else if k == 1 { dim_key(v) } else { base_key(v) }
}

proof fn lemma_decimal_no_colon(n: nat)
    ensures
        no_colon(decimal(n)),
    decreases n,
{
    if n >= 10 {
        lemma_decimal_no_colon(n / 10);
        let d = decimal(n);
        assert forall|i: int| 0 <= i < d.len() implies d[i] != ':' by {
            if i < d.len() - 1 {
                assert(d[i] == decimal(n / 10)[i]);
            }
        }
    }
}

proof fn lemma_var_name(j: u64)
    ensures
        no_colon(var_name_s(j)),
        j < 26 ==> var_name_s(j).len() == 1,
        j >= 26 ==> var_name_s(j).len() >= 3,
{
    if j >= 26 {
        lemma_decimal_no_colon(j as nat);
        lemma_decimal_len(j as nat);
        let g = gen_name('t', j);
        assert forall|i: int| 0 <= i < g.len() implies g[i] != ':' by {
            if i > 0 {
                assert(g[i] == decimal(j as nat)[i - 1]);
            }
        }
    } else {
        assert(var_name_s(j)[0] == (97 + j) as char);
    }
}

proof fn lemma_var_name_injective(i: u64, j: u64)
    requires
        var_name_s(i) == var_name_s(j),
    ensures
        i == j,
{
    lemma_var_name(i);
    lemma_var_name(j);
    if i < 26 && j < 26 {
        assert(var_name_s(i)[0] == (97 + i) as char);
        assert(var_name_s(j)[0] == (97 + j) as char);
        assert(((97 + i) as char) as u32 == 97 + i);
        assert(((97 + j) as char) as u32 == 97 + j);
    } else if i >= 26 && j >= 26 {
        assert(gen_name('t', i).skip(1) =~= decimal(i as nat));
        assert(gen_name('t', j).skip(1) =~= decimal(j as nat));
        lemma_decimal_injective(i as nat, j as nat);
    }
}

proof fn lemma_keys()
    ensures
        forall|x: Seq<char>, y: Seq<char>| #[trigger] dim_key(x) == #[trigger] base_key(y) ==> false,
        forall|x: Seq<char>, y: Seq<char>| #[trigger] dim_key(x) == #[trigger] dim_key(y) ==> x == y,
        forall|x: Seq<char>, y: Seq<char>| #[trigger] base_key(x) == #[trigger] base_key(y) ==> x == y,
        forall|w: Seq<char>, x: Seq<char>| #![trigger no_colon(w), dim_key(x)] no_colon(w) ==> w != dim_key(x),
        forall|w: Seq<char>, x: Seq<char>| #![trigger no_colon(w), base_key(x)] no_colon(w) ==> w != base_key(x),
        forall|v: Seq<char>, x: Seq<char>| #![trigger plain_name(v), dim_key(x)] plain_name(v) ==> v != dim_key(x),
        forall|v: Seq<char>, x: Seq<char>| #![trigger plain_name(v), base_key(x)] plain_name(v) ==> v != base_key(x),
{
    reveal_strlit("dim:");
    reveal_strlit("base:");
    assert forall|x: Seq<char>, y: Seq<char>| #[trigger] dim_key(x) == #[trigger] base_key(y) implies false by {
        assert(dim_key(x)[0] == 'd');
        assert(base_key(y)[0] == 'b');
    }
    assert forall|x: Seq<char>, y: Seq<char>| #[trigger] dim_key(x) == #[trigger] dim_key(y) implies x == y by {
        assert(dim_key(x).skip(4) =~= x);
        assert(dim_key(y).skip(4) =~= y);
    }
    assert forall|x: Seq<char>, y: Seq<char>| #[trigger] base_key(x) == #[trigger] base_key(y) implies x == y by {
        assert(base_key(x).skip(5) =~= x);
        assert(base_key(y).skip(5) =~= y);
    }
    assert forall|w: Seq<char>, x: Seq<char>| #![trigger no_colon(w), dim_key(x)] #![trigger no_colon(w), base_key(x)]
        no_colon(w) implies w != dim_key(x) && w != base_key(x) by {
        assert(dim_key(x)[3] == ':');
        assert(base_key(x)[4] == ':');
    }
    assert forall|v: Seq<char>, x: Seq<char>| #![trigger plain_name(v), dim_key(x)] #![trigger plain_name(v), base_key(x)]
        plain_name(v) implies v != dim_key(x) && v != base_key(x) by {
        assert("dim:"@ =~= dim_key(x).subrange(0, 4));
        assert("base:"@ =~= base_key(x).subrange(0, 5));
        if v == dim_key(x) {
            assert("dim:"@.is_prefix_of(v));
        }
        if v == base_key(x) {
            assert("base:"@.is_prefix_of(v));
        }
    }
}

proof fn lemma_lookup_push<T>(s: Seq<(Seq<char>, T)>, x: (Seq<char>, T), k: Seq<char>)
    ensures
        lookup(s.push(x), k) == (if x.0 == k { Some(x.1) } else { lookup(s, k) }),
{
    assert(s.push(x).drop_last() =~= s);
}

/// How the table of a first normalization and that of a second one, run on the
/// first one's output, stand to each other at counter `n`.
pub open spec fn renamings_agree(m: NMap, mm: NMap, n: u64) -> bool {
    &&& forall|key: Seq<char>| #[trigger] lookup(m, key) matches Some(w) ==> no_colon(w)
    &&& forall|k: nat, v: Seq<char>| k < 3 && (k == 0 ==> plain_name(v)) && #[trigger] lookup(m, kind_key(k, v)) is Some
        ==> lookup(mm, kind_key(k, lookup(m, kind_key(k, v))->Some_0)) == lookup(m, kind_key(k, v))
    &&& forall|k: nat, j: u64| k < 3 && j >= n ==> #[trigger] lookup(mm, kind_key(k, var_name_s(j))) is None
}

proof fn lemma_rename_twice(k: nat, v: Seq<char>, m: NMap, mm: NMap, n: u64)
    requires
        k < 3,
        k == 0 ==> plain_name(v),
        renamings_agree(m, mm, n),
        n < u64::MAX,
    ensures
        ({
            let (r1, m1, n1) = rename_s(kind_key(k, v), m, n);
            let (r2, mm1, n2) = rename_s(kind_key(k, r1), mm, n);
            &&& r2 == r1
            &&& n2 == n1
            &&& renamings_agree(m1, mm1, n1)
            &&& (n1 == n || n1 == n + 1)
        }),
{
    lemma_keys();
    let key = kind_key(k, v);
    match lookup(m, key) {
        Some(w) => {
            assert(lookup(m, kind_key(k, v)) is Some);
        },
        None => {
            let w = var_name_s(n);
            lemma_var_name(n);
            assert(lookup(mm, kind_key(k, var_name_s(n))) is None);
            let m1 = m.push((key, w));
            let mm1 = mm.push((kind_key(k, w), w));
            let n1 = (n + 1) as u64;
            assert forall|key2: Seq<char>| #[trigger] lookup(m1, key2) is Some implies no_colon(lookup(m1, key2)->Some_0) by {
                lemma_lookup_push(m, (key, w), key2);
            }
            assert forall|k2: nat, v2: Seq<char>| k2 < 3 && (k2 == 0 ==> plain_name(v2)) && #[trigger] lookup(m1, kind_key(k2, v2)) is Some
                implies lookup(mm1, kind_key(k2, lookup(m1, kind_key(k2, v2))->Some_0)) == lookup(m1, kind_key(k2, v2)) by {
                lemma_lookup_push(m, (key, w), kind_key(k2, v2));
                if kind_key(k2, v2) == key {
                    assert(k2 == k);
                    lemma_lookup_push(mm, (kind_key(k, w), w), kind_key(k, w));
                } else {
                    let w2 = lookup(m, kind_key(k2, v2))->Some_0;
                    assert(lookup(m, kind_key(k2, v2)) is Some);
                    assert(no_colon(w2));
                    lemma_lookup_push(mm, (kind_key(k, w), w), kind_key(k2, w2));
                    if kind_key(k2, w2) == kind_key(k, w) {
                        assert(k2 == k);
                        assert(w2 == w);
                    }
                }
            }
            assert forall|k2: nat, j: u64| k2 < 3 && j >= n1 implies #[trigger] lookup(mm1, kind_key(k2, var_name_s(j))) is None by {
                lemma_lookup_push(mm, (kind_key(k, w), w), kind_key(k2, var_name_s(j)));
                lemma_var_name(j);
                if kind_key(k2, var_name_s(j)) == kind_key(k, w) {
                    assert(k2 == k);
                    lemma_var_name_injective(j, n);
                }
                assert(lookup(mm, kind_key(k2, var_name_s(j))) is None);
            }
        },
    }
}


/// The number of variable occurrences that normalization renames in `t`.
pub open spec fn occ(t: SType) -> nat
    decreases t, 1nat, 0int,
{
    match t {
        SType::Var(_) => 1,
        SType::Shaped(b, sh) => occ_base(b) + occ_dims(sh, 0),
    }
}

pub open spec fn occ_dims(sh: Seq<SDim>, i: int) -> nat
    decreases sh.len() - i,
{
    if i < 0 || i >= sh.len() { 0 } else { (if sh[i] is Var { 1nat } else { 0nat }) + occ_dims(sh, i + 1) }
}

pub open spec fn occ_row(row: Option<Seq<char>>) -> nat {
    if row is Some { 1 } else { 0 }
}

pub open spec fn occ_base(b: SBase) -> nat
    decreases b, 1nat, 0int,
{
    match b {
        SBase::Var(_) => 1,
        SBase::Record(fs, row) => occ_fields(fs, 0) + occ_row(row),
        SBase::Union(fs, row) => occ_fields(fs, 0) + occ_row(row),
        SBase::Fun(ps, r) => occ_types(ps, 0) + occ(*r),
        SBase::Task(o, e) => occ(*o) + occ(*e),
        _ => 0,
    }
}

pub open spec fn occ_types(ts: Seq<SType>, i: int) -> nat
    decreases ts, 0nat, ts.len() - i,
{
    if i < 0 || i >= ts.len() { 0 } else { occ(ts[i]) + occ_types(ts, i + 1) }
}

pub open spec fn occ_fields(fs: Seq<(Seq<char>, SType)>, i: int) -> nat
    decreases fs, 0nat, fs.len() - i,
{
    if i < 0 || i >= fs.len() { 0 } else { occ(fs[i].1) + occ_fields(fs, i + 1) }
}

/// The tags (or fields) are listed in order of their names.
pub open spec fn fields_sorted(fs: Seq<(Seq<char>, SType)>) -> bool {
    forall|i: int| 0 < i < fs.len() ==> !seq_lt(#[trigger] fs[i].0, fs[i - 1].0)
}

/// Every union inside `t` lists its tags in order of their names, and no type
/// or row variable of `t` is named like the renaming key of a dimension or base
/// variable.
pub open spec fn normal_ready(t: SType) -> bool
    decreases t, 1nat, 0int,
{
    match t {
        SType::Var(v) => plain_name(v),
        SType::Shaped(b, _) => normal_ready_base(b),
    }
}

pub open spec fn row_ready(row: Option<Seq<char>>) -> bool {
    match row {
        Some(r) => plain_name(r),
        None => true,
    }
}

pub open spec fn normal_ready_base(b: SBase) -> bool
    decreases b, 1nat, 0int,
{
    match b {
        SBase::Record(fs, row) => normal_ready_fields(fs, 0) && row_ready(row),
        SBase::Union(fs, row) => fields_sorted(fs) && normal_ready_fields(fs, 0) && row_ready(row),
        SBase::Fun(ps, r) => normal_ready_types(ps, 0) && normal_ready(*r),
        SBase::Task(o, e) => normal_ready(*o) && normal_ready(*e),
        _ => true,
    }
}

pub open spec fn normal_ready_types(ts: Seq<SType>, i: int) -> bool
    decreases ts, 0nat, ts.len() - i,
{
    if i < 0 || i >= ts.len() { true } else { normal_ready(ts[i]) && normal_ready_types(ts, i + 1) }
}

pub open spec fn normal_ready_fields(fs: Seq<(Seq<char>, SType)>, i: int) -> bool
    decreases fs, 0nat, fs.len() - i,
{
    if i < 0 || i >= fs.len() { true } else { normal_ready(fs[i].1) && normal_ready_fields(fs, i + 1) }
}

proof fn lemma_sort_sorted(fs: Seq<(Seq<char>, SType)>)
    requires
        fields_sorted(fs),
    ensures
        sort_fields(fs) == fs,
    decreases fs.len(),
{
    if fs.len() > 0 {
        let init = fs.drop_last();
        assert forall|i: int| 0 < i < init.len() implies !seq_lt(#[trigger] init[i].0, init[i - 1].0) by {
            assert(fs[i] == init[i]);
        }
        lemma_sort_sorted(init);
        if init.len() == 0 {
            assert(seq![fs.last()] =~= fs);
        } else {
            assert(fs[fs.len() - 1] == fs.last());
            assert(!seq_lt(fs.last().0, init.last().0));
            assert(init.push(fs.last()) =~= fs);
        }
    }
}

proof fn lemma_dims_out(sh: Seq<SDim>, m: NMap, n: u64, acc: Seq<SDim>, i: int)
    requires
        0 <= i <= sh.len(),
        acc.len() == i,
    ensures
        norm_dims_s(sh, m, n, acc, i).0.len() == sh.len(),
        forall|k: int| 0 <= k < i ==> #[trigger] norm_dims_s(sh, m, n, acc, i).0[k] == acc[k],
    decreases sh.len() - i,
{
    if i < sh.len() {
        match sh[i] {
            SDim::Nat(k) => lemma_dims_out(sh, m, n, acc.push(SDim::Nat(k)), i + 1),
            SDim::Var(v) => {
                let (r, m1, n1) = rename_s(dim_key(v), m, n);
                lemma_dims_out(sh, m1, n1, acc.push(SDim::Var(r)), i + 1);
            },
        }
    }
}

proof fn lemma_types_out(ts: Seq<SType>, m: NMap, n: u64, acc: Seq<SType>, i: int)
    requires
        0 <= i <= ts.len(),
        acc.len() == i,
    ensures
        norm_types_s(ts, m, n, acc, i).0.len() == ts.len(),
        forall|k: int| 0 <= k < i ==> #[trigger] norm_types_s(ts, m, n, acc, i).0[k] == acc[k],
    decreases ts.len() - i,
{
    if i < ts.len() {
        let (t1, m1, n1) = norm_type_s(ts[i], m, n);
        lemma_types_out(ts, m1, n1, acc.push(t1), i + 1);
    }
}

proof fn lemma_fields_out(fs: Seq<(Seq<char>, SType)>, m: NMap, n: u64, acc: Seq<(Seq<char>, SType)>, i: int)
    requires
        0 <= i <= fs.len(),
        acc.len() == i,
        forall|k: int| 0 <= k < i ==> #[trigger] acc[k].0 == fs[k].0,
    ensures
        norm_fields_s(fs, m, n, acc, i).0.len() == fs.len(),
        forall|k: int| 0 <= k < i ==> #[trigger] norm_fields_s(fs, m, n, acc, i).0[k] == acc[k],
        forall|k: int| 0 <= k < fs.len() ==> #[trigger] norm_fields_s(fs, m, n, acc, i).0[k].0 == fs[k].0,
    decreases fs.len() - i,
{
    if i < fs.len() {
        let (t1, m1, n1) = norm_type_s(fs[i].1, m, n);
        let acc2 = acc.push((fs[i].0, t1));
        assert forall|k: int| 0 <= k < i + 1 implies #[trigger] acc2[k].0 == fs[k].0 by {
            if k < i {
                assert(acc2[k] == acc[k]);
            }
        }
        lemma_fields_out(fs, m1, n1, acc2, i + 1);
        assert forall|k: int| 0 <= k < i implies #[trigger] norm_fields_s(fs, m, n, acc, i).0[k] == acc[k] by {
            assert(acc2[k] == acc[k]);
        }
    }
}


proof fn lemma_twice_type(t: SType, m: NMap, mm: NMap, n: u64)
    requires
        renamings_agree(m, mm, n),
        normal_ready(t),
        n + occ(t) < u64::MAX,
    ensures
        ({
            let p1 = norm_type_s(t, m, n);
            let p2 = norm_type_s(p1.0, mm, n);
            &&& p2.0 == p1.0
            &&& p2.2 == p1.2
            &&& renamings_agree(p1.1, p2.1, p1.2)
            &&& n <= p1.2 <= n + occ(t)
        }),
    decreases t, 1nat, 0int,
{
    match t {
        SType::Var(v) => {
            lemma_rename_twice(0, v, m, mm, n);
        },
        SType::Shaped(b, sh) => {
            lemma_twice_base(b, m, mm, n);
            let (b1, m1, n1) = norm_base_s(b, m, n);
            let mm1 = norm_base_s(b1, mm, n).1;
            lemma_twice_dims(sh, m1, mm1, n1, Seq::empty(), 0);
        },
    }
}

proof fn lemma_twice_base(b: SBase, m: NMap, mm: NMap, n: u64)
    requires
        renamings_agree(m, mm, n),
        normal_ready_base(b),
        n + occ_base(b) < u64::MAX,
    ensures
        ({
            let p1 = norm_base_s(b, m, n);
            let p2 = norm_base_s(p1.0, mm, n);
            &&& p2.0 == p1.0
            &&& p2.2 == p1.2
            &&& renamings_agree(p1.1, p2.1, p1.2)
            &&& n <= p1.2 <= n + occ_base(b)
        }),
    decreases b, 1nat, 0int,
{
    match b {
        SBase::Var(v) => {
            lemma_rename_twice(2, v, m, mm, n);
        },
        SBase::Record(fs, row) => {
            lemma_twice_fields(fs, m, mm, n, Seq::empty(), 0);
            lemma_fields_out(fs, m, n, Seq::empty(), 0);
            let (fs1, m1, n1) = norm_fields_s(fs, m, n, Seq::empty(), 0);
            let mm1 = norm_fields_s(fs1, mm, n, Seq::empty(), 0).1;
            match row {
                Some(r) => lemma_rename_twice(0, r, m1, mm1, n1),
                None => {},
            }
        },
        SBase::Union(fs, row) => {
            lemma_twice_fields(fs, m, mm, n, Seq::empty(), 0);
            lemma_fields_out(fs, m, n, Seq::empty(), 0);
            let (fs1, m1, n1) = norm_fields_s(fs, m, n, Seq::empty(), 0);
            let mm1 = norm_fields_s(fs1, mm, n, Seq::empty(), 0).1;
            assert forall|i: int| 0 < i < fs1.len() implies !seq_lt(#[trigger] fs1[i].0, fs1[i - 1].0) by {
                assert(fs1[i].0 == fs[i].0);
                assert(fs1[i - 1].0 == fs[i - 1].0);
            }
            lemma_sort_sorted(fs1);
            match row {
                Some(r) => lemma_rename_twice(0, r, m1, mm1, n1),
                None => {},
            }
        },
        SBase::Fun(ps, r) => {
            lemma_twice_types(ps, m, mm, n, Seq::empty(), 0);
            let (ps1, m1, n1) = norm_types_s(ps, m, n, Seq::empty(), 0);
            let mm1 = norm_types_s(ps1, mm, n, Seq::empty(), 0).1;
            lemma_twice_type(*r, m1, mm1, n1);
        },
        SBase::Task(o, e) => {
            lemma_twice_type(*o, m, mm, n);
            let (o1, m1, n1) = norm_type_s(*o, m, n);
            let mm1 = norm_type_s(o1, mm, n).1;
            lemma_twice_type(*e, m1, mm1, n1);
        },
        _ => {},
    }
}

proof fn lemma_twice_dims(sh: Seq<SDim>, m: NMap, mm: NMap, n: u64, acc: Seq<SDim>, i: int)
    requires
        renamings_agree(m, mm, n),
        0 <= i <= sh.len(),
        acc.len() == i,
        n + occ_dims(sh, i) < u64::MAX,
    ensures
        ({
            let p1 = norm_dims_s(sh, m, n, acc, i);
            let p2 = norm_dims_s(p1.0, mm, n, acc, i);
            &&& p2.0 == p1.0
            &&& p2.2 == p1.2
            &&& renamings_agree(p1.1, p2.1, p1.2)
            &&& n <= p1.2 <= n + occ_dims(sh, i)
        }),
    decreases sh.len() - i,
{
    lemma_dims_out(sh, m, n, acc, i);
    let out = norm_dims_s(sh, m, n, acc, i).0;
    if i < sh.len() {
        match sh[i] {
            SDim::Nat(k) => {
                lemma_dims_out(sh, m, n, acc.push(SDim::Nat(k)), i + 1);
                assert(out[i] == acc.push(SDim::Nat(k))[i]);
                lemma_twice_dims(sh, m, mm, n, acc.push(SDim::Nat(k)), i + 1);
            },
            SDim::Var(v) => {
                lemma_rename_twice(1, v, m, mm, n);
                let (r, m1, n1) = rename_s(dim_key(v), m, n);
                let mm1 = rename_s(dim_key(r), mm, n).1;
                lemma_dims_out(sh, m1, n1, acc.push(SDim::Var(r)), i + 1);
                assert(out[i] == acc.push(SDim::Var(r))[i]);
                lemma_twice_dims(sh, m1, mm1, n1, acc.push(SDim::Var(r)), i + 1);
            },
        }
    }
}

proof fn lemma_twice_types(ts: Seq<SType>, m: NMap, mm: NMap, n: u64, acc: Seq<SType>, i: int)
    requires
        renamings_agree(m, mm, n),
        0 <= i <= ts.len(),
        acc.len() == i,
        normal_ready_types(ts, i),
        n + occ_types(ts, i) < u64::MAX,
    ensures
        ({
            let p1 = norm_types_s(ts, m, n, acc, i);
            let p2 = norm_types_s(p1.0, mm, n, acc, i);
            &&& p2.0 == p1.0
            &&& p2.2 == p1.2
            &&& renamings_agree(p1.1, p2.1, p1.2)
            &&& n <= p1.2 <= n + occ_types(ts, i)
        }),
    decreases ts, 0nat, ts.len() - i,
{
    lemma_types_out(ts, m, n, acc, i);
    let out = norm_types_s(ts, m, n, acc, i).0;
    if i < ts.len() {
        lemma_twice_type(ts[i], m, mm, n);
        let (t1, m1, n1) = norm_type_s(ts[i], m, n);
        let mm1 = norm_type_s(t1, mm, n).1;
        lemma_types_out(ts, m1, n1, acc.push(t1), i + 1);
        assert(out[i] == acc.push(t1)[i]);
        lemma_twice_types(ts, m1, mm1, n1, acc.push(t1), i + 1);
    }
}

proof fn lemma_twice_fields(fs: Seq<(Seq<char>, SType)>, m: NMap, mm: NMap, n: u64, acc: Seq<(Seq<char>, SType)>, i: int)
    requires
        renamings_agree(m, mm, n),
        0 <= i <= fs.len(),
        acc.len() == i,
        normal_ready_fields(fs, i),
        n + occ_fields(fs, i) < u64::MAX,
    ensures
        ({
            let p1 = norm_fields_s(fs, m, n, acc, i);
            let p2 = norm_fields_s(p1.0, mm, n, acc, i);
            &&& p2.0 == p1.0
            &&& p2.2 == p1.2
            &&& renamings_agree(p1.1, p2.1, p1.2)
            &&& n <= p1.2 <= n + occ_fields(fs, i)
        }),
    decreases fs, 0nat, fs.len() - i,
{
    if i < fs.len() {
        lemma_twice_type(fs[i].1, m, mm, n);
        let (t1, m1, n1) = norm_type_s(fs[i].1, m, n);
        let mm1 = norm_type_s(t1, mm, n).1;
        let acc2 = acc.push((fs[i].0, t1));
        let out = norm_fields_s(fs, m1, n1, acc2, i + 1).0;
        lemma_fields_len(fs, m1, n1, acc2, i + 1);
        assert(out[i] == acc2[i]);
        lemma_twice_fields(fs, m1, mm1, n1, acc2, i + 1);
    } else {
        lemma_fields_len(fs, m, n, acc, i);
    }
}

proof fn lemma_fields_len(fs: Seq<(Seq<char>, SType)>, m: NMap, n: u64, acc: Seq<(Seq<char>, SType)>, i: int)
    requires
        0 <= i <= fs.len(),
        acc.len() == i,
    ensures
        norm_fields_s(fs, m, n, acc, i).0.len() == fs.len(),
        forall|k: int| 0 <= k < i ==> #[trigger] norm_fields_s(fs, m, n, acc, i).0[k] == acc[k],
    decreases fs.len() - i,
{
    if i < fs.len() {
        let (t1, m1, n1) = norm_type_s(fs[i].1, m, n);
        let acc2 = acc.push((fs[i].0, t1));
        lemma_fields_len(fs, m1, n1, acc2, i + 1);
        assert forall|k: int| 0 <= k < i implies #[trigger] norm_fields_s(fs, m, n, acc, i).0[k] == acc[k] by {
            assert(acc2[k] == acc[k]);
        }
    }
}

/// Normalizing a normal form changes nothing: for a type whose unions list
/// their tags in order of their names and none of whose type or row variables
/// is named like a dimension's or base's renaming key (`dim:…`, `base:…`),
/// normalizing twice is normalizing once.
pub proof fn lemma_normalize_idempotent(t: SType)
    requires
        normal_ready(t),
        occ(t) < u64::MAX,
    ensures
        normalize_s(normalize_s(t)) == normalize_s(t),
{
    let e: NMap = Seq::empty();
    assert forall|k: nat, j: u64| k < 3 && j >= 0 implies #[trigger] lookup(e, kind_key(k, var_name_s(j))) is None by {}
    lemma_twice_type(t, e, e, 0);
}

// ── Executable ────────────────────────────────────────────────────────────────

/// The renaming table.
pub struct NormState {
    pub map: Vec<(String, String)>,
    pub n: u64,
}

pub open spec fn nmap_view(v: Seq<(String, String)>) -> NMap {
    v.map_values(|p: (String, String)| (p.0@, p.1@))
}

fn var_name(n: u64) -> (r: String)
    ensures
        r@ == var_name_s(n),
{
    if n < 26 {
        let mut s = String::new();
        let c = (97 + n) as u8 as char;
        push_char(&mut s, c);
        assert(c == (97 + n) as char);
        assert(s@ =~= seq![(97 + n) as char]);
        s
    } else {
        super::ctx::make_name('t', n)
    }
}

fn bump(n: u64) -> (r: u64)
    ensures
        r == next_c(n),
{
    if n == u64::MAX { 0 } else { n + 1 }
}

fn rename(key: String, st: &mut NormState) -> (r: String)
    ensures
        (r@, nmap_view(final(st).map@), final(st).n) == rename_s(key@, nmap_view(old(st).map@), old(st).n),
{
    let mut i = st.map.len();
    assert(st.map@.take(i as int) =~= st.map@);
    while i > 0
        invariant
            i <= st.map.len(),
            st.map@ == old(st).map@,
            st.n == old(st).n,
            lookup(nmap_view(st.map@), key@) == lookup(nmap_view(st.map@.take(i as int)), key@),
        decreases i,
    {
        i -= 1;
        assert(nmap_view(st.map@.take(i + 1)).drop_last() =~= nmap_view(st.map@.take(i as int)));
        if st.map[i].0 == key {
            return st.map[i].1.clone();
        }
    }
    assert(nmap_view(st.map@.take(0)) =~= Seq::<(Seq<char>, Seq<char>)>::empty());
    let name = var_name(st.n);
    let ghost before = st.map@;
    st.map.push((key, name.clone()));
    assert(nmap_view(st.map@) =~= nmap_view(before).push((key@, name@)));
    st.n = bump(st.n);
    name
}

fn prefixed(prefix: &str, v: &String) -> (r: String)
    ensures
        r@ == prefix@ + v@,
{
    let mut s = prefix.to_owned();
    s.append(v.as_str());
    s
}

fn norm_dims(sh: &Shape, st: &mut NormState) -> (r: Shape)
    ensures
        (shape_view(r@), nmap_view(final(st).map@), final(st).n)
            == norm_dims_s(shape_view(sh@), nmap_view(old(st).map@), old(st).n, Seq::empty(), 0),
{
    let ghost vs = shape_view(sh@);
    let ghost m0 = nmap_view(st.map@);
    let ghost n0 = st.n;
    let mut out: Shape = Vec::new();
    let mut i: usize = 0;
    assert(shape_view(out@) =~= Seq::<SDim>::empty());
    while i < sh.len()
        invariant
            i <= sh.len(),
            vs == shape_view(sh@),
            m0 == nmap_view(old(st).map@),
            n0 == old(st).n,
            norm_dims_s(vs, m0, n0, Seq::empty(), 0) == norm_dims_s(vs, nmap_view(st.map@), st.n, shape_view(out@), i as int),
        decreases sh.len() - i,
    {
        let d = match &sh[i] {
            Dim::Nat(k) => Dim::Nat(*k),
            Dim::Var(v) => {
                let key = prefixed("dim:", v);
                Dim::Var(rename(key, st))
            },
        };
        let ghost old_out = out@;
        out.push(d);
        assert(shape_view(out@) =~= shape_view(old_out).push(d@));
        i += 1;
    }
    out
}

fn norm_row(row: &Option<String>, st: &mut NormState) -> (r: Option<String>)
    ensures
        (match r { Some(x) => Some(x@), None => None::<Seq<char>> }, nmap_view(final(st).map@), final(st).n)
            == norm_row_s(match *row { Some(x) => Some(x@), None => None::<Seq<char>> }, nmap_view(old(st).map@), old(st).n),
{
    match row {
        None => None,
        Some(r) => Some(rename(r.clone(), st)),
    }
}

fn norm_types(ts: &Vec<Type>, st: &mut NormState) -> (r: Vec<Type>)
    ensures
        (view_types(r@), nmap_view(final(st).map@), final(st).n)
            == norm_types_s(view_types(ts@), nmap_view(old(st).map@), old(st).n, Seq::empty(), 0),
    decreases ts, 0nat,
{
    proof {
        lemma_view_types(ts@);
    }
    let ghost vs = view_types(ts@);
    let ghost m0 = nmap_view(st.map@);
    let ghost n0 = st.n;
    let mut out: Vec<Type> = Vec::new();
    let mut i: usize = 0;
    assert(view_types(out@) =~= Seq::<SType>::empty());
    while i < ts.len()
        invariant
            i <= ts.len(),
            vs == view_types(ts@),
            vs.len() == ts.len(),
            forall|j: int| 0 <= j < ts.len() ==> #[trigger] vs[j] == ts@[j]@,
            m0 == nmap_view(old(st).map@),
            n0 == old(st).n,
            norm_types_s(vs, m0, n0, Seq::empty(), 0) == norm_types_s(vs, nmap_view(st.map@), st.n, view_types(out@), i as int),
        decreases ts.len() - i,
    {
        assert(vs[i as int] == ts@[i as int]@);
        let t = norm_type(&ts[i], st);
        let ghost old_out = out@;
        out.push(t);
        assert(out@.drop_last() =~= old_out);
        i += 1;
    }
    out
}

fn norm_fields(fs: &Vec<(String, Type)>, st: &mut NormState) -> (r: Vec<(String, Type)>)
    ensures
        (view_fields(r@), nmap_view(final(st).map@), final(st).n)
            == norm_fields_s(view_fields(fs@), nmap_view(old(st).map@), old(st).n, Seq::empty(), 0),
    decreases fs, 0nat,
{
    proof {
        lemma_view_fields(fs@);
    }
    let ghost vs = view_fields(fs@);
    let ghost m0 = nmap_view(st.map@);
    let ghost n0 = st.n;
    let mut out: Vec<(String, Type)> = Vec::new();
    let mut i: usize = 0;
    assert(view_fields(out@) =~= Seq::<(Seq<char>, SType)>::empty());
    while i < fs.len()
        invariant
            i <= fs.len(),
            vs == view_fields(fs@),
            vs.len() == fs.len(),
            forall|j: int| 0 <= j < fs.len() ==> #[trigger] vs[j] == (fs@[j].0@, fs@[j].1@),
            m0 == nmap_view(old(st).map@),
            n0 == old(st).n,
            norm_fields_s(vs, m0, n0, Seq::empty(), 0) == norm_fields_s(vs, nmap_view(st.map@), st.n, view_fields(out@), i as int),
        decreases fs.len() - i,
    {
        assert(vs[i as int] == (fs@[i as int].0@, fs@[i as int].1@));
        let t = norm_type(&fs[i].1, st);
        let ghost old_out = out@;
        out.push((fs[i].0.clone(), t));
        assert(out@.drop_last() =~= old_out);
        i += 1;
    }
    out
}

fn norm_base(b: &BaseType, st: &mut NormState) -> (r: BaseType)
    ensures
        (r@, nmap_view(final(st).map@), final(st).n) == norm_base_s(b@, nmap_view(old(st).map@), old(st).n),
    decreases b, 1nat,
{
    match b {
        BaseType::Var(v) => BaseType::Var(rename(prefixed("base:", v), st)),
        BaseType::Record(fs, row) => {
            let fs1 = norm_fields(fs, st);
            let r1 = norm_row(row, st);
            BaseType::Record(fs1, r1)
        },
        BaseType::Union(fs, row) => {
            let fs1 = norm_fields(fs, st);
            let r1 = norm_row(row, st);
            proof {
                lemma_view_fields_assoc(fs1@);
            }
            let sorted = sort_fields_exec(fs1);
            proof {
                lemma_view_fields_assoc(sorted@);
            }
            BaseType::Union(sorted, r1)
        },
        BaseType::Fun(ps, r) => {
            let ps1 = norm_types(ps, st);
            let r1 = norm_type(r, st);
            BaseType::Fun(ps1, Box::new(r1))
        },
        BaseType::Task(o, e) => {
            let o1 = norm_type(o, st);
            let e1 = norm_type(e, st);
            BaseType::Task(Box::new(o1), Box::new(e1))
        },
        BaseType::Int => BaseType::Int,
        BaseType::F64 => BaseType::F64,
        BaseType::Str => BaseType::Str,
        BaseType::Bool => BaseType::Bool,
    }
}

fn norm_type(t: &Type, st: &mut NormState) -> (r: Type)
    ensures
        (r@, nmap_view(final(st).map@), final(st).n) == norm_type_s(t@, nmap_view(old(st).map@), old(st).n),
    decreases t, 1nat,
{
    match t {
        Type::Var(v) => Type::Var(rename(v.clone(), st)),
        Type::Shaped(b, sh) => {
            let b1 = norm_base(b, st);
            let sh1 = norm_dims(sh, st);
            Type::Shaped(b1, sh1)
        },
    }
}

/// `ty` with its variables renamed `a`, `b`, … in order of first occurrence and
/// each union's tags sorted by name.
pub fn normalize_ty(ty: Type) -> (r: Type)
    ensures
        r@ == normalize_s(ty@),
{
    let mut st = NormState { map: Vec::new(), n: 0 };
    assert(nmap_view(st.map@) =~= Seq::<(Seq<char>, Seq<char>)>::empty());
    norm_type(&ty, &mut st)
}

} // verus!
