//! Run-time arrays as flat data in row-major order with a shape: the
//! arithmetic of their rows, slices and gathers, and the list builtins on
//! rank-one arrays. The element type is left open, so the evaluator uses the
//! same functions for integer and floating-point arrays.

use vstd::prelude::*;

verus! {

/// The product of the dimensions of a shape.
pub open spec fn prod(s: Seq<usize>) -> nat
    decreases s.len(),
{
    if s.len() == 0 { 1 } else { prod(s.drop_last()) * (s.last() as nat) }
}

/// The dimensions after the first.
pub open spec fn inner_shape(shape: Seq<usize>) -> Seq<usize> {
    shape.subrange(1, shape.len() as int)
}

/// Rows `from` up to `to` of an array: their data and shape `[to - from, ..]`;
/// `None` when the array has no rows, the range is not one of its rows, a row
/// does not fit in `usize`, or the data is too short for it.
pub open spec fn rows_s<T>(data: Seq<T>, shape: Seq<usize>, from: int, to: int) -> Option<(Seq<T>, Seq<usize>)> {
    if shape.len() == 0 || from < 0 || from > to || to > shape[0] {
        None
    } else {
        let r = prod(inner_shape(shape));
        if r > usize::MAX || to * r > data.len() {
            None
        } else {
            Some((data.subrange(from * r, to * r), seq![(to - from) as usize] + inner_shape(shape)))
        }
    }
}

/// Row `i` of an array: its data and the inner shape.
pub open spec fn row_s<T>(data: Seq<T>, shape: Seq<usize>, i: int) -> Option<(Seq<T>, Seq<usize>)> {
    match rows_s(data, shape, i, i + 1) {
        Some((d, _)) => Some((d, inner_shape(shape))),
        None => None,
    }
}

/// The product of the dimensions from `1` on, when it fits in `usize`.
pub fn row_size(shape: &Vec<usize>) -> (r: Option<usize>)
    requires
        shape.len() > 0,
    ensures
        match r {
            Some(n) => n == prod(inner_shape(shape@)),
            None => prod(inner_shape(shape@)) > usize::MAX,
        },
{
    let ghost inner = inner_shape(shape@);
    let mut z: usize = 1;
    while z < shape.len()
        invariant
            1 <= z <= shape.len(),
            inner == inner_shape(shape@),
            forall|j: int| 0 <= j < z - 1 ==> #[trigger] inner[j] > 0,
        decreases shape.len() - z,
    {
        if shape[z] == 0 {
            proof { lemma_prod_zero(inner, z - 1); }
            return Some(0);
        }
        z += 1;
    }
    let mut acc: usize = 1;
    let mut i: usize = 1;
    while i < shape.len()
        invariant
            1 <= i <= shape.len(),
            inner == inner_shape(shape@),
            forall|j: int| 0 <= j < inner.len() ==> #[trigger] inner[j] > 0,
            acc == prod(inner.subrange(0, i - 1)),
        decreases shape.len() - i,
    {
        assert(inner.subrange(0, i as int).drop_last() =~= inner.subrange(0, i - 1));
        match acc.checked_mul(shape[i]) {
            Some(n) => {
                acc = n;
            },
            None => {
                proof {
                    lemma_prod_prefix(inner, i as int);
                }
                return None;
            },
        }
        i += 1;
    }
    assert(inner.subrange(0, inner.len() as int) =~= inner);
    Some(acc)
}

/// A dimension that is zero makes the product zero.
proof fn lemma_prod_zero(s: Seq<usize>, k: int)
    requires
        0 <= k < s.len(),
        s[k] == 0,
    ensures
        prod(s) == 0,
    decreases s.len(),
{
    if k < s.len() - 1 {
        lemma_prod_zero(s.drop_last(), k);
    }
    let p = prod(s.drop_last());
    let x = s.last() as nat;
    if k == s.len() - 1 {
        assert(p * x == 0) by (nonlinear_arith)
            requires x == 0;
    } else {
        assert(p * x == 0) by (nonlinear_arith)
            requires p == 0;
    }
}

/// With no zero dimension, the product over a prefix is at most the whole product.
proof fn lemma_prod_prefix(s: Seq<usize>, k: int)
    requires
        0 <= k <= s.len(),
        forall|j: int| 0 <= j < s.len() ==> #[trigger] s[j] > 0,
    ensures
        prod(s.subrange(0, k)) <= prod(s),
    decreases s.len() - k,
{
    if k < s.len() {
        lemma_prod_prefix(s, k + 1);
        assert(s.subrange(0, k + 1).drop_last() =~= s.subrange(0, k));
        assert(s.subrange(0, k + 1).last() == s[k]);
        let p = prod(s.subrange(0, k));
        let x = s[k] as nat;
        assert(p <= p * x) by (nonlinear_arith)
            requires x >= 1;
    } else {
        assert(s.subrange(0, k) =~= s);
    }
}

fn copy_range<T: Copy>(data: &Vec<T>, lo: usize, hi: usize) -> (r: Vec<T>)
    requires
        lo <= hi <= data.len(),
    ensures
        r@ == data@.subrange(lo as int, hi as int),
{
    let mut out: Vec<T> = Vec::new();
    let mut j: usize = lo;
    while j < hi
        invariant
            lo <= j <= hi <= data.len(),
            out@ == data@.subrange(lo as int, j as int),
        decreases hi - j,
    {
        out.push(data[j]);
        assert(out@ =~= data@.subrange(lo as int, j + 1));
        j += 1;
    }
    out
}

/// Rows `from` up to `to` of an array (see [`rows_s`]).
pub fn take_rows<T: Copy>(data: &Vec<T>, shape: &Vec<usize>, from: usize, to: usize) -> (r: Option<(Vec<T>, Vec<usize>)>)
    ensures
        match r {
            Some(p) => rows_s(data@, shape@, from as int, to as int) == Some((p.0@, p.1@)),
            None => rows_s(data@, shape@, from as int, to as int) is None,
        },
{
    if shape.len() == 0 || from > to || to > shape[0] {
        return None;
    }
    let r = match row_size(shape) {
        Some(r) => r,
        None => {
            return None;
        },
    };
    assert((to as int) * (r as int) <= 0xffff_ffff_ffff_ffff * 0xffff_ffff_ffff_ffff) by (nonlinear_arith)
        requires
            0 <= to <= 0xffff_ffff_ffff_ffff,
            0 <= r <= 0xffff_ffff_ffff_ffff;
    let wide: u128 = (to as u128) * (r as u128);
    if wide > data.len() as u128 {
        return None;
    }
    let hi: usize = wide as usize;
    assert(from * r <= to * r) by (nonlinear_arith)
        requires from <= to;
    let lo: usize = from * r;
    let d = copy_range(data, lo, hi);
    let mut sh: Vec<usize> = Vec::new();
    sh.push(to - from);
    let mut k: usize = 1;
    while k < shape.len()
        invariant
            1 <= k <= shape.len(),
            from <= to,
            sh@ == seq![(to - from) as usize] + shape@.subrange(1, k as int),
        decreases shape.len() - k,
    {
        sh.push(shape[k]);
        assert(sh@ =~= seq![(to - from) as usize] + shape@.subrange(1, k + 1));
        k += 1;
    }
    Some((d, sh))
}

/// Row `i` of an array (see [`row_s`]).
pub fn row_at<T: Copy>(data: &Vec<T>, shape: &Vec<usize>, i: usize) -> (r: Option<(Vec<T>, Vec<usize>)>)
    ensures
        match r {
            Some(p) => row_s(data@, shape@, i as int) == Some((p.0@, p.1@)),
            None => row_s(data@, shape@, i as int) is None,
        },
{
    if shape.len() == 0 || i >= shape[0] {
        return None;
    }
    match take_rows(data, shape, i, i + 1) {
        None => None,
        Some((d, sh)) => {
            let mut inner: Vec<usize> = Vec::new();
            let mut k: usize = 1;
            while k < sh.len()
                invariant
                    1 <= k <= sh.len(),
                    inner@ == sh@.subrange(1, k as int),
                decreases sh.len() - k,
            {
                inner.push(sh[k]);
                assert(inner@ =~= sh@.subrange(1, k + 1));
                k += 1;
            }
            assert(sh@.subrange(1, sh.len() as int) =~= inner_shape(shape@));
            Some((d, inner))
        },
    }
}

/// The elements of `data` at the positions `idx`, in order; `None` when a
/// position is outside the data.
pub open spec fn gather_s<T>(data: Seq<T>, idx: Seq<i64>) -> Option<Seq<T>> {
    if forall|k: int| 0 <= k < idx.len() ==> 0 <= #[trigger] idx[k] < data.len() {
        Some(idx.map_values(|i: i64| data[i as int]))
    } else {
        None
    }
}

/// The elements at the given positions (see [`gather_s`]).
pub fn gather<T: Copy>(data: &Vec<T>, idx: &Vec<i64>) -> (r: Option<Vec<T>>)
    ensures
        match r {
            Some(v) => gather_s(data@, idx@) == Some(v@),
            None => gather_s(data@, idx@) is None,
        },
{
    let mut out: Vec<T> = Vec::new();
    let mut k: usize = 0;
    while k < idx.len()
        invariant
            k <= idx.len(),
            out@.len() == k,
            forall|j: int| 0 <= j < k ==> 0 <= #[trigger] idx@[j] < data.len(),
            forall|j: int| 0 <= j < k ==> #[trigger] out@[j] == data@[idx@[j] as int],
        decreases idx.len() - k,
    {
        let i = idx[k];
        if i < 0 || i as u64 >= data.len() as u64 {
            return None;
        }
        out.push(data[i as usize]);
        k += 1;
    }
    assert(out@ =~= idx@.map_values(|i: i64| data@[i as int]));
    Some(out)
}

/// `x` in front of the elements of `data` (the rank-one `::`), with the new length.
pub fn cons_flat<T: Copy>(x: T, data: &Vec<T>) -> (r: (Vec<T>, usize))
    requires
        data.len() < usize::MAX,
    ensures
        r.0@ == seq![x] + data@,
        r.1 == r.0@.len(),
{
    let mut out: Vec<T> = Vec::new();
    out.push(x);
    let mut j: usize = 0;
    while j < data.len()
        invariant
            j <= data.len(),
            out@ == seq![x] + data@.subrange(0, j as int),
        decreases data.len() - j,
    {
        out.push(data[j]);
        assert(out@ =~= seq![x] + data@.subrange(0, j + 1));
        j += 1;
    }
    assert(data@.subrange(0, data.len() as int) =~= data@);
    let n = out.len();
    (out, n)
}

/// The elements of `a` then those of `b` (the rank-one `<>`), with the length.
pub fn append_flat<T: Copy>(a: &Vec<T>, b: &Vec<T>) -> (r: (Vec<T>, usize))
    requires
        a.len() + b.len() <= usize::MAX,
    ensures
        r.0@ == a@ + b@,
        r.1 == r.0@.len(),
{
    let mut out = copy_range(a, 0, a.len());
    assert(a@.subrange(0, a.len() as int) =~= a@);
    let mut j: usize = 0;
    while j < b.len()
        invariant
            j <= b.len(),
            a.len() + b.len() <= usize::MAX,
            out@ == a@ + b@.subrange(0, j as int),
        decreases b.len() - j,
    {
        out.push(b[j]);
        assert(out@ =~= a@ + b@.subrange(0, j + 1));
        j += 1;
    }
    assert(b@.subrange(0, b.len() as int) =~= b@);
    let n = out.len();
    (out, n)
}

/// The first element, if any (`head`).
pub fn head_flat<T: Copy>(data: &Vec<T>) -> (r: Option<T>)
    ensures
        r == (if data@.len() == 0 { None } else { Some(data@[0]) }),
{
    if data.len() == 0 { None } else { Some(data[0]) }
}

/// The elements after the first, with their count, if there is a first (`tail`).
pub fn tail_flat<T: Copy>(data: &Vec<T>) -> (r: Option<(Vec<T>, usize)>)
    ensures
        match r {
            Some(p) => data@.len() > 0 && p.0@ == data@.skip(1) && p.1 == p.0@.len(),
            None => data@.len() == 0,
        },
{
    if data.len() == 0 {
        return None;
    }
    let rest = copy_range(data, 1, data.len());
    assert(rest@ =~= data@.skip(1));
    let n = rest.len();
    Some((rest, n))
}

/// The number of rows (`len`), when the array has a first dimension.
pub fn array_len(shape: &Vec<usize>) -> (r: Option<usize>)
    ensures
        r == (if shape@.len() == 0 { None } else { Some(shape@[0]) }),
{
    if shape.len() == 0 { None } else { Some(shape[0]) }
}

} // verus!
