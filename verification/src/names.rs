//! Decimal rendering of numbers and the generated names built from them.

use vstd::prelude::*;
use vstd::string::*;

verus! {

/// Trusted: `String::push` appends the one character `c` to the end of `s`
/// (std documents exactly this).
#[verifier::external_body]
pub(crate) fn push_char(s: &mut String, c: char)
    ensures
        final(s)@ == old(s)@.push(c),
{
    s.push(c);
}

/// The decimal digit character of `d` (`d < 10`).
pub open spec fn digit_char(d: nat) -> char {
    if d == 0 { '0' } else if d == 1 { '1' } else if d == 2 { '2' } else if d == 3 { '3' }
    else if d == 4 { '4' } else if d == 5 { '5' } else if d == 6 { '6' } else if d == 7 { '7' }
    else if d == 8 { '8' } else { '9' }
}

/// The shortest decimal rendering of `n` (no leading zeros; `0` is `"0"`).
pub open spec fn decimal(n: nat) -> Seq<char>
    decreases n,
{
    if n < 10 {
        seq![digit_char(n)]
    } else {
        decimal(n / 10).push(digit_char(n % 10))
    }
}

proof fn lemma_digit_char_injective(a: nat, b: nat)
    requires
        a < 10,
        b < 10,
        digit_char(a) == digit_char(b),
    ensures
        a == b,
{
}

/// The decimal rendering of a number has at least two digits from 10 on.
pub proof fn lemma_decimal_len(n: nat)
    ensures
        decimal(n).len() >= 1,
        n >= 10 ==> decimal(n).len() >= 2,
    decreases n,
{
    if n >= 10 {
        lemma_decimal_len(n / 10);
    }
}

/// Different numbers have different decimal renderings.
pub proof fn lemma_decimal_injective(n: nat, m: nat)
    requires
        decimal(n) == decimal(m),
    ensures
        n == m,
    decreases n,
{
    lemma_decimal_len(n);
    lemma_decimal_len(m);
    if n < 10 && m < 10 {
        assert(decimal(n)[0] == digit_char(n));
        assert(decimal(m)[0] == digit_char(m));
        lemma_digit_char_injective(n, m);
    } else if n >= 10 && m >= 10 {
        let dn = decimal(n);
        assert(dn.last() == digit_char(n % 10));
        assert(decimal(m).last() == digit_char(m % 10));
        lemma_digit_char_injective(n % 10, m % 10);
        assert(dn.drop_last() =~= decimal(n / 10));
        assert(decimal(m).drop_last() =~= decimal(m / 10));
        lemma_decimal_injective(n / 10, m / 10);
    } else {
        assert(decimal(n).len() != decimal(m).len());
    }
}

fn digit(d: u64) -> (c: char)
    requires
        d < 10,
    ensures
        c == digit_char(d as nat),
{
    if d == 0 { '0' } else if d == 1 { '1' } else if d == 2 { '2' } else if d == 3 { '3' }
    else if d == 4 { '4' } else if d == 5 { '5' } else if d == 6 { '6' } else if d == 7 { '7' }
    else if d == 8 { '8' } else { '9' }
}

/// Appends the decimal rendering of `n` to `out`.
pub fn push_decimal(out: &mut String, n: u64)
    ensures
        final(out)@ == old(out)@ + decimal(n as nat),
    decreases n,
{
    if n < 10 {
        let c = digit(n);
        push_char(out, c);
        assert(out@ =~= old(out)@ + decimal(n as nat));
    } else {
        push_decimal(out, n / 10);
        let c = digit(n % 10);
        push_char(out, c);
    }
}

/// Appends the decimal rendering of `n` to `out` (for counts past `u64`).
pub fn push_decimal_wide(out: &mut String, n: u128)
    ensures
        final(out)@ == old(out)@ + decimal(n as nat),
    decreases n,
{
    if n < 10 {
        let c = digit(n as u64);
        push_char(out, c);
        assert(out@ =~= old(out)@ + decimal(n as nat));
    } else {
        push_decimal_wide(out, n / 10);
        let c = digit((n % 10) as u64);
        push_char(out, c);
    }
}

/// The decimal rendering of a signed integer: a `-` before the magnitude when negative.
pub open spec fn signed_decimal(n: int) -> Seq<char> {
    if n < 0 { seq!['-'] + decimal((-n) as nat) } else { decimal(n as nat) }
}

/// Appends the decimal rendering of `n` to `out`.
pub fn push_signed(out: &mut String, n: i64)
    ensures
        final(out)@ == old(out)@ + signed_decimal(n as int),
{
    if n < 0 {
        push_char(out, '-');
        let m: u64 = (-(n as i128)) as u64;
        push_decimal(out, m);
        assert(out@ =~= old(out)@ + signed_decimal(n as int));
    } else {
        push_decimal(out, n as u64);
    }
}

/// `a` sorts strictly before `b` in lexicographic order of characters (the order of
/// `String`'s `cmp`: UTF-8 byte order agrees with code point order).
pub open spec fn seq_lt(a: Seq<char>, b: Seq<char>) -> bool
    decreases a.len(),
{
    if b.len() == 0 {
        false
    } else if a.len() == 0 {
        true
    } else if (a[0] as u32) < (b[0] as u32) {
        true
    } else if (a[0] as u32) > (b[0] as u32) {
        false
    } else {
        seq_lt(a.drop_first(), b.drop_first())
    }
}

/// Whether `a` sorts strictly before `b`.
pub fn str_less(a: &String, b: &String) -> (r: bool)
    ensures
        r == seq_lt(a@, b@),
{
    let sa = a.as_str();
    let sb = b.as_str();
    let la = sa.unicode_len();
    let lb = sb.unicode_len();
    let mut i: usize = 0;
    assert(a@.skip(0) =~= a@);
    assert(b@.skip(0) =~= b@);
    while i < la && i < lb
        invariant
            la == a@.len(),
            lb == b@.len(),
            sa@ == a@,
            sb@ == b@,
            i <= la,
            i <= lb,
            seq_lt(a@, b@) == seq_lt(a@.skip(i as int), b@.skip(i as int)),
        decreases la - i,
    {
        let ca = sa.get_char(i);
        let cb = sb.get_char(i);
        assert(a@.skip(i as int)[0] == ca);
        assert(b@.skip(i as int)[0] == cb);
        if (ca as u32) < (cb as u32) {
            return true;
        }
        if (ca as u32) > (cb as u32) {
            return false;
        }
        assert(a@.skip(i as int).drop_first() =~= a@.skip(i + 1));
        assert(b@.skip(i as int).drop_first() =~= b@.skip(i + 1));
        i += 1;
    }
    i < lb
}

pub proof fn lemma_seq_lt_irrefl(a: Seq<char>)
    ensures
        !seq_lt(a, a),
    decreases a.len(),
{
    if a.len() > 0 {
        lemma_seq_lt_irrefl(a.drop_first());
    }
}

pub proof fn lemma_seq_lt_trans(a: Seq<char>, b: Seq<char>, c: Seq<char>)
    requires
        seq_lt(a, b),
        seq_lt(b, c),
    ensures
        seq_lt(a, c),
    decreases a.len(),
{
    if a.len() > 0 && (a[0] as u32) == (b[0] as u32) && (b[0] as u32) == (c[0] as u32) {
        lemma_seq_lt_trans(a.drop_first(), b.drop_first(), c.drop_first());
    }
}

pub proof fn lemma_seq_lt_total(a: Seq<char>, b: Seq<char>)
    requires
        a != b,
    ensures
        seq_lt(a, b) || seq_lt(b, a),
    decreases a.len(),
{
    if a.len() > 0 && b.len() > 0 && (a[0] as u32) == (b[0] as u32) {
        vstd::utf8::char_u32_cast(a[0], a[0] as u32);
        vstd::utf8::char_u32_cast(b[0], b[0] as u32);
        assert(a[0] == b[0]);
        if a.drop_first() =~= b.drop_first() {
            assert(a =~= b) by {
                assert forall|i: int| 0 <= i < a.len() implies a[i] == b[i] by {
                    if i > 0 {
                        assert(a[i] == a.drop_first()[i - 1]);
                    }
                }
            }
        }
        lemma_seq_lt_total(a.drop_first(), b.drop_first());
    } else if a.len() == 0 && b.len() == 0 {
        assert(a =~= b);
    }
}

/// Names in strictly increasing order.
pub open spec fn sorted_names(s: Seq<Seq<char>>) -> bool {
    forall|i: int, j: int| 0 <= i < j < s.len() ==> seq_lt(#[trigger] s[i], #[trigger] s[j])
}

/// A set of names has at most one strictly increasing arrangement.
pub proof fn lemma_sorted_unique(a: Seq<Seq<char>>, b: Seq<Seq<char>>)
    requires
        sorted_names(a),
        sorted_names(b),
        a.to_set() == b.to_set(),
    ensures
        a == b,
    decreases a.len(),
{
    if a.len() == 0 {
        if b.len() > 0 {
            assert(b.to_set().contains(b[0]));
        }
        assert(a =~= b);
    } else {
        assert(a.to_set().contains(a[0]));
        assert(b.len() > 0);
        assert(b.to_set().contains(b[0]));
        let j = choose|j: int| 0 <= j < b.len() && b[j] == a[0];
        let k = choose|k: int| 0 <= k < a.len() && a[k] == b[0];
        if j > 0 {
            assert(seq_lt(b[0], b[j]));
            if k > 0 {
                assert(seq_lt(a[0], a[k]));
                lemma_seq_lt_trans(a[0], b[0], a[0]);
            }
            lemma_seq_lt_irrefl(a[0]);
        }
        let ta = a.drop_first();
        let tb = b.drop_first();
        assert forall|x: Seq<char>| ta.to_set().contains(x) <==> tb.to_set().contains(x) by {
            if ta.to_set().contains(x) {
                let i = choose|i: int| 0 <= i < ta.len() && ta[i] == x;
                assert(a[i + 1] == x);
                assert(seq_lt(a[0], a[i + 1]));
                lemma_seq_lt_irrefl(x);
                assert(a.to_set().contains(x));
                let m = choose|m: int| 0 <= m < b.len() && b[m] == x;
                assert(m != 0);
                assert(tb[m - 1] == x);
            }
            if tb.to_set().contains(x) {
                let i = choose|i: int| 0 <= i < tb.len() && tb[i] == x;
                assert(b[i + 1] == x);
                assert(seq_lt(b[0], b[i + 1]));
                lemma_seq_lt_irrefl(x);
                assert(b.to_set().contains(x));
                let m = choose|m: int| 0 <= m < a.len() && a[m] == x;
                assert(m != 0);
                assert(ta[m - 1] == x);
            }
        }
        assert(ta.to_set() =~= tb.to_set());
        assert(sorted_names(ta)) by {
            assert forall|i: int, l: int| 0 <= i < l < ta.len() implies seq_lt(#[trigger] ta[i], #[trigger] ta[l]) by {
                assert(seq_lt(a[i + 1], a[l + 1]));
            }
        }
        assert(sorted_names(tb)) by {
            assert forall|i: int, l: int| 0 <= i < l < tb.len() implies seq_lt(#[trigger] tb[i], #[trigger] tb[l]) by {
                assert(seq_lt(b[i + 1], b[l + 1]));
            }
        }
        lemma_sorted_unique(ta, tb);
        assert(a =~= seq![a[0]] + ta);
        assert(b =~= seq![b[0]] + tb);
    }
}

// ── Sets of names held in vectors ─────────────────────────────────────────────

/// The names held in `ps`.
pub open spec fn names_set(ps: Seq<String>) -> Set<Seq<char>> {
    ps.map_values(|p: String| p@).to_set()
}

/// No name occurs twice.
pub open spec fn distinct(v: Seq<String>) -> bool {
    forall|i: int, j: int| 0 <= i < j < v.len() ==> #[trigger] v[i]@ != #[trigger] v[j]@
}

pub(crate) proof fn lemma_names_contains(v: Seq<String>, x: Seq<char>)
    ensures
        names_set(v).contains(x) <==> exists|i: int| 0 <= i < v.len() && #[trigger] v[i]@ == x,
{
    let m = v.map_values(|p: String| p@);
    if names_set(v).contains(x) {
        let i = choose|i: int| 0 <= i < m.len() && m[i] == x;
        assert(v[i]@ == x);
    }
    if exists|i: int| 0 <= i < v.len() && #[trigger] v[i]@ == x {
        let i = choose|i: int| 0 <= i < v.len() && #[trigger] v[i]@ == x;
        assert(m[i] == x);
    }
}

pub(crate) proof fn lemma_names_push(v: Seq<String>, x: String)
    ensures
        names_set(v.push(x)) == names_set(v).insert(x@),
{
    assert(v.push(x).map_values(|p: String| p@) =~= v.map_values(|p: String| p@).push(x@));
    v.map_values(|p: String| p@).lemma_push_to_set_commute(x@);
}

pub(crate) proof fn lemma_names_empty()
    ensures
        names_set(Seq::<String>::empty()) == Set::<Seq<char>>::empty(),
{
    assert(Seq::<String>::empty().map_values(|p: String| p@) =~= Seq::<Seq<char>>::empty());
    assert(names_set(Seq::<String>::empty()) =~= Set::<Seq<char>>::empty());
}

pub(crate) fn contains_name(v: &Vec<String>, n: &String) -> (r: bool)
    ensures
        r == names_set(v@).contains(n@),
{
    proof { lemma_names_contains(v@, n@); }
    let mut i: usize = 0;
    while i < v.len()
        invariant
            i <= v.len(),
            forall|j: int| 0 <= j < i ==> #[trigger] v@[j]@ != n@,
        decreases v.len() - i,
    {
        if v[i] == *n {
            proof {
                assert(v@[i as int]@ == n@);
                lemma_names_contains(v@, n@);
            }
            return true;
        }
        i += 1;
    }
    false
}

pub(crate) fn add_name(acc: &mut Vec<String>, n: &String)
    requires
        distinct(old(acc)@),
    ensures
        distinct(final(acc)@),
        names_set(final(acc)@) == names_set(old(acc)@).insert(n@),
{
    if contains_name(acc, n) {
        assert(names_set(acc@).insert(n@) =~= names_set(acc@));
    } else {
        proof { lemma_names_contains(acc@, n@); }
        let ghost a0 = acc@;
        acc.push(n.clone());
        proof {
            lemma_names_push(a0, acc@.last());
            assert(acc@.drop_last() =~= a0);
        }
    }
}

pub(crate) fn add_all(acc: &mut Vec<String>, xs: &Vec<String>)
    requires
        distinct(old(acc)@),
    ensures
        distinct(final(acc)@),
        names_set(final(acc)@) == names_set(old(acc)@).union(names_set(xs@)),
{
    let mut i: usize = 0;
    proof {
        lemma_names_empty();
        assert(xs@.take(0) =~= Seq::<String>::empty());
        assert(names_set(acc@).union(Set::empty()) =~= names_set(acc@));
    }
    while i < xs.len()
        invariant
            i <= xs.len(),
            distinct(acc@),
            names_set(acc@) == names_set(old(acc)@).union(names_set(xs@.take(i as int))),
        decreases xs.len() - i,
    {
        add_name(acc, &xs[i]);
        proof {
            assert(xs@.take(i + 1) =~= xs@.take(i as int).push(xs@[i as int]));
            lemma_names_push(xs@.take(i as int), xs@[i as int]);
            assert(names_set(acc@) =~= names_set(old(acc)@).union(names_set(xs@.take(i + 1))));
        }
        i += 1;
    }
    assert(xs@.take(xs.len() as int) =~= xs@);
}

pub(crate) fn copy_names(v: &Vec<String>) -> (r: Vec<String>)
    ensures
        names_set(r@) == names_set(v@),
        r@.len() == v@.len(),
        forall|i: int| 0 <= i < v@.len() ==> #[trigger] r@[i]@ == v@[i]@,
{
    let mut r: Vec<String> = Vec::new();
    let mut i: usize = 0;
    while i < v.len()
        invariant
            i <= v.len(),
            r@.len() == i,
            forall|j: int| 0 <= j < i ==> #[trigger] r@[j]@ == v@[j]@,
        decreases v.len() - i,
    {
        r.push(v[i].clone());
        i += 1;
    }
    assert(r@.map_values(|p: String| p@) =~= v@.map_values(|p: String| p@));
    r
}

/// `v` followed by `w`, as names.
pub(crate) fn concat_names(v: &Vec<String>, w: &Vec<String>) -> (r: Vec<String>)
    ensures
        names_set(r@) == names_set(v@).union(names_set(w@)),
{
    let mut r = copy_names(v);
    let mut i: usize = 0;
    proof {
        lemma_names_empty();
        assert(w@.take(0) =~= Seq::<String>::empty());
        assert(names_set(v@).union(Set::empty()) =~= names_set(v@));
    }
    while i < w.len()
        invariant
            i <= w.len(),
            names_set(r@) == names_set(v@).union(names_set(w@.take(i as int))),
        decreases w.len() - i,
    {
        let ghost r0 = r@;
        r.push(w[i].clone());
        proof {
            lemma_names_push(r0, r@.last());
            assert(r@ =~= r0.push(r@.last()));
            assert(w@.take(i + 1) =~= w@.take(i as int).push(w@[i as int]));
            lemma_names_push(w@.take(i as int), w@[i as int]);
            assert(names_set(r@) =~= names_set(v@).union(names_set(w@.take(i + 1))));
        }
        i += 1;
    }
    assert(w@.take(w.len() as int) =~= w@);
    r
}

pub(crate) fn push_name(v: &Vec<String>, n: &String) -> (r: Vec<String>)
    ensures
        names_set(r@) == names_set(v@).insert(n@),
{
    let mut r = copy_names(v);
    let ghost r0 = r@;
    r.push(n.clone());
    proof {
        lemma_names_push(r0, r@.last());
        assert(r@ =~= r0.push(r@.last()));
    }
    r
}

} // verus!
