//! Types rendered for the terminal: the plain text of `display`, with names,
//! numbers and keywords painted by `colored` when the terminal takes colours.

use vstd::prelude::*;
use vstd::string::*;
use colored::Colorize;
use crate::names::{decimal, push_char};
use super::display::{
    param_texts, field_texts, tag_texts, type_text, base_text, dim_text, join_s, shape_text,
};
use super::model::{
    lemma_view_fields, lemma_view_types, shape_view, s_unit, view_fields, view_types, BaseType,
    Dim, SBase, SDim, SType, Type,
};

verus! {

// ── Colour codes ──────────────────────────────────────────────────────────────

/// The escape character that starts an ANSI colour code.
pub open spec fn esc() -> char {
    '\u{1b}'
}

/// The code that switches on the style `code`: `ESC [ code m`.
pub open spec fn ansi(code: Seq<char>) -> Seq<char> {
    seq![esc(), '['] + code + seq!['m']
}

/// The code that switches every style off.
pub open spec fn reset() -> Seq<char> {
    seq![esc(), '[', '0', 'm']
}

pub open spec fn no_esc(s: Seq<char>) -> bool {
    forall|i: int| 0 <= i < s.len() ==> s[i] != esc()
}

/// `s` with its colour codes removed, reading from the state `in_code` (inside a
/// code, which runs from an escape character to the next `m`).
pub open spec fn strip_from(s: Seq<char>, in_code: bool) -> Seq<char>
    decreases s.len(),
{
    if s.len() == 0 {
        Seq::empty()
    } else if in_code {
        strip_from(s.drop_first(), s[0] != 'm')
    } else if s[0] == esc() {
        strip_from(s.drop_first(), true)
    } else {
        seq![s[0]] + strip_from(s.drop_first(), false)
    }
}

/// Whether reading `s` from state `in_code` ends inside a colour code.
pub open spec fn ends_in_code(s: Seq<char>, in_code: bool) -> bool
    decreases s.len(),
{
    if s.len() == 0 {
        in_code
    } else if in_code {
        ends_in_code(s.drop_first(), s[0] != 'm')
    } else {
        ends_in_code(s.drop_first(), s[0] == esc())
    }
}

/// `r` shows the text `plain`, perhaps with complete colour codes around parts of it.
pub open spec fn shows(r: Seq<char>, plain: Seq<char>) -> bool {
    strip_from(r, false) == plain && !ends_in_code(r, false)
}

proof fn lemma_strip_cat(a: Seq<char>, b: Seq<char>, st: bool)
    ensures
        strip_from(a + b, st) == strip_from(a, st) + strip_from(b, ends_in_code(a, st)),
        ends_in_code(a + b, st) == ends_in_code(b, ends_in_code(a, st)),
    decreases a.len(),
{
    if a.len() == 0 {
        assert(a + b =~= b);
    } else {
        assert((a + b).drop_first() =~= a.drop_first() + b);
        assert((a + b)[0] == a[0]);
        let next = if st { a[0] != 'm' } else { a[0] == esc() };
        lemma_strip_cat(a.drop_first(), b, next);
        if !st && a[0] != esc() {
            assert(strip_from(a + b, st) =~= seq![a[0]] + strip_from(a.drop_first() + b, false));
            assert(strip_from(a + b, st) =~= strip_from(a, st) + strip_from(b, ends_in_code(a, st)));
        }
    }
}

proof fn lemma_shows_cat(a: Seq<char>, p: Seq<char>, b: Seq<char>, q: Seq<char>)
    requires
        shows(a, p),
        shows(b, q),
    ensures
        shows(a + b, p + q),
{
    lemma_strip_cat(a, b, false);
}

proof fn lemma_shows_plain(s: Seq<char>)
    requires
        no_esc(s),
    ensures
        shows(s, s),
    decreases s.len(),
{
    if s.len() > 0 {
        assert(s[0] != esc());
        assert(no_esc(s.drop_first()));
        lemma_shows_plain(s.drop_first());
        assert(s =~= seq![s[0]] + s.drop_first());
    } else {
        assert(s =~= Seq::<char>::empty());
    }
}

proof fn lemma_code_body(code: Seq<char>)
    requires
        forall|i: int| 0 <= i < code.len() ==> code[i] != 'm',
    ensures
        strip_from(code, true) == Seq::<char>::empty(),
        ends_in_code(code, true),
    decreases code.len(),
{
    if code.len() > 0 {
        lemma_code_body(code.drop_first());
    }
}

/// A painted piece shows its text.
proof fn lemma_shows_painted(code: Seq<char>, s: Seq<char>)
    requires
        forall|i: int| 0 <= i < code.len() ==> code[i] != 'm',
        no_esc(s),
    ensures
        shows(ansi(code) + s + reset(), s),
{
    let pre = ansi(code);
    lemma_code_body(code);
    let open = seq!['['];
    let close = seq!['m'];
    assert(open.drop_first() =~= Seq::<char>::empty());
    assert(close.drop_first() =~= Seq::<char>::empty());
    assert(strip_from(Seq::<char>::empty(), true) == Seq::<char>::empty());
    assert(strip_from(Seq::<char>::empty(), false) == Seq::<char>::empty());
    assert(ends_in_code(Seq::<char>::empty(), true));
    assert(!ends_in_code(Seq::<char>::empty(), false));
    assert(strip_from(open, true) == Seq::<char>::empty());
    assert(ends_in_code(open, true));
    assert(strip_from(close, true) == Seq::<char>::empty());
    assert(!ends_in_code(close, true));
    lemma_strip_cat(open, code, true);
    lemma_strip_cat(open + code, close, true);
    assert(pre.drop_first() =~= open + code + close);
    assert(pre[0] == esc());
    assert(strip_from(pre, false) == strip_from(pre.drop_first(), true));
    assert(strip_from(pre, false) =~= Seq::<char>::empty());
    assert(!ends_in_code(pre, false));
    assert(shows(pre, Seq::empty()));
    lemma_shows_plain(s);
    let r = reset();
    let r1 = r.drop_first();
    let r2 = r1.drop_first();
    let r3 = r2.drop_first();
    assert(r1 =~= seq!['[', '0', 'm']);
    assert(r2 =~= seq!['0', 'm']);
    assert(r3 =~= seq!['m']);
    assert(r3.drop_first() =~= Seq::<char>::empty());
    assert(strip_from(Seq::<char>::empty(), false) == Seq::<char>::empty());
    assert(!ends_in_code(Seq::<char>::empty(), false));
    assert(strip_from(r3, true) == Seq::<char>::empty() && !ends_in_code(r3, true));
    assert(strip_from(r2, true) == Seq::<char>::empty() && !ends_in_code(r2, true));
    assert(strip_from(r1, true) == Seq::<char>::empty() && !ends_in_code(r1, true));
    assert(shows(r, Seq::empty()));
    lemma_shows_cat(pre, Seq::empty(), s, s);
    lemma_shows_cat(pre + s, Seq::<char>::empty() + s, r, Seq::empty());
    assert(Seq::<char>::empty() + s + Seq::<char>::empty() =~= s);
}

// ── Painting, by `colored` ────────────────────────────────────────────────────

/// Trusted: `colored`'s `Colorize::italic` on `s`, shown with `to_string`. The text
/// is `s` itself when colours are off (the environment decides), else `s` between
/// the italic code `ESC[3m` and the reset code; for an `s` with an escape
/// character in it the crate also re-inserts the code after each inner reset,
/// which is left unsaid.
#[verifier::external_body]
fn paint_italic(s: &str) -> (r: String)
    ensures
        no_esc(s@) ==> (r@ == s@ || r@ == ansi(seq!['3']) + s@ + reset()),
{
    s.italic().to_string()
}

/// Trusted: `colored`'s `Colorize::bright_blue` then `bold` on `s`, shown with
/// `to_string`: `s`, or `s` between `ESC[1;94m` and the reset code (as for
/// [`paint_italic`]).
#[verifier::external_body]
fn paint_bright_blue_bold(s: &str) -> (r: String)
    ensures
        no_esc(s@) ==> (r@ == s@ || r@ == ansi(seq!['1', ';', '9', '4']) + s@ + reset()),
{
    s.bright_blue().bold().to_string()
}

/// Trusted: `colored`'s `Colorize::bright_white` on `s`, shown with `to_string`:
/// `s`, or `s` between `ESC[97m` and the reset code (as for [`paint_italic`]).
#[verifier::external_body]
fn paint_bright_white(s: &str) -> (r: String)
    ensures
        no_esc(s@) ==> (r@ == s@ || r@ == ansi(seq!['9', '7']) + s@ + reset()),
{
    s.bright_white().to_string()
}

/// Trusted: `colored`'s `Colorize::bright_yellow` on `s`, shown with `to_string`:
/// `s`, or `s` between `ESC[93m` and the reset code (as for [`paint_italic`]).
#[verifier::external_body]
fn paint_bright_yellow(s: &str) -> (r: String)
    ensures
        no_esc(s@) ==> (r@ == s@ || r@ == ansi(seq!['9', '3']) + s@ + reset()),
{
    s.bright_yellow().to_string()
}

/// Trusted: `colored`'s `Colorize::dimmed` on `s`, shown with `to_string`: `s`, or
/// `s` between `ESC[2m` and the reset code (as for [`paint_italic`]).
#[verifier::external_body]
fn paint_dimmed(s: &str) -> (r: String)
    ensures
        no_esc(s@) ==> (r@ == s@ || r@ == ansi(seq!['2']) + s@ + reset()),
{
    s.dimmed().to_string()
}

// ── Which types render cleanly ────────────────────────────────────────────────

/// No name in `t` holds the escape character.
pub open spec fn names_plain(t: SType) -> bool
    decreases t, 1nat,
{
    match t {
        SType::Var(n) => no_esc(n),
        SType::Shaped(b, sh) => base_plain(b) && dims_plain(sh),
    }
}

pub open spec fn dims_plain(sh: Seq<SDim>) -> bool {
    forall|i: int| 0 <= i < sh.len() ==> (#[trigger] sh[i] matches SDim::Var(v) ==> no_esc(v))
}

pub open spec fn fields_plain(fs: Seq<(Seq<char>, SType)>) -> bool
    decreases fs, 0nat,
{
    if fs.len() == 0 {
        true
    } else {
        fields_plain(fs.drop_last()) && no_esc(fs.last().0) && names_plain(fs.last().1)
    }
}

pub open spec fn types_plain(ts: Seq<SType>) -> bool
    decreases ts, 0nat,
{
    if ts.len() == 0 { true } else { types_plain(ts.drop_last()) && names_plain(ts.last()) }
}

pub open spec fn base_plain(b: SBase) -> bool
    decreases b, 1nat,
{
    match b {
        SBase::Var(v) => no_esc(v),
        SBase::Record(fs, _) | SBase::Union(fs, _) => fields_plain(fs),
        SBase::Fun(ps, r) => types_plain(ps) && names_plain(*r),
        SBase::Task(o, e) => names_plain(*o) && names_plain(*e),
        _ => true,
    }
}

proof fn lemma_fields_plain_at(fs: Seq<(Seq<char>, SType)>, i: int)
    requires
        fields_plain(fs),
        0 <= i < fs.len(),
    ensures
        no_esc(fs[i].0),
        names_plain(fs[i].1),
    decreases fs.len(),
{
    if i < fs.len() - 1 {
        lemma_fields_plain_at(fs.drop_last(), i);
    }
}

proof fn lemma_types_plain_at(ts: Seq<SType>, i: int)
    requires
        types_plain(ts),
        0 <= i < ts.len(),
    ensures
        names_plain(ts[i]),
    decreases ts.len(),
{
    if i < ts.len() - 1 {
        lemma_types_plain_at(ts.drop_last(), i);
    }
}

proof fn lemma_decimal_no_esc(n: nat)
    ensures
        no_esc(decimal(n)),
    decreases n,
{
    if n >= 10 {
        lemma_decimal_no_esc(n / 10);
    }
}

// ── Rendering ─────────────────────────────────────────────────────────────────

proof fn lemma_painted_or_plain(r: Seq<char>, code: Seq<char>, s: Seq<char>)
    requires
        forall|i: int| 0 <= i < code.len() ==> code[i] != 'm',
        no_esc(s),
        r == s || r == ansi(code) + s + reset(),
    ensures
        shows(r, s),
{
    if r == s {
        lemma_shows_plain(s);
    } else {
        lemma_shows_painted(code, s);
    }
}

fn pretty_dim(d: &Dim) -> (r: String)
    ensures
        (d@ matches SDim::Var(v) ==> no_esc(v)) ==> shows(r@, dim_text(d@)),
{
    match d {
        Dim::Nat(n) => {
            let mut s = String::new();
            crate::names::push_decimal(&mut s, *n);
            let r = paint_bright_blue_bold(s.as_str());
            proof {
                lemma_decimal_no_esc(*n as nat);
                lemma_painted_or_plain(r@, seq!['1', ';', '9', '4'], s@);
            }
            r
        },
        Dim::Var(v) => {
            let r = paint_italic(v.as_str());
            proof {
                if no_esc(v@) {
                    lemma_painted_or_plain(r@, seq!['3'], v@);
                }
            }
            r
        },
    }
}

fn pretty_shape(sh: &Vec<Dim>) -> (r: String)
    ensures
        dims_plain(shape_view(sh@)) ==> shows(r@, shape_text(shape_view(sh@))),
{
    let ghost texts = shape_view(sh@).map_values(|d: SDim| dim_text(d));
    let ghost np = dims_plain(shape_view(sh@));
    let mut out = String::new();
    let ghost mut p: Seq<char> = Seq::empty();
    proof { lemma_shows_plain(Seq::empty()); }
    put_char_if(&mut out, Ghost(p), '[', Ghost(np));
    proof {
        p = p.push('[');
        assert(texts.subrange(0, 0) =~= Seq::<Seq<char>>::empty());
        assert(p =~= seq!['['] + join_s(texts.subrange(0, 0), ", "@));
    }
    let mut i: usize = 0;
    while i < sh.len()
        invariant
            i <= sh.len(),
            np == dims_plain(shape_view(sh@)),
            texts == shape_view(sh@).map_values(|d: SDim| dim_text(d)),
            p == seq!['['] + join_s(texts.subrange(0, i as int), ", "@),
            np ==> shows(out@, p),
        decreases sh.len() - i,
    {
        if i > 0 {
            put_sep(&mut out, Ghost(p), Ghost(np));
            proof { p = p + ", "@; }
        }
        let piece = pretty_dim(&sh[i]);
        proof {
            assert(shape_view(sh@)[i as int] == sh@[i as int]@);
        }
        put_piece_if(&mut out, Ghost(p), &piece, Ghost(dim_text(sh@[i as int]@)), Ghost(np));
        proof {
            p = p + dim_text(sh@[i as int]@);
            let sub = texts.subrange(0, i + 1);
            assert(sub.drop_last() =~= texts.subrange(0, i as int));
            assert(sub.last() == dim_text(sh@[i as int]@));
            if i == 0 {
                assert(sub.len() == 1);
                assert(p =~= seq!['['] + join_s(sub, ", "@));
            } else {
                assert(p =~= seq!['['] + join_s(sub, ", "@));
            }
        }
        i += 1;
    }
    assert(texts.subrange(0, sh.len() as int) =~= texts);
    put_char_if(&mut out, Ghost(p), ']', Ghost(np));
    proof {
        reveal_strlit("[");
        reveal_strlit("]");
        assert(p.push(']') =~= shape_text(shape_view(sh@)));
    }
    out
}

/// Appends `", "` when `np` holds of the caller's invariant.
fn put_sep(out: &mut String, Ghost(p): Ghost<Seq<char>>, Ghost(np): Ghost<bool>)
    requires
        np ==> shows(old(out)@, p),
    ensures
        np ==> shows(final(out)@, p + ", "@),
{
    push_char(out, ',');
    push_char(out, ' ');
    proof {
        reveal_strlit(", ");
        if np {
            lemma_shows_plain(seq![',', ' ']);
            lemma_shows_cat(old(out)@, p, seq![',', ' '], seq![',', ' ']);
            assert(old(out)@ + seq![',', ' '] =~= out@);
            assert(", "@ =~= seq![',', ' ']);
        }
    }
}

fn put_piece_if(out: &mut String, Ghost(p): Ghost<Seq<char>>, x: &String, Ghost(q): Ghost<Seq<char>>, Ghost(np): Ghost<bool>)
    requires
        np ==> shows(old(out)@, p) && shows(x@, q),
    ensures
        np ==> shows(final(out)@, p + q),
{
    out.append(x.as_str());
    proof {
        if np {
            lemma_shows_cat(old(out)@, p, x@, q);
        }
    }
}

fn put_char_if(out: &mut String, Ghost(p): Ghost<Seq<char>>, c: char, Ghost(np): Ghost<bool>)
    requires
        c != esc(),
        np ==> shows(old(out)@, p),
    ensures
        np ==> shows(final(out)@, p.push(c)),
{
    push_char(out, c);
    proof {
        if np {
            assert(no_esc(seq![c]));
            lemma_shows_plain(seq![c]);
            lemma_shows_cat(old(out)@, p, seq![c], seq![c]);
            assert(old(out)@ + seq![c] =~= out@);
            assert(p + seq![c] =~= p.push(c));
        }
    }
}

/// Appends `s`, which holds no escape character.
fn put_str_if(out: &mut String, Ghost(p): Ghost<Seq<char>>, s: &str, Ghost(np): Ghost<bool>)
    requires
        no_esc(s@),
        np ==> shows(old(out)@, p),
    ensures
        np ==> shows(final(out)@, p + s@),
{
    out.append(s);
    proof {
        if np {
            lemma_shows_plain(s@);
            lemma_shows_cat(old(out)@, p, s@, s@);
        }
    }
}

/// Renders `t` (see [`Type::pretty`]).
fn pretty_type(t: &Type) -> (r: String)
    ensures
        names_plain(t@) ==> shows(r@, type_text(t@)),
    decreases t, 1nat,
{
    match t {
        Type::Var(n) => {
            let r = paint_italic(n.as_str());
            proof {
                if no_esc(n@) {
                    lemma_painted_or_plain(r@, seq!['3'], n@);
                }
            }
            r
        },
        Type::Shaped(b, sh) => {
            let ghost np = names_plain(t@);
            let mut out = pretty_base(b);
            if sh.len() > 0 {
                let shp = pretty_shape(sh);
                put_piece_if(&mut out, Ghost(base_text(b@)), &shp, Ghost(shape_text(shape_view(sh@))), Ghost(np));
            } else {
                assert(base_text(b@) + Seq::<char>::empty() =~= base_text(b@));
            }
            out
        },
    }
}

/// The fields (or tags) of a record (or union), joined by `, `.
fn pretty_fields(fs: &Vec<(String, Type)>, tags: bool) -> (r: String)
    ensures
        fields_plain(view_fields(fs@)) ==> shows(
            r@,
            join_s(if tags { tag_texts(view_fields(fs@)) } else { field_texts(view_fields(fs@)) }, ", "@),
        ),
    decreases fs, 0nat,
{
    proof {
        lemma_view_fields(fs@);
    }
    let ghost vf = view_fields(fs@);
    let ghost np = fields_plain(vf);
    let mut out = String::new();
    let ghost mut p: Seq<char> = Seq::empty();
    proof {
        lemma_shows_plain(Seq::empty());
        assert(vf.subrange(0, 0) =~= Seq::<(Seq<char>, SType)>::empty());
    }
    let mut i: usize = 0;
    while i < fs.len()
        invariant
            i <= fs.len(),
            vf == view_fields(fs@),
            vf.len() == fs.len(),
            np == fields_plain(vf),
            forall|j: int| 0 <= j < fs.len() ==> #[trigger] vf[j] == (fs@[j].0@, fs@[j].1@),
            p == join_s(
                if tags { tag_texts(vf.subrange(0, i as int)) } else { field_texts(vf.subrange(0, i as int)) },
                ", "@,
            ),
            np ==> shows(out@, p),
        decreases fs.len() - i,
    {
        let ghost p0 = p;
        if i > 0 {
            put_sep(&mut out, Ghost(p), Ghost(np));
            proof { p = p + ", "@; }
        }
        let ghost mid = p;
        proof {
            if np {
                lemma_fields_plain_at(vf, i as int);
            }
        }
        let ghost k = fs@[i as int].0@;
        let ghost ty = fs@[i as int].1@;
        let ghost item: Seq<char>;
        if tags {
            let name = paint_bright_yellow(fs[i].0.as_str());
            proof {
                if np {
                    lemma_painted_or_plain(name@, seq!['9', '3'], k);
                }
            }
            put_piece_if(&mut out, Ghost(p), &name, Ghost(k), Ghost(np));
            proof { p = p + k; }
            if !crate::types::display::is_unit(&fs[i].1) {
                proof { reveal_strlit(" "); }
                put_str_if(&mut out, Ghost(p), " ", Ghost(np));
                proof { p = p + " "@; }
                let tt = pretty_type(&fs[i].1);
                put_piece_if(&mut out, Ghost(p), &tt, Ghost(type_text(ty)), Ghost(np));
                proof { p = p + type_text(ty); }
            }
            proof {
                item = if ty == s_unit() { k } else { k + " "@ + type_text(ty) };
            }
        } else {
            let name = paint_bright_white(fs[i].0.as_str());
            proof {
                if np {
                    lemma_painted_or_plain(name@, seq!['9', '7'], k);
                }
            }
            put_piece_if(&mut out, Ghost(p), &name, Ghost(k), Ghost(np));
            proof { p = p + k; reveal_strlit(": "); }
            put_str_if(&mut out, Ghost(p), ": ", Ghost(np));
            proof { p = p + ": "@; }
            let tt = pretty_type(&fs[i].1);
            put_piece_if(&mut out, Ghost(p), &tt, Ghost(type_text(ty)), Ghost(np));
            proof {
                p = p + type_text(ty);
                item = k + ": "@ + type_text(ty);
            }
        }
        proof {
            assert(p =~= mid + item);
            let sub = vf.subrange(0, i + 1);
            assert(sub.drop_last() =~= vf.subrange(0, i as int));
            assert(sub.last() == vf[i as int]);
            let ts = if tags { tag_texts(sub) } else { field_texts(sub) };
            let ts0 = if tags { tag_texts(vf.subrange(0, i as int)) } else { field_texts(vf.subrange(0, i as int)) };
            assert(ts.drop_last() == ts0);
            assert(ts.last() == item);
            lemma_fields_texts_len(sub, tags);
            if i == 0 {
                assert(p =~= join_s(ts, ", "@));
            } else {
                assert(p =~= join_s(ts, ", "@));
            }
        }
        i += 1;
    }
    assert(vf.subrange(0, fs.len() as int) =~= vf);
    out
}

proof fn lemma_fields_texts_len(fs: Seq<(Seq<char>, SType)>, tags: bool)
    ensures
        (if tags { tag_texts(fs) } else { field_texts(fs) }).len() == fs.len(),
    decreases fs.len(),
{
    if fs.len() > 0 {
        lemma_fields_texts_len(fs.drop_last(), tags);
    }
}

proof fn lemma_params_len(ps: Seq<SType>)
    ensures
        param_texts(ps).len() == ps.len(),
    decreases ps.len(),
{
    if ps.len() > 0 {
        lemma_params_len(ps.drop_last());
    }
}

/// The parameters of a function type, joined by spaces; function parameters in
/// parentheses.
fn pretty_params(ps: &Vec<Type>) -> (r: String)
    ensures
        types_plain(view_types(ps@)) ==> shows(r@, join_s(param_texts(view_types(ps@)), " "@)),
    decreases ps, 0nat,
{
    proof {
        lemma_view_types(ps@);
    }
    let ghost vp = view_types(ps@);
    let ghost np = types_plain(vp);
    let mut out = String::new();
    let ghost mut p: Seq<char> = Seq::empty();
    proof {
        lemma_shows_plain(Seq::empty());
        assert(vp.subrange(0, 0) =~= Seq::<SType>::empty());
        reveal_strlit(" ");
    }
    let mut i: usize = 0;
    while i < ps.len()
        invariant
            i <= ps.len(),
            vp == view_types(ps@),
            vp.len() == ps.len(),
            np == types_plain(vp),
            forall|j: int| 0 <= j < ps.len() ==> #[trigger] vp[j] == ps@[j]@,
            p == join_s(param_texts(vp.subrange(0, i as int)), " "@),
            np ==> shows(out@, p),
            no_esc(" "@),
        decreases ps.len() - i,
    {
        if i > 0 {
            put_str_if(&mut out, Ghost(p), " ", Ghost(np));
            proof { p = p + " "@; }
        }
        let ghost mid = p;
        proof {
            if np {
                lemma_types_plain_at(vp, i as int);
            }
        }
        let ghost ty = ps@[i as int]@;
        let tt = pretty_type(&ps[i]);
        if crate::types::display::is_fun(&ps[i]) {
            put_char_if(&mut out, Ghost(p), '(', Ghost(np));
            proof { p = p.push('('); }
            put_piece_if(&mut out, Ghost(p), &tt, Ghost(type_text(ty)), Ghost(np));
            proof { p = p + type_text(ty); }
            put_char_if(&mut out, Ghost(p), ')', Ghost(np));
            proof {
                p = p.push(')');
                reveal_strlit("(");
                reveal_strlit(")");
                assert(p =~= mid + ("("@ + type_text(ty) + ")"@));
            }
        } else {
            put_piece_if(&mut out, Ghost(p), &tt, Ghost(type_text(ty)), Ghost(np));
            proof { p = p + type_text(ty); }
        }
        proof {
            let sub = vp.subrange(0, i + 1);
            assert(sub.drop_last() =~= vp.subrange(0, i as int));
            assert(sub.last() == vp[i as int]);
            lemma_params_len(sub);
            let ts = param_texts(sub);
            assert(ts.drop_last() == param_texts(vp.subrange(0, i as int)));
            assert(p =~= mid + ts.last());
            if i == 0 {
                assert(p =~= join_s(ts, " "@));
            } else {
                assert(p =~= join_s(ts, " "@));
            }
        }
        i += 1;
    }
    assert(vp.subrange(0, ps.len() as int) =~= vp);
    out
}

/// A keyword (`Int`, `F64`, ...), painted bright blue and bold.
fn pretty_keyword(s: &str) -> (r: String)
    requires
        no_esc(s@),
    ensures
        shows(r@, s@),
{
    let r = paint_bright_blue_bold(s);
    proof { lemma_painted_or_plain(r@, seq!['1', ';', '9', '4'], s@); }
    r
}

#[verifier::rlimit(30)]
fn pretty_base(b: &BaseType) -> (r: String)
    ensures
        base_plain(b@) ==> shows(r@, base_text(b@)),
    decreases b, 1nat,
{
    let ghost np = base_plain(b@);
    let mut out = String::new();
    proof {
        lemma_shows_plain(Seq::empty());
        reveal_strlit("Int");
        reveal_strlit("F64");
        reveal_strlit("Str");
        reveal_strlit("Bool");
        reveal_strlit("{*}");
        reveal_strlit("{");
        reveal_strlit(" | *}");
        reveal_strlit("}");
        reveal_strlit("[*]");
        reveal_strlit("[");
        reveal_strlit(" | *]");
        reveal_strlit("]");
        reveal_strlit(" ");
        reveal_strlit("->");
        reveal_strlit(" -> ");
        reveal_strlit("Task(");
        reveal_strlit(", ");
        reveal_strlit(")");
    }
    match b {
        BaseType::Var(v) => {
            let r = paint_italic(v.as_str());
            proof {
                if np {
                    lemma_painted_or_plain(r@, seq!['3'], v@);
                }
            }
            r
        },
        BaseType::Int => pretty_keyword("Int"),
        BaseType::F64 => pretty_keyword("F64"),
        BaseType::Str => pretty_keyword("Str"),
        BaseType::Bool => pretty_keyword("Bool"),
        BaseType::Record(fs, row) => {
            proof {
                lemma_fields_texts_len(view_fields(fs@), false);
                lemma_view_fields(fs@);
            }
            if row.is_some() && fs.len() == 0 {
                put_str_if(&mut out, Ghost(Seq::empty()), "{*}", Ghost(np));
                assert(Seq::<char>::empty() + "{*}"@ =~= base_text(b@));
            } else {
                put_str_if(&mut out, Ghost(Seq::empty()), "{", Ghost(np));
                let inner = pretty_fields(fs, false);
                let ghost jt = join_s(field_texts(view_fields(fs@)), ", "@);
                put_piece_if(&mut out, Ghost(Seq::<char>::empty() + "{"@), &inner, Ghost(jt), Ghost(np));
                if row.is_some() {
                    put_str_if(&mut out, Ghost(Seq::<char>::empty() + "{"@ + jt), " | *}", Ghost(np));
                    assert(Seq::<char>::empty() + "{"@ + jt + " | *}"@ =~= base_text(b@));
                } else {
                    put_str_if(&mut out, Ghost(Seq::<char>::empty() + "{"@ + jt), "}", Ghost(np));
                    assert(Seq::<char>::empty() + "{"@ + jt + "}"@ =~= base_text(b@));
                }
            }
            out
        },
        BaseType::Union(fs, row) => {
            proof {
                lemma_fields_texts_len(view_fields(fs@), true);
                lemma_view_fields(fs@);
            }
            if row.is_some() && fs.len() == 0 {
                put_str_if(&mut out, Ghost(Seq::empty()), "[*]", Ghost(np));
                assert(Seq::<char>::empty() + "[*]"@ =~= base_text(b@));
            } else {
                put_str_if(&mut out, Ghost(Seq::empty()), "[", Ghost(np));
                let inner = pretty_fields(fs, true);
                let ghost jt = join_s(tag_texts(view_fields(fs@)), ", "@);
                put_piece_if(&mut out, Ghost(Seq::<char>::empty() + "["@), &inner, Ghost(jt), Ghost(np));
                if row.is_some() {
                    put_str_if(&mut out, Ghost(Seq::<char>::empty() + "["@ + jt), " | *]", Ghost(np));
                    assert(Seq::<char>::empty() + "["@ + jt + " | *]"@ =~= base_text(b@));
                } else {
                    put_str_if(&mut out, Ghost(Seq::<char>::empty() + "["@ + jt), "]", Ghost(np));
                    assert(Seq::<char>::empty() + "["@ + jt + "]"@ =~= base_text(b@));
                }
            }
            out
        },
        BaseType::Fun(ps, r) => {
            let ghost jt = join_s(param_texts(view_types(ps@)), " "@);
            let params = pretty_params(ps);
            put_piece_if(&mut out, Ghost(Seq::empty()), &params, Ghost(jt), Ghost(np));
            put_str_if(&mut out, Ghost(Seq::<char>::empty() + jt), " ", Ghost(np));
            let arrow = paint_dimmed("->");
            proof { lemma_painted_or_plain(arrow@, seq!['2'], "->"@); }
            put_piece_if(&mut out, Ghost(Seq::<char>::empty() + jt + " "@), &arrow, Ghost("->"@), Ghost(np));
            put_str_if(&mut out, Ghost(Seq::<char>::empty() + jt + " "@ + "->"@), " ", Ghost(np));
            let rt = pretty_type(r);
            put_piece_if(&mut out, Ghost(Seq::<char>::empty() + jt + " "@ + "->"@ + " "@), &rt, Ghost(type_text((**r)@)), Ghost(np));
            assert(Seq::<char>::empty() + jt + " "@ + "->"@ + " "@ + type_text((**r)@) =~= base_text(b@));
            out
        },
        BaseType::Task(o, e) => {
            put_str_if(&mut out, Ghost(Seq::empty()), "Task(", Ghost(np));
            let ot = pretty_type(o);
            put_piece_if(&mut out, Ghost(Seq::<char>::empty() + "Task("@), &ot, Ghost(type_text((**o)@)), Ghost(np));
            put_str_if(&mut out, Ghost(Seq::<char>::empty() + "Task("@ + type_text((**o)@)), ", ", Ghost(np));
            let et = pretty_type(e);
            put_piece_if(&mut out, Ghost(Seq::<char>::empty() + "Task("@ + type_text((**o)@) + ", "@), &et, Ghost(type_text((**e)@)), Ghost(np));
            put_str_if(&mut out, Ghost(Seq::<char>::empty() + "Task("@ + type_text((**o)@) + ", "@ + type_text((**e)@)), ")", Ghost(np));
            assert(Seq::<char>::empty() + "Task("@ + type_text((**o)@) + ", "@ + type_text((**e)@) + ")"@ =~= base_text(b@));
            out
        },
    }
}

impl Type {
    /// The type for the terminal: the text of [`Type::to_text`], with type
    /// variables in italics, keywords and dimension numbers in bold bright blue,
    /// record keys in bright white, tags in bright yellow and the function arrow
    /// dimmed, when the terminal takes colours. Without an escape character in
    /// its names, the result with its colour codes removed is exactly that text.
    pub fn pretty(&self) -> (r: String)
        ensures
            names_plain(self@) ==> shows(r@, type_text(self@)),
    {
        pretty_type(self)
    }
}

} // verus!
