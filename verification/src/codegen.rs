//! LLVM IR code generation: a whole program becomes one `.ll` file with the
//! runtime declarations, the builtin wrappers, one private constant per distinct
//! string, one function per lambda and `@coda_main`.

use vstd::prelude::*;
use vstd::string::*;
use crate::ast::{BlockItem, Expr, Lit, Spanned};
use crate::codegen_model::{
    branch_scope, cerr, cerr_block, lemma_compiled_free_vars, cerr_branches, cerr_fields,
    cerr_list, first_err, fv, fv_block, fv_branches, fv_fields, fv_idxs, fv_list, lam_scope, module_key, strs,
    strs_branches, strs_fields, strs_items, strs_list,
};
use crate::imports::{import_paths, imports};
use crate::names::{
    seq_lt, sorted_names, add_all, add_name, concat_names, contains_name, copy_names, decimal,
    digit_char, distinct, lemma_names_contains, lemma_names_empty, lemma_names_push, names_set,
    push_char, push_decimal, push_decimal_wide, push_name, push_signed,
};
use vstd::utf8::encode_utf8;
use crate::types::ctx::next_c;
use crate::types::model::{copy_string, names_view, opt_name_view};
use crate::emit_model::{
    alloca_t, apply_g, body_text, call1_t, call2_t, const_at, const_g, const_name, disown_g,
    emit_g, fresh_f, gep_t, label_g, list_g, next_block_g, own_g, owned_at, prepare_export_g,
    record_g, record_stores_g, release_all_g, release_if_owned_g, release_lines, ssa_g, store_t,
    stores_g, str_eq_t, CgC, CgF, lookup_g, keys_g, cg_g, args_g, fields_g, items_g, lam_g,
    branch_g, branches_g, when_g, check_g, labels_g, caps_g, sorted_of, cap_loads_g, arg_loads_g,
    lam_env_g, lam_fn_text, lemma_const_name_injective, phi_text, slot_name, WhenCx,
};
use crate::types::infer_model::{
    all_desugared, branches_desugared, desugared, fields_desugared, items_desugared,
};

verus! {

// ── Compiler state ────────────────────────────────────────────────────────────

struct Compiler {
    counter: u64,
    /// (global name, content) of each string constant, in order of first use.
    string_consts: Vec<(String, String)>,
    top_fns: Vec<String>,
}

/// The view of a constant table: (name, content) pairs.
pub open spec fn consts_view(cs: Seq<(String, String)>) -> Seq<(Seq<char>, Seq<char>)> {
    cs.map_values(|p: (String, String)| (p.0@, p.1@))
}

/// The contents of a constant table.
pub open spec fn contents(cs: Seq<(Seq<char>, Seq<char>)>) -> Set<Seq<char>> {
    Set::new(|s: Seq<char>| exists|i: int| 0 <= i < cs.len() && #[trigger] cs[i].1 == s)
}

/// A constant table names its `i`-th entry `@str_{i}` and holds each content once.
pub open spec fn consts_wf(cs: Seq<(Seq<char>, Seq<char>)>) -> bool {
    &&& forall|i: int| 0 <= i < cs.len() ==> #[trigger] cs[i].0 == const_name(i as nat)
    &&& forall|i: int, j: int| 0 <= i < j < cs.len() ==> #[trigger] cs[i].1 != #[trigger] cs[j].1
}

proof fn lemma_const_at(cs: Seq<(Seq<char>, Seq<char>)>, s: Seq<char>, k: int)
    requires
        0 <= k <= cs.len(),
    ensures
        k <= const_at(cs, s, k) <= cs.len(),
        const_at(cs, s, k) < cs.len() ==> cs[const_at(cs, s, k)].1 == s,
        forall|j: int| k <= j < const_at(cs, s, k) ==> #[trigger] cs[j].1 != s,
    decreases cs.len() - k,
{
    if k < cs.len() && cs[k].1 != s {
        lemma_const_at(cs, s, k + 1);
    }
}

/// Naming string constants: in a table whose `i`-th entry is named `@str_{i}`
/// and in which no content repeats, asking for `s` gives the name of the entry
/// holding `s` if there is one (the table unchanged) and otherwise adds
/// `@str_{k}` holding `s` at the end; the table keeps both properties, and two
/// strings asked for in turn get the same name exactly when they are equal.
pub proof fn lemma_const_names(c: CgC, s: Seq<char>, t: Seq<char>)
    requires
        consts_wf(c.cs),
    ensures
        consts_wf(const_g(c, s).0.cs),
        exists|i: int| 0 <= i < const_g(c, s).0.cs.len() && #[trigger] const_g(c, s).0.cs[i] == (const_g(c, s).1, s),
        contents(c.cs).contains(s) ==> const_g(c, s).0 == c,
        !contents(c.cs).contains(s) ==> const_g(c, s).0.cs == c.cs.push((const_name(c.cs.len()), s)),
        (const_g(const_g(c, s).0, t).1 == const_g(c, s).1) <==> s == t,
{
    let cs = c.cs;
    let i1 = const_at(cs, s, 0);
    lemma_const_at(cs, s, 0);
    let (c1, g1) = const_g(c, s);
    let cs1 = c1.cs;
    if i1 < cs.len() {
        assert(cs[i1] == (g1, s));
        assert(contents(cs).contains(s));
    } else {
        assert forall|i: int, j: int| 0 <= i < j < cs1.len() implies #[trigger] cs1[i].1 != #[trigger] cs1[j].1 by {
            if j == cs.len() {
                assert(cs1[i] == cs[i]);
            } else {
                assert(cs1[i] == cs[i] && cs1[j] == cs[j]);
            }
        }
        assert forall|i: int| 0 <= i < cs1.len() implies #[trigger] cs1[i].0 == const_name(i as nat) by {
            if i < cs.len() {
                assert(cs1[i] == cs[i]);
            }
        }
        assert(cs1[cs.len() as int] == (g1, s));
        assert(!contents(cs).contains(s)) by {
            if contents(cs).contains(s) {
                let k = choose|k: int| 0 <= k < cs.len() && #[trigger] cs[k].1 == s;
                assert(cs[k].1 == s);
            }
        }
    }
    if contents(cs).contains(s) {
        let k = choose|k: int| 0 <= k < cs.len() && #[trigger] cs[k].1 == s;
        assert(cs[k].1 == s);
        assert(i1 < cs.len());
    }
    let ii1 = if i1 < cs.len() { i1 } else { cs.len() as int };
    assert(cs1[ii1] == (g1, s));
    let i2 = const_at(cs1, t, 0);
    lemma_const_at(cs1, t, 0);
    let g2 = const_g(c1, t).1;
    assert(consts_wf(cs1));
    if s == t {
        if i2 > ii1 {
            assert(cs1[ii1].1 != t);
        }
        if i2 < ii1 {
            assert(cs1[i2].1 == t);
            assert(cs1[i2].1 != cs1[ii1].1);
        }
        assert(i2 == ii1);
    }
    if g2 == g1 {
        if i2 < cs1.len() {
            assert(g2 == cs1[i2].0);
            assert(cs1[i2].0 == const_name(i2 as nat));
            assert(g1 == const_name(ii1 as nat));
            lemma_const_name_injective(i2 as nat, ii1 as nat);
        } else {
            assert(g2 == const_name(cs1.len()));
            assert(g1 == const_name(ii1 as nat));
            lemma_const_name_injective(cs1.len(), ii1 as nat);
        }
    }
}

impl Compiler {
    spec fn cview(&self) -> Seq<(Seq<char>, Seq<char>)> {
        consts_view(self.string_consts@)
    }

    /// The model of the compiler's state.
    spec fn gc(&self) -> CgC {
        CgC { n: self.counter, cs: self.cview(), fns: names_view(self.top_fns@) }
    }

    spec fn wf(&self) -> bool {
        consts_wf(self.cview())
    }

    fn new() -> (c: Self)
        ensures
            c.wf(),
            c.counter == 0,
            c.cview().len() == 0,
            c.top_fns@.len() == 0,
    {
        let c = Compiler { counter: 0, string_consts: Vec::new(), top_fns: Vec::new() };
        assert(c.cview() =~= Seq::empty());
        c
    }

    fn next(&mut self) -> (n: u64)
        ensures
            n == old(self).counter,
            final(self).counter == next_c(n),
            final(self).string_consts == old(self).string_consts,
            final(self).top_fns == old(self).top_fns,
    {
        let n = self.counter;
        self.counter = if n == u64::MAX { 0 } else { n + 1 };
        n
    }

    /// `%{prefix}_{n}`.
    fn ssa(&mut self, prefix: &str) -> (r: String)
        ensures
            (final(self).gc(), r@) == ssa_g(old(self).gc(), prefix@),
            r@ == seq!['%'] + prefix@ + seq!['_'] + decimal(old(self).counter as nat),
            final(self).counter == next_c(old(self).counter),
            final(self).string_consts == old(self).string_consts,
            final(self).top_fns == old(self).top_fns,
    {
        let n = self.next();
        let mut s = String::new();
        push_char(&mut s, '%');
        s.append(prefix);
        push_char(&mut s, '_');
        push_decimal(&mut s, n);
        s
    }

    /// `{prefix}_{n}`.
    fn label(&mut self, prefix: &str) -> (r: String)
        ensures
            (final(self).gc(), r@) == label_g(old(self).gc(), prefix@),
            r@ == prefix@ + seq!['_'] + decimal(old(self).counter as nat),
            final(self).counter == next_c(old(self).counter),
            final(self).string_consts == old(self).string_consts,
            final(self).top_fns == old(self).top_fns,
    {
        let n = self.next();
        let mut s = String::new();
        s.append(prefix);
        push_char(&mut s, '_');
        push_decimal(&mut s, n);
        s
    }

    /// The global name for string constant `s`; a content already in the table
    /// keeps its name, a new one is appended as `@str_{len}`.
    fn string_const(&mut self, s: &str) -> (r: String)
        requires
            old(self).wf(),
        ensures
            (final(self).gc(), r@) == const_g(old(self).gc(), s@),
            final(self).wf(),
            final(self).counter == old(self).counter,
            final(self).top_fns == old(self).top_fns,
            forall|i: int| 0 <= i < old(self).cview().len() && #[trigger] old(self).cview()[i].1 == s@ ==>
                r@ == old(self).cview()[i].0 && final(self).cview() == old(self).cview(),
            !contents(old(self).cview()).contains(s@) ==> r@ == const_name(old(self).cview().len())
                && final(self).cview() == old(self).cview().push((r@, s@)),
            contents(final(self).cview()) == contents(old(self).cview()).insert(s@),
            old(self).cview().is_prefix_of(final(self).cview()),
    {
        let content = String::from_str(s);
        let mut i: usize = 0;
        while i < self.string_consts.len()
            invariant
                i <= self.string_consts.len(),
                self.wf(),
                content@ == s@,
                forall|j: int| 0 <= j < i ==> #[trigger] self.cview()[j].1 != s@,
                self.gc() == old(self).gc(),
                const_at(self.cview(), s@, 0) == const_at(self.cview(), s@, i as int),
            decreases self.string_consts.len() - i,
        {
            if self.string_consts[i].1 == content {
                proof {
                    assert(self.cview()[i as int].1 == s@);
                    assert(contents(self.cview()).insert(s@) =~= contents(self.cview()));
                    assert(self.cview().is_prefix_of(self.cview()));
                }
                return self.string_consts[i].0.clone();
            }
            i += 1;
        }
        proof {
            assert(!contents(self.cview()).contains(s@));
        }
        let ghost old_cv = self.cview();
        let mut name = String::new();
        name.append("@str_");
        push_decimal(&mut name, self.string_consts.len() as u64);
        proof {
            reveal_strlit("@str_");
            assert(name@ =~= const_name(old_cv.len()));
        }
        self.string_consts.push((name.clone(), content));
        proof {
            assert(self.cview() =~= old_cv.push((name@, s@)));
            assert(contents(self.cview()) =~= contents(old_cv).insert(s@)) by {
                assert forall|x: Seq<char>| contents(old_cv).insert(s@).contains(x) implies contents(self.cview()).contains(x) by {
                    if x == s@ {
                        assert(self.cview()[old_cv.len() as int].1 == x);
                    } else {
                        let k = choose|k: int| 0 <= k < old_cv.len() && #[trigger] old_cv[k].1 == x;
                        assert(self.cview()[k].1 == x);
                    }
                }
                assert forall|x: Seq<char>| contents(self.cview()).contains(x) implies contents(old_cv).insert(s@).contains(x) by {
                    let k = choose|k: int| 0 <= k < self.cview().len() && #[trigger] self.cview()[k].1 == x;
                    if k < old_cv.len() {
                        assert(old_cv[k].1 == x);
                    }
                }
            }
            assert(old_cv.is_prefix_of(self.cview())) by {
                assert(old_cv =~= self.cview().subrange(0, old_cv.len() as int));
            }
        }
        name
    }
}

// ── Function builder ─────────────────────────────────────────────────────────

struct FnBuilder {
    done: Vec<(String, Vec<String>)>,
    cur_label: String,
    cur_instrs: Vec<String>,
    /// The values this function owns a reference to, each once.
    owned: Vec<String>,
}

/// Each instruction on a line of its own, indented by two spaces.
pub open spec fn instrs_text(is: Seq<String>) -> Seq<char>
    decreases is.len(),
{
    if is.len() == 0 {
        Seq::empty()
    } else {
        instrs_text(is.drop_last()) + "  "@ + is.last()@ + "\n"@
    }
}

/// A basic block: its label line, then its instructions.
pub open spec fn block_text(label: Seq<char>, is: Seq<String>) -> Seq<char> {
    label + ":\n"@ + instrs_text(is)
}

pub open spec fn blocks_text(bs: Seq<(String, Vec<String>)>) -> Seq<char>
    decreases bs.len(),
{
    if bs.len() == 0 {
        Seq::empty()
    } else {
        blocks_text(bs.drop_last()) + block_text(bs.last().0@, bs.last().1@)
    }
}

proof fn lemma_instrs_text(is: Seq<String>)
    ensures
        instrs_text(is) == crate::emit_model::lines_text(names_view(is)),
    decreases is.len(),
{
    if is.len() > 0 {
        lemma_instrs_text(is.drop_last());
        assert(names_view(is).drop_last() =~= names_view(is.drop_last()));
    }
}

proof fn lemma_blocks_text(bs: Seq<(String, Vec<String>)>)
    ensures
        blocks_text(bs) == crate::emit_model::blocks_g_text(bs.map_values(|b: (String, Vec<String>)| (b.0@, names_view(b.1@)))),
    decreases bs.len(),
{
    if bs.len() > 0 {
        lemma_blocks_text(bs.drop_last());
        lemma_instrs_text(bs.last().1@);
        assert(bs.map_values(|b: (String, Vec<String>)| (b.0@, names_view(b.1@))).drop_last()
            =~= bs.drop_last().map_values(|b: (String, Vec<String>)| (b.0@, names_view(b.1@))));
    }
}

impl FnBuilder {
    /// The model of the function being built.
    spec fn gf(&self) -> CgF {
        CgF {
            done: self.done@.map_values(|b: (String, Vec<String>)| (b.0@, names_view(b.1@))),
            label: self.cur_label@,
            instrs: names_view(self.cur_instrs@),
            owned: names_view(self.owned@),
        }
    }

    /// The function body as it would be printed now.
    spec fn text(&self) -> Seq<char> {
        blocks_text(self.done@) + block_text(self.cur_label@, self.cur_instrs@)
    }

    fn new() -> (fb: Self)
        ensures
            fb.text() == "entry"@ + ":\n"@,
            fb.gf() == fresh_f(),
    {
        let fb = FnBuilder { done: Vec::new(), cur_label: String::from_str("entry"), cur_instrs: Vec::new(), owned: Vec::new() };
        assert(fb.text() =~= "entry"@ + ":\n"@);
        assert(fb.gf().done =~= fresh_f().done);
        assert(fb.gf().instrs =~= fresh_f().instrs);
        assert(fb.gf().owned =~= fresh_f().owned);
        fb
    }

    fn cur_label(&self) -> (r: String)
        ensures
            r@ == self.cur_label@,
    {
        self.cur_label.clone()
    }

    fn emit(&mut self, s: String)
        ensures
            final(self).gf() == emit_g(old(self).gf(), s@),
            final(self).text() == old(self).text() + "  "@ + s@ + "\n"@,
            final(self).done@ == old(self).done@,
            final(self).cur_label@ == old(self).cur_label@,
    {
        let ghost is0 = self.cur_instrs@;
        self.cur_instrs.push(s);
        proof {
            assert(self.cur_instrs@.drop_last() =~= is0);
            assert(self.text() =~= old(self).text() + "  "@ + s@ + "\n"@);
            assert(self.gf().instrs =~= old(self).gf().instrs.push(s@));
        }
    }

    /// Seals the current block and starts a new one with the given label.
    fn next_block(&mut self, label: String)
        ensures
            final(self).gf() == next_block_g(old(self).gf(), label@),
            final(self).text() == old(self).text() + label@ + ":\n"@,
            final(self).cur_label@ == label@,
    {
        let mut old_instrs: Vec<String> = Vec::new();
        std::mem::swap(&mut old_instrs, &mut self.cur_instrs);
        let mut old_label = label;
        std::mem::swap(&mut old_label, &mut self.cur_label);
        let ghost d0 = self.done@;
        self.done.push((old_label, old_instrs));
        self.owned = Vec::new();
        proof {
            assert(self.done@.drop_last() =~= d0);
            assert(instrs_text(self.cur_instrs@) =~= Seq::empty());
            assert(self.text() =~= old(self).text() + label@ + ":\n"@);
            assert(self.gf().done =~= old(self).gf().done.push((old(self).gf().label, old(self).gf().instrs)));
            assert(self.gf().instrs =~= Seq::<Seq<char>>::empty());
            assert(self.gf().owned =~= Seq::<Seq<char>>::empty());
        }
    }

    fn emit_br(&mut self, label: &String)
        ensures
            final(self).gf() == emit_g(old(self).gf(), "br label %"@ + label@),
            old(self).text().is_prefix_of(final(self).text()),
            final(self).cur_label@ == old(self).cur_label@,
    {
        let mut s = String::from_str("br label %");
        s.append(label.as_str());
        self.emit(s);
        proof { lemma_prefix_append(old(self).text(), "  "@ + s@ + "\n"@); }
    }

    fn emit_condbr(&mut self, cond: &String, t: &String, f: &String)
        ensures
            final(self).gf() == emit_g(old(self).gf(), "br i1 "@ + cond@ + ", label %"@ + t@ + ", label %"@ + f@),
            old(self).text().is_prefix_of(final(self).text()),
            final(self).cur_label@ == old(self).cur_label@,
    {
        let mut s = String::from_str("br i1 ");
        s.append(cond.as_str());
        s.append(", label %");
        s.append(t.as_str());
        s.append(", label %");
        s.append(f.as_str());
        self.emit(s);
        proof { lemma_prefix_append(old(self).text(), "  "@ + s@ + "\n"@); }
    }

    fn emit_ret(&mut self, val: &String)
        ensures
            final(self).gf() == emit_g(old(self).gf(), "ret ptr "@ + val@),
            old(self).text().is_prefix_of(final(self).text()),
    {
        let mut s = String::from_str("ret ptr ");
        s.append(val.as_str());
        self.emit(s);
        proof { lemma_prefix_append(old(self).text(), "  "@ + s@ + "\n"@); }
    }

    fn is_owned(&self, ssa: &String) -> (r: bool)
        ensures
            r == exists|i: int| 0 <= i < self.owned@.len() && #[trigger] self.owned@[i]@ == ssa@,
            r == self.gf().owned.contains(ssa@),
    {
        proof {
            if self.gf().owned.contains(ssa@) {
                let i = choose|i: int| 0 <= i < self.gf().owned.len() && self.gf().owned[i] == ssa@;
                assert(self.owned@[i]@ == ssa@);
            }
            if exists|i: int| 0 <= i < self.owned@.len() && #[trigger] self.owned@[i]@ == ssa@ {
                let i = choose|i: int| 0 <= i < self.owned@.len() && #[trigger] self.owned@[i]@ == ssa@;
                assert(self.gf().owned[i] == ssa@);
            }
        }
        let mut i: usize = 0;
        while i < self.owned.len()
            invariant
                i <= self.owned.len(),
                forall|j: int| 0 <= j < i ==> #[trigger] self.owned@[j]@ != ssa@,
            decreases self.owned.len() - i,
        {
            if self.owned[i] == *ssa {
                proof {
                    assert(self.gf().owned[i as int] == ssa@);
                }
                return true;
            }
            i += 1;
        }
        false
    }

    fn own(&mut self, ssa: &String)
        ensures
            final(self).gf() == own_g(old(self).gf(), ssa@),
            final(self).text() == old(self).text(),
            final(self).cur_label@ == old(self).cur_label@,
    {
        if !self.is_owned(ssa) {
            self.owned.push(ssa.clone());
            assert(self.gf().owned =~= old(self).gf().owned.push(ssa@));
        }
    }

    /// Removes `ssa` from the owned values; whether it was there.
    fn disown(&mut self, ssa: &String) -> (r: bool)
        ensures
            (final(self).gf(), r) == disown_g(old(self).gf(), ssa@),
            final(self).text() == old(self).text(),
            final(self).cur_label@ == old(self).cur_label@,
    {
        let mut i: usize = 0;
        while i < self.owned.len()
            invariant
                i <= self.owned.len(),
                self.gf() == old(self).gf(),
                self.text() == old(self).text(),
                self.cur_label@ == old(self).cur_label@,
                owned_at(self.gf().owned, ssa@, 0) == owned_at(self.gf().owned, ssa@, i as int),
            decreases self.owned.len() - i,
        {
            if self.owned[i] == *ssa {
                let ghost o0 = self.owned@;
                self.owned.remove(i);
                assert(self.gf().owned =~= names_view(o0).remove(i as int));
                return true;
            }
            i += 1;
        }
        false
    }

    fn release_if_owned(&mut self, ssa: &String)
        ensures
            final(self).gf() == release_if_owned_g(old(self).gf(), ssa@),
            old(self).text().is_prefix_of(final(self).text()),
            final(self).cur_label@ == old(self).cur_label@,
    {
        if self.disown(ssa) {
            let mut s = String::from_str("call void @coda_release(ptr ");
            s.append(ssa.as_str());
            s.append(")");
            self.emit(s);
            proof { lemma_prefix_append(old(self).text(), "  "@ + s@ + "\n"@); }
        } else {
            proof { lemma_prefix_refl(old(self).text()); }
        }
    }

    /// Makes sure `export` is owned (retaining it if it was borrowed), releases
    /// every other owned value, and hands `export` over to the caller.
    fn prepare_export(&mut self, export: &String)
        ensures
            final(self).gf() == prepare_export_g(old(self).gf(), export@),
            old(self).text().is_prefix_of(final(self).text()),
            final(self).cur_label@ == old(self).cur_label@,
    {
        proof { lemma_prefix_refl(old(self).text()); }
        if !self.is_owned(export) {
            let mut s = String::from_str("call void @coda_retain(ptr ");
            s.append(export.as_str());
            s.append(")");
            self.emit(s);
            proof { lemma_prefix_append(old(self).text(), "  "@ + s@ + "\n"@); }
        }
        let ghost f1 = self.gf();
        let mut to_release: Vec<String> = Vec::new();
        std::mem::swap(&mut to_release, &mut self.owned);
        let mut i: usize = 0;
        proof {
            assert(release_lines(f1.owned.take(0), export@) =~= Seq::empty());
            assert(self.gf().instrs =~= f1.instrs + Seq::empty());
            assert(self.gf().owned =~= Seq::<Seq<char>>::empty());
        }
        while i < to_release.len()
            invariant
                i <= to_release.len(),
                names_view(to_release@) == f1.owned,
                self.gf() == (CgF { done: f1.done, label: f1.label, instrs: f1.instrs + release_lines(f1.owned.take(i as int), export@), owned: Seq::empty() }),
                old(self).text().is_prefix_of(self.text()),
                self.cur_label@ == old(self).cur_label@,
            decreases to_release.len() - i,
        {
            proof {
                assert(f1.owned.take(i + 1).drop_last() =~= f1.owned.take(i as int));
                assert(f1.owned.take(i + 1).last() == to_release@[i as int]@);
            }
            if !(to_release[i] == *export) {
                let ghost t0 = self.text();
                let mut s = String::from_str("call void @coda_release(ptr ");
                s.append(to_release[i].as_str());
                s.append(")");
                self.emit(s);
                proof {
                    lemma_prefix_append(t0, "  "@ + s@ + "\n"@);
                    lemma_prefix_trans(old(self).text(), t0, self.text());
                    assert(self.gf().instrs =~= f1.instrs + release_lines(f1.owned.take(i + 1), export@));
                }
            }
            i += 1;
        }
        proof {
            assert(f1.owned.take(to_release.len() as int) =~= f1.owned);
        }
    }

    fn to_ir(self) -> (r: String)
        ensures
            r@ == self.text(),
            r@ == body_text(self.gf()),
    {
        let mut out = String::new();
        let mut i: usize = 0;
        assert(self.done@.take(0) =~= Seq::empty());
        while i < self.done.len()
            invariant
                i <= self.done.len(),
                out@ == blocks_text(self.done@.take(i as int)),
            decreases self.done.len() - i,
        {
            push_block(&mut out, &self.done[i].0, &self.done[i].1);
            assert(self.done@.take(i + 1).drop_last() =~= self.done@.take(i as int));
            i += 1;
        }
        assert(self.done@.take(self.done.len() as int) =~= self.done@);
        push_block(&mut out, &self.cur_label, &self.cur_instrs);
        proof {
            lemma_blocks_text(self.done@);
            lemma_instrs_text(self.cur_instrs@);
        }
        out
    }
}

fn push_block(out: &mut String, label: &String, instrs: &Vec<String>)
    ensures
        final(out)@ == old(out)@ + block_text(label@, instrs@),
{
    out.append(label.as_str());
    out.append(":\n");
    let mut i: usize = 0;
    assert(instrs@.take(0) =~= Seq::empty());
    while i < instrs.len()
        invariant
            i <= instrs.len(),
            out@ == old(out)@ + label@ + ":\n"@ + instrs_text(instrs@.take(i as int)),
        decreases instrs.len() - i,
    {
        out.append("  ");
        out.append(instrs[i].as_str());
        out.append("\n");
        assert(instrs@.take(i + 1).drop_last() =~= instrs@.take(i as int));
        i += 1;
    }
    assert(instrs@.take(instrs.len() as int) =~= instrs@);
    assert(out@ =~= old(out)@ + block_text(label@, instrs@));
}

// ── String constant emission ──────────────────────────────────────────────────

/// The hexadecimal digit of `d` (`d < 16`), upper case.
pub open spec fn hex_char(d: nat) -> char {
    if d < 10 { digit_char(d) } else if d == 10 { 'A' } else if d == 11 { 'B' } else if d == 12 { 'C' }
    else if d == 13 { 'D' } else if d == 14 { 'E' } else { 'F' }
}

/// How one byte is written inside an LLVM `c"..."` string: a backslash doubled,
/// printable ASCII as itself, and every other byte as `\` and two hex digits.
pub open spec fn escape_byte(b: u8) -> Seq<char> {
    if b == 0x5c {
        seq!['\\', '\\']
    } else if b == 0x22 {
        seq!['\\', '2', '2']
    } else if b == 0x0a {
        seq!['\\', '0', 'A']
    } else if b == 0x0d {
        seq!['\\', '0', 'D']
    } else if b == 0x09 {
        seq!['\\', '0', '9']
    } else if 0x20 <= b < 0x7f {
        seq![b as char]
    } else {
        seq!['\\', hex_char((b / 16) as nat), hex_char((b % 16) as nat)]
    }
}

pub open spec fn escape_bytes(bs: Seq<u8>) -> Seq<char>
    decreases bs.len(),
{
    if bs.len() == 0 { Seq::empty() } else { escape_bytes(bs.drop_last()) + escape_byte(bs.last()) }
}

/// The LLVM string literal body for `s`: its UTF-8 bytes escaped, then the
/// terminating NUL.
pub open spec fn llvm_escape_s(s: Seq<char>) -> Seq<char> {
    escape_bytes(encode_utf8(s)) + seq!['\\', '0', '0']
}

/// The value of a hexadecimal digit written by [`hex_char`].
pub open spec fn hex_val(c: char) -> nat {
    if c == '0' { 0 } else if c == '1' { 1 } else if c == '2' { 2 } else if c == '3' { 3 }
    else if c == '4' { 4 } else if c == '5' { 5 } else if c == '6' { 6 } else if c == '7' { 7 }
    else if c == '8' { 8 } else if c == '9' { 9 } else if c == 'A' { 10 } else if c == 'B' { 11 }
    else if c == 'C' { 12 } else if c == 'D' { 13 } else if c == 'E' { 14 } else { 15 }
}

/// The bytes an LLVM `c"..."` string body stands for: `\\` is a backslash, `\`
/// and two hex digits the byte they spell, any other character its own code.
pub open spec fn llvm_unescape(cs: Seq<char>) -> Seq<u8>
    decreases cs.len(),
{
    if cs.len() == 0 {
        Seq::empty()
    } else if cs[0] == '\\' {
        if cs.len() >= 2 && cs[1] == '\\' {
            seq![0x5cu8] + llvm_unescape(cs.skip(2))
        } else if cs.len() >= 3 {
            seq![(hex_val(cs[1]) * 16 + hex_val(cs[2])) as u8] + llvm_unescape(cs.skip(3))
        } else {
            Seq::empty()
        }
    } else {
        seq![cs[0] as u8] + llvm_unescape(cs.skip(1))
    }
}

proof fn lemma_hex_roundtrip(d: nat)
    requires
        d < 16,
    ensures
        hex_val(hex_char(d)) == d,
        hex_char(d) != '\\',
{
}

proof fn lemma_unescape_byte(b: u8, t: Seq<char>)
    ensures
        llvm_unescape(escape_byte(b) + t) == seq![b] + llvm_unescape(t),
{
    let cs = escape_byte(b) + t;
    let k = escape_byte(b).len();
    assert(cs.skip(k as int) =~= t);
    if b == 0x5c {
    } else if b == 0x22 || b == 0x0a || b == 0x0d || b == 0x09 {
        assert(hex_val(cs[1]) * 16 + hex_val(cs[2]) == b as nat);
    } else if 0x20 <= b < 0x7f {
        assert(cs[0] == b as char);
        assert((b as char) as u8 == b);
    } else {
        lemma_hex_roundtrip((b / 16) as nat);
        lemma_hex_roundtrip((b % 16) as nat);
        assert((b / 16) as nat * 16 + (b % 16) as nat == b as nat);
    }
    assert(llvm_unescape(cs) =~= seq![b] + llvm_unescape(t));
}

proof fn lemma_unescape_bytes(bs: Seq<u8>, t: Seq<char>)
    ensures
        llvm_unescape(escape_bytes(bs) + t) == bs + llvm_unescape(t),
    decreases bs.len(),
{
    if bs.len() == 0 {
        assert(escape_bytes(bs) + t =~= t);
        assert(bs + llvm_unescape(t) =~= llvm_unescape(t));
    } else {
        let init = bs.drop_last();
        lemma_unescape_byte(bs.last(), t);
        lemma_unescape_bytes(init, escape_byte(bs.last()) + t);
        assert(escape_bytes(bs) + t =~= escape_bytes(init) + (escape_byte(bs.last()) + t));
        assert(init + (seq![bs.last()] + llvm_unescape(t)) =~= bs + llvm_unescape(t));
    }
}

/// A printable ASCII character other than `"`, which may stand inside an LLVM
/// `c"..."` string as it is.
pub open spec fn plain_char(c: char) -> bool {
    0x20 <= (c as u32) && (c as u32) < 0x7f && c != '"'
}

proof fn lemma_escape_bytes_plain(bs: Seq<u8>)
    ensures
        forall|i: int| 0 <= i < escape_bytes(bs).len() ==> plain_char(#[trigger] escape_bytes(bs)[i]),
    decreases bs.len(),
{
    if bs.len() > 0 {
        lemma_escape_bytes_plain(bs.drop_last());
        let b = bs.last();
        if !(b == 0x5c || b == 0x22 || b == 0x0a || b == 0x0d || b == 0x09 || (0x20 <= b && b < 0x7f)) {
            lemma_hex_plain((b / 16) as nat);
            lemma_hex_plain((b % 16) as nat);
        }
        let a = escape_bytes(bs.drop_last());
        let e = escape_byte(b);
        assert forall|i: int| 0 <= i < (a + e).len() implies plain_char(#[trigger] (a + e)[i]) by {
            if i >= a.len() {
                assert((a + e)[i] == e[i - a.len()]);
            }
        }
    }
}

proof fn lemma_hex_plain(d: nat)
    requires
        d < 16,
    ensures
        plain_char(hex_char(d)),
{
}

/// The escaped text of `s` holds only printable ASCII other than `"`, and read
/// back as LLVM reads a `c"..."` string it is the UTF-8 bytes of `s` followed by
/// the terminating NUL.
pub proof fn lemma_llvm_escape_roundtrip(s: Seq<char>)
    ensures
        llvm_unescape(llvm_escape_s(s)) == encode_utf8(s) + seq![0u8],
        forall|i: int| 0 <= i < llvm_escape_s(s).len() ==> plain_char(#[trigger] llvm_escape_s(s)[i]),
{
    lemma_escape_bytes_plain(encode_utf8(s));
    let a = escape_bytes(encode_utf8(s));
    let z = seq!['\\', '0', '0'];
    assert forall|i: int| 0 <= i < (a + z).len() implies plain_char(#[trigger] (a + z)[i]) by {
        if i >= a.len() {
            assert((a + z)[i] == z[i - a.len()]);
        }
    }
    let nul = seq!['\\', '0', '0'];
    lemma_unescape_bytes(encode_utf8(s), nul);
    assert(nul.skip(3) =~= Seq::<char>::empty());
    assert(llvm_unescape(nul.skip(3)) == Seq::<u8>::empty());
    assert(nul[0] == '\\' && nul[1] == '0' && nul[2] == '0');
    assert(llvm_unescape(nul) == seq![0u8] + llvm_unescape(nul.skip(3)));
    assert(seq![0u8] + Seq::<u8>::empty() =~= seq![0u8]);
}

fn hex_digit(d: u8) -> (c: char)
    requires
        d < 16,
    ensures
        c == hex_char(d as nat),
{
    if d == 0 { '0' } else if d == 1 { '1' } else if d == 2 { '2' } else if d == 3 { '3' }
    else if d == 4 { '4' } else if d == 5 { '5' } else if d == 6 { '6' } else if d == 7 { '7' }
    else if d == 8 { '8' } else if d == 9 { '9' } else if d == 10 { 'A' } else if d == 11 { 'B' }
    else if d == 12 { 'C' } else if d == 13 { 'D' } else if d == 14 { 'E' } else { 'F' }
}

fn push_escaped_byte(out: &mut String, b: u8)
    ensures
        final(out)@ == old(out)@ + escape_byte(b),
{
    if b == 0x5c {
        push_char(out, '\\');
        push_char(out, '\\');
    } else if b == 0x22 {
        push_char(out, '\\');
        push_char(out, '2');
        push_char(out, '2');
    } else if b == 0x0a {
        push_char(out, '\\');
        push_char(out, '0');
        push_char(out, 'A');
    } else if b == 0x0d {
        push_char(out, '\\');
        push_char(out, '0');
        push_char(out, 'D');
    } else if b == 0x09 {
        push_char(out, '\\');
        push_char(out, '0');
        push_char(out, '9');
    } else if 0x20 <= b && b < 0x7f {
        push_char(out, b as char);
    } else {
        push_char(out, '\\');
        push_char(out, hex_digit(b / 16));
        push_char(out, hex_digit(b % 16));
    }
    assert(out@ =~= old(out)@ + escape_byte(b));
}

/// Escapes `s` for an LLVM `c"..."` constant.
fn llvm_escape(s: &str) -> (r: String)
    ensures
        r@ == llvm_escape_s(s@),
{
    let bytes = s.as_bytes();
    let mut out = String::new();
    let mut i: usize = 0;
    assert(bytes@.take(0) =~= Seq::<u8>::empty());
    while i < bytes.len()
        invariant
            i <= bytes@.len(),
            bytes@ == encode_utf8(s@),
            out@ == escape_bytes(bytes@.take(i as int)),
        decreases bytes.len() - i,
    {
        push_escaped_byte(&mut out, bytes[i]);
        assert(bytes@.take(i + 1).drop_last() =~= bytes@.take(i as int));
        i += 1;
    }
    assert(bytes@.take(bytes@.len() as int) =~= bytes@);
    push_char(&mut out, '\\');
    push_char(&mut out, '0');
    push_char(&mut out, '0');
    assert(out@ =~= llvm_escape_s(s@));
    out
}

// ── Builtin names to wrapper function names ───────────────────────────────────

/// The runtime wrapper that implements builtin `name`, if it has one.
pub open spec fn builtin_wrapper(name: Seq<char>) -> Option<Seq<char>> {
    if name == "++"@ { Some("builtin_str_concat"@) }
    else if name == "+"@ { Some("builtin_add"@) }
    else if name == "-"@ { Some("builtin_sub"@) }
    else if name == "*"@ { Some("builtin_mul"@) }
    else if name == "=="@ { Some("builtin_eq"@) }
    else if name == "fix"@ { Some("builtin_fix"@) }
    else if name == "::"@ { Some("builtin_cons"@) }
    else if name == "cons"@ { Some("builtin_cons"@) }
    else if name == "<>"@ { Some("builtin_append"@) }
    else if name == "append"@ { Some("builtin_append"@) }
    else if name == "head"@ { Some("builtin_head"@) }
    else if name == "tail"@ { Some("builtin_tail"@) }
    else if name == "len"@ { Some("builtin_len"@) }
    else if name == "map"@ { Some("builtin_map"@) }
    else if name == "fold"@ { Some("builtin_fold"@) }
    else if name == "list_of"@ { Some("builtin_list_of"@) }
    else if name == "list_init"@ { Some("builtin_list_init"@) }
    else { None }
}

/// The names a compiled program starts with: the builtins that have a wrapper.
pub open spec fn builtin_scope() -> Set<Seq<char>> {
    Set::new(|n: Seq<char>| builtin_wrapper(n) is Some)
}

fn is_name(n: &String, s: &str) -> (r: bool)
    ensures
        r == (n@ == s@),
{
    *n == s.to_owned()
}

fn builtin_fn(name: &String) -> (r: Option<&'static str>)
    ensures
        match r {
            Some(w) => builtin_wrapper(name@) == Some(w@),
            None => builtin_wrapper(name@) is None,
        },
{
    if is_name(name, "++") { Some("builtin_str_concat") }
    else if is_name(name, "+") { Some("builtin_add") }
    else if is_name(name, "-") { Some("builtin_sub") }
    else if is_name(name, "*") { Some("builtin_mul") }
    else if is_name(name, "==") { Some("builtin_eq") }
    else if is_name(name, "fix") { Some("builtin_fix") }
    else if is_name(name, "::") { Some("builtin_cons") }
    else if is_name(name, "cons") { Some("builtin_cons") }
    else if is_name(name, "<>") { Some("builtin_append") }
    else if is_name(name, "append") { Some("builtin_append") }
    else if is_name(name, "head") { Some("builtin_head") }
    else if is_name(name, "tail") { Some("builtin_tail") }
    else if is_name(name, "len") { Some("builtin_len") }
    else if is_name(name, "map") { Some("builtin_map") }
    else if is_name(name, "fold") { Some("builtin_fold") }
    else if is_name(name, "list_of") { Some("builtin_list_of") }
    else if is_name(name, "list_init") { Some("builtin_list_init") }
    else { None }
}

// ── Environments ──────────────────────────────────────────────────────────────

/// Source name to SSA value; a later entry shadows an earlier one.
type CEnv = Vec<(String, String)>;

pub open spec fn env_keys(env: Seq<(String, String)>) -> Set<Seq<char>> {
    env.map_values(|p: (String, String)| p.0@).to_set()
}

proof fn lemma_keys_contains(env: Seq<(String, String)>, x: Seq<char>)
    ensures
        env_keys(env).contains(x) <==> exists|i: int| 0 <= i < env.len() && #[trigger] env[i].0@ == x,
{
    let m = env.map_values(|p: (String, String)| p.0@);
    if env_keys(env).contains(x) {
        let i = choose|i: int| 0 <= i < m.len() && m[i] == x;
        assert(env[i].0@ == x);
    }
    if exists|i: int| 0 <= i < env.len() && #[trigger] env[i].0@ == x {
        let i = choose|i: int| 0 <= i < env.len() && #[trigger] env[i].0@ == x;
        assert(m[i] == x);
    }
}

proof fn lemma_keys_push(env: Seq<(String, String)>, p: (String, String))
    ensures
        env_keys(env.push(p)) == env_keys(env).insert(p.0@),
{
    assert(env.push(p).map_values(|q: (String, String)| q.0@) =~= env.map_values(|q: (String, String)| q.0@).push(p.0@));
    env.map_values(|q: (String, String)| q.0@).lemma_push_to_set_commute(p.0@);
}

proof fn lemma_keys_empty()
    ensures
        env_keys(Seq::<(String, String)>::empty()) == Set::<Seq<char>>::empty(),
{
    assert(Seq::<(String, String)>::empty().map_values(|p: (String, String)| p.0@) =~= Seq::<Seq<char>>::empty());
    assert(env_keys(Seq::<(String, String)>::empty()) =~= Set::<Seq<char>>::empty());
}

/// The model of an environment: (name, value) pairs.
pub open spec fn env_v(env: Seq<(String, String)>) -> Seq<(Seq<char>, Seq<char>)> {
    env.map_values(|p: (String, String)| (p.0@, p.1@))
}

proof fn lemma_lookup_none(env: Seq<(String, String)>, name: Seq<char>)
    requires
        forall|j: int| 0 <= j < env.len() ==> #[trigger] env[j].0@ != name,
    ensures
        lookup_g(env_v(env), name) is None,
    decreases env.len(),
{
    if env.len() > 0 {
        assert(env_v(env).drop_last() =~= env_v(env.drop_last()));
        lemma_lookup_none(env.drop_last(), name);
    }
}

proof fn lemma_lookup_at(env: Seq<(String, String)>, name: Seq<char>, i: int)
    requires
        0 <= i < env.len(),
        env[i].0@ == name,
        forall|j: int| i < j < env.len() ==> #[trigger] env[j].0@ != name,
    ensures
        lookup_g(env_v(env), name) == Some(env[i].1@),
    decreases env.len(),
{
    if i < env.len() - 1 {
        assert(env_v(env).drop_last() =~= env_v(env.drop_last()));
        lemma_lookup_at(env.drop_last(), name, i);
    }
}

proof fn lemma_keys_g(env: Seq<(String, String)>)
    ensures
        env_keys(env) == keys_g(env_v(env)),
{
    assert(env.map_values(|p: (String, String)| p.0@) =~= env_v(env).map_values(|p: (Seq<char>, Seq<char>)| p.0));
}

fn env_get(env: &CEnv, name: &String) -> (r: Option<String>)
    ensures
        r is Some <==> env_keys(env@).contains(name@),
        opt_name_view(r) == lookup_g(env_v(env@), name@),
{
    proof { lemma_keys_contains(env@, name@); }
    let mut i = env.len();
    while i > 0
        invariant
            i <= env.len(),
            forall|j: int| i <= j < env.len() ==> #[trigger] env@[j].0@ != name@,
        decreases i,
    {
        i -= 1;
        if env[i].0 == *name {
            proof {
                assert(env@[i as int].0@ == name@);
                lemma_keys_contains(env@, name@);
                lemma_lookup_at(env@, name@, i as int);
            }
            return Some(env[i].1.clone());
        }
    }
    proof { lemma_lookup_none(env@, name@); }
    None
}

fn env_insert(env: &mut CEnv, name: &String, ssa: String)
    ensures
        env_keys(final(env)@) == env_keys(old(env)@).insert(name@),
        env_v(final(env)@) == env_v(old(env)@).push((name@, ssa@)),
{
    let ghost e0 = env@;
    let ghost sv = ssa@;
    env.push((name.clone(), ssa));
    proof {
        lemma_keys_push(e0, env@.last());
        assert(env@ =~= e0.push(env@.last()));
        assert(env_v(env@) =~= env_v(e0).push((name@, sv)));
    }
}

fn copy_env(env: &CEnv) -> (r: CEnv)
    ensures
        env_keys(r@) == env_keys(env@),
        env_v(r@) == env_v(env@),
{
    let mut r: CEnv = Vec::new();
    let mut i: usize = 0;
    while i < env.len()
        invariant
            i <= env.len(),
            r@.len() == i,
            forall|j: int| 0 <= j < i ==> #[trigger] r@[j].0@ == env@[j].0@,
            forall|j: int| 0 <= j < i ==> #[trigger] r@[j].1@ == env@[j].1@,
        decreases env.len() - i,
    {
        r.push((env[i].0.clone(), env[i].1.clone()));
        i += 1;
    }
    assert(r@.map_values(|p: (String, String)| p.0@) =~= env@.map_values(|p: (String, String)| p.0@));
    assert(env_v(r@) =~= env_v(env@));
    r
}

// ── Free variable analysis ────────────────────────────────────────────────────

fn free_vars(e: &Spanned<Expr>, bound: &Vec<String>) -> (r: Vec<String>)
    ensures
        distinct(r@),
        names_set(r@) == fv(*e, names_set(bound@)),
    decreases e, 1nat, 0int,
{
    let ghost b = names_set(bound@);
    let mut r: Vec<String> = Vec::new();
    proof { lemma_names_empty(); }
    match &e.0 {
        Expr::Var(n) => {
            if !contains_name(bound, n) {
                add_name(&mut r, n);
                assert(Set::<Seq<char>>::empty().insert(n@) =~= set![n@]);
            }
        },
        Expr::Lam(ps, body) => {
            let b2 = concat_names(bound, ps);
            return free_vars(body, &b2);
        },
        Expr::App(f, args) => {
            let r1 = free_vars(f, bound);
            let r2 = fv_list_exec(args, bound);
            add_all(&mut r, &r1);
            add_all(&mut r, &r2);
            assert(names_set(r@) =~= fv(*e, b));
        },
        Expr::Block(_, _) => {
            return fv_block_exec(e, bound);
        },
        Expr::Record(fs) => {
            let r1 = fv_fields_exec(fs, bound);
            add_all(&mut r, &r1);
            assert(names_set(r@) =~= fv(*e, b));
        },
        Expr::Field(x, _) => {
            return free_vars(x, bound);
        },
        Expr::Tag(_, p) => {
            match p {
                Some(x) => {
                    return free_vars(x, bound);
                },
                None => {},
            }
        },
        Expr::When(x, bs, o) => {
            let r1 = free_vars(x, bound);
            let r2 = fv_branches_exec(bs, bound);
            add_all(&mut r, &r1);
            add_all(&mut r, &r2);
            match o {
                Some(ob) => {
                    let r3 = free_vars(ob, bound);
                    add_all(&mut r, &r3);
                },
                None => {},
            }
            assert(names_set(r@) =~= fv(*e, b));
        },
        Expr::List(es) => {
            let r1 = fv_list_exec(es, bound);
            add_all(&mut r, &r1);
            assert(names_set(r@) =~= fv(*e, b));
        },
        Expr::Index(x, idxs) => {
            let r1 = free_vars(x, bound);
            let r2 = fv_idxs_exec(idxs, bound);
            add_all(&mut r, &r1);
            add_all(&mut r, &r2);
            assert(names_set(r@) =~= fv(*e, b));
        },
        Expr::Import(path) => {
            let key = module_key_exec(path);
            if !contains_name(bound, &key) {
                add_name(&mut r, &key);
                assert(Set::<Seq<char>>::empty().insert(key@) =~= set![key@]);
            }
        },
        Expr::Lit(_) => {},
    }
    r
}

/// The name under which compiled code holds the value of the module at `path`.
pub fn module_key_exec(path: &String) -> (r: String)
    ensures
        r@ == module_key(path@),
{
    let mut k = String::new();
    push_char(&mut k, '`');
    k.append(path.as_str());
    push_char(&mut k, '`');
    assert(k@ =~= module_key(path@));
    k
}

fn fv_list_exec(es: &Vec<Spanned<Expr>>, bound: &Vec<String>) -> (r: Vec<String>)
    ensures
        distinct(r@),
        names_set(r@) == fv_list(es@, 0, names_set(bound@)),
    decreases es, 0nat, 0int,
{
    let ghost b = names_set(bound@);
    let mut r: Vec<String> = Vec::new();
    proof {
        lemma_names_empty();
        assert(Set::<Seq<char>>::empty().union(fv_list(es@, 0, b)) =~= fv_list(es@, 0, b));
    }
    let mut i: usize = 0;
    while i < es.len()
        invariant
            i <= es.len(),
            distinct(r@),
            names_set(r@).union(fv_list(es@, i as int, b)) == fv_list(es@, 0, b),
            b == names_set(bound@),
        decreases es.len() - i,
    {
        let r1 = free_vars(&es[i], bound);
        let ghost s0 = names_set(r@);
        add_all(&mut r, &r1);
        assert(names_set(r@).union(fv_list(es@, i + 1, b)) =~= s0.union(fv_list(es@, i as int, b)));
        i += 1;
    }
    assert(names_set(r@).union(fv_list(es@, i as int, b)) =~= names_set(r@));
    r
}

fn fv_fields_exec(fs: &Vec<(String, Spanned<Expr>)>, bound: &Vec<String>) -> (r: Vec<String>)
    ensures
        distinct(r@),
        names_set(r@) == fv_fields(fs@, 0, names_set(bound@)),
    decreases fs, 0nat, 0int,
{
    let ghost b = names_set(bound@);
    let mut r: Vec<String> = Vec::new();
    proof {
        lemma_names_empty();
        assert(Set::<Seq<char>>::empty().union(fv_fields(fs@, 0, b)) =~= fv_fields(fs@, 0, b));
    }
    let mut i: usize = 0;
    while i < fs.len()
        invariant
            i <= fs.len(),
            distinct(r@),
            names_set(r@).union(fv_fields(fs@, i as int, b)) == fv_fields(fs@, 0, b),
            b == names_set(bound@),
        decreases fs.len() - i,
    {
        let r1 = free_vars(&fs[i].1, bound);
        let ghost s0 = names_set(r@);
        add_all(&mut r, &r1);
        assert(names_set(r@).union(fv_fields(fs@, i + 1, b)) =~= s0.union(fv_fields(fs@, i as int, b)));
        i += 1;
    }
    assert(names_set(r@).union(fv_fields(fs@, i as int, b)) =~= names_set(r@));
    r
}

fn fv_branches_exec(bs: &Vec<(String, Option<String>, Box<Spanned<Expr>>)>, bound: &Vec<String>) -> (r: Vec<String>)
    ensures
        distinct(r@),
        names_set(r@) == fv_branches(bs@, 0, names_set(bound@)),
    decreases bs, 0nat, 0int,
{
    let ghost b = names_set(bound@);
    let mut r: Vec<String> = Vec::new();
    proof {
        lemma_names_empty();
        assert(Set::<Seq<char>>::empty().union(fv_branches(bs@, 0, b)) =~= fv_branches(bs@, 0, b));
    }
    let mut i: usize = 0;
    while i < bs.len()
        invariant
            i <= bs.len(),
            distinct(r@),
            names_set(r@).union(fv_branches(bs@, i as int, b)) == fv_branches(bs@, 0, b),
            b == names_set(bound@),
        decreases bs.len() - i,
    {
        let r1 = match &bs[i].1 {
            Some(n) => {
                let b2 = push_name(bound, n);
                free_vars(&bs[i].2, &b2)
            },
            None => free_vars(&bs[i].2, bound),
        };
        let ghost s0 = names_set(r@);
        add_all(&mut r, &r1);
        assert(names_set(r@).union(fv_branches(bs@, i + 1, b)) =~= s0.union(fv_branches(bs@, i as int, b)));
        i += 1;
    }
    assert(names_set(r@).union(fv_branches(bs@, i as int, b)) =~= names_set(r@));
    r
}

fn fv_idxs_exec(idxs: &Vec<crate::ast::IndexArg>, bound: &Vec<String>) -> (r: Vec<String>)
    ensures
        distinct(r@),
        names_set(r@) == fv_idxs(idxs@, 0, names_set(bound@)),
    decreases idxs, 0nat, 0int,
{
    let ghost b = names_set(bound@);
    let mut r: Vec<String> = Vec::new();
    proof {
        lemma_names_empty();
        assert(Set::<Seq<char>>::empty().union(fv_idxs(idxs@, 0, b)) =~= fv_idxs(idxs@, 0, b));
    }
    let mut i: usize = 0;
    while i < idxs.len()
        invariant
            i <= idxs.len(),
            distinct(r@),
            names_set(r@).union(fv_idxs(idxs@, i as int, b)) == fv_idxs(idxs@, 0, b),
            b == names_set(bound@),
        decreases idxs.len() - i,
    {
        let ghost s0 = names_set(r@);
        match &idxs[i] {
            crate::ast::IndexArg::Scalar(x) => {
                let r1 = free_vars(x, bound);
                add_all(&mut r, &r1);
            },
            crate::ast::IndexArg::Fancy(x) => {
                let r1 = free_vars(x, bound);
                add_all(&mut r, &r1);
            },
            crate::ast::IndexArg::Slice(f, t) => {
                match f {
                    Some(x) => {
                        let r1 = free_vars(x, bound);
                        add_all(&mut r, &r1);
                    },
                    None => {},
                }
                match t {
                    Some(x) => {
                        let r1 = free_vars(x, bound);
                        add_all(&mut r, &r1);
                    },
                    None => {},
                }
            },
        }
        assert(names_set(r@).union(fv_idxs(idxs@, i + 1, b)) =~= s0.union(fv_idxs(idxs@, i as int, b)));
        i += 1;
    }
    assert(names_set(r@).union(fv_idxs(idxs@, i as int, b)) =~= names_set(r@));
    r
}

fn fv_block_exec(e: &Spanned<Expr>, bound: &Vec<String>) -> (r: Vec<String>)
    requires
        e.0 is Block,
    ensures
        distinct(r@),
        names_set(r@) == fv(*e, names_set(bound@)),
    decreases e, 0nat, 0int,
{
    let ghost b = names_set(bound@);
    let mut r: Vec<String> = Vec::new();
    proof { lemma_names_empty(); }
    match &e.0 {
        Expr::Block(items, body) => {
            let mut b2 = copy_names(bound);
            assert(Set::<Seq<char>>::empty().union(fv_block(*e, 0, b)) =~= fv_block(*e, 0, b));
            let mut i: usize = 0;
            while i < items.len()
                invariant
                    i <= items.len(),
                    e.0 == Expr::Block(*items, *body),
                    distinct(r@),
                    names_set(r@).union(fv_block(*e, i as int, names_set(b2@))) == fv_block(*e, 0, b),
                    b == names_set(bound@),
                decreases items.len() - i,
            {
                let ghost s0 = names_set(r@);
                let ghost bb = names_set(b2@);
                match &items[i] {
                    BlockItem::Bind(n, x) => {
                        let r1 = free_vars(x, &b2);
                        add_all(&mut r, &r1);
                        let ghost b20 = b2@;
                        b2.push(n.clone());
                        proof {
                            lemma_names_push(b20, b2@.last());
                            assert(b2@ =~= b20.push(b2@.last()));
                        }
                    },
                    _ => {},
                }
                assert(names_set(r@).union(fv_block(*e, i + 1, names_set(b2@))) =~= s0.union(fv_block(*e, i as int, bb)));
                i += 1;
            }
            let r1 = free_vars(body, &b2);
            let ghost s0 = names_set(r@);
            add_all(&mut r, &r1);
            assert(names_set(r@) =~= s0.union(fv_block(*e, i as int, names_set(b2@))));
            assert(fv_block(*e, 0, b) == fv(*e, b));
        },
        _ => {},
    }
    r
}

// ── Emission helpers ──────────────────────────────────────────────────────────

/// `a` followed by `b`.
fn cat(a: &String, b: &str) -> (r: String)
    ensures
        r@ == a@ + b@,
{
    let mut r = a.clone();
    r.append(b);
    r
}

/// `{dst} = {call}({arg})`.
fn call1(dst: &String, call: &str, arg: &String) -> (s: String)
    ensures
        s@ == call1_t(dst@, call@, arg@),
{
    let mut s = cat(dst, " = ");
    s.append(call);
    s.append("(ptr ");
    s.append(arg.as_str());
    s.append(")");
    s
}

/// `{dst} = {call}({a}, {b})`.
fn call2(dst: &String, call: &str, a: &String, b: &String) -> (s: String)
    ensures
        s@ == call2_t(dst@, call@, a@, b@),
{
    let mut s = cat(dst, " = ");
    s.append(call);
    s.append("(ptr ");
    s.append(a.as_str());
    s.append(", ptr ");
    s.append(b.as_str());
    s.append(")");
    s
}

/// `{dst} = alloca [{n} x ptr]`.
fn alloca(dst: &String, n: usize) -> (s: String)
    ensures
        s@ == alloca_t(dst@, n as nat),
{
    let mut s = cat(dst, " = alloca [");
    push_decimal(&mut s, n as u64);
    s.append(" x ptr]");
    s
}

/// `{dst} = getelementptr [{n} x ptr], ptr {arr}, i32 0, i32 {i}`.
fn gep_arr(dst: &String, n: usize, arr: &String, i: usize) -> (s: String)
    ensures
        s@ == gep_t(dst@, n as nat, arr@, i as nat),
{
    let mut s = cat(dst, " = getelementptr [");
    push_decimal(&mut s, n as u64);
    s.append(" x ptr], ptr ");
    s.append(arr.as_str());
    s.append(", i32 0, i32 ");
    push_decimal(&mut s, i as u64);
    s
}

/// `store ptr {v}, ptr {p}`.
fn store(v: &String, p: &String) -> (s: String)
    ensures
        s@ == store_t(v@, p@),
{
    let mut s = String::from_str("store ptr ");
    s.append(v.as_str());
    s.append(", ptr ");
    s.append(p.as_str());
    s
}

/// Stores `vals` into a fresh stack array `arr` of their length.
fn emit_stores(c: &mut Compiler, fb: &mut FnBuilder, arr: &String, vals: &Vec<String>, prefix: &str)
    ensures
        (final(c).gc(), final(fb).gf()) == stores_g(old(c).gc(), old(fb).gf(), arr@, names_view(vals@), prefix@, vals.len() as nat, 0),
        final(c).string_consts == old(c).string_consts,
        final(c).top_fns == old(c).top_fns,
        old(fb).text().is_prefix_of(final(fb).text()),
        final(fb).cur_label@ == old(fb).cur_label@,
{
    broadcast use lemma_prefix_chain;
    proof { lemma_prefix_refl(fb.text()); }
    let n = vals.len();
    let mut i: usize = 0;
    while i < n
        invariant
            n == vals.len(),
            i <= n,
            c.string_consts == old(c).string_consts,
            c.top_fns == old(c).top_fns,
            old(fb).text().is_prefix_of(fb.text()),
            fb.cur_label@ == old(fb).cur_label@,
            stores_g(old(c).gc(), old(fb).gf(), arr@, names_view(vals@), prefix@, n as nat, 0)
                == stores_g(c.gc(), fb.gf(), arr@, names_view(vals@), prefix@, n as nat, i as int),
        decreases n - i,
    {
        let gep = c.ssa(prefix);
        emit_text(fb, gep_arr(&gep, n, arr, i));
        emit_text(fb, store(&vals[i], &gep));
        i += 1;
    }
}

/// Emits `text` as the next instruction.
fn emit_text(fb: &mut FnBuilder, text: String)
    ensures
        final(fb).gf() == emit_g(old(fb).gf(), text@),
        old(fb).text().is_prefix_of(final(fb).text()),
        final(fb).cur_label@ == old(fb).cur_label@,
{
    fb.emit(text);
    proof {
        let t = final(fb).text();
        let o = old(fb).text();
        assert(o + t.subrange(o.len() as int, t.len() as int) =~= t);
        lemma_prefix_append(o, t.subrange(o.len() as int, t.len() as int));
    }
}

fn emit_apply(c: &mut Compiler, fb: &mut FnBuilder, f_ssa: &String, arg_ssas: &Vec<String>) -> (r: String)
    ensures
        (final(c).gc(), final(fb).gf(), r@) == apply_g(old(c).gc(), old(fb).gf(), f_ssa@, names_view(arg_ssas@)),
        final(c).string_consts == old(c).string_consts,
        final(c).top_fns == old(c).top_fns,
        old(fb).text().is_prefix_of(final(fb).text()),
        final(fb).cur_label@ == old(fb).cur_label@,
{
    broadcast use lemma_prefix_chain;
    let r = c.ssa("app");
    let n = arg_ssas.len();
    if n == 0 {
        let mut t = cat(&r, " = call ptr @coda_apply(ptr ");
        t.append(f_ssa.as_str());
        t.append(", ptr null, i32 0)");
        emit_text(fb, t);
    } else {
        let arr = c.ssa("argarr");
        emit_text(fb, alloca(&arr, n));
        emit_stores(c, fb, &arr, arg_ssas, "agep");
        let mut t = cat(&r, " = call ptr @coda_apply(ptr ");
        t.append(f_ssa.as_str());
        t.append(", ptr ");
        t.append(arr.as_str());
        t.append(", i32 ");
        push_decimal(&mut t, n as u64);
        t.append(")");
        emit_text(fb, t);
    }
    fb.own(&r);
    r
}

fn emit_record(c: &mut Compiler, fb: &mut FnBuilder, key_gs: &Vec<String>, val_ssas: &Vec<String>) -> (r: String)
    requires
        key_gs.len() == val_ssas.len(),
    ensures
        (final(c).gc(), final(fb).gf(), r@) == record_g(old(c).gc(), old(fb).gf(), names_view(key_gs@), names_view(val_ssas@)),
        final(c).string_consts == old(c).string_consts,
        final(c).top_fns == old(c).top_fns,
        old(fb).text().is_prefix_of(final(fb).text()),
        final(fb).cur_label@ == old(fb).cur_label@,
{
    broadcast use lemma_prefix_chain;
    let r = c.ssa("rec");
    let n = key_gs.len();
    if n == 0 {
        emit_text(fb, cat(&r, " = call ptr @coda_mk_unit()"));
        fb.own(&r);
        return r;
    }
    let karr = c.ssa("karr");
    let varr = c.ssa("varr");
    emit_text(fb, alloca(&karr, n));
    emit_text(fb, alloca(&varr, n));
    let ghost c0 = c.gc();
    let ghost f0 = fb.gf();
    let mut i: usize = 0;
    while i < n
        invariant
            n == key_gs.len(),
            n == val_ssas.len(),
            i <= n,
            c.string_consts == old(c).string_consts,
            c.top_fns == old(c).top_fns,
            old(fb).text().is_prefix_of(fb.text()),
            fb.cur_label@ == old(fb).cur_label@,
            record_stores_g(c0, f0, karr@, varr@, names_view(key_gs@), names_view(val_ssas@), 0)
                == record_stores_g(c.gc(), fb.gf(), karr@, varr@, names_view(key_gs@), names_view(val_ssas@), i as int),
        decreases n - i,
    {
        let kgep = c.ssa("kgep");
        let vgep = c.ssa("vgep");
        emit_text(fb, gep_arr(&kgep, n, &karr, i));
        emit_text(fb, store(&key_gs[i], &kgep));
        emit_text(fb, gep_arr(&vgep, n, &varr, i));
        emit_text(fb, store(&val_ssas[i], &vgep));
        i += 1;
    }
    let mut t = cat(&r, " = call ptr @coda_mk_record(ptr ");
    t.append(karr.as_str());
    t.append(", ptr ");
    t.append(varr.as_str());
    t.append(", i32 ");
    push_decimal(&mut t, n as u64);
    t.append(")");
    emit_text(fb, t);
    fb.own(&r);
    release_all(fb, val_ssas);
    r
}

/// Releases each of `vals` that this function owns.
fn release_all(fb: &mut FnBuilder, vals: &Vec<String>)
    ensures
        final(fb).gf() == release_all_g(old(fb).gf(), names_view(vals@), 0),
        old(fb).text().is_prefix_of(final(fb).text()),
        final(fb).cur_label@ == old(fb).cur_label@,
{
    broadcast use lemma_prefix_chain;
    proof { lemma_prefix_refl(fb.text()); }
    let mut i: usize = 0;
    while i < vals.len()
        invariant
            i <= vals.len(),
            old(fb).text().is_prefix_of(fb.text()),
            fb.cur_label@ == old(fb).cur_label@,
            release_all_g(old(fb).gf(), names_view(vals@), 0) == release_all_g(fb.gf(), names_view(vals@), i as int),
        decreases vals.len() - i,
    {
        fb.release_if_owned(&vals[i]);
        i += 1;
    }
}

fn emit_list(c: &mut Compiler, fb: &mut FnBuilder, elem_ssas: &Vec<String>) -> (r: String)
    ensures
        (final(c).gc(), final(fb).gf(), r@) == list_g(old(c).gc(), old(fb).gf(), names_view(elem_ssas@)),
        final(c).string_consts == old(c).string_consts,
        final(c).top_fns == old(c).top_fns,
        old(fb).text().is_prefix_of(final(fb).text()),
        final(fb).cur_label@ == old(fb).cur_label@,
{
    broadcast use lemma_prefix_chain;
    let r = c.ssa("list");
    let n = elem_ssas.len();
    if n == 0 {
        emit_text(fb, cat(&r, " = call ptr @coda_mk_list(ptr null, i32 0)"));
        fb.own(&r);
        return r;
    }
    let arr = c.ssa("larr");
    emit_text(fb, alloca(&arr, n));
    emit_stores(c, fb, &arr, elem_ssas, "lgep");
    let mut t = cat(&r, " = call ptr @coda_mk_list(ptr ");
    t.append(arr.as_str());
    t.append(", i32 ");
    push_decimal(&mut t, n as u64);
    t.append(")");
    emit_text(fb, t);
    fb.own(&r);
    release_all(fb, elem_ssas);
    r
}

// ── Expression compiler ───────────────────────────────────────────────────────

/// What compiling an expression reports: success exactly when the model finds no
/// error, with every string the expression uses in the constant table; otherwise
/// the model's first error.
pub open spec fn outcome(r: Result<String, String>, err: Option<Seq<char>>, used: Set<Seq<char>>, cs: Seq<(Seq<char>, Seq<char>)>) -> bool {
    match r {
        Ok(_) => err is None && used.subset_of(contents(cs)),
        Err(m) => err == Some(m@),
    }
}

fn compile_expr(c: &mut Compiler, fb: &mut FnBuilder, env: &CEnv, e: &Spanned<Expr>) -> (r: Result<String, String>)
    requires
        old(c).wf(),
        desugared(*e),
    ensures
        final(c).wf(),
        old(c).cview().is_prefix_of(final(c).cview()),
        old(fb).text().is_prefix_of(final(fb).text()),
        outcome(r, cerr(*e, env_keys(env@)), strs(*e), final(c).cview()),
        r is Ok ==> cg_g(old(c).gc(), old(fb).gf(), env_v(env@), *e) == (final(c).gc(), final(fb).gf(), Some(r->Ok_0@)),
    decreases e, 2nat, 0int,
{
    broadcast use lemma_prefix_chain, lemma_contents_prefix;
    proof {
        lemma_prefix_refl(c.cview());
        lemma_prefix_refl(fb.text());
    }
    match &e.0 {
        Expr::Lit(Lit::Int(n)) => {
            let r = c.ssa("int");
            let mut t = cat(&r, " = call ptr @coda_mk_int(i64 ");
            push_signed(&mut t, *n);
            t.append(")");
            emit_text(fb, t);
            fb.own(&r);
            assert(strs(*e) =~= Set::empty());
            Ok(r)
        },
        Expr::Lit(Lit::Str(st)) => {
            let g = c.string_const(st.as_str());
            let r = c.ssa("str");
            emit_text(fb, call1(&r, "call ptr @coda_mk_str", &g));
            fb.own(&r);
            assert(strs(*e) =~= set![st@]);
            Ok(r)
        },
        Expr::Lit(Lit::Float(_)) => Err(String::from_str("floats not supported in compiled mode")),
        Expr::Var(name) => match env_get(env, name) {
            Some(v) => {
                assert(strs(*e) =~= Set::empty());
                Ok(v)
            },
            None => Err(cat(&String::from_str("unbound: "), name.as_str())),
        },
        Expr::Lam(_, _) => compile_lam(c, fb, env, e),
        Expr::App(f, args) => {
            let f_ssa = match compile_expr(c, fb, env, f) {
                Err(m) => return Err(m),
                Ok(v) => v,
            };
            let arg_ssas = match compile_args(c, fb, env, args) {
                Err(m) => return Err(m),
                Ok(v) => v,
            };
            let r = emit_apply(c, fb, &f_ssa, &arg_ssas);
            Ok(r)
        },
        Expr::Block(_, _) => compile_block(c, fb, env, e),
        Expr::Record(fs) => {
            let (key_gs, val_ssas) = match compile_fields(c, fb, env, fs) {
                Err(m) => return Err(m),
                Ok(v) => v,
            };
            let r = emit_record(c, fb, &key_gs, &val_ssas);
            Ok(r)
        },
        Expr::Field(x, field) => {
            let rec = match compile_expr(c, fb, env, x) {
                Err(m) => return Err(m),
                Ok(v) => v,
            };
            let g = c.string_const(field.as_str());
            let r = c.ssa("field");
            emit_text(fb, call2(&r, "call ptr @coda_field_get", &rec, &g));
            // The result is borrowed from the record: it is not owned.
            Ok(r)
        },
        Expr::Tag(name, payload) => {
            let name_g = c.string_const(name.as_str());
            let payload_ssa = match payload {
                Some(x) => match compile_expr(c, fb, env, x) {
                    Err(m) => return Err(m),
                    Ok(v) => v,
                },
                None => {
                    let u = c.ssa("unit");
                    emit_text(fb, cat(&u, " = call ptr @coda_mk_unit()"));
                    fb.own(&u);
                    u
                },
            };
            let r = c.ssa("tag");
            emit_text(fb, call2(&r, "call ptr @coda_mk_tag", &name_g, &payload_ssa));
            fb.own(&r);
            // mk_tag retained the payload; drop the local reference.
            fb.release_if_owned(&payload_ssa);
            Ok(r)
        },
        Expr::When(_, _, _) => compile_when(c, fb, env, e),
        Expr::List(es) => {
            let ssas = match compile_args(c, fb, env, es) {
                Err(m) => return Err(m),
                Ok(v) => v,
            };
            let r = emit_list(c, fb, &ssas);
            Ok(r)
        },
        Expr::Import(path) => {
            let key = module_key_exec(path);
            match env_get(env, &key) {
                Some(v) => {
                    assert(strs(*e) =~= Set::empty());
                    Ok(v)
                },
                None => Err(String::from_str("imports not supported in compiled mode")),
            }
        },
        Expr::Index(_, _) => Err(String::from_str("indexing not supported in compiled mode")),
    }
}

/// Compiles `es` left to right; the values in order.
fn compile_args(c: &mut Compiler, fb: &mut FnBuilder, env: &CEnv, es: &Vec<Spanned<Expr>>) -> (r: Result<Vec<String>, String>)
    requires
        old(c).wf(),
        all_desugared(es@, 0),
    ensures
        final(c).wf(),
        old(c).cview().is_prefix_of(final(c).cview()),
        old(fb).text().is_prefix_of(final(fb).text()),
        match r {
            Ok(v) => cerr_list(es@, 0, env_keys(env@)) is None
                && strs_list(es@, 0).subset_of(contents(final(c).cview()))
                && args_g(old(c).gc(), old(fb).gf(), env_v(env@), es@, 0, Seq::empty()) == (final(c).gc(), final(fb).gf(), Some(names_view(v@))),
            Err(m) => cerr_list(es@, 0, env_keys(env@)) == Some(m@),
        },
    decreases es, 0nat, 0int,
{
    broadcast use lemma_prefix_chain, lemma_contents_prefix;
    proof {
        lemma_prefix_refl(c.cview());
        lemma_prefix_refl(fb.text());
    }
    let ghost k = env_keys(env@);
    let mut out: Vec<String> = Vec::new();
    let mut i: usize = 0;
    assert(names_view(out@) =~= Seq::empty());
    while i < es.len()
        invariant
            i <= es.len(),
            k == env_keys(env@),
            c.wf(),
            old(c).cview().is_prefix_of(c.cview()),
            old(fb).text().is_prefix_of(fb.text()),
            cerr_list(es@, 0, k) == cerr_list(es@, i as int, k),
            strs_list(es@, 0).subset_of(contents(c.cview()).union(strs_list(es@, i as int))),
            all_desugared(es@, i as int),
            args_g(old(c).gc(), old(fb).gf(), env_v(env@), es@, 0, Seq::empty()) == args_g(c.gc(), fb.gf(), env_v(env@), es@, i as int, names_view(out@)),
        decreases es.len() - i,
    {
        let ghost cv0 = c.cview();
        let v = match compile_expr(c, fb, env, &es[i]) {
            Err(m) => return Err(m),
            Ok(v) => v,
        };
        proof {
            assert(names_view(out@.push(v)) =~= names_view(out@).push(v@));
        }
        out.push(v);
        assert(strs_list(es@, 0).subset_of(contents(c.cview()).union(strs_list(es@, i + 1)))) by {
            assert forall|x: Seq<char>| strs_list(es@, 0).contains(x) implies contents(c.cview()).union(strs_list(es@, i + 1)).contains(x) by {
                if contents(cv0).contains(x) {
                    assert(contents(cv0).subset_of(contents(c.cview())));
                }
            }
        }
        i += 1;
    }
    assert(strs_list(es@, 0).subset_of(contents(c.cview()))) by {
        assert(strs_list(es@, i as int) =~= Set::empty());
    }
    Ok(out)
}

/// Compiles a record's fields in order: each key's constant, then its value.
fn compile_fields(c: &mut Compiler, fb: &mut FnBuilder, env: &CEnv, fs: &Vec<(String, Spanned<Expr>)>)
    -> (r: Result<(Vec<String>, Vec<String>), String>)
    requires
        old(c).wf(),
        fields_desugared(fs@, 0),
    ensures
        final(c).wf(),
        old(c).cview().is_prefix_of(final(c).cview()),
        old(fb).text().is_prefix_of(final(fb).text()),
        match r {
            Ok(v) => cerr_fields(fs@, 0, env_keys(env@)) is None
                && strs_fields(fs@, 0).subset_of(contents(final(c).cview()))
                && v.0.len() == v.1.len()
                && fields_g(old(c).gc(), old(fb).gf(), env_v(env@), fs@, 0, Seq::empty(), Seq::empty())
                    == (final(c).gc(), final(fb).gf(), Some((names_view(v.0@), names_view(v.1@)))),
            Err(m) => cerr_fields(fs@, 0, env_keys(env@)) == Some(m@),
        },
    decreases fs, 0nat, 0int,
{
    broadcast use lemma_prefix_chain, lemma_contents_prefix;
    proof {
        lemma_prefix_refl(c.cview());
        lemma_prefix_refl(fb.text());
    }
    let ghost k = env_keys(env@);
    let mut keys: Vec<String> = Vec::new();
    let mut vals: Vec<String> = Vec::new();
    let mut i: usize = 0;
    assert(names_view(keys@) =~= Seq::empty());
    assert(names_view(vals@) =~= Seq::empty());
    while i < fs.len()
        invariant
            i <= fs.len(),
            keys.len() == vals.len(),
            k == env_keys(env@),
            c.wf(),
            old(c).cview().is_prefix_of(c.cview()),
            old(fb).text().is_prefix_of(fb.text()),
            cerr_fields(fs@, 0, k) == cerr_fields(fs@, i as int, k),
            strs_fields(fs@, 0).subset_of(contents(c.cview()).union(strs_fields(fs@, i as int))),
            fields_desugared(fs@, i as int),
            fields_g(old(c).gc(), old(fb).gf(), env_v(env@), fs@, 0, Seq::empty(), Seq::empty())
                == fields_g(c.gc(), fb.gf(), env_v(env@), fs@, i as int, names_view(keys@), names_view(vals@)),
        decreases fs.len() - i,
    {
        let ghost cv0 = c.cview();
        let g = c.string_const(fs[i].0.as_str());
        let ghost cv1 = c.cview();
        let v = match compile_expr(c, fb, env, &fs[i].1) {
            Err(m) => return Err(m),
            Ok(v) => v,
        };
        proof {
            assert(names_view(keys@.push(g)) =~= names_view(keys@).push(g@));
            assert(names_view(vals@.push(v)) =~= names_view(vals@).push(v@));
        }
        keys.push(g);
        vals.push(v);
        assert(strs_fields(fs@, 0).subset_of(contents(c.cview()).union(strs_fields(fs@, i + 1)))) by {
            assert(contents(cv1).subset_of(contents(c.cview())));
            assert forall|x: Seq<char>| strs_fields(fs@, 0).contains(x) implies contents(c.cview()).union(strs_fields(fs@, i + 1)).contains(x) by {
                if contents(cv0).contains(x) {
                    assert(contents(cv1).contains(x));
                }
                if x == fs@[i as int].0@ {
                    assert(contents(cv1).contains(x));
                }
            }
        }
        i += 1;
    }
    assert(strs_fields(fs@, 0).subset_of(contents(c.cview()))) by {
        assert(strs_fields(fs@, i as int) =~= Set::empty());
    }
    Ok((keys, vals))
}

fn compile_block(c: &mut Compiler, fb: &mut FnBuilder, env: &CEnv, e: &Spanned<Expr>) -> (r: Result<String, String>)
    requires
        old(c).wf(),
        desugared(*e),
        e.0 is Block,
    ensures
        final(c).wf(),
        old(c).cview().is_prefix_of(final(c).cview()),
        old(fb).text().is_prefix_of(final(fb).text()),
        outcome(r, cerr(*e, env_keys(env@)), strs(*e), final(c).cview()),
        r is Ok ==> cg_g(old(c).gc(), old(fb).gf(), env_v(env@), *e) == (final(c).gc(), final(fb).gf(), Some(r->Ok_0@)),
    decreases e, 1nat, 0int,
{
    broadcast use lemma_prefix_chain, lemma_contents_prefix;
    proof {
        lemma_prefix_refl(c.cview());
        lemma_prefix_refl(fb.text());
    }
    match &e.0 {
        Expr::Block(items, body) => {
            let ghost k = env_keys(env@);
            let mut env2 = copy_env(env);
            let mut i: usize = 0;
            while i < items.len()
                invariant
                    i <= items.len(),
                    e.0 == Expr::Block(*items, *body),
                    k == env_keys(env@),
                    c.wf(),
                    old(c).cview().is_prefix_of(c.cview()),
                    old(fb).text().is_prefix_of(fb.text()),
                    cerr(*e, k) == cerr_block(*e, i as int, env_keys(env2@)),
                    strs_items(items@, 0).subset_of(contents(c.cview()).union(strs_items(items@, i as int))),
                    items_desugared(items@, i as int),
                    desugared(**body),
                    items_g(old(c).gc(), old(fb).gf(), env_v(env@), items@, 0) == items_g(c.gc(), fb.gf(), env_v(env2@), items@, i as int),
                decreases items.len() - i,
            {
                let ghost cv0 = c.cview();
                match &items[i] {
                    BlockItem::Bind(name, x) => {
                        let v = match compile_expr(c, fb, &env2, x) {
                            Err(m) => return Err(m),
                            Ok(v) => v,
                        };
                        env_insert(&mut env2, name, v);
                    },
                    BlockItem::Ann(_, _) => {},
                    BlockItem::MonadicBind(_, _) => {
                        assert(false);
                    },
                }
                assert(strs_items(items@, 0).subset_of(contents(c.cview()).union(strs_items(items@, i + 1)))) by {
                    assert forall|x: Seq<char>| strs_items(items@, 0).contains(x) implies contents(c.cview()).union(strs_items(items@, i + 1)).contains(x) by {
                        if contents(cv0).contains(x) {
                            assert(contents(cv0).subset_of(contents(c.cview())));
                        }
                    }
                }
                i += 1;
            }
            let r = match compile_expr(c, fb, &env2, body) {
                Err(m) => return Err(m),
                Ok(v) => v,
            };
            assert(strs(*e).subset_of(contents(c.cview()))) by {
                assert(strs_items(items@, i as int) =~= Set::empty());
            }
            Ok(r)
        },
        _ => Err(String::new()),
    }
}

/// The names of an environment, in order.
pub open spec fn cap_names(env: Seq<(String, String)>) -> Seq<Seq<char>> {
    env_v(env).map_values(|p: (Seq<char>, Seq<char>)| p.0)
}

/// Inserts a capture into `caps`, which is ordered by name.
fn insert_cap(caps: &mut CEnv, name: String, ssa: String)
    requires
        sorted_names(cap_names(old(caps)@)),
        !env_keys(old(caps)@).contains(name@),
    ensures
        env_keys(final(caps)@) == env_keys(old(caps)@).insert(name@),
        sorted_names(cap_names(final(caps)@)),
        forall|x: (Seq<char>, Seq<char>)| #[trigger] env_v(final(caps)@).contains(x) <==> env_v(old(caps)@).contains(x) || x == (name@, ssa@),
{
    let ghost nv = name@;
    let ghost sv = ssa@;
    proof { lemma_keys_contains(caps@, name@); }
    let mut pos: usize = 0;
    let mut j: usize = 0;
    while j < caps.len()
        invariant
            j <= caps.len(),
            pos <= j,
            name@ == nv,
            sorted_names(cap_names(caps@)),
            forall|t: int| 0 <= t < caps@.len() ==> #[trigger] caps@[t].0@ != nv,
            forall|t: int| 0 <= t < pos ==> seq_lt(#[trigger] caps@[t].0@, nv),
            forall|t: int| pos <= t < j ==> !seq_lt(#[trigger] caps@[t].0@, nv),
        decreases caps.len() - j,
    {
        if crate::names::str_less(&caps[j].0, &name) {
            proof {
                if pos < j {
                    let a = caps@[pos as int].0@;
                    let b = caps@[j as int].0@;
                    assert(!seq_lt(a, nv));
                    crate::names::lemma_seq_lt_total(a, nv);
                    assert(cap_names(caps@)[pos as int] == a);
                    assert(cap_names(caps@)[j as int] == b);
                    assert(seq_lt(a, b));
                    crate::names::lemma_seq_lt_trans(nv, a, b);
                    crate::names::lemma_seq_lt_trans(b, nv, b);
                    crate::names::lemma_seq_lt_irrefl(b);
                }
            }
            pos += 1;
        }
        j += 1;
    }
    let ghost c0 = caps@;
    caps.insert(pos, (name, ssa));
    proof {
        let x = caps@[pos as int];
        assert(caps@ =~= c0.insert(pos as int, x));
        assert forall|y: Seq<char>| env_keys(caps@).contains(y) <==> env_keys(c0).insert(x.0@).contains(y) by {
            lemma_keys_contains(caps@, y);
            lemma_keys_contains(c0, y);
            if env_keys(c0).contains(y) && y != x.0@ {
                let k = choose|k: int| 0 <= k < c0.len() && #[trigger] c0[k].0@ == y;
                if k < pos {
                    assert(caps@[k].0@ == y);
                } else {
                    assert(caps@[k + 1].0@ == y);
                }
            }
        }
        assert(env_keys(caps@) =~= env_keys(c0).insert(x.0@));
        let cn = cap_names(caps@);
        let on = cap_names(c0);
        assert forall|t: int| pos <= t < c0.len() implies seq_lt(nv, #[trigger] c0[t].0@) by {
            crate::names::lemma_seq_lt_total(c0[t].0@, nv);
        }
        assert forall|a: int, b: int| 0 <= a < b < cn.len() implies seq_lt(#[trigger] cn[a], #[trigger] cn[b]) by {
            if b < pos {
                assert(on[a] == cn[a] && on[b] == cn[b]);
            } else if b == pos {
                assert(cn[a] == c0[a].0@);
            } else if a < pos {
                assert(cn[a] == on[a] && cn[b] == on[b - 1]);
            } else if a == pos {
                assert(cn[b] == c0[b - 1].0@);
            } else {
                assert(cn[a] == on[a - 1] && cn[b] == on[b - 1]);
            }
        }
        assert forall|y: (Seq<char>, Seq<char>)| #[trigger] env_v(caps@).contains(y) <==> env_v(c0).contains(y) || y == (nv, sv) by {
            if env_v(caps@).contains(y) {
                let k = choose|k: int| 0 <= k < env_v(caps@).len() && env_v(caps@)[k] == y;
                if k < pos {
                    assert(env_v(c0)[k] == y);
                } else if k > pos {
                    assert(env_v(c0)[k - 1] == y);
                }
            }
            if env_v(c0).contains(y) {
                let k = choose|k: int| 0 <= k < env_v(c0).len() && env_v(c0)[k] == y;
                if k < pos {
                    assert(env_v(caps@)[k] == y);
                } else {
                    assert(env_v(caps@)[k + 1] == y);
                }
            }
            if y == (nv, sv) {
                assert(env_v(caps@)[pos as int] == y);
            }
        }
    }
}

fn compile_lam(c: &mut Compiler, fb: &mut FnBuilder, env: &CEnv, e: &Spanned<Expr>) -> (r: Result<String, String>)
    requires
        old(c).wf(),
        desugared(*e),
        e.0 is Lam,
    ensures
        final(c).wf(),
        old(c).cview().is_prefix_of(final(c).cview()),
        old(fb).text().is_prefix_of(final(fb).text()),
        outcome(r, cerr(*e, env_keys(env@)), strs(*e), final(c).cview()),
        r is Ok ==> cg_g(old(c).gc(), old(fb).gf(), env_v(env@), *e) == (final(c).gc(), final(fb).gf(), Some(r->Ok_0@)),
    decreases e, 1nat, 0int,
{
    broadcast use lemma_prefix_chain, lemma_contents_prefix;
    proof {
        lemma_prefix_refl(c.cview());
        lemma_prefix_refl(fb.text());
    }
    match &e.0 {
        Expr::Lam(params, body) => {
            let ghost k = env_keys(env@);
            let ghost envv = env_v(env@);
            let ghost c0 = c.gc();
            let ghost f0 = fb.gf();
            proof { lemma_keys_g(env@); }
            // The captures: free variables of the body that the environment defines,
            // in name order.
            let param_set = copy_names(params);
            let fvs_all = free_vars(body, &param_set);
            let mut caps: CEnv = Vec::new();
            let mut i: usize = 0;
            proof {
                lemma_keys_empty();
                lemma_names_empty();
                assert(fvs_all@.take(0) =~= Seq::<String>::empty());
                assert(Set::<Seq<char>>::empty().intersect(k) =~= Set::<Seq<char>>::empty());
                assert(cap_names(caps@) =~= Seq::<Seq<char>>::empty());
            }
            while i < fvs_all.len()
                invariant
                    i <= fvs_all.len(),
                    k == env_keys(env@),
                    envv == env_v(env@),
                    distinct(fvs_all@),
                    env_keys(caps@) == names_set(fvs_all@.take(i as int)).intersect(k),
                    sorted_names(cap_names(caps@)),
                    forall|x: (Seq<char>, Seq<char>)| #[trigger] env_v(caps@).contains(x) ==> lookup_g(envv, x.0) == Some(x.1),
                decreases fvs_all.len() - i,
            {
                proof {
                    assert(fvs_all@.take(i + 1) =~= fvs_all@.take(i as int).push(fvs_all@[i as int]));
                    lemma_names_push(fvs_all@.take(i as int), fvs_all@[i as int]);
                    lemma_names_contains(fvs_all@.take(i as int), fvs_all@[i as int]@);
                    if names_set(fvs_all@.take(i as int)).contains(fvs_all@[i as int]@) {
                        let t = choose|t: int| 0 <= t < fvs_all@.take(i as int).len() && #[trigger] fvs_all@.take(i as int)[t]@ == fvs_all@[i as int]@;
                        assert(fvs_all@[t]@ == fvs_all@[i as int]@);
                    }
                }
                match env_get(env, &fvs_all[i]) {
                    Some(v) => {
                        let ghost c0 = caps@;
                        insert_cap(&mut caps, fvs_all[i].clone(), v);
                        assert(env_keys(caps@) =~= names_set(fvs_all@.take(i + 1)).intersect(k));
                        assert forall|x: (Seq<char>, Seq<char>)| #[trigger] env_v(caps@).contains(x) implies lookup_g(envv, x.0) == Some(x.1) by {
                            if !env_v(c0).contains(x) {
                                assert(x.0 == fvs_all@[i as int]@);
                            }
                        }
                    },
                    None => {
                        assert(env_keys(caps@) =~= names_set(fvs_all@.take(i + 1)).intersect(k));
                    },
                }
                i += 1;
            }
            assert(fvs_all@.take(fvs_all.len() as int) =~= fvs_all@);
            let ghost capsv = env_v(caps@);
            proof {
                let names = cap_names(caps@);
                let sset = fv(**body, names_set(params@)).intersect(keys_g(envv));
                lemma_keys_g(caps@);
                assert(names.to_set() == env_keys(caps@)) by {
                    assert(names =~= env_v(caps@).map_values(|p: (Seq<char>, Seq<char>)| p.0));
                }
                assert(names.to_set() =~= sset);
                assert(sorted_names(names) && names.to_set() == sset);
                let q = sorted_of(sset);
                assert(sorted_names(q) && q.to_set() == sset);
                crate::names::lemma_sorted_unique(names, q);
                assert forall|t: int| 0 <= t < capsv.len() implies #[trigger] capsv[t] == (q[t], lookup_g(envv, q[t])->Some_0) by {
                    assert(capsv.contains(capsv[t]));
                    assert(names[t] == capsv[t].0);
                }
                assert(capsv =~= caps_g(envv, params@, **body));
            }
            let lam_id = c.next();
            let mut lam_name = String::from_str("lam_");
            push_decimal(&mut lam_name, lam_id);
            let ghost c1 = c.gc();

            // The lambda's own body.
            let mut lam_fb = FnBuilder::new();
            let mut lam_env: CEnv = Vec::new();
            let mut j: usize = 0;
            proof {
                lemma_keys_empty();
                assert(caps@.take(0) =~= Seq::<(String, String)>::empty());
                assert(env_v(lam_env@) =~= Seq::new(0, |t: int| (capsv[t].0, slot_name("%cap_"@, t as nat))));
            }
            while j < caps.len()
                invariant
                    j <= caps.len(),
                    capsv == env_v(caps@),
                    env_keys(lam_env@) == env_keys(caps@.take(j as int)),
                    cap_loads_g(fresh_f(), caps.len() as nat, 0) == cap_loads_g(lam_fb.gf(), caps.len() as nat, j as nat),
                    env_v(lam_env@) == Seq::new(j as nat, |t: int| (capsv[t].0, slot_name("%cap_"@, t as nat))),
                decreases caps.len() - j,
            {
                // Captures are borrowed from the closure: neither retained nor owned.
                let mut p = String::from_str("%cp_");
                push_decimal(&mut p, j as u64);
                let mut v = String::from_str("%cap_");
                push_decimal(&mut v, j as u64);
                let mut t0 = cat(&p, " = getelementptr ptr, ptr %caps, i32 ");
                push_decimal(&mut t0, j as u64);
                lam_fb.emit(t0);
                let mut t1 = cat(&v, " = load ptr, ptr ");
                t1.append(p.as_str());
                lam_fb.emit(t1);
                let ghost vv = v@;
                env_insert(&mut lam_env, &caps[j].0, v);
                proof {
                    assert(caps@.take(j + 1) =~= caps@.take(j as int).push(caps@[j as int]));
                    lemma_keys_push(caps@.take(j as int), caps@[j as int]);
                    assert(vv == slot_name("%cap_"@, j as nat));
                    assert(env_v(lam_env@) =~= Seq::new((j + 1) as nat, |t: int| (capsv[t].0, slot_name("%cap_"@, t as nat))));
                }
                j += 1;
            }
            assert(caps@.take(caps.len() as int) =~= caps@);
            let ghost lf_caps = lam_fb.gf();
            let mut j: usize = 0;
            proof {
                assert(params@.take(0) =~= Seq::<String>::empty());
                lemma_names_empty();
                assert(env_keys(caps@).union(Set::empty()) =~= env_keys(caps@));
            }
            while j < params.len()
                invariant
                    j <= params.len(),
                    capsv == env_v(caps@),
                    env_keys(lam_env@) == env_keys(caps@).union(names_set(params@.take(j as int))),
                    arg_loads_g(lf_caps, params@.len(), 0) == arg_loads_g(lam_fb.gf(), params@.len(), j as nat),
                    env_v(lam_env@) == Seq::new(capsv.len(), |t: int| (capsv[t].0, slot_name("%cap_"@, t as nat)))
                        + Seq::new(j as nat, |t: int| (params@[t]@, slot_name("%arg_"@, t as nat))),
                decreases params.len() - j,
            {
                // Arguments are retained and owned by the body.
                let mut p = String::from_str("%ap_");
                push_decimal(&mut p, j as u64);
                let mut v = String::from_str("%arg_");
                push_decimal(&mut v, j as u64);
                let mut t0 = cat(&p, " = getelementptr ptr, ptr %args, i32 ");
                push_decimal(&mut t0, j as u64);
                lam_fb.emit(t0);
                let mut t1 = cat(&v, " = load ptr, ptr ");
                t1.append(p.as_str());
                lam_fb.emit(t1);
                let mut t2 = String::from_str("call void @coda_retain(ptr ");
                t2.append(v.as_str());
                t2.append(")");
                lam_fb.emit(t2);
                lam_fb.own(&v);
                let ghost vv = v@;
                env_insert(&mut lam_env, &params[j], v);
                proof {
                    assert(params@.take(j + 1) =~= params@.take(j as int).push(params@[j as int]));
                    lemma_names_push(params@.take(j as int), params@[j as int]);
                    assert(env_keys(lam_env@) =~= env_keys(caps@).union(names_set(params@.take(j + 1))));
                    assert(vv == slot_name("%arg_"@, j as nat));
                    assert(env_v(lam_env@) =~= Seq::new(capsv.len(), |t: int| (capsv[t].0, slot_name("%cap_"@, t as nat)))
                        + Seq::new((j + 1) as nat, |t: int| (params@[t]@, slot_name("%arg_"@, t as nat))));
                }
                j += 1;
            }
            assert(params@.take(params.len() as int) =~= params@);
            assert(env_keys(lam_env@) =~= lam_scope(params@, **body, k));
            assert(env_v(lam_env@) =~= lam_env_g(capsv, params@));
            let result = match compile_expr(c, &mut lam_fb, &lam_env, body) {
                Err(m) => return Err(m),
                Ok(v) => v,
            };
            lam_fb.prepare_export(&result);
            lam_fb.emit_ret(&result);
            let ghost lf3 = lam_fb.gf();
            let body_ir = lam_fb.to_ir();
            let mut f = String::from_str("define ptr @");
            f.append(lam_name.as_str());
            f.append("(ptr %caps, ptr %args, i32 %nargs) {\n");
            f.append(body_ir.as_str());
            f.append("}");
            let ghost fns0 = c.top_fns@;
            let ghost fv_text = f@;
            c.top_fns.push(f);
            proof {
                assert(names_view(c.top_fns@) =~= names_view(fns0).push(fv_text));
                assert(fv_text == lam_fn_text(lam_name@, lf3));
            }

            // The closure, at the point of definition.
            let r = c.ssa("clos");
            if caps.len() == 0 {
                let mut t = cat(&r, " = call ptr @coda_mk_closure(ptr @");
                t.append(lam_name.as_str());
                t.append(", ptr null, i32 0)");
                emit_text(fb, t);
            } else {
                let n = caps.len();
                let caps_arr = c.ssa("caps");
                emit_text(fb, alloca(&caps_arr, n));
                let mut vals: Vec<String> = Vec::new();
                let mut j: usize = 0;
                while j < n
                    invariant
                        n == caps.len(),
                        j <= n,
                        capsv == env_v(caps@),
                        names_view(vals@) == capsv.map_values(|p: (Seq<char>, Seq<char>)| p.1).take(j as int),
                    decreases n - j,
                {
                    let ghost v0 = vals@;
                    vals.push(caps[j].1.clone());
                    proof {
                        assert(capsv[j as int].1 == caps@[j as int].1@);
                        assert(names_view(vals@) =~= names_view(v0).push(caps@[j as int].1@));
                        assert(capsv.map_values(|p: (Seq<char>, Seq<char>)| p.1).take(j + 1)
                            =~= capsv.map_values(|p: (Seq<char>, Seq<char>)| p.1).take(j as int).push(capsv[j as int].1));
                    }
                    j += 1;
                }
                proof {
                    assert(capsv.map_values(|p: (Seq<char>, Seq<char>)| p.1).take(n as int) =~= capsv.map_values(|p: (Seq<char>, Seq<char>)| p.1));
                }
                emit_stores(c, fb, &caps_arr, &vals, "cgep");
                let mut t = cat(&r, " = call ptr @coda_mk_closure(ptr @");
                t.append(lam_name.as_str());
                t.append(", ptr ");
                t.append(caps_arr.as_str());
                t.append(", i32 ");
                push_decimal(&mut t, n as u64);
                t.append(")");
                emit_text(fb, t);
                // The closure retained each capture; drop the local references.
                release_all(fb, &vals);
            }
            fb.own(&r);
            proof {
                assert(lam_g(c0, f0, envv, params@, **body) == (c.gc(), fb.gf(), Some(r@)));
                assert(cg_g(c0, f0, envv, *e) == lam_g(c0, f0, envv, params@, **body));
            }
            Ok(r)
        },
        _ => Err(String::new()),
    }
}

/// `{dst} = call i1 @coda_str_eq(ptr {tn}, ptr {tag})`.
fn str_eq(dst: &String, tn: &String, tag: &String) -> (s: String)
    ensures
        s@ == str_eq_t(dst@, tn@, tag@),
{
    let mut s = cat(dst, " = call i1 @coda_str_eq(ptr ");
    s.append(tn.as_str());
    s.append(", ptr ");
    s.append(tag.as_str());
    s.append(")");
    s
}

/// Seals the current block and starts block `label`.
fn start_block(fb: &mut FnBuilder, label: String)
    ensures
        final(fb).gf() == next_block_g(old(fb).gf(), label@),
        old(fb).text().is_prefix_of(final(fb).text()),
        final(fb).cur_label@ == label@,
{
    fb.next_block(label);
    proof { lemma_prefix_append(old(fb).text(), label@ + ":\n"@); }
}

/// Compiles one branch body with its payload binding (if any) in scope.
fn compile_branch(c: &mut Compiler, fb: &mut FnBuilder, env: &CEnv, scrut: &String, binding: &Option<String>, body: &Spanned<Expr>)
    -> (r: Result<String, String>)
    requires
        old(c).wf(),
        desugared(*body),
    ensures
        final(c).wf(),
        old(c).cview().is_prefix_of(final(c).cview()),
        old(fb).text().is_prefix_of(final(fb).text()),
        outcome(r, cerr(*body, branch_scope(*binding, env_keys(env@))), strs(*body), final(c).cview()),
        r is Ok ==> branch_g(old(c).gc(), old(fb).gf(), env_v(env@), scrut@, *binding, *body) == (final(c).gc(), final(fb).gf(), Some(r->Ok_0@)),
    decreases body, 3nat, 0int,
{
    broadcast use lemma_prefix_chain;
    let mut env2 = copy_env(env);
    let ghost f0 = fb.text();
    proof { lemma_prefix_refl(f0); }
    match binding {
        Some(b) => {
            let p = c.ssa("payload");
            emit_text(fb, call1(&p, "call ptr @coda_tag_payload", scrut));
            env_insert(&mut env2, b, p);
        },
        None => {},
    }
    compile_expr(c, fb, &env2, body)
}

/// Starts check block `label`: compare the tag name `tn` with `tag`, go to
/// `target` on a match and to `miss` otherwise.
fn emit_check(c: &mut Compiler, fb: &mut FnBuilder, label: &String, tag: &String, tn: &String, target: &String, miss: &String)
    requires
        old(c).wf(),
    ensures
        final(c).wf(),
        old(c).cview().is_prefix_of(final(c).cview()),
        contents(final(c).cview()).contains(tag@),
        old(fb).text().is_prefix_of(final(fb).text()),
        (final(c).gc(), final(fb).gf()) == check_g(old(c).gc(), old(fb).gf(), label@, tag@, tn@, target@, miss@),
{
    broadcast use lemma_prefix_chain;
    let ghost f0 = fb.text();
    fb.next_block(label.clone());
    proof { lemma_prefix_append(f0, label@ + ":\n"@); }
    let tag_g = c.string_const(tag.as_str());
    let hit = c.ssa("cmp");
    emit_text(fb, str_eq(&hit, tn, &tag_g));
    fb.emit_condbr(&hit, target, miss);
}

#[verifier::rlimit(80)]
fn compile_when(c: &mut Compiler, fb: &mut FnBuilder, env: &CEnv, e: &Spanned<Expr>) -> (r: Result<String, String>)
    requires
        old(c).wf(),
        desugared(*e),
        e.0 is When,
    ensures
        final(c).wf(),
        old(c).cview().is_prefix_of(final(c).cview()),
        old(fb).text().is_prefix_of(final(fb).text()),
        outcome(r, cerr(*e, env_keys(env@)), strs(*e), final(c).cview()),
        r is Ok ==> cg_g(old(c).gc(), old(fb).gf(), env_v(env@), *e) == (final(c).gc(), final(fb).gf(), Some(r->Ok_0@)),
    decreases e, 1nat, 0int,
{
    broadcast use lemma_prefix_chain, lemma_contents_prefix;
    proof {
        lemma_prefix_refl(c.cview());
        lemma_prefix_refl(fb.text());
    }
    match &e.0 {
        Expr::When(scrutinee, branches, otherwise) => {
            let ghost k = env_keys(env@);
            let ghost envv = env_v(env@);
            let ghost c0 = c.gc();
            let ghost f0 = fb.gf();
            let scrut = match compile_expr(c, fb, env, scrutinee) {
                Err(m) => return Err(m),
                Ok(v) => v,
            };
            let ghost cv_s = c.cview();
            // The scrutinee is released by hand at the merge block.
            let scrut_was_owned = fb.disown(&scrut);
            let tn = c.ssa("tn");
            emit_text(fb, call1(&tn, "call ptr @coda_tag_name", &scrut));
            let merge = c.label("merge");
            let ghost c3 = c.gc();

            // All block labels up front.
            let nb = branches.len();
            let mut branch_labels: Vec<String> = Vec::new();
            let mut i: usize = 0;
            assert(names_view(branch_labels@) =~= Seq::empty());
            while i < nb
                invariant
                    i <= nb,
                    branch_labels.len() == i,
                    c.cview() == cv_s,
                    labels_g(c3, "branch"@, i as nat) == (c.gc(), names_view(branch_labels@)),
                decreases nb - i,
            {
                let ghost bl0 = branch_labels@;
                let l = c.label("branch");
                branch_labels.push(l);
                assert(names_view(branch_labels@) =~= names_view(bl0).push(branch_labels@[i as int]@));
                i += 1;
            }
            let ghost c4 = c.gc();
            let nc: usize = if nb > 0 { nb - 1 } else { 0 };
            let mut check_labels: Vec<String> = Vec::new();
            let mut i: usize = 0;
            assert(names_view(check_labels@) =~= Seq::empty());
            while i < nc
                invariant
                    i <= nc,
                    check_labels.len() == i,
                    c.cview() == cv_s,
                    labels_g(c4, "check"@, i as nat) == (c.gc(), names_view(check_labels@)),
                decreases nc - i,
            {
                let ghost cl0 = check_labels@;
                let l = c.label("check");
                check_labels.push(l);
                assert(names_view(check_labels@) =~= names_view(cl0).push(check_labels@[i as int]@));
                i += 1;
            }
            let otherwise_label: Option<String> = match otherwise {
                Some(_) => Some(c.label("otherwise")),
                None => None,
            };
            // With no `otherwise` the type system rules out a miss; LLVM still needs
            // a target, an `unreachable` block.
            let no_match_label: Option<String> = match otherwise_label {
                Some(_) => None,
                None => Some(c.label("no_match")),
            };
            let last_miss: String = match &otherwise_label {
                Some(l) => l.clone(),
                None => match &no_match_label {
                    Some(l) => l.clone(),
                    None => merge.clone(),
                },
            };
            let first_miss = if nb > 1 { check_labels[0].clone() } else { last_miss.clone() };

            // The first comparison, in the current block.
            if nb > 0 {
                let tag_g = c.string_const(branches[0].0.as_str());
                let hit = c.ssa("cmp");
                emit_text(fb, str_eq(&hit, &tn, &tag_g));
                fb.emit_condbr(&hit, &branch_labels[0], &first_miss);
            } else {
                match &otherwise_label {
                    Some(ol) => fb.emit_br(ol),
                    None => fb.emit_br(&merge),
                }
            }

            let ghost wx = WhenCx {
                scrut: scrut@,
                tn: tn@,
                merge: merge@,
                branch_labels: names_view(branch_labels@),
                check_labels: names_view(check_labels@),
                last_miss: last_miss@,
            };
            let ghost c8 = c.gc();
            let ghost f4 = fb.gf();
            let mut phi_entries: Vec<(String, String)> = Vec::new();
            let mut i: usize = 0;
            assert(env_v(phi_entries@) =~= Seq::empty());
            while i < nb
                invariant
                    envv == env_v(env@),
                    wx.scrut == scrut@,
                    wx.tn == tn@,
                    wx.merge == merge@,
                    wx.branch_labels == names_view(branch_labels@),
                    wx.check_labels == names_view(check_labels@),
                    wx.last_miss == last_miss@,
                    branches_g(c8, f4, envv, wx, branches@, 0, Seq::empty())
                        == branches_g(c.gc(), fb.gf(), envv, wx, branches@, i as int, env_v(phi_entries@)),
                    i <= nb,
                    nb == branches.len(),
                    branch_labels.len() == nb,
                    check_labels.len() == nc,
                    nc == (if nb > 0 { nb - 1 } else { 0 }),
                    e.0 == Expr::When(*scrutinee, *branches, *otherwise),
                    cerr(**scrutinee, k) is None,
                    strs(**scrutinee).subset_of(contents(c.cview())),
                    k == env_keys(env@),
                    c.wf(),
                    old(c).cview().is_prefix_of(c.cview()),
                    old(fb).text().is_prefix_of(fb.text()),
                    cerr_branches(branches@, 0, k) == cerr_branches(branches@, i as int, k),
                    strs_branches(branches@, 0).subset_of(contents(c.cview()).union(strs_branches(branches@, i as int))),
                    i < nb ==> contents(c.cview()).contains(branches@[i as int].0@),
                    branches_desugared(branches@, i as int),
                decreases nb - i,
            {
                let ghost cv0 = c.cview();
                let ghost f0 = fb.text();
                fb.next_block(branch_labels[i].clone());
                proof { lemma_prefix_append(f0, branch_labels@[i as int]@ + ":\n"@); }
                let ghost f1 = fb.text();
                let result = match compile_branch(c, fb, env, &scrut, &branches[i].1, &branches[i].2) {
                    Err(m) => {
                        proof {
                            lemma_prefix_trans(f0, f1, fb.text());
                            lemma_prefix_trans(old(fb).text(), f0, fb.text());
                        }
                        return Err(m);
                    },
                    Ok(v) => v,
                };
                let ghost cv1 = c.cview();
                let ghost f2 = fb.text();
                let from = fb.cur_label();
                fb.prepare_export(&result);
                let ghost pe0 = phi_entries@;
                let ghost rv = result@;
                let ghost fv0 = from@;
                phi_entries.push((result, from));
                assert(env_v(phi_entries@) =~= env_v(pe0).push((rv, fv0)));
                fb.emit_br(&merge);
                let ghost f3 = fb.text();
                if i + 1 < nb {
                    let miss = if i + 2 < nb { check_labels[i + 1].clone() } else { last_miss.clone() };
                    emit_check(c, fb, &check_labels[i], &branches[i + 1].0, &tn, &branch_labels[i + 1], &miss);
                } else {
                    proof { lemma_prefix_refl(f3); }
                }
                proof {
                    lemma_prefix_trans(f0, f1, f2);
                    lemma_prefix_trans(f0, f2, f3);
                    lemma_prefix_trans(f0, f3, fb.text());
                    lemma_prefix_trans(old(fb).text(), f0, fb.text());
                }
                assert(strs_branches(branches@, 0).subset_of(contents(c.cview()).union(strs_branches(branches@, i + 1)))) by {
                    assert(contents(cv0).subset_of(contents(cv1)));
                    assert(contents(cv1).subset_of(contents(c.cview())));
                    assert forall|x: Seq<char>| strs_branches(branches@, 0).contains(x) implies contents(c.cview()).union(strs_branches(branches@, i + 1)).contains(x) by {
                        if contents(cv0).contains(x) {
                            assert(contents(cv1).contains(x));
                        }
                        if strs(*branches@[i as int].2).contains(x) {
                            assert(contents(cv1).contains(x));
                        }
                    }
                }
                i += 1;
            }

            // The `otherwise` block.
            match otherwise {
                Some(body) => {
                    let ol = match &otherwise_label {
                        Some(l) => l.clone(),
                        None => merge.clone(),
                    };
                    start_block(fb, ol);
                    let result = match compile_expr(c, fb, env, body) {
                        Err(m) => return Err(m),
                        Ok(v) => v,
                    };
                    let from = fb.cur_label();
                    fb.prepare_export(&result);
                    let ghost pe0 = phi_entries@;
                    let ghost rv = result@;
                    let ghost fv0 = from@;
                    phi_entries.push((result, from));
                    assert(env_v(phi_entries@) =~= env_v(pe0).push((rv, fv0)));
                    fb.emit_br(&merge);
                },
                None => {},
            }

            // The miss block when there is no `otherwise`.
            match no_match_label {
                Some(nm) => {
                    start_block(fb, nm);
                    emit_text(fb, String::from_str("unreachable"));
                },
                None => {},
            }

            // The merge block.
            start_block(fb, merge);
            let r = c.ssa("when");
            if phi_entries.len() == 0 {
                emit_text(fb, cat(&r, " = call ptr @coda_mk_unit()"));
            } else {
                let mut t = cat(&r, " = phi ptr ");
                let mut j: usize = 0;
                let ghost pv = env_v(phi_entries@);
                assert(phi_text(pv.take(0)) =~= Seq::empty());
                while j < phi_entries.len()
                    invariant
                        j <= phi_entries.len(),
                        pv == env_v(phi_entries@),
                        t@ == r@ + " = phi ptr "@ + phi_text(pv.take(j as int)),
                    decreases phi_entries.len() - j,
                {
                    let ghost t0 = t@;
                    if j > 0 {
                        t.append(", ");
                    }
                    t.append("[ ");
                    t.append(phi_entries[j].0.as_str());
                    t.append(", %");
                    t.append(phi_entries[j].1.as_str());
                    t.append(" ]");
                    proof {
                        assert(pv.take(j + 1).drop_last() =~= pv.take(j as int));
                        assert(pv[j as int] == (phi_entries@[j as int].0@, phi_entries@[j as int].1@));
                        if j == 0 {
                            assert(pv.take(1)[0] == pv[0]);
                        }
                    }
                    j += 1;
                }
                assert(pv.take(phi_entries.len() as int) =~= pv);
                emit_text(fb, t);
            }
            fb.own(&r);
            if scrut_was_owned {
                emit_text(fb, call1(&String::from_str("call void"), "@coda_release", &scrut));
            }
            assert(strs(*e).subset_of(contents(c.cview()))) by {
                assert(strs_branches(branches@, nb as int) =~= Set::empty());
            }
            proof {
                assert(when_g(c0, f0, envv, *e) == (c.gc(), fb.gf(), Some(r@)));
                assert(cg_g(c0, f0, envv, *e) == when_g(c0, f0, envv, *e));
            }
            Ok(r)
        },
        _ => Err(String::new()),
    }
}

// ── Runtime declarations and builtin wrappers (static IR text) ────────────────

pub const RUNTIME_DECLS: &'static str = "; Coda runtime declarations
declare ptr @coda_mk_int(i64)
declare ptr @coda_mk_str(ptr)
declare ptr @coda_mk_closure(ptr, ptr, i32)
declare ptr @coda_mk_tag(ptr, ptr)
declare ptr @coda_mk_unit()
declare ptr @coda_mk_record(ptr, ptr, i32)
declare ptr @coda_mk_list(ptr, i32)
declare ptr @coda_apply(ptr, ptr, i32)
declare ptr @coda_field_get(ptr, ptr)
declare ptr @coda_tag_name(ptr)
declare ptr @coda_tag_payload(ptr)
declare i1  @coda_str_eq(ptr, ptr)
declare ptr @coda_add(ptr, ptr)
declare ptr @coda_sub(ptr, ptr)
declare ptr @coda_mul(ptr, ptr)
declare ptr @coda_str_concat(ptr, ptr)
declare ptr @coda_eq(ptr, ptr)
declare ptr @coda_fix(ptr)
declare ptr @coda_cons(ptr, ptr)
declare ptr @coda_append(ptr, ptr)
declare ptr @coda_head(ptr)
declare ptr @coda_tail(ptr)
declare ptr @coda_len(ptr)
declare ptr @coda_map(ptr, ptr)
declare ptr @coda_fold(ptr, ptr, ptr)
declare ptr @coda_list_of(ptr, ptr)
declare ptr @coda_list_init(ptr, ptr)
declare void @coda_retain(ptr)
declare void @coda_release(ptr)
";

pub const BUILTIN_WRAPPERS: &'static str = "; Builtin wrapper functions (closure-callable wrappers around C runtime fns)

define ptr @builtin_str_concat(ptr %caps, ptr %args, i32 %nargs) {
entry:
  %p0 = getelementptr ptr, ptr %args, i32 0
  %a = load ptr, ptr %p0
  %p1 = getelementptr ptr, ptr %args, i32 1
  %b = load ptr, ptr %p1
  %r = call ptr @coda_str_concat(ptr %a, ptr %b)
  ret ptr %r
}

define ptr @builtin_add(ptr %caps, ptr %args, i32 %nargs) {
entry:
  %p0 = getelementptr ptr, ptr %args, i32 0
  %a = load ptr, ptr %p0
  %p1 = getelementptr ptr, ptr %args, i32 1
  %b = load ptr, ptr %p1
  %r = call ptr @coda_add(ptr %a, ptr %b)
  ret ptr %r
}

define ptr @builtin_sub(ptr %caps, ptr %args, i32 %nargs) {
entry:
  %p0 = getelementptr ptr, ptr %args, i32 0
  %a = load ptr, ptr %p0
  %p1 = getelementptr ptr, ptr %args, i32 1
  %b = load ptr, ptr %p1
  %r = call ptr @coda_sub(ptr %a, ptr %b)
  ret ptr %r
}

define ptr @builtin_mul(ptr %caps, ptr %args, i32 %nargs) {
entry:
  %p0 = getelementptr ptr, ptr %args, i32 0
  %a = load ptr, ptr %p0
  %p1 = getelementptr ptr, ptr %args, i32 1
  %b = load ptr, ptr %p1
  %r = call ptr @coda_mul(ptr %a, ptr %b)
  ret ptr %r
}

define ptr @builtin_eq(ptr %caps, ptr %args, i32 %nargs) {
entry:
  %p0 = getelementptr ptr, ptr %args, i32 0
  %a = load ptr, ptr %p0
  %p1 = getelementptr ptr, ptr %args, i32 1
  %b = load ptr, ptr %p1
  %r = call ptr @coda_eq(ptr %a, ptr %b)
  ret ptr %r
}

define ptr @builtin_fix(ptr %caps, ptr %args, i32 %nargs) {
entry:
  %p0 = getelementptr ptr, ptr %args, i32 0
  %f = load ptr, ptr %p0
  %r = call ptr @coda_fix(ptr %f)
  ret ptr %r
}

define ptr @builtin_cons(ptr %caps, ptr %args, i32 %nargs) {
entry:
  %p0 = getelementptr ptr, ptr %args, i32 0
  %x = load ptr, ptr %p0
  %p1 = getelementptr ptr, ptr %args, i32 1
  %xs = load ptr, ptr %p1
  %r = call ptr @coda_cons(ptr %x, ptr %xs)
  ret ptr %r
}

define ptr @builtin_append(ptr %caps, ptr %args, i32 %nargs) {
entry:
  %p0 = getelementptr ptr, ptr %args, i32 0
  %xs = load ptr, ptr %p0
  %p1 = getelementptr ptr, ptr %args, i32 1
  %ys = load ptr, ptr %p1
  %r = call ptr @coda_append(ptr %xs, ptr %ys)
  ret ptr %r
}

define ptr @builtin_head(ptr %caps, ptr %args, i32 %nargs) {
entry:
  %p0 = getelementptr ptr, ptr %args, i32 0
  %xs = load ptr, ptr %p0
  %r = call ptr @coda_head(ptr %xs)
  ret ptr %r
}

define ptr @builtin_tail(ptr %caps, ptr %args, i32 %nargs) {
entry:
  %p0 = getelementptr ptr, ptr %args, i32 0
  %xs = load ptr, ptr %p0
  %r = call ptr @coda_tail(ptr %xs)
  ret ptr %r
}

define ptr @builtin_len(ptr %caps, ptr %args, i32 %nargs) {
entry:
  %p0 = getelementptr ptr, ptr %args, i32 0
  %xs = load ptr, ptr %p0
  %r = call ptr @coda_len(ptr %xs)
  ret ptr %r
}

define ptr @builtin_map(ptr %caps, ptr %args, i32 %nargs) {
entry:
  %p0 = getelementptr ptr, ptr %args, i32 0
  %f = load ptr, ptr %p0
  %p1 = getelementptr ptr, ptr %args, i32 1
  %xs = load ptr, ptr %p1
  %r = call ptr @coda_map(ptr %f, ptr %xs)
  ret ptr %r
}

define ptr @builtin_fold(ptr %caps, ptr %args, i32 %nargs) {
entry:
  %p0 = getelementptr ptr, ptr %args, i32 0
  %f = load ptr, ptr %p0
  %p1 = getelementptr ptr, ptr %args, i32 1
  %init = load ptr, ptr %p1
  %p2 = getelementptr ptr, ptr %args, i32 2
  %xs = load ptr, ptr %p2
  %r = call ptr @coda_fold(ptr %f, ptr %init, ptr %xs)
  ret ptr %r
}

define ptr @builtin_list_of(ptr %caps, ptr %args, i32 %nargs) {
entry:
  %p0 = getelementptr ptr, ptr %args, i32 0
  %n = load ptr, ptr %p0
  %p1 = getelementptr ptr, ptr %args, i32 1
  %v = load ptr, ptr %p1
  %r = call ptr @coda_list_of(ptr %n, ptr %v)
  ret ptr %r
}

define ptr @builtin_list_init(ptr %caps, ptr %args, i32 %nargs) {
entry:
  %p0 = getelementptr ptr, ptr %args, i32 0
  %n = load ptr, ptr %p0
  %p1 = getelementptr ptr, ptr %args, i32 1
  %f = load ptr, ptr %p1
  %r = call ptr @coda_list_init(ptr %n, ptr %f)
  ret ptr %r
}
";

// ── The output file ───────────────────────────────────────────────────────────

/// The names a program starts with, in order; `then` has no wrapper and stays unbound.
pub open spec fn builtin_names() -> Seq<Seq<char>> {
    seq!["++"@, "+"@, "-"@, "*"@, "=="@, "fix"@, "::"@, "cons"@, "<>"@, "append"@,
        "head"@, "tail"@, "len"@, "map"@, "fold"@, "list_of"@, "list_init"@, "then"@]
}

/// The start of `@coda_main`: one closure per builtin that has a wrapper, in list
/// order, numbered by the counter `k`.
pub open spec fn setup_lines(names: Seq<Seq<char>>, i: int, k: u64) -> Seq<char>
    decreases names.len() - i,
{
    if i < 0 || i >= names.len() {
        Seq::empty()
    } else {
        match builtin_wrapper(names[i]) {
            Some(w) => "  "@ + seq!['%'] + "b"@ + seq!['_'] + decimal(k as nat) + " = call ptr @coda_mk_closure(ptr @"@ + w
                + ", ptr null, i32 0)"@ + "\n"@ + setup_lines(names, i + 1, next_c(k)),
            None => setup_lines(names, i + 1, k),
        }
    }
}

/// The declaration of string constant `name` holding `content`: its byte length
/// counts the terminating NUL.
pub open spec fn const_line(name: Seq<char>, content: Seq<char>) -> Seq<char> {
    name + " = private constant ["@ + decimal(encode_utf8(content).len() + 1) + " x i8] c"@ + seq!['"']
        + llvm_escape_s(content) + seq!['"'] + "\n"@
}

pub open spec fn consts_text(cs: Seq<(Seq<char>, Seq<char>)>) -> Seq<char>
    decreases cs.len(),
{
    if cs.len() == 0 { Seq::empty() } else { consts_text(cs.drop_last()) + const_line(cs.last().0, cs.last().1) }
}

pub open spec fn fns_text(fs: Seq<Seq<char>>) -> Seq<char>
    decreases fs.len(),
{
    if fs.len() == 0 { Seq::empty() } else { fns_text(fs.drop_last()) + fs.last() + "\n\n"@ }
}

/// The whole `.ll` file: runtime declarations, builtin wrappers, the string
/// constants (and a blank line after them when there are any), the lambda
/// functions, and `@coda_main` with body `main_body`.
pub open spec fn module_text(cs: Seq<(Seq<char>, Seq<char>)>, fs: Seq<Seq<char>>, main_body: Seq<char>) -> Seq<char> {
    RUNTIME_DECLS@ + "\n"@ + BUILTIN_WRAPPERS@ + "\n"@ + consts_text(cs)
        + (if cs.len() > 0 { "\n"@ } else { Seq::empty() })
        + fns_text(fs) + "define ptr @coda_main() {\n"@ + main_body + "}\n"@
}

/// The start of `@coda_main` from builtin `i` on: a closure for each builtin
/// that has a wrapper, owned and bound to the builtin's name.
pub open spec fn setup_g(names: Seq<Seq<char>>, i: int, c: CgC, f: CgF, env: Seq<(Seq<char>, Seq<char>)>) -> (CgC, CgF, Seq<(Seq<char>, Seq<char>)>)
    decreases names.len() - i,
{
    if i < 0 || i >= names.len() {
        (c, f, env)
    } else {
        match builtin_wrapper(names[i]) {
            Some(w) => {
                let (c1, v) = ssa_g(c, "b"@);
                let f1 = own_g(emit_g(f, v + " = call ptr @coda_mk_closure(ptr @"@ + w + ", ptr null, i32 0)"@), v);
                setup_g(names, i + 1, c1, f1, env.push((names[i], v)))
            },
            None => setup_g(names, i + 1, c, f, env),
        }
    }
}

/// The module a program compiles to: the builtins set up, the program compiled
/// in their scope, its value returned from `@coda_main`; `None` where
/// compilation fails.
pub open spec fn compile_g(expr: Spanned<Expr>) -> Option<Seq<char>> {
    let (c0, f0, env0) = setup_g(builtin_names(), 0, CgC { n: 0, cs: Seq::empty(), fns: Seq::empty() }, fresh_f(), Seq::empty());
    let (c1, f1, r) = cg_g(c0, f0, env0, expr);
    match r {
        None => None,
        Some(res) => Some(module_text(c1.cs, c1.fns, body_text(emit_g(prepare_export_g(f1, res), "ret ptr "@ + res)))),
    }
}

fn push_const_line(out: &mut String, name: &String, content: &String)
    ensures
        final(out)@ == old(out)@ + const_line(name@, content@),
{
    out.append(name.as_str());
    out.append(" = private constant [");
    let n = content.as_str().as_bytes().len();
    push_decimal_wide(out, n as u128 + 1);
    out.append(" x i8] c");
    push_char(out, '"');
    let esc = llvm_escape(content.as_str());
    out.append(esc.as_str());
    push_char(out, '"');
    out.append("\n");
    assert(out@ =~= old(out)@ + const_line(name@, content@));
}


// ── Programs with modules ─────────────────────────────────────────────────────

/// The paths of the modules, in order.
pub open spec fn paths_of(mods: Seq<(String, Spanned<Expr>)>) -> Seq<Seq<char>> {
    mods.map_values(|m: (String, Spanned<Expr>)| m.0@)
}

/// The function that computes the `k`-th module.
pub open spec fn module_fn_text(k: nat, body: Seq<char>) -> Seq<char> {
    "define ptr @coda_module_"@ + decimal(k) + "() {\n"@ + body + "}"@
}

/// The keys of those among the first `k` modules whose paths are in `used`.
pub open spec fn module_scope(paths: Seq<Seq<char>>, used: Set<Seq<char>>, k: int) -> Set<Seq<char>> {
    Set::new(|x: Seq<char>| exists|j: int| 0 <= j < k && #[trigger] used.contains(paths[j]) && x == module_key(paths[j]))
}

/// The names a unit sees: the builtins, and the first `k` modules that it imports.
pub open spec fn unit_scope(paths: Seq<Seq<char>>, k: int, e: Spanned<Expr>) -> Set<Seq<char>> {
    builtin_scope().union(module_scope(paths, imports(e), k))
}

/// From module `j` up to `k`: for each module whose path is in `used`, a call of
/// its function, the value owned and bound to the module's key.
pub open spec fn mod_setup_g(
    paths: Seq<Seq<char>>,
    used: Set<Seq<char>>,
    j: int,
    k: int,
    c: CgC,
    f: CgF,
    env: Seq<(Seq<char>, Seq<char>)>,
) -> (CgC, CgF, Seq<(Seq<char>, Seq<char>)>)
    decreases k - j,
{
    if j < 0 || j >= k {
        (c, f, env)
    } else if used.contains(paths[j]) {
        let (c1, v) = ssa_g(c, "m"@);
        let f1 = own_g(emit_g(f, v + " = call ptr @coda_module_"@ + decimal(j as nat) + "()"@), v);
        mod_setup_g(paths, used, j + 1, k, c1, f1, env.push((module_key(paths[j]), v)))
    } else {
        mod_setup_g(paths, used, j + 1, k, c, f, env)
    }
}

/// One function body: the builtins set up, then the first `k` modules that `e`
/// imports, then `e` compiled and its value returned; the state after it and the
/// body, or `None` where compilation fails.
pub open spec fn unit_g(c: CgC, paths: Seq<Seq<char>>, k: int, e: Spanned<Expr>) -> (CgC, Option<Seq<char>>) {
    let (c0, f0, env0) = setup_g(builtin_names(), 0, c, fresh_f(), Seq::empty());
    let (c1, f1, env1) = mod_setup_g(paths, imports(e), 0, k, c0, f0, env0);
    let (c2, f2, r) = cg_g(c1, f1, env1, e);
    match r {
        None => (c2, None),
        Some(res) => (c2, Some(body_text(emit_g(prepare_export_g(f2, res), "ret ptr "@ + res)))),
    }
}

/// The first `k` modules compiled in order, the `j`-th into `@coda_module_{j}`;
/// the state after them, or `None` where one fails.
pub open spec fn modules_g(c: CgC, mods: Seq<(String, Spanned<Expr>)>, k: int) -> Option<CgC>
    decreases k,
{
    if k <= 0 {
        Some(c)
    } else {
        match modules_g(c, mods, k - 1) {
            None => None,
            Some(c1) => {
                let (c2, b) = unit_g(c1, paths_of(mods), k - 1, mods[k - 1].1);
                match b {
                    None => None,
                    Some(body) => Some(CgC { n: c2.n, cs: c2.cs, fns: c2.fns.push(module_fn_text((k - 1) as nat, body)) }),
                }
            },
        }
    }
}

/// The module a program compiles to when the modules it imports are compiled
/// with it: each module once, into its own function, before the program.
pub open spec fn compile_program_g(mods: Seq<(String, Spanned<Expr>)>, expr: Spanned<Expr>) -> Option<Seq<char>> {
    match modules_g(CgC { n: 0, cs: Seq::empty(), fns: Seq::empty() }, mods, mods.len() as int) {
        None => None,
        Some(c) => {
            let (c2, b) = unit_g(c, paths_of(mods), mods.len() as int, expr);
            match b {
                None => None,
                Some(body) => Some(module_text(c2.cs, c2.fns, body)),
            }
        },
    }
}

/// The first error met in the first `k` modules, in order.
pub open spec fn modules_err(mods: Seq<(String, Spanned<Expr>)>, k: int) -> Option<Seq<char>>
    decreases k,
{
    if k <= 0 {
        None
    } else {
        first_err(modules_err(mods, k - 1), cerr(mods[k - 1].1, unit_scope(paths_of(mods), k - 1, mods[k - 1].1)))
    }
}

/// The first error met when a program is compiled with its modules: in the
/// modules in order, then in the program. A module sees the builtins and the
/// modules before it; the program sees the builtins and every module.
pub open spec fn program_err(mods: Seq<(String, Spanned<Expr>)>, expr: Spanned<Expr>) -> Option<Seq<char>> {
    first_err(modules_err(mods, mods.len() as int), cerr(expr, unit_scope(paths_of(mods), mods.len() as int, expr)))
}

/// Calls the functions of those among the first `k` modules whose paths are in
/// `used`, and binds their values to the modules' keys.
fn setup_modules(c: &mut Compiler, fb: &mut FnBuilder, env: &mut CEnv, paths: &Vec<String>, used: &Vec<String>, k: usize)
    requires
        old(c).wf(),
        k <= paths.len(),
    ensures
        final(c).wf(),
        final(c).cview() == old(c).cview(),
        final(c).top_fns@ == old(c).top_fns@,
        (final(c).gc(), final(fb).gf(), env_v(final(env)@))
            == mod_setup_g(names_view(paths@), names_set(used@), 0, k as int, old(c).gc(), old(fb).gf(), env_v(old(env)@)),
        env_keys(final(env)@) == env_keys(old(env)@).union(module_scope(names_view(paths@), names_set(used@), k as int)),
{
    let ghost pv = names_view(paths@);
    let ghost uv = names_set(used@);
    let ghost g0 = c.gc();
    let ghost f0 = fb.gf();
    let ghost e0 = env_v(env@);
    let ghost keys0 = env_keys(env@);
    let ghost cv0 = c.cview();
    let ghost fns0 = c.top_fns@;
    assert(module_scope(pv, uv, 0) =~= Set::empty());
    assert(keys0.union(module_scope(pv, uv, 0)) =~= keys0);
    let mut j: usize = 0;
    while j < k
        invariant
            j <= k <= paths.len(),
            pv == names_view(paths@),
            uv == names_set(used@),
            c.wf(),
            c.cview() == cv0,
            c.top_fns@ == fns0,
            mod_setup_g(pv, uv, 0, k as int, g0, f0, e0) == mod_setup_g(pv, uv, j as int, k as int, c.gc(), fb.gf(), env_v(env@)),
            env_keys(env@) == keys0.union(module_scope(pv, uv, j as int)),
        decreases k - j,
    {
        let ghost keys_j = env_keys(env@);
        if contains_name(used, &paths[j]) {
            let v = c.ssa("m");
            let mut t = cat(&v, " = call ptr @coda_module_");
            push_decimal(&mut t, j as u64);
            t.append("()");
            emit_text(fb, t);
            fb.own(&v);
            let key = module_key_exec(&paths[j]);
            env_insert(env, &key, v);
            proof {
                assert(pv[j as int] == paths@[j as int]@);
                assert(module_scope(pv, uv, j + 1) =~= module_scope(pv, uv, j as int).insert(module_key(pv[j as int]))) by {
                    assert forall|x: Seq<char>| #[trigger] module_scope(pv, uv, j + 1).contains(x)
                        <==> module_scope(pv, uv, j as int).insert(module_key(pv[j as int])).contains(x) by {
                        if module_scope(pv, uv, j + 1).contains(x) {
                            let i = choose|i: int| 0 <= i < j + 1 && #[trigger] uv.contains(pv[i]) && x == module_key(pv[i]);
                            if i < j {
                                assert(module_scope(pv, uv, j as int).contains(x));
                            }
                        }
                        if module_scope(pv, uv, j as int).contains(x) {
                            let i = choose|i: int| 0 <= i < j && #[trigger] uv.contains(pv[i]) && x == module_key(pv[i]);
                            assert(0 <= i < j + 1);
                        }
                    }
                }
                assert(env_keys(env@) =~= keys0.union(module_scope(pv, uv, j + 1)));
            }
        } else {
            proof {
                assert(pv[j as int] == paths@[j as int]@);
                assert(module_scope(pv, uv, j + 1) =~= module_scope(pv, uv, j as int)) by {
                    assert forall|x: Seq<char>| #[trigger] module_scope(pv, uv, j + 1).contains(x)
                        implies module_scope(pv, uv, j as int).contains(x) by {
                        let i = choose|i: int| 0 <= i < j + 1 && #[trigger] uv.contains(pv[i]) && x == module_key(pv[i]);
                        assert(i != j);
                    }
                }
            }
        }
        j += 1;
    }
}

/// Compiles one function body: the builtins, the first `k` modules that `e`
/// imports, and `e`.
fn compile_unit(c: &mut Compiler, paths: &Vec<String>, k: usize, e: &Spanned<Expr>) -> (r: Result<String, String>)
    requires
        old(c).wf(),
        desugared(*e),
        k <= paths.len(),
    ensures
        final(c).wf(),
        match r {
            Err(m) => cerr(*e, unit_scope(names_view(paths@), k as int, *e)) == Some(m@),
            Ok(b) => cerr(*e, unit_scope(names_view(paths@), k as int, *e)) is None
                && unit_g(old(c).gc(), names_view(paths@), k as int, *e) == (final(c).gc(), Some(b@)),
        },
{
    let mut fb = FnBuilder::new();
    let mut env: CEnv = Vec::new();
    proof {
        reveal_strlit("entry");
        reveal_strlit(":\n");
        reveal_strlit("entry:\n");
        assert("entry:\n"@ =~= "entry"@ + ":\n"@);
    }
    setup_builtins(c, &mut fb, &mut env);
    let used = import_paths(e);
    setup_modules(c, &mut fb, &mut env, paths, &used, k);
    let result = match compile_expr(c, &mut fb, &env, e) {
        Err(m) => return Err(m),
        Ok(v) => v,
    };
    fb.prepare_export(&result);
    fb.emit_ret(&result);
    Ok(fb.to_ir())
}

/// The text of a module: the runtime declarations, the builtin wrappers, the
/// string constants, the functions, and `@coda_main` with body `main_body`.
fn assemble(c: &Compiler, main_body: &String) -> (out: String)
    ensures
        out@ == module_text(c.cview(), names_view(c.top_fns@), main_body@),
{
    let ghost cs = c.cview();
    let ghost fs = c.top_fns@.map_values(|f: String| f@);
    let mut out = String::from_str(RUNTIME_DECLS);
    out.append("\n");
    out.append(BUILTIN_WRAPPERS);
    out.append("\n");
    let ghost head = out@;
    let mut j: usize = 0;
    assert(cs.take(0) =~= Seq::empty());
    while j < c.string_consts.len()
        invariant
            j <= c.string_consts.len(),
            cs == c.cview(),
            out@ == head + consts_text(cs.take(j as int)),
        decreases c.string_consts.len() - j,
    {
        push_const_line(&mut out, &c.string_consts[j].0, &c.string_consts[j].1);
        assert(cs.take(j + 1).drop_last() =~= cs.take(j as int));
        j += 1;
    }
    assert(cs.take(cs.len() as int) =~= cs);
    if c.string_consts.len() > 0 {
        out.append("\n");
    }
    let ghost mid = out@;
    let mut j: usize = 0;
    assert(fs.take(0) =~= Seq::empty());
    while j < c.top_fns.len()
        invariant
            j <= c.top_fns.len(),
            fs == c.top_fns@.map_values(|f: String| f@),
            out@ == mid + fns_text(fs.take(j as int)),
        decreases c.top_fns.len() - j,
    {
        out.append(c.top_fns[j].as_str());
        out.append("\n\n");
        assert(fs.take(j + 1).drop_last() =~= fs.take(j as int));
        j += 1;
    }
    assert(fs.take(fs.len() as int) =~= fs);
    out.append("define ptr @coda_main() {\n");
    out.append(main_body.as_str());
    out.append("}\n");
    assert(fs =~= names_view(c.top_fns@));
    assert(out@ =~= module_text(cs, fs, main_body@));
    out
}

/// Compiles a program together with the modules it imports, to the text of one
/// LLVM IR module. `mods` lists each module once, by the path its imports name,
/// each after the modules it imports; the `j`-th module is compiled once, into
/// `@coda_module_{j}`, and an import of it reads the value that function
/// computes. A module may import only modules before it, and an import whose
/// path is not among them fails as in [`compile`].
pub fn compile_program(mods: &Vec<(String, Spanned<Expr>)>, expr: &Spanned<Expr>) -> (r: Result<String, String>)
    requires
        desugared(*expr),
        forall|j: int| 0 <= j < mods@.len() ==> desugared(#[trigger] mods@[j].1),
    ensures
        match r {
            Err(m) => program_err(mods@, *expr) == Some(m@),
            Ok(out) => program_err(mods@, *expr) is None && compile_program_g(mods@, *expr) == Some(out@),
        },
{
    let mut paths: Vec<String> = Vec::new();
    let mut i: usize = 0;
    while i < mods.len()
        invariant
            i <= mods.len(),
            names_view(paths@) == paths_of(mods@).take(i as int),
        decreases mods.len() - i,
    {
        let ghost old_paths = paths@;
        let pi = copy_string(&mods[i].0);
        paths.push(pi);
        assert(names_view(paths@) =~= names_view(old_paths).push(mods@[i as int].0@));
        assert(paths_of(mods@).take(i + 1) =~= paths_of(mods@).take(i as int).push(mods@[i as int].0@));
        i += 1;
    }
    assert(paths_of(mods@).take(mods.len() as int) =~= paths_of(mods@));
    let mut c = Compiler::new();
    let ghost g0 = CgC { n: 0, cs: Seq::empty(), fns: Seq::empty() };
    proof {
        assert(c.gc().cs =~= g0.cs);
        assert(c.gc().fns =~= g0.fns);
    }
    let mut k: usize = 0;
    while k < mods.len()
        invariant
            k <= mods.len(),
            paths@.len() == mods@.len(),
            names_view(paths@) == paths_of(mods@),
            forall|j: int| 0 <= j < mods@.len() ==> desugared(#[trigger] mods@[j].1),
            c.wf(),
            modules_g(g0, mods@, k as int) == Some(c.gc()),
            modules_err(mods@, k as int) is None,
        decreases mods.len() - k,
    {
        let body = match compile_unit(&mut c, &paths, k, &mods[k].1) {
            Err(m) => {
                proof {
                    assert(modules_err(mods@, k + 1) == Some(m@));
                    lemma_modules_err_stays(mods@, k + 1, mods@.len() as int);
                }
                return Err(m);
            },
            Ok(b) => b,
        };
        let mut f = String::from_str("define ptr @coda_module_");
        push_decimal(&mut f, k as u64);
        f.append("() {\n");
        f.append(body.as_str());
        f.append("}");
        let ghost fns0 = c.top_fns@;
        let ghost ftext = f@;
        c.top_fns.push(f);
        proof {
            assert(names_view(c.top_fns@) =~= names_view(fns0).push(ftext));
            assert(ftext =~= module_fn_text(k as nat, body@));
        }
        k += 1;
    }
    let body = match compile_unit(&mut c, &paths, mods.len(), expr) {
        Err(m) => return Err(m),
        Ok(b) => b,
    };
    let out = assemble(&c, &body);
    Ok(out)
}

/// Once an error is met among the first `k` modules, it stays the first error.
proof fn lemma_modules_err_stays(mods: Seq<(String, Spanned<Expr>)>, k: int, n: int)
    requires
        0 <= k <= n,
        modules_err(mods, k) is Some,
    ensures
        modules_err(mods, n) == modules_err(mods, k),
    decreases n - k,
{
    if k < n {
        lemma_modules_err_stays(mods, k, n - 1);
    }
}

/// The start of a function that sees the builtins: a closure for each builtin
/// that has a wrapper, owned and bound to the builtin's name.
fn setup_builtins(c: &mut Compiler, fb: &mut FnBuilder, env: &mut CEnv)
    requires
        old(c).wf(),
        old(fb).gf() == fresh_f(),
        old(fb).text() == "entry:\n"@,
        old(env)@.len() == 0,
    ensures
        final(c).wf(),
        final(c).cview() == old(c).cview(),
        final(c).top_fns@ == old(c).top_fns@,
        (final(c).gc(), final(fb).gf(), env_v(final(env)@)) == setup_g(builtin_names(), 0, old(c).gc(), fresh_f(), Seq::empty()),
        final(fb).text() == "entry:\n"@ + setup_lines(builtin_names(), 0, old(c).counter),
        env_keys(final(env)@) == builtin_scope(),
{
    proof {
        assert(env_v(env@) =~= Seq::empty());
        assert(env@ =~= Seq::<(String, String)>::empty());
    }

    // The standard environment: a closure for each builtin that has a wrapper.
    let builtins: Vec<&str> = vec![
        "++", "+", "-", "*", "==", "fix", "::", "cons", "<>", "append",
        "head", "tail", "len", "map", "fold", "list_of", "list_init",
        "then",
    ];
    let ghost names = builtin_names();
    assert(builtins@.map_values(|x: &str| x@) =~= names);
    let ghost g0 = c.gc();
    let ghost k_start = c.counter;
    let ghost cv0 = c.cview();
    let ghost fns0 = c.top_fns@;
    proof {
        lemma_keys_empty();
        assert(env_keys(env@) =~= Set::new(|n: Seq<char>| exists|j: int| 0 <= j < 0 && names[j] == n && builtin_wrapper(n) is Some));
    }
    let mut i: usize = 0;
    while i < builtins.len()
        invariant
            i <= builtins.len(),
            builtins@.len() == names.len(),
            forall|j: int| 0 <= j < names.len() ==> #[trigger] builtins@[j]@ == names[j],
            c.wf(),
            c.cview() == cv0,
            c.top_fns@ == fns0,
            c.gc() == (CgC { n: c.counter, cs: g0.cs, fns: g0.fns }),
            "entry:\n"@ + setup_lines(names, 0, k_start) == fb.text() + setup_lines(names, i as int, c.counter),
            setup_g(names, 0, g0, fresh_f(), Seq::empty()) == setup_g(names, i as int, c.gc(), fb.gf(), env_v(env@)),
            env_keys(env@) == Set::new(|n: Seq<char>| exists|j: int| 0 <= j < i && names[j] == n && builtin_wrapper(n) is Some),
        decreases builtins.len() - i,
    {
        let name = builtins[i].to_owned();
        assert(name@ == names[i as int]);
        let ghost keys0 = env_keys(env@);
        match builtin_fn(&name) {
            Some(fn_name) => {
                let ghost k0 = c.counter;
                let ghost t0 = fb.text();
                let ssa = c.ssa("b");
                let mut t = cat(&ssa, " = call ptr @coda_mk_closure(ptr @");
                t.append(fn_name);
                t.append(", ptr null, i32 0)");
                fb.emit(t);
                fb.own(&ssa);
                let ghost ssav = ssa@;
                env_insert(env, &name, ssa);
                assert(ssav == ssa_g(CgC { n: k0, cs: c.gc().cs, fns: c.gc().fns }, "b"@).1);
                proof {
                    reveal_strlit("b");
                    assert(fb.text() + setup_lines(names, i + 1, c.counter) =~= t0 + setup_lines(names, i as int, k0));
                    assert(env_keys(env@) =~= Set::new(|n: Seq<char>| exists|j: int| 0 <= j < i + 1 && names[j] == n && builtin_wrapper(n) is Some)) by {
                        assert forall|n: Seq<char>| keys0.insert(name@).contains(n) <==>
                            (exists|j: int| 0 <= j < i + 1 && names[j] == n && builtin_wrapper(n) is Some) by {
                            if n == name@ {
                                assert(names[i as int] == n);
                            }
                        }
                    }
                }
            },
            None => {
                proof {
                    assert(env_keys(env@) =~= Set::new(|n: Seq<char>| exists|j: int| 0 <= j < i + 1 && names[j] == n && builtin_wrapper(n) is Some)) by {
                        assert forall|n: Seq<char>| keys0.contains(n) <==>
                            (exists|j: int| 0 <= j < i + 1 && names[j] == n && builtin_wrapper(n) is Some) by {
                            if exists|j: int| 0 <= j < i + 1 && names[j] == n && builtin_wrapper(n) is Some {
                                let j = choose|j: int| 0 <= j < i + 1 && names[j] == n && builtin_wrapper(n) is Some;
                                assert(j != i);
                            }
                        }
                    }
                }
            },
        }
        i += 1;
    }
    proof {
        assert(env_keys(env@) =~= builtin_scope()) by {
            assert forall|n: Seq<char>| #[trigger] builtin_scope().contains(n) implies env_keys(env@).contains(n) by {
                let w = builtin_wrapper(n);
                if n == "++"@ { assert(names[0] == n); }
                else if n == "+"@ { assert(names[1] == n); }
                else if n == "-"@ { assert(names[2] == n); }
                else if n == "*"@ { assert(names[3] == n); }
                else if n == "=="@ { assert(names[4] == n); }
                else if n == "fix"@ { assert(names[5] == n); }
                else if n == "::"@ { assert(names[6] == n); }
                else if n == "cons"@ { assert(names[7] == n); }
                else if n == "<>"@ { assert(names[8] == n); }
                else if n == "append"@ { assert(names[9] == n); }
                else if n == "head"@ { assert(names[10] == n); }
                else if n == "tail"@ { assert(names[11] == n); }
                else if n == "len"@ { assert(names[12] == n); }
                else if n == "map"@ { assert(names[13] == n); }
                else if n == "fold"@ { assert(names[14] == n); }
                else if n == "list_of"@ { assert(names[15] == n); }
                else if n == "list_init"@ { assert(names[16] == n); }
            }
        }
        assert(setup_lines(names, i as int, c.counter) =~= Seq::<char>::empty());
        assert(fb.text() =~= "entry:\n"@ + setup_lines(names, 0, k_start));
    }
}

// ── Public API ────────────────────────────────────────────────────────────────

/// Compiles a program to the text of an LLVM IR module (`.ll`). It fails with the
/// first name that is not in scope where it is used, or on an import, a float
/// literal or an indexing, none of which compiled code supports.
pub fn compile(expr: &Spanned<Expr>) -> (r: Result<String, String>)
    requires
        desugared(*expr),
    ensures
        match r {
            Err(m) => cerr(*expr, builtin_scope()) == Some(m@),
            Ok(out) => cerr(*expr, builtin_scope()) is None
                && compile_g(*expr) == Some(out@)
                && fv(*expr, Set::empty()).subset_of(builtin_scope())
                && exists|cs: Seq<(Seq<char>, Seq<char>)>, fs: Seq<Seq<char>>, main_body: Seq<char>| {
                    &&& consts_wf(cs)
                    &&& strs(*expr).subset_of(contents(cs))
                    &&& ("entry:\n"@ + setup_lines(builtin_names(), 0, 0)).is_prefix_of(main_body)
                    &&& out@ == module_text(cs, fs, main_body)
                },
        },
{
    broadcast use lemma_prefix_chain, lemma_contents_prefix;
    let mut c = Compiler::new();
    let mut fb = FnBuilder::new();
    let mut env: CEnv = Vec::new();
    let ghost g0 = CgC { n: 0, cs: Seq::empty(), fns: Seq::empty() };
    proof {
        assert(c.gc().cs =~= g0.cs);
        assert(c.gc().fns =~= g0.fns);
        assert(env_v(env@) =~= Seq::empty());
        reveal_strlit("entry");
        reveal_strlit(":\n");
        reveal_strlit("entry:\n");
        assert("entry:\n"@ =~= "entry"@ + ":\n"@);
    }
    setup_builtins(&mut c, &mut fb, &mut env);
    proof {
        lemma_prefix_refl(fb.text());
    }
    let ghost setup = fb.text();

    // The program body.
    let result = match compile_expr(&mut c, &mut fb, &env, expr) {
        Err(m) => return Err(m),
        Ok(v) => v,
    };
    fb.prepare_export(&result);
    fb.emit_ret(&result);
    let ghost fmain = fb.gf();
    let ghost cs = c.cview();
    let ghost fs = c.top_fns@.map_values(|f: String| f@);
    let main_body = fb.to_ir();

    // The module.
    let mut out = String::from_str(RUNTIME_DECLS);
    out.append("\n");
    out.append(BUILTIN_WRAPPERS);
    out.append("\n");
    let ghost head = out@;
    let mut j: usize = 0;
    assert(cs.take(0) =~= Seq::empty());
    while j < c.string_consts.len()
        invariant
            j <= c.string_consts.len(),
            cs == c.cview(),
            out@ == head + consts_text(cs.take(j as int)),
        decreases c.string_consts.len() - j,
    {
        push_const_line(&mut out, &c.string_consts[j].0, &c.string_consts[j].1);
        assert(cs.take(j + 1).drop_last() =~= cs.take(j as int));
        j += 1;
    }
    assert(cs.take(cs.len() as int) =~= cs);
    if c.string_consts.len() > 0 {
        out.append("\n");
    }
    let ghost mid = out@;
    let mut j: usize = 0;
    assert(fs.take(0) =~= Seq::empty());
    while j < c.top_fns.len()
        invariant
            j <= c.top_fns.len(),
            fs == c.top_fns@.map_values(|f: String| f@),
            out@ == mid + fns_text(fs.take(j as int)),
        decreases c.top_fns.len() - j,
    {
        out.append(c.top_fns[j].as_str());
        out.append("\n\n");
        assert(fs.take(j + 1).drop_last() =~= fs.take(j as int));
        j += 1;
    }
    assert(fs.take(fs.len() as int) =~= fs);
    out.append("define ptr @coda_main() {\n");
    out.append(main_body.as_str());
    out.append("}\n");
    assert(out@ =~= module_text(cs, fs, main_body@));
    proof {
        assert(fs =~= names_view(c.top_fns@));
        assert(compile_g(*expr) == Some(out@));
    }
    proof { lemma_compiled_free_vars(*expr, builtin_scope()); }
    Ok(out)
}

proof fn lemma_prefix_refl<A>(a: Seq<A>)
    ensures
        a.is_prefix_of(a),
{
    assert(a =~= a.subrange(0, a.len() as int));
}

proof fn lemma_prefix_append(a: Seq<char>, t: Seq<char>)
    ensures
        a.is_prefix_of(a + t),
{
    assert(a =~= (a + t).subrange(0, a.len() as int));
}

proof fn lemma_prefix_trans<A>(a: Seq<A>, b: Seq<A>, c: Seq<A>)
    requires
        a.is_prefix_of(b),
        b.is_prefix_of(c),
    ensures
        a.is_prefix_of(c),
{
    assert(a =~= c.subrange(0, a.len() as int)) by {
        assert forall|k: int| 0 <= k < a.len() implies a[k] == c[k] by {
            assert(a[k] == b.subrange(0, a.len() as int)[k]);
            assert(b[k] == c.subrange(0, b.len() as int)[k]);
        }
    }
}

broadcast proof fn lemma_prefix_chain<A>(a: Seq<A>, b: Seq<A>, c: Seq<A>)
    ensures
        #[trigger] a.is_prefix_of(b) && #[trigger] b.is_prefix_of(c) ==> a.is_prefix_of(c),
{
    if a.is_prefix_of(b) && b.is_prefix_of(c) {
        lemma_prefix_trans(a, b, c);
    }
}

/// A table that extends another holds every content of it.
broadcast proof fn lemma_contents_prefix(a: Seq<(Seq<char>, Seq<char>)>, b: Seq<(Seq<char>, Seq<char>)>)
    ensures
        #[trigger] a.is_prefix_of(b) ==> contents(a).subset_of(contents(b)),
{
    if a.is_prefix_of(b) {
        assert forall|x: Seq<char>| contents(a).contains(x) implies contents(b).contains(x) by {
            let k = choose|k: int| 0 <= k < a.len() && #[trigger] a[k].1 == x;
            assert(b.subrange(0, a.len() as int)[k] == b[k]);
            assert(b[k].1 == x);
        }
    }
}

} // verus!
