//! The inference context: the supply of fresh variable names and the map from
//! nodes to their inferred types.

use vstd::prelude::*;
use crate::ast::Span;
use crate::names::{decimal, push_char, push_decimal};
use super::model::{
    assoc_view, names_view, BaseType, Dim, SBase, SDim, SScheme, SSubst, SType, Scheme, Subst,
    Type, TypeMap,
};
use super::subst::{apply_s, apply_subst};

verus! {

/// The successor of a name counter (wrapping, as unchecked `+= 1` does).
pub open spec fn next_c(c: u64) -> u64 {
    if c == u64::MAX { 0 } else { (c + 1) as u64 }
}

/// The counter after `k` fresh names.
pub open spec fn adv(c: u64, k: nat) -> u64
    decreases k,
{
    if k == 0 { c } else { adv(next_c(c), (k - 1) as nat) }
}

/// The name `p` followed by the decimal digits of `n` (`t7`, `d12`, `b3`).
pub open spec fn gen_name(p: char, n: u64) -> Seq<char> {
    seq![p] + decimal(n as nat)
}

/// Model of the inference context.
pub struct SCtx {
    pub counter: u64,
    pub types: Seq<(Span, SType)>,
    pub lifted: Seq<Span>,
}

/// The inference context.
pub struct Ctx {
    pub counter: u64,
    pub type_map: TypeMap,
}

pub open spec fn type_map_types_view(v: Seq<(Span, Type)>) -> Seq<(Span, SType)> {
    v.map_values(|p: (Span, Type)| (p.0, p.1@))
}

impl View for Ctx {
    type V = SCtx;

    open spec fn view(&self) -> SCtx {
        SCtx {
            counter: self.counter,
            types: type_map_types_view(self.type_map.types@),
            lifted: self.type_map.lifted_apps@,
        }
    }
}

/// Fresh type variables for `vars`, in order, starting at counter `c`.
pub open spec fn fresh_type_binds(c: u64, vars: Seq<Seq<char>>) -> Seq<(Seq<char>, SType)>
    decreases vars.len(),
{
    if vars.len() == 0 {
        Seq::empty()
    } else {
        seq![(vars[0], SType::Var(gen_name('t', c)))] + fresh_type_binds(next_c(c), vars.drop_first())
    }
}

pub open spec fn fresh_dim_binds(c: u64, vars: Seq<Seq<char>>) -> Seq<(Seq<char>, SDim)>
    decreases vars.len(),
{
    if vars.len() == 0 {
        Seq::empty()
    } else {
        seq![(vars[0], SDim::Var(gen_name('d', c)))] + fresh_dim_binds(next_c(c), vars.drop_first())
    }
}

pub open spec fn fresh_base_binds(c: u64, vars: Seq<Seq<char>>) -> Seq<(Seq<char>, SBase)>
    decreases vars.len(),
{
    if vars.len() == 0 {
        Seq::empty()
    } else {
        seq![(vars[0], SBase::Var(gen_name('b', c)))] + fresh_base_binds(next_c(c), vars.drop_first())
    }
}

/// The substitution that instantiates a scheme from counter `c`: its type
/// variables first, then its dimension variables, then its base variables.
pub open spec fn inst_subst(c: u64, sc: SScheme) -> SSubst {
    let c1 = adv(c, sc.vars.len());
    let c2 = adv(c1, sc.dim_vars.len());
    SSubst {
        types: fresh_type_binds(c, sc.vars),
        dims: fresh_dim_binds(c1, sc.dim_vars),
        bases: fresh_base_binds(c2, sc.base_vars),
    }
}

/// The counter after instantiating `sc` from `c`.
pub open spec fn inst_counter(c: u64, sc: SScheme) -> u64 {
    adv(c, sc.vars.len() + sc.dim_vars.len() + sc.base_vars.len())
}

pub proof fn lemma_adv_add(c: u64, a: nat, b: nat)
    ensures
        adv(adv(c, a), b) == adv(c, a + b),
    decreases a,
{
    if a > 0 {
        lemma_adv_add(next_c(c), (a - 1) as nat, b);
    }
}

pub(crate) fn make_name(p: char, n: u64) -> (r: String)
    ensures
        r@ == gen_name(p, n),
{
    let mut s = String::new();
    push_char(&mut s, p);
    push_decimal(&mut s, n);
    assert(s@ =~= gen_name(p, n));
    s
}

pub(crate) fn bump(c: u64) -> (r: u64)
    ensures
        r == next_c(c),
{
    if c == u64::MAX { 0 } else { c + 1 }
}

impl Ctx {
    pub fn new() -> (r: Self)
        ensures
            r@ == (SCtx { counter: 0, types: Seq::empty(), lifted: Seq::empty() }),
    {
        let r = Ctx { counter: 0, type_map: TypeMap { types: Vec::new(), lifted_apps: Vec::new() } };
        assert(type_map_types_view(r.type_map.types@) =~= Seq::<(Span, SType)>::empty());
        r
    }

    /// A fresh type variable name `t{n}`.
    pub fn fresh_name(&mut self) -> (r: String)
        ensures
            r@ == gen_name('t', old(self)@.counter),
            final(self)@ == (SCtx { counter: next_c(old(self)@.counter), ..old(self)@ }),
    {
        let r = make_name('t', self.counter);
        self.counter = bump(self.counter);
        r
    }

    /// A fresh dimension variable name `d{n}`.
    pub fn fresh_dim_name(&mut self) -> (r: String)
        ensures
            r@ == gen_name('d', old(self)@.counter),
            final(self)@ == (SCtx { counter: next_c(old(self)@.counter), ..old(self)@ }),
    {
        let r = make_name('d', self.counter);
        self.counter = bump(self.counter);
        r
    }

    /// A fresh base variable name `b{n}`.
    pub fn fresh_base_name(&mut self) -> (r: String)
        ensures
            r@ == gen_name('b', old(self)@.counter),
            final(self)@ == (SCtx { counter: next_c(old(self)@.counter), ..old(self)@ }),
    {
        let r = make_name('b', self.counter);
        self.counter = bump(self.counter);
        r
    }

    /// A fresh type variable.
    pub fn fresh(&mut self) -> (r: Type)
        ensures
            r@ == SType::Var(gen_name('t', old(self)@.counter)),
            final(self)@ == (SCtx { counter: next_c(old(self)@.counter), ..old(self)@ }),
    {
        Type::Var(self.fresh_name())
    }

    /// A fresh dimension variable.
    pub fn fresh_dim(&mut self) -> (r: Dim)
        ensures
            r@ == SDim::Var(gen_name('d', old(self)@.counter)),
            final(self)@ == (SCtx { counter: next_c(old(self)@.counter), ..old(self)@ }),
    {
        Dim::Var(self.fresh_dim_name())
    }

    fn fresh_type_binds_exec(&mut self, vars: &Vec<String>) -> (r: Vec<(String, Type)>)
        ensures
            assoc_view(r@) == fresh_type_binds(old(self)@.counter, names_view(vars@)),
            final(self)@ == (SCtx { counter: adv(old(self)@.counter, vars@.len()), ..old(self)@ }),
    {
        let ghost c0 = self.counter;
        let ghost vs = names_view(vars@);
        let mut out: Vec<(String, Type)> = Vec::new();
        let mut i: usize = 0;
        assert(vs.skip(0) =~= vs);
        assert(assoc_view(out@) + fresh_type_binds(c0, vs) =~= fresh_type_binds(c0, vs));
        while i < vars.len()
            invariant
                i <= vars.len(),
                vs == names_view(vars@),
                vs.len() == vars@.len(),
                self@.types == old(self)@.types,
                self@.lifted == old(self)@.lifted,
                self.counter == adv(c0, i as nat),
                fresh_type_binds(c0, vs) == assoc_view(out@) + fresh_type_binds(self.counter, vs.skip(i as int)),
            decreases vars.len() - i,
        {
            let ghost cur = self.counter;
            let k = vars[i].clone();
            let t = self.fresh();
            let ghost before = assoc_view(out@);
            let ghost rest = vs.skip(i as int);
            assert(rest[0] == k@);
            assert(rest.drop_first() =~= vs.skip(i + 1));
            out.push((k, t));
            assert(assoc_view(out@) =~= before.push((k@, t@)));
            assert(before + fresh_type_binds(cur, rest) =~= before.push((k@, t@)) + fresh_type_binds(self.counter, vs.skip(i + 1)));
            proof {
                lemma_adv_add(c0, i as nat, 1);
                reveal_with_fuel(adv, 2);
                assert(adv(cur, 1) == next_c(cur));
            }
            i += 1;
        }
        assert(vs.skip(i as int) =~= Seq::<Seq<char>>::empty());
        assert(assoc_view(out@) + fresh_type_binds(self.counter, Seq::<Seq<char>>::empty()) =~= assoc_view(out@));
        out
    }

    fn fresh_dim_binds_exec(&mut self, vars: &Vec<String>) -> (r: Vec<(String, Dim)>)
        ensures
            assoc_view(r@) == fresh_dim_binds(old(self)@.counter, names_view(vars@)),
            final(self)@ == (SCtx { counter: adv(old(self)@.counter, vars@.len()), ..old(self)@ }),
    {
        let ghost c0 = self.counter;
        let ghost vs = names_view(vars@);
        let mut out: Vec<(String, Dim)> = Vec::new();
        let mut i: usize = 0;
        assert(vs.skip(0) =~= vs);
        assert(assoc_view(out@) + fresh_dim_binds(c0, vs) =~= fresh_dim_binds(c0, vs));
        while i < vars.len()
            invariant
                i <= vars.len(),
                vs == names_view(vars@),
                vs.len() == vars@.len(),
                self@.types == old(self)@.types,
                self@.lifted == old(self)@.lifted,
                self.counter == adv(c0, i as nat),
                fresh_dim_binds(c0, vs) == assoc_view(out@) + fresh_dim_binds(self.counter, vs.skip(i as int)),
            decreases vars.len() - i,
        {
            let ghost cur = self.counter;
            let k = vars[i].clone();
            let t = self.fresh_dim();
            let ghost before = assoc_view(out@);
            let ghost rest = vs.skip(i as int);
            assert(rest[0] == k@);
            assert(rest.drop_first() =~= vs.skip(i + 1));
            out.push((k, t));
            assert(assoc_view(out@) =~= before.push((k@, t@)));
            assert(before + fresh_dim_binds(cur, rest) =~= before.push((k@, t@)) + fresh_dim_binds(self.counter, vs.skip(i + 1)));
            proof {
                lemma_adv_add(c0, i as nat, 1);
                reveal_with_fuel(adv, 2);
                assert(adv(cur, 1) == next_c(cur));
            }
            i += 1;
        }
        assert(vs.skip(i as int) =~= Seq::<Seq<char>>::empty());
        assert(assoc_view(out@) + fresh_dim_binds(self.counter, Seq::<Seq<char>>::empty()) =~= assoc_view(out@));
        out
    }

    fn fresh_base_binds_exec(&mut self, vars: &Vec<String>) -> (r: Vec<(String, BaseType)>)
        ensures
            assoc_view(r@) == fresh_base_binds(old(self)@.counter, names_view(vars@)),
            final(self)@ == (SCtx { counter: adv(old(self)@.counter, vars@.len()), ..old(self)@ }),
    {
        let ghost c0 = self.counter;
        let ghost vs = names_view(vars@);
        let mut out: Vec<(String, BaseType)> = Vec::new();
        let mut i: usize = 0;
        assert(vs.skip(0) =~= vs);
        assert(assoc_view(out@) + fresh_base_binds(c0, vs) =~= fresh_base_binds(c0, vs));
        while i < vars.len()
            invariant
                i <= vars.len(),
                vs == names_view(vars@),
                vs.len() == vars@.len(),
                self@.types == old(self)@.types,
                self@.lifted == old(self)@.lifted,
                self.counter == adv(c0, i as nat),
                fresh_base_binds(c0, vs) == assoc_view(out@) + fresh_base_binds(self.counter, vs.skip(i as int)),
            decreases vars.len() - i,
        {
            let ghost cur = self.counter;
            let k = vars[i].clone();
            let t = BaseType::Var(self.fresh_base_name());
            let ghost before = assoc_view(out@);
            let ghost rest = vs.skip(i as int);
            assert(rest[0] == k@);
            assert(rest.drop_first() =~= vs.skip(i + 1));
            out.push((k, t));
            assert(assoc_view(out@) =~= before.push((k@, t@)));
            assert(before + fresh_base_binds(cur, rest) =~= before.push((k@, t@)) + fresh_base_binds(self.counter, vs.skip(i + 1)));
            proof {
                lemma_adv_add(c0, i as nat, 1);
                reveal_with_fuel(adv, 2);
                assert(adv(cur, 1) == next_c(cur));
            }
            i += 1;
        }
        assert(vs.skip(i as int) =~= Seq::<Seq<char>>::empty());
        assert(assoc_view(out@) + fresh_base_binds(self.counter, Seq::<Seq<char>>::empty()) =~= assoc_view(out@));
        out
    }

    /// A fresh instance of `scheme`: each quantified variable replaced by a fresh one.
    pub fn instantiate(&mut self, scheme: &Scheme) -> (r: Type)
        ensures
            r@ == apply_s(inst_subst(old(self)@.counter, scheme@), scheme@.ty),
            final(self)@ == (SCtx { counter: inst_counter(old(self)@.counter, scheme@), ..old(self)@ }),
    {
        let ghost c0 = self.counter;
        let types = self.fresh_type_binds_exec(&scheme.vars);
        let dims = self.fresh_dim_binds_exec(&scheme.dim_vars);
        let bases = self.fresh_base_binds_exec(&scheme.base_vars);
        proof {
            lemma_adv_add(c0, scheme.vars@.len(), scheme.dim_vars@.len());
            lemma_adv_add(c0, scheme.vars@.len() + scheme.dim_vars@.len(), scheme.base_vars@.len());
        }
        let s = Subst { types, dims, bases };
        apply_subst(&s, &scheme.ty)
    }
}

} // verus!
