use lang::ast::{BlockItem, TypeExpr};
use lang::types::repl::{type_item, ItemTypeError, ItemTyping};
use lang::parser::file_parser;
use lang::types::api::{apply_ann, infer};
use lang::types::env::generalize;
use lang::types::lift::{broadcast, try_lift};
use lang::types::normalize::normalize_ty;
use lang::types::stdenv::std_type_env;
use lang::types::subst::{apply_subst, apply_subst_shape, compose};
use lang::types::unify::unify_shapes;
use lang::types::{BaseType, Dim, Scheme, Subst, Type, TypeError};

fn infer_src(src: &str) -> Result<Type, TypeError> {
    let ast = file_parser(src).unwrap_or_else(|e| panic!("parse error in {:?}: {:?}", src, e));
    infer(&std_type_env(), &ast).map_err(|e| e.kind)
}

fn int_arr(dims: Vec<u64>) -> Type {
    Type::Shaped(BaseType::Int, dims.into_iter().map(Dim::Nat).collect())
}

fn dim_var(s: &str) -> Dim {
    Dim::Var(s.to_string())
}

// ── concatenation lengths ─────────────────────────────────────────────────────

#[test]
fn concat_adds_literal_lengths() {
    assert_eq!(infer_src("concat([1, 2], [3])").unwrap(), int_arr(vec![3]));
    assert_eq!(infer_src("[1, 2] <> [3, 4]").unwrap(), int_arr(vec![4]));
    assert_eq!(infer_src("append([1], [])").unwrap(), int_arr(vec![1]));
    assert_eq!(infer_src("([1] <> [2]) <> [3, 4, 5]").unwrap(), int_arr(vec![5]));
}

#[test]
fn concat_of_variable_lengths_is_refused() {
    assert!(matches!(
        infer_src(r"\xs ys -> xs <> ys"),
        Err(TypeError::DimArithmeticRequiresLiterals)
    ));
}

// ── dead `otherwise` ──────────────────────────────────────────────────────────

#[test]
fn otherwise_is_dead_only_when_every_tag_has_a_branch() {
    assert_eq!(
        infer_src("when 1 == 1 is; True -> 1; otherwise 0").unwrap(),
        Type::int_()
    );
    assert!(matches!(
        infer_src("when 1 == 1 is; True -> 1; False -> 0; otherwise 2"),
        Err(TypeError::DeadOtherwise)
    ));
}

// ── equal ranks, different inner shapes ───────────────────────────────────────

#[test]
fn equal_rank_inner_mismatch() {
    let src = "g : Int[3] -> F64\ng = \\x -> 0.0\ng([1, 2, 3, 4])";
    match infer_src(src) {
        Err(TypeError::RankPolymorphicInnerMismatch { expected, got }) => {
            assert_eq!(expected, vec![Dim::Nat(3)]);
            assert_eq!(got, vec![Dim::Nat(4)]);
        },
        other => panic!("unexpected {:?}", other),
    }
}

#[test]
fn equal_rank_matching_inner_shape_is_a_plain_call() {
    let src = "g : Int[3] -> Int\ng = \\x -> 0\ng([1, 2, 3])";
    assert_eq!(infer_src(src).unwrap(), Type::int_());
}

// ── lifting keeps an open result element ──────────────────────────────────────

#[test]
fn lifted_variable_result_stays_open() {
    let mut c: u64 = 0;
    let f_ty = Type::fun(vec![Type::int_()], Type::Var("b".into()));
    let args = vec![int_arr(vec![2])];
    let r = try_lift(&mut c, &f_ty, &args).unwrap().unwrap();
    assert_eq!(r.1, Type::Shaped(BaseType::Var("b".into()), vec![Dim::Nat(2)]));
}

// ── broadcasting unifies dimension variables ──────────────────────────────────

#[test]
fn broadcast_unifies_dim_vars() {
    let (s, sh) = broadcast(&[dim_var("m")], &[dim_var("n")]).unwrap();
    assert_eq!(sh.len(), 1);
    let bound_m = s.dims.iter().any(|(k, d)| k == "m" && *d == dim_var("n"));
    let bound_n = s.dims.iter().any(|(k, d)| k == "n" && *d == dim_var("m"));
    assert!(bound_m || bound_n);
}

#[test]
fn lifted_add_of_dim_vars() {
    let mut c: u64 = 0;
    let plus = Type::fun(vec![Type::int_(), Type::int_()], Type::int_());
    let args = vec![
        Type::Shaped(BaseType::Int, vec![dim_var("m")]),
        Type::Shaped(BaseType::Int, vec![dim_var("n")]),
    ];
    let (_, t) = try_lift(&mut c, &plus, &args).unwrap().unwrap();
    match t {
        Type::Shaped(BaseType::Int, sh) => {
            assert_eq!(sh.len(), 1);
            assert!(sh[0] == dim_var("m") || sh[0] == dim_var("n"));
        },
        other => panic!("unexpected {:?}", other),
    }
}

// ── generalization at every depth ─────────────────────────────────────────────

#[test]
fn generalize_finds_nested_dim_vars() {
    let inner = Type::fun(vec![Type::Shaped(BaseType::Int, vec![dim_var("n")])], Type::int_());
    let ty = Type::fun(vec![Type::int_()], inner);
    let sc = generalize(&Vec::new(), &ty);
    assert_eq!(sc.dim_vars, vec!["n".to_string()]);
}

// ── list annotations ──────────────────────────────────────────────────────────

#[test]
fn list_annotation_is_enforced() {
    let list_int = TypeExpr::App("List".into(), vec![TypeExpr::Con("Int".into())]);
    let env = vec![("xs".to_string(), Scheme::mono(Type::str_()))];
    assert!(apply_ann(&env, "xs", &list_int).is_err());
    let env2 = vec![("xs".to_string(), Scheme::mono(int_arr(vec![3])))];
    let sc = apply_ann(&env2, "xs", &list_int).unwrap();
    assert_eq!(sc.ty, int_arr(vec![3]));
}

#[test]
fn list_annotation_checks_programs() {
    assert_eq!(infer_src("xs : List(Int)\nxs = [1, 2]\nxs").unwrap(), int_arr(vec![2]));
    assert!(infer_src("xs : List(Int)\nxs = `a`\nxs").is_err());
}

// ── laws on concrete values ───────────────────────────────────────────────────

#[test]
fn scheme_quantifies_every_free_variable() {
    let ast = file_parser(r"\x y -> x").unwrap();
    let sc = lang::types::api::infer_scheme(&std_type_env(), &ast).unwrap();
    assert_eq!(sc.vars.len(), 2);
    assert_ne!(sc.vars[0], sc.vars[1]);
}

#[test]
fn composition_applies_in_turn() {
    let s2 = Subst::single_type("a".into(), Type::Var("b".into()));
    let s1 = Subst::single_type("b".into(), Type::int_());
    let t = Type::fun(vec![Type::Var("a".into())], Type::Var("b".into()));
    let both = apply_subst(&compose(&s1, &s2), &t);
    assert_eq!(both, apply_subst(&s1, &apply_subst(&s2, &t)));
    assert_eq!(both, Type::fun(vec![Type::int_()], Type::int_()));
}

#[test]
fn unified_shapes_become_equal() {
    let a = vec![dim_var("m"), Dim::Nat(3), dim_var("m")];
    let b = vec![Dim::Nat(2), dim_var("n"), dim_var("k")];
    let s = unify_shapes(&a, &b).unwrap();
    let ra = apply_subst_shape(&s, &a);
    assert_eq!(ra, apply_subst_shape(&s, &b));
    assert_eq!(ra, vec![Dim::Nat(2), Dim::Nat(3), Dim::Nat(2)]);
}

#[test]
fn try_lift_leaves_equal_ranks_alone() {
    let mut c: u64 = 7;
    let g = Type::fun(vec![int_arr(vec![3])], Type::f64_());
    let args = vec![int_arr(vec![4])];
    assert!(matches!(try_lift(&mut c, &g, &args), Ok(None)));
    assert_eq!(c, 7);
}

#[test]
fn broadcast_of_a_syntactic_prefix_binds_nothing() {
    let (s, sh) = broadcast(&[dim_var("m")], &[dim_var("m"), Dim::Nat(2)]).unwrap();
    assert!(s.types.is_empty() && s.dims.is_empty() && s.bases.is_empty());
    assert_eq!(sh, vec![dim_var("m"), Dim::Nat(2)]);
    assert!(matches!(broadcast(&[Dim::Nat(2)], &[Dim::Nat(3), Dim::Nat(1)]), Err(TypeError::BroadcastFail(..))));
}

#[test]
fn shaped_annotation_of_a_variable_keeps_the_variable() {
    let mut rc: usize = 0;
    let te = lang::parser::type_expr_parser("a[n]").unwrap();
    let t = lang::types::annot::type_expr_to_type(&te, &mut rc);
    assert_eq!(t, Type::Shaped(BaseType::Var("a".into()), vec![dim_var("n")]));
}

#[test]
fn repl_items_type_against_the_session() {
    let env = std_type_env();
    let mods = Vec::new();
    let bind = BlockItem::Bind("x".into(), file_parser("1 + 2").unwrap());
    match type_item(&env, &mods, &bind) {
        Ok(ItemTyping::Bound(sc, _)) => assert_eq!(sc.ty, Type::int_()),
        _ => panic!("a binding of 1 + 2 types"),
    }
    let ann = BlockItem::Ann("y".into(), TypeExpr::Con("Int".into()));
    assert!(matches!(type_item(&env, &mods, &ann), Ok(ItemTyping::Annotated(_))));
    let not_task = BlockItem::MonadicBind("z".into(), file_parser("1").unwrap());
    assert!(matches!(type_item(&env, &mods, &not_task), Err(ItemTypeError::NotATask(_))));
    let bad = BlockItem::Bind("w".into(), file_parser("nope").unwrap());
    assert!(matches!(type_item(&env, &mods, &bad), Err(ItemTypeError::Infer(_))));
}

#[test]
fn composition_applies_in_turn_under_an_open_row() {
    let s2 = Subst::single_type("a".into(), Type::Var("b".into()));
    let s1 = Subst::single_type("b".into(), Type::int_());
    let rec = Type::Shaped(
        BaseType::Record(vec![("x".into(), Type::Var("a".into()))], Some("r".into())),
        vec![],
    );
    let both = apply_subst(&compose(&s1, &s2), &rec);
    assert_eq!(both, apply_subst(&s1, &apply_subst(&s2, &rec)));
    assert_eq!(
        both,
        Type::Shaped(BaseType::Record(vec![("x".into(), Type::int_())], Some("r".into())), vec![])
    );
}

#[test]
fn normalizing_twice_is_normalizing_once() {
    let t = Type::fun(
        vec![Type::Var("q".into()), Type::Shaped(BaseType::Var("e".into()), vec![dim_var("k"), Dim::Nat(2)])],
        Type::Shaped(
            BaseType::Union(vec![("A".into(), Type::Var("z".into())), ("B".into(), Type::Var("q".into()))], Some("r".into())),
            vec![],
        ),
    );
    let once = normalize_ty(t);
    let twice = normalize_ty(once.dup());
    assert_eq!(once, twice);
}
