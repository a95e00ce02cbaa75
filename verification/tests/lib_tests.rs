use lang::ast::{BlockItem, DimExpr, Expr, Lit, Span, Spanned, TypeExpr};
use lang::codegen::{compile, BUILTIN_WRAPPERS, RUNTIME_DECLS};
use lang::eval::{broadcast_shape_pair, broadcast_shapes, EvalError};
use lang::imports::import_paths;
use lang::parser::{expr_parser, file_parser, repl_parser, type_expr_parser, ReplInput};
use lang::types::api::{infer, is_desugared};
use lang::types::lift::broadcast;
use lang::types::normalize::normalize_ty;
use lang::types::stdenv::std_type_env;
use lang::types::{BaseType, Dim, Type, TypeError};

fn compile_src(src: &str) -> Result<String, String> {
    let ast = file_parser(src).unwrap_or_else(|e| panic!("parse error in {:?}: {:?}", src, e));
    compile(&ast)
}

const WRAPPERS: [&str; 17] = [
    "builtin_str_concat", "builtin_add", "builtin_sub", "builtin_mul", "builtin_eq", "builtin_fix",
    "builtin_cons", "builtin_cons", "builtin_append", "builtin_append", "builtin_head", "builtin_tail",
    "builtin_len", "builtin_map", "builtin_fold", "builtin_list_of", "builtin_list_init",
];

/// The start of `@coda_main`: the builtin closures.
fn setup_text() -> String {
    let mut s = String::from("entry:\n");
    for (k, w) in WRAPPERS.iter().enumerate() {
        s.push_str(&format!("  %b_{} = call ptr @coda_mk_closure(ptr @{}, ptr null, i32 0)\n", k, w));
    }
    s
}

fn releases_of_builtins() -> String {
    let mut s = String::new();
    for k in 0..WRAPPERS.len() {
        s.push_str(&format!("  call void @coda_release(ptr %b_{})\n", k));
    }
    s
}

fn strip_ansi(s: &str) -> String {
    let mut out = String::new();
    let mut in_code = false;
    for c in s.chars() {
        if in_code {
            if c == 'm' {
                in_code = false;
            }
        } else if c == '\u{1b}' {
            in_code = true;
        } else {
            out.push(c);
        }
    }
    out
}

// ── code generation ───────────────────────────────────────────────────────────

#[test]
fn codegen_int_program_whole_module() {
    let ir = compile_src("42").unwrap();
    let expected = format!(
        "{}\n{}\ndefine ptr @coda_main() {{\n{}  %int_17 = call ptr @coda_mk_int(i64 42)\n{}  ret ptr %int_17\n}}\n",
        RUNTIME_DECLS,
        BUILTIN_WRAPPERS,
        setup_text(),
        releases_of_builtins(),
    );
    assert_eq!(ir, expected);
}

#[test]
fn codegen_string_constant_declared_once() {
    let ir = compile_src("`ab` ++ `ab`").unwrap();
    assert!(ir.contains("@str_0 = private constant [3 x i8] c\"ab\\00\"\n\n"));
    assert!(!ir.contains("@str_1"));
    assert_eq!(ir.matches("call ptr @coda_mk_str(ptr @str_0)").count(), 2);
}

#[test]
fn codegen_escapes_quotes_and_utf8() {
    let ir = compile_src("`say \"hi\" é`").unwrap();
    // Nine ASCII bytes, two bytes for é, and the NUL.
    assert!(ir.contains("@str_0 = private constant [12 x i8] c\"say \\22hi\\22 \\C3\\A9\\00\"\n"));
}

#[test]
fn codegen_escapes_newline_and_backslash() {
    let ast = Spanned(Expr::Lit(Lit::Str("a\n\\b\t".to_string())), Span { start: 0, end: 0 });
    let ir = compile(&ast).unwrap();
    assert!(ir.contains("@str_0 = private constant [6 x i8] c\"a\\0A\\\\b\\09\\00\"\n"));
}

#[test]
fn codegen_unbound_name() {
    assert_eq!(compile_src("x"), Err("unbound: x".to_string()));
}

#[test]
fn codegen_then_is_not_compiled() {
    assert_eq!(compile_src("then"), Err("unbound: then".to_string()));
}

#[test]
fn codegen_first_error_in_order() {
    assert_eq!(compile_src("f(y)"), Err("unbound: f".to_string()));
    assert_eq!(compile_src("head(y)"), Err("unbound: y".to_string()));
}

#[test]
fn codegen_unsupported_constructs() {
    assert_eq!(compile_src("import `m.coda`"), Err("imports not supported in compiled mode".to_string()));
    assert_eq!(compile_src("1.5"), Err("floats not supported in compiled mode".to_string()));
    assert_eq!(compile_src("[1, 2][0]"), Err("indexing not supported in compiled mode".to_string()));
}

#[test]
fn codegen_block_binding_in_scope() {
    let ir = compile_src("x = 1\nx + x").unwrap();
    assert!(ir.contains("%int_17 = call ptr @coda_mk_int(i64 1)"));
    assert!(ir.contains("call ptr @coda_apply(ptr %b_1, ptr %argarr_19, i32 2)"));
}

#[test]
fn codegen_lambda_captures_in_name_order() {
    let ir = compile_src("y = 1\n\\x -> x + y").unwrap();
    // The lambda body reads `+` and `y` from its captures, in name order.
    assert!(ir.contains("define ptr @lam_18(ptr %caps, ptr %args, i32 %nargs) {\nentry:\n  %cp_0 = getelementptr ptr, ptr %caps, i32 0\n  %cap_0 = load ptr, ptr %cp_0\n  %cp_1 = getelementptr ptr, ptr %caps, i32 1\n  %cap_1 = load ptr, ptr %cp_1\n"));
    assert!(ir.contains("call ptr @coda_mk_closure(ptr @lam_18, ptr %caps_"));
    assert!(ir.contains(", i32 2)"));
}

#[test]
fn codegen_lambda_unbound_inside() {
    assert_eq!(compile_src("\\x -> z"), Err("unbound: z".to_string()));
}

#[test]
fn codegen_when_blocks() {
    let ir = compile_src("(\\x -> when x is; Some n -> n; None -> 0)(Some 5)").unwrap();
    assert!(ir.contains("@coda_tag_name"));
    assert!(ir.contains("unreachable"));
    assert!(ir.contains(" = phi ptr [ "));
    assert!(ir.contains("c\"Some\\00\""));
    assert!(ir.contains("c\"None\\00\""));
}

#[test]
fn codegen_records_and_fields() {
    let ir = compile_src("{x: 1, y: 2}.y").unwrap();
    assert!(ir.contains("@str_0 = private constant [2 x i8] c\"x\\00\"\n"));
    assert!(ir.contains("@str_1 = private constant [2 x i8] c\"y\\00\"\n"));
    assert!(ir.contains("@coda_mk_record"));
    assert!(ir.contains("call ptr @coda_field_get(ptr %rec_"));
}

#[test]
fn codegen_empty_record_and_list() {
    let ir = compile_src("[{}]").unwrap();
    assert!(ir.contains("%rec_17 = call ptr @coda_mk_unit()"));
    assert!(ir.contains("@coda_mk_list(ptr %larr_19, i32 1)"));
    let ir = compile_src("[]").unwrap();
    assert!(ir.contains("%list_17 = call ptr @coda_mk_list(ptr null, i32 0)"));
}

#[test]
fn codegen_negative_literal() {
    let ast = Spanned(Expr::Lit(Lit::Int(-7)), Span { start: 0, end: 2 });
    let ir = compile(&ast).unwrap();
    assert!(ir.contains("call ptr @coda_mk_int(i64 -7)"));
}

// ── pretty ────────────────────────────────────────────────────────────────────

#[test]
fn pretty_shows_the_plain_text() {
    let t = Type::fun(
        vec![Type::int_(), Type::Var("a".into())],
        Type::shaped(BaseType::F64, vec![Dim::Nat(3), Dim::Var("n".into())]),
    );
    assert_eq!(t.to_text(), "Int a -> F64[3, n]");
    assert_eq!(strip_ansi(&t.pretty()), t.to_text());
    let r = Type::scalar(BaseType::Record(vec![("x".into(), Type::str_())], Some("r".into())));
    assert_eq!(strip_ansi(&r.pretty()), "{x: Str | *}");
    let u = Type::scalar(BaseType::Union(vec![("None".into(), Type::unit()), ("Some".into(), Type::int_())], None));
    assert_eq!(strip_ansi(&u.pretty()), "[None, Some Int]");
    let k = Type::task(Type::bool_(), Type::never());
    assert_eq!(strip_ansi(&k.pretty()), "Task(Bool, [])");
}

#[test]
fn pretty_paints_when_colours_are_on() {
    colored::control::set_override(true);
    assert_eq!(Type::int_().pretty(), "\u{1b}[1;94mInt\u{1b}[0m");
    assert_eq!(Type::Var("a".into()).pretty(), "\u{1b}[3ma\u{1b}[0m");
    let r = Type::scalar(BaseType::Record(vec![("x".into(), Type::Var("t".into()))], None));
    assert_eq!(r.pretty(), "{\u{1b}[97mx\u{1b}[0m: \u{1b}[3mt\u{1b}[0m}");
    let u = Type::scalar(BaseType::Union(vec![("None".into(), Type::unit())], None));
    assert_eq!(u.pretty(), "[\u{1b}[93mNone\u{1b}[0m]");
    let f = Type::fun(vec![Type::Var("a".into())], Type::Var("b".into()));
    assert_eq!(f.pretty(), "\u{1b}[3ma\u{1b}[0m \u{1b}[2m->\u{1b}[0m \u{1b}[3mb\u{1b}[0m");
    let s = Type::shaped(BaseType::Int, vec![Dim::Nat(2)]);
    assert_eq!(s.pretty(), "\u{1b}[1;94mInt\u{1b}[0m[\u{1b}[1;94m2\u{1b}[0m]");
    colored::control::unset_override();
}

// ── laws on concrete values ───────────────────────────────────────────────────

#[test]
fn broadcast_symmetric_example() {
    let a = vec![Dim::Nat(3), Dim::Nat(4)];
    let b = vec![Dim::Nat(3)];
    assert_eq!(broadcast(&a, &b).unwrap().1, a);
    assert_eq!(broadcast(&b, &a).unwrap().1, a);
    let c = vec![Dim::Nat(4)];
    assert!(matches!(broadcast(&a, &c), Err(TypeError::BroadcastFail(..))));
    assert!(matches!(broadcast(&c, &a), Err(TypeError::BroadcastFail(..))));
    assert_eq!(broadcast(&[], &a).unwrap().1, a);
}

#[test]
fn broadcast_design_examples() {
    let s34 = vec![Dim::Nat(3), Dim::Nat(4)];
    let s345 = vec![Dim::Nat(3), Dim::Nat(4), Dim::Nat(5)];
    assert_eq!(broadcast(&s34, &s34).unwrap().1, s34);
    assert_eq!(broadcast(&s34, &[]).unwrap().1, s34);
    assert_eq!(broadcast(&s34, &s345).unwrap().1, s345);
}

fn scheme_text(name: &str) -> String {
    let env = std_type_env();
    let (_, sc) = env.iter().rev().find(|(k, _)| k.as_str() == name).expect("bound");
    format!("{:?}", sc)
}

#[test]
fn std_aliases_share_schemes() {
    assert_eq!(scheme_text("then"), scheme_text(">>="));
    assert_eq!(scheme_text("cons"), scheme_text("::"));
    assert_eq!(scheme_text("append"), scheme_text("<>"));
}

#[test]
fn parser_output_is_desugared() {
    let ast = file_parser("x <- read_line\nprint(x)").unwrap();
    assert!(is_desugared(&ast));
    if let ReplInput::Expr(e) = repl_parser("(y <- read_line; print(y))").unwrap() {
        assert!(is_desugared(&e));
    }
}

#[test]
fn parser_errors_name_the_stopping_point() {
    let e = expr_parser("   ").unwrap_err();
    assert_eq!((e.pos, e.msg.as_str()), (3, "expected an expression"));
    let e = expr_parser("f(x) )").unwrap_err();
    assert_eq!((e.pos, e.msg.as_str()), (5, "expected end of input"));
    let e = type_expr_parser("").unwrap_err();
    assert_eq!((e.pos, e.msg.as_str()), (0, "expected a type"));
    let e = type_expr_parser("Int ]").unwrap_err();
    assert_eq!((e.pos, e.msg.as_str()), (4, "expected end of input"));
    let e = file_parser("x = 1\n)").unwrap_err();
    assert_eq!((e.pos, e.msg.as_str()), (0, "expected an expression"));
    let e = repl_parser("x = 1; )").unwrap_err();
    assert_eq!((e.pos, e.msg.as_str()), (5, "expected end of input"));
}

#[test]
fn type_annotations_parse() {
    let t = type_expr_parser("Int[3, n] -> {a: Str | r}").unwrap();
    let expected = TypeExpr::Fun(
        vec![TypeExpr::Shaped(Box::new(TypeExpr::Con("Int".into())), vec![DimExpr::Nat(3), DimExpr::Var("n".into())])],
        Box::new(TypeExpr::Record(vec![("a".into(), TypeExpr::Con("Str".into()))], Some("r".into()))),
    );
    assert_eq!(t, expected);
    let t = type_expr_parser("[Ok Int, Err Str | *]").unwrap();
    let expected = TypeExpr::Union(
        vec![("Ok".into(), Some(TypeExpr::Con("Int".into()))), ("Err".into(), Some(TypeExpr::Con("Str".into())))],
        Some("*".into()),
    );
    assert_eq!(t, expected);
    assert_eq!(type_expr_parser("Task(Int, Str)").unwrap(), TypeExpr::App("Task".into(), vec![TypeExpr::Con("Int".into()), TypeExpr::Con("Str".into())]));
    assert!(type_expr_parser("99999999999999999999").is_err());
}

#[test]
fn repl_inputs_keep_their_items() {
    assert!(matches!(repl_parser("  -- only a comment").unwrap(), ReplInput::Nop));
    match repl_parser("x = 1; y <- read_line").unwrap() {
        ReplInput::Items(items) => {
            assert_eq!(items.len(), 2);
            assert!(matches!(&items[0], BlockItem::Bind(x, _) if x == "x"));
            assert!(matches!(&items[1], BlockItem::MonadicBind(y, _) if y == "y"));
        },
        _ => panic!("expected items"),
    }
    assert!(matches!(repl_parser("1 + 2").unwrap(), ReplInput::Expr(_)));
}

#[test]
fn lifting_design_examples() {
    // `+` on Int[3, 4] and Int[3] broadcasts to Int[3, 4].
    let t = infer(&std_type_env(), &file_parser("a = [[1, 2, 3, 4], [1, 2, 3, 4], [1, 2, 3, 4]]\nb = [1, 2, 3]\na + b").unwrap()).unwrap();
    assert_eq!(t, Type::shaped(BaseType::Int, vec![Dim::Nat(3), Dim::Nat(4)]));
    // Int[3] against Int[4] does not broadcast.
    let e = infer(&std_type_env(), &file_parser("[1, 2, 3] + [1, 2, 3, 4]").unwrap()).unwrap_err();
    assert!(matches!(e.kind, TypeError::BroadcastFail(..)));
}

// ── dimensions ────────────────────────────────────────────────────────────────

#[test]
fn dim_arithmetic_on_literals() {
    assert_eq!(Dim::mul(&Dim::Nat(3), &Dim::Nat(4)), Some(Dim::Nat(12)));
    assert_eq!(Dim::add(&Dim::Nat(3), &Dim::Nat(4)), Some(Dim::Nat(7)));
    assert_eq!(Dim::sub(&Dim::Nat(4), &Dim::Nat(3)), Some(Dim::Nat(1)));
    assert_eq!(Dim::sub(&Dim::Nat(3), &Dim::Nat(4)), None);
    assert_eq!(Dim::sub(&Dim::Nat(3), &Dim::Nat(3)), Some(Dim::Nat(0)));
}

#[test]
fn dim_arithmetic_needs_literals() {
    let n = Dim::Var("n".into());
    assert_eq!(Dim::mul(&n, &Dim::Nat(2)), None);
    assert_eq!(Dim::add(&Dim::Nat(2), &n), None);
    assert_eq!(Dim::sub(&n, &n), None);
}

// ── messages ──────────────────────────────────────────────────────────────────

#[test]
fn eval_error_messages() {
    assert_eq!(EvalError::UnboundVar("x".into()).message(), "unbound variable: x");
    assert_eq!(
        EvalError::TypeMismatch { expected: "Int", got: "Str".into() }.message(),
        "type error: expected Int, got Str"
    );
    assert_eq!(EvalError::ArityMismatch { expected: 2, got: 13 }.message(), "arity error: expected 2 args, got 13");
    assert_eq!(EvalError::NoSuchField("y".into()).message(), "no such field: y");
    assert_eq!(EvalError::NoMatchingBranch("Foo".into()).message(), "no matching branch for tag: Foo");
    assert_eq!(EvalError::ModuleError("gone".into()).message(), "module error: gone");
}

#[test]
fn type_error_messages() {
    assert_eq!(TypeError::UnboundVar("q".into()).message(), "unknown variable `q`");
    assert_eq!(
        TypeError::UnificationFail(Type::int_(), Type::str_()).message(),
        "type mismatch: expected `Int`, got `Str`"
    );
    assert_eq!(TypeError::DimMismatch(Dim::Nat(3), Dim::Var("n".into())).message(), "dimension mismatch: 3 vs n");
}

#[test]
fn normalize_renames_in_order() {
    let t = Type::fun(vec![Type::Var("t7".into()), Type::Var("t3".into())], Type::Var("t7".into()));
    assert_eq!(normalize_ty(t).to_text(), "a b -> a");
}

// ── runtime shapes and imports ────────────────────────────────────────────────

#[test]
fn runtime_broadcast_of_shapes() {
    assert_eq!(broadcast_shape_pair(&[3, 4], &[3]).unwrap(), vec![3, 4]);
    assert_eq!(broadcast_shape_pair(&[], &[2, 5]).unwrap(), vec![2, 5]);
    assert_eq!(broadcast_shape_pair(&[7], &[7]).unwrap(), vec![7]);
    match broadcast_shape_pair(&[3, 4], &[4]) {
        Err(EvalError::TypeMismatch { expected, got }) => {
            assert_eq!(expected, "compatible shapes for broadcasting");
            assert_eq!(got, "cannot broadcast shapes [3, 4] and [4]");
        }
        other => panic!("unexpected {:?}", other),
    }
}

#[test]
fn import_paths_lists_each_module_once() {
    let ast = file_parser("a = import `x.coda`\nb = import `y.coda`\nc = import `x.coda`\na").unwrap();
    let mut paths = import_paths(&ast);
    paths.sort();
    assert_eq!(paths, vec!["x.coda".to_string(), "y.coda".to_string()]);
    assert!(import_paths(&file_parser("1 + 2").unwrap()).is_empty());
}

#[test]
fn broadcast_over_all_arguments() {
    assert_eq!(broadcast_shapes(&vec![vec![], vec![3, 4], vec![3]]).unwrap(), vec![3, 4]);
    assert_eq!(broadcast_shapes(&vec![]).unwrap(), Vec::<usize>::new());
    match broadcast_shapes(&vec![vec![3], vec![3, 4], vec![4]]) {
        Err(EvalError::TypeMismatch { expected, got }) => {
            assert_eq!(expected, "compatible shapes for broadcasting");
            assert_eq!(got, "cannot broadcast shapes [3, 4] and [4]");
        },
        _ => panic!("expected a broadcast failure"),
    }
}
