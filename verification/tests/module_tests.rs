use lang::ast::{Expr, Spanned};
use lang::codegen::{compile, compile_program};
use lang::imports::{module_order, next_unread};
use lang::parser::file_parser;

fn parse(src: &str) -> Spanned<Expr> {
    file_parser(src).unwrap_or_else(|e| panic!("parse error in {:?}: {:?}", src, e))
}

fn module(path: &str, src: &str) -> (String, Spanned<Expr>) {
    (path.to_string(), parse(src))
}

fn count(hay: &str, needle: &str) -> usize {
    hay.matches(needle).count()
}

#[test]
fn program_without_modules_compiles_as_before() {
    for src in ["42", "`a` ++ `b`", "f = \\x -> x + 1\nf(2)"] {
        let ast = parse(src);
        assert_eq!(compile_program(&Vec::new(), &ast), compile(&ast));
    }
}

#[test]
fn imported_module_is_compiled_once() {
    let mods = vec![module("m.coda", "41")];
    let ir = compile_program(&mods, &parse("a = import `m.coda`\nb = import `m.coda`\na + b")).unwrap();
    assert_eq!(count(&ir, "define ptr @coda_module_0() {\n"), 1);
    assert_eq!(count(&ir, "define ptr @coda_module_"), 1);
    assert_eq!(count(&ir, "call ptr @coda_module_0()"), 1);
    assert!(ir.contains("call ptr @coda_mk_int(i64 41)"));
    let main_at = ir.find("define ptr @coda_main()").unwrap();
    assert!(ir[main_at..].contains("call ptr @coda_module_0()"));
}

#[test]
fn modules_import_earlier_modules() {
    let mods = vec![
        module("a.coda", "1"),
        module("b.coda", "import `a.coda` + 1"),
    ];
    let ir = compile_program(&mods, &parse("import `b.coda`")).unwrap();
    let b_at = ir.find("define ptr @coda_module_1() {\n").unwrap();
    let main_at = ir.find("define ptr @coda_main()").unwrap();
    assert!(ir.find("define ptr @coda_module_0() {\n").unwrap() < b_at);
    assert!(ir[b_at..main_at].contains("call ptr @coda_module_0()"));
    assert!(ir[main_at..].contains("call ptr @coda_module_1()"));
    assert!(!ir[main_at..].contains("call ptr @coda_module_0()"));
}

#[test]
fn import_inside_a_lambda_is_captured() {
    let mods = vec![module("m.coda", "5")];
    let ir = compile_program(&mods, &parse("f = \\x -> x + import `m.coda`\nf(1)")).unwrap();
    assert_eq!(count(&ir, "call ptr @coda_module_0()"), 1);
    assert!(ir.contains("define ptr @lam_"));
}

#[test]
fn import_of_a_module_not_given_fails() {
    let mods = vec![module("m.coda", "1")];
    assert_eq!(
        compile_program(&mods, &parse("import `other.coda`")),
        Err("imports not supported in compiled mode".to_string())
    );
}

#[test]
fn module_may_not_import_a_later_module() {
    let mods = vec![
        module("a.coda", "import `b.coda`"),
        module("b.coda", "1"),
    ];
    assert_eq!(
        compile_program(&mods, &parse("import `a.coda`")),
        Err("imports not supported in compiled mode".to_string())
    );
}

#[test]
fn error_in_a_module_comes_first() {
    let mods = vec![module("m.coda", "y")];
    assert_eq!(
        compile_program(&mods, &parse("z")),
        Err("unbound: y".to_string())
    );
}

fn names(xs: &[&str]) -> Vec<String> {
    xs.iter().map(|x| x.to_string()).collect()
}

#[test]
fn next_unread_follows_imports() {
    let roots = names(&["a.coda"]);
    let mut g: Vec<(String, Vec<String>)> = Vec::new();
    assert_eq!(next_unread(&g, &roots), Some("a.coda".to_string()));
    g.push(("a.coda".to_string(), names(&["b.coda", "c.coda"])));
    assert_eq!(next_unread(&g, &roots), Some("b.coda".to_string()));
    g.push(("b.coda".to_string(), names(&["c.coda"])));
    assert_eq!(next_unread(&g, &roots), Some("c.coda".to_string()));
    g.push(("c.coda".to_string(), Vec::new()));
    assert_eq!(next_unread(&g, &roots), None);
}

#[test]
fn module_order_puts_imports_first_once() {
    let g = vec![
        ("a".to_string(), names(&["b", "c"])),
        ("b".to_string(), names(&["d"])),
        ("c".to_string(), names(&["d"])),
        ("d".to_string(), Vec::new()),
    ];
    assert_eq!(module_order(&g, &names(&["a"])), Ok(names(&["d", "b", "c", "a"])));
    assert_eq!(module_order(&g, &names(&["c", "a"])), Ok(names(&["d", "c", "b", "a"])));
}

#[test]
fn module_order_finds_cycles() {
    let g = vec![
        ("a".to_string(), names(&["b"])),
        ("b".to_string(), names(&["a"])),
    ];
    assert_eq!(module_order(&g, &names(&["a"])), Err("a".to_string()));
    let self_loop = vec![("s".to_string(), names(&["s"]))];
    assert_eq!(module_order(&self_loop, &names(&["s"])), Err("s".to_string()));
}
