use zeta::module_graph::{check_sources, SourceFile};

fn file(path: &str, source: &str) -> SourceFile {
    SourceFile { path: path.to_string(), source: source.to_string() }
}

#[test]
fn modules_may_call_what_their_imports_export() {
    let files = vec![
        file("a.zeta", "module demo.a; export fn answer() -> Int { return 42; }"),
        file("b.zeta", "module demo.b; import demo.a; fn main() -> Int { return answer(); }"),
    ];
    assert!(check_sources(&files).is_ok());
}

#[test]
fn a_function_that_is_not_exported_cannot_be_called() {
    let files = vec![
        file("a.zeta", "module demo.a; fn answer() -> Int { return 42; }"),
        file("b.zeta", "module demo.b; import demo.a; fn main() -> Int { return answer(); }"),
    ];
    let errors = check_sources(&files).unwrap_err();
    assert_eq!(errors.len(), 1);
    assert_eq!(errors[0].path, "b.zeta");
    assert_eq!(errors[0].diagnostics[0].code, "RESOLVE_UNKNOWN_FUNCTION");
}

#[test]
fn a_module_declared_twice_is_reported_at_the_second_file() {
    let files = vec![file("x.zeta", "module demo.a;"), file("y.zeta", "module demo.a;")];
    let errors = check_sources(&files).unwrap_err();
    assert_eq!(errors.len(), 1);
    assert_eq!(errors[0].path, "y.zeta");
    assert_eq!(errors[0].diagnostics[0].code, "RESOLVE_DUPLICATE_MODULE");
    assert_eq!(errors[0].diagnostics[0].message, "duplicate module `demo.a`; first declared in x.zeta");
}

#[test]
fn files_that_do_not_lex_are_reported_before_anything_else() {
    let files = vec![file("ok.zeta", "module demo.a;"), file("bad.zeta", "fn main() { @ }")];
    let errors = check_sources(&files).unwrap_err();
    assert_eq!(errors.len(), 1);
    assert_eq!(errors[0].path, "bad.zeta");
    assert_eq!(errors[0].source, "fn main() { @ }");
    assert_eq!(errors[0].diagnostics[0].code, "LEX_UNKNOWN_CHAR");
}

#[test]
fn an_unknown_import_is_reported() {
    let files = vec![file("b.zeta", "module demo.b; import demo.missing; fn main() {}")];
    let errors = check_sources(&files).unwrap_err();
    assert_eq!(errors[0].diagnostics[0].code, "RESOLVE_UNKNOWN_IMPORT");
}

use zeta::mir::dump_program;
use zeta::module_graph::link_sources;

#[test]
fn linking_names_functions_by_module_and_redirects_calls() {
    let files = vec![
        file("a.zeta", "module demo.a; fn helper() -> Int { return 1; } export fn answer() -> Int { return helper(); }"),
        file("b.zeta", "module demo.b; import demo.a; fn main() -> Int { return answer(); }"),
    ];
    let program = link_sources(&files).unwrap();
    assert_eq!(
        dump_program(&program),
        "MirModule\n  fn demo.a.helper -> Int\n    block entry\n      _t0 = const Int 1\n      return _t0\n  fn demo.a.answer -> Int\n    block entry\n      _t0 = call demo.a.helper()\n      return _t0\n  fn main -> Int\n    block entry\n      _t0 = call demo.a.answer()\n      return _t0\n"
    );
}

#[test]
fn linking_needs_a_main() {
    let files = vec![file("a.zeta", "module demo.a; fn f() {}")];
    let errors = link_sources(&files).unwrap_err();
    assert_eq!(errors.len(), 1);
    assert_eq!(errors[0].path, "a.zeta");
    assert_eq!(errors[0].diagnostics[0].code, "RUNTIME_NO_MAIN");
    assert_eq!(errors[0].diagnostics[0].message, "expected a `main` function");
    let none: Vec<SourceFile> = Vec::new();
    let errors = link_sources(&none).unwrap_err();
    assert_eq!(errors[0].path, "<module graph>");
}

#[test]
fn linking_rejects_two_mains() {
    let files = vec![
        file("a.zeta", "module demo.a; fn main() {}"),
        file("b.zeta", "module demo.b; fn main() {}"),
    ];
    let errors = link_sources(&files).unwrap_err();
    assert_eq!(errors.len(), 2);
    assert_eq!(errors[1].path, "b.zeta");
    assert_eq!(errors[1].diagnostics[0].code, "RUNTIME_DUPLICATE_MAIN");
}

#[test]
fn linking_reports_check_errors_first() {
    let files = vec![file("x.zeta", "module demo.a; fn main() {}"), file("y.zeta", "module demo.a;")];
    let errors = link_sources(&files).unwrap_err();
    assert_eq!(errors[0].diagnostics[0].code, "RESOLVE_DUPLICATE_MODULE");
}

#[test]
fn imported_exported_types_are_known_and_others_are_not() {
    let files = vec![
        file("a.zeta", "module demo.a; export struct Point { x: Int } struct Hidden { y: Int }"),
        file("b.zeta", "module demo.b; import demo.a; fn f(p: Point) {}"),
    ];
    assert!(check_sources(&files).is_ok());
    let files = vec![
        file("a.zeta", "module demo.a; export struct Point { x: Int } struct Hidden { y: Int }"),
        file("b.zeta", "module demo.b; import demo.a; fn f(p: Hidden) {}"),
    ];
    let errors = check_sources(&files).unwrap_err();
    assert_eq!(errors.len(), 1);
    assert_eq!(errors[0].path, "b.zeta");
    assert_eq!(errors[0].diagnostics[0].code, "TYPE_UNKNOWN_TYPE");
}
