use zeta::ast::{Expr, Item, Stmt};
use zeta::diagnostic::Span;
use zeta::mir::{verify, MirExpr, MirFunction, MirStmt, Program};
use zeta::{dump_ast, dump_hir, dump_mir, lower_source, parse_source};

/// The expression of the first statement of the first function.
fn first_expr(source: &str) -> Expr {
    let module = parse_source(source).unwrap();
    for item in module.items {
        if let Item::Function(f) = item {
            for stmt in f.body {
                if let Stmt::Expr(e) = stmt {
                    return e;
                }
            }
        }
    }
    panic!("no expression statement");
}

fn name(n: &str, start: usize, end: usize) -> Expr {
    Expr::Name { name: n.to_string(), span: Span::new(start, end) }
}

fn int_lit(v: &str, start: usize, end: usize) -> Expr {
    Expr::Int { value: v.to_string(), span: Span::new(start, end) }
}

#[test]
fn method_call_on_an_indexed_value_passes_the_receiver_first() {
    // `fn f() { ` is 9 bytes long.
    let e = first_expr("fn f() { xs[0].m(1); }");
    let o = 9;
    assert_eq!(
        e,
        Expr::Call {
            callee: "m".to_string(),
            callee_span: Span::new(o + 6, o + 7),
            args: vec![
                Expr::Index {
                    base: Box::new(name("xs", o, o + 2)),
                    index: Box::new(int_lit("0", o + 3, o + 4)),
                    span: Span::new(o, o + 5),
                },
                int_lit("1", o + 8, o + 9),
            ],
            span: Span::new(o, o + 10),
        }
    );
}

#[test]
fn a_call_on_a_name_path_stays_a_qualified_call() {
    let e = first_expr("fn f() { obj.m(1); }");
    let o = 9;
    assert_eq!(
        e,
        Expr::Call {
            callee: "obj.m".to_string(),
            callee_span: Span::new(o, o + 5),
            args: vec![int_lit("1", o + 6, o + 7)],
            span: Span::new(o, o + 8),
        }
    );
}

#[test]
fn field_access_and_tuple_index_chain() {
    let e = first_expr("fn f() { a.b.0; }");
    let o = 9;
    assert_eq!(
        e,
        Expr::FieldAccess {
            base: Box::new(Expr::FieldAccess {
                base: Box::new(name("a", o, o + 1)),
                field: "b".to_string(),
                field_span: Span::new(o + 2, o + 3),
                span: Span::new(o, o + 3),
            }),
            field: "0".to_string(),
            field_span: Span::new(o + 4, o + 5),
            span: Span::new(o, o + 5),
        }
    );
}

#[test]
fn array_literals_take_a_trailing_comma() {
    let e = first_expr("fn f() { [1, 2,]; }");
    let o = 9;
    assert_eq!(
        e,
        Expr::ArrayLiteral { elements: vec![int_lit("1", o + 1, o + 2), int_lit("2", o + 4, o + 5)], span: Span::new(o, o + 7) }
    );
    let empty = first_expr("fn f() { []; }");
    assert_eq!(empty, Expr::ArrayLiteral { elements: vec![], span: Span::new(o, o + 2) });
}

#[test]
fn calling_a_call_result_is_an_error() {
    let errors = parse_source("fn f() { g(1)(2); }").unwrap_err();
    assert_eq!(errors[0].code, "PARSE_EXPECTED_CALL_TARGET");
    assert_eq!(errors[0].message, "expected function name before call arguments");
}

#[test]
fn unclosed_index_and_array_are_errors() {
    let errors = parse_source("fn f() { xs[0; }").unwrap_err();
    assert_eq!(errors[0].message, "expected `]` after index expression");
    let errors = parse_source("fn f() { [1 2]; }").unwrap_err();
    assert_eq!(errors[0].message, "expected `]` after array literal");
    let errors = parse_source("fn f() { a.; }").unwrap_err();
    assert_eq!(errors[0].code, "PARSE_EXPECTED_IDENT");
    assert_eq!(errors[0].message, "expected field name after `.`");
}

#[test]
fn ast_and_hir_dumps_of_postfixes() {
    let ast = dump_ast("fn f() { xs[0].len; }").unwrap();
    assert_eq!(
        ast,
        "Module\n  Function name=f exported=false\n    ExprStmt\n      FieldAccess field=len\n        Index\n          Name xs\n          Int 0\n"
    );
    let hir = dump_hir("fn f(xs: IntArray) { [1, 2]; xs[0]; }").unwrap();
    assert!(hir.contains("array_literal\n"));
    assert!(hir.contains("index\n"));
}

#[test]
fn mir_dump_of_an_array_index_and_length() {
    let text = dump_mir("fn f() -> Int { let xs = [1, 2]; return xs[0] + xs.len; }").unwrap();
    assert!(text.contains("_t2 = array [_t0, _t1]\n"));
    assert!(text.contains("= index _t3[_t4]\n"));
    assert!(text.contains("= field _t6.len\n"));
}

#[test]
fn enum_variant_without_payload_is_a_value() {
    let text = dump_mir("enum Color { Red, Green } fn f() -> Color { return Color.Red; }").unwrap();
    assert!(text.contains("_t0 = enum Color.Red\n"));
}

#[test]
fn array_element_of_another_type_is_rejected() {
    let program = Program {
        enums: vec![],
        functions: vec![MirFunction {
            name: "main".to_string(),
            params: vec![],
            return_type: None,
            body: vec![MirStmt::Drop(MirExpr::ArrayLiteral {
                elements: vec![MirExpr::Int("1".to_string()), MirExpr::Bool(true)],
            })],
        }],
    };
    let errors = verify(&program).unwrap_err();
    assert_eq!(errors.len(), 1);
    assert_eq!(errors[0].code, "MIR_ARRAY_ELEMENT_TYPE");
    assert_eq!(errors[0].message, "array element expects `Int`, found `Bool`");
    assert_eq!(errors[0].span, Span::new(0, 0));
}

#[test]
fn index_must_be_an_int_and_base_an_array() {
    let errors = lower_source("fn f(xs: IntArray) -> Int { return xs[true]; }").unwrap_err();
    assert_eq!(errors[0].code, "MIR_INDEX_TYPE");
    assert_eq!(errors[0].message, "index expects `Int`, found `Bool`");
    let errors = lower_source("fn f(n: Int) -> Int { return n[0]; }").unwrap_err();
    assert_eq!(errors[0].code, "MIR_INDEX_BASE");
    assert_eq!(errors[0].message, "index base expects array, found `Int`");
    let errors = lower_source("fn f() { let xs = []; }").unwrap_err();
    assert_eq!(errors[0].code, "MIR_ARRAY_EMPTY");
}

#[test]
fn array_length_is_an_int() {
    assert!(lower_source("fn f(xs: IntArray) -> Int { return xs.len; }").is_ok());
    assert!(lower_source("fn f(xs: IntArray) -> Int { return xs[0]; }").is_ok());
}
