use zeta::ast::{BinaryOp, Expr, Item, Module, Pattern, Stmt};
use zeta::diagnostic::Span;
use zeta::lexer::{lex, Keyword, Symbol, TokenKind};
use zeta::{check_source, dump_ast, dump_mir, parse_source, repl_run_source_for_line, repl_source_for_line};

#[test]
fn lexes_keywords_symbols_and_literals() {
    let tokens = lex("let x = 42;").unwrap();
    let kinds: Vec<TokenKind> = tokens.into_iter().map(|t| t.kind).collect();
    assert_eq!(
        kinds,
        vec![
            TokenKind::Keyword(Keyword::Let),
            TokenKind::Ident("x".to_string()),
            TokenKind::Symbol(Symbol::Eq),
            TokenKind::Int("42".to_string()),
            TokenKind::Symbol(Symbol::Semicolon),
            TokenKind::Eof,
        ]
    );
}

#[test]
fn lexing_ends_with_eof_at_the_end_of_the_source() {
    let source = "fn main() {}";
    let tokens = lex(source).unwrap();
    let last = tokens.last().unwrap();
    assert_eq!(last.kind, TokenKind::Eof);
    assert_eq!(last.span, Span::new(source.len(), source.len()));
}

#[test]
fn lex_reports_unexpected_character() {
    let errors = lex("let x = @;").unwrap_err();
    assert!(!errors.is_empty());
}

#[test]
fn dumps_the_ast_of_a_function() {
    let text = dump_ast("fn main() -> Int { return 1 + 2; }").unwrap();
    assert_eq!(
        text,
        "Module\n  Function name=main exported=false\n    Return type=Int\n    Return\n      Binary op=add\n        Int 1\n        Int 2\n"
    );
}

#[test]
fn parse_source_gives_the_items() {
    let module: Module = parse_source("module demo.core; fn main() {}").unwrap();
    assert_eq!(module.items.len(), 2);
}

#[test]
fn check_source_accepts_a_well_formed_program() {
    assert!(check_source("fn main() -> Int { let x: Int = 40; return x + 2; }").is_ok());
}

#[test]
fn check_source_rejects_an_unknown_name() {
    assert!(check_source("fn main() -> Int { return y; }").is_err());
}

#[test]
fn dumps_mir_of_a_return() {
    let text = dump_mir("fn main() -> Int { return 7; }").unwrap();
    assert!(text.contains("fn main -> Int"));
}

#[test]
fn repl_wraps_a_statement_in_a_function() {
    assert_eq!(repl_source_for_line("  let x = 1;  "), "fn repl() {\n  let x = 1;\n}");
    assert_eq!(repl_source_for_line("fn f() {}"), "fn f() {}");
}

#[test]
fn repl_runs_an_expression_as_the_result_of_main() {
    assert_eq!(
        repl_run_source_for_line("40 + 2"),
        Some("fn main() {\n  return 40 + 2;\n}".to_string())
    );
    assert_eq!(repl_run_source_for_line("   "), None);
}

#[test]
fn dumps_the_hir_of_a_function() {
    let text = zeta::dump_hir("fn main() -> Int { let x: Int = 40; return x + 2; }").unwrap();
    assert_eq!(
        text,
        "HirModule\n  fn main visibility=private -> Int\n    body\n      let x: Int mutability=immutable\n        const Int 40\n      return\n        binary add\n          local x\n          const Int 2\n"
    );
}

#[test]
fn dumps_the_mir_of_a_function_with_numbered_temporaries() {
    let text = dump_mir("fn main() -> Int { let x: Int = 40; return x + 2; }").unwrap();
    assert_eq!(
        text,
        "MirModule\n  fn main -> Int\n    block entry\n      local x: Int mutability=immutable\n      _t0 = const Int 40\n      store x, _t0\n      _t1 = load x\n      _t2 = const Int 2\n      _t3 = binary add _t1, _t2\n      return _t3\n"
    );
}

#[test]
fn ast_dump_of_module_import_and_exported_function() {
    let text = dump_ast("module demo.core; import std.io; export fn f(a: Int) {}").unwrap();
    assert_eq!(
        text,
        "Module\n  ModuleDecl name=demo.core\n  Import path=std.io\n  Function name=f exported=true\n    Param name=a type=Int\n"
    );
}

#[test]
fn parse_error_for_a_missing_semicolon() {
    let errors = parse_source("module demo").unwrap_err();
    assert_eq!(errors[0].code, "PARSE_EXPECTED_SYMBOL");
}

#[test]
fn lexer_errors_reach_every_pipeline_stage_unchanged() {
    let from_lexer = lex("fn main() { \"open").unwrap_err();
    assert_eq!(from_lexer[0].code, "LEX_UNTERMINATED_STRING");
    assert_eq!(check_source("fn main() { \"open").unwrap_err(), from_lexer);
    assert_eq!(dump_ast("fn main() { \"open").unwrap_err(), from_lexer);
    assert_eq!(dump_mir("fn main() { \"open").unwrap_err(), from_lexer);
}

#[test]
fn check_reports_assignment_to_an_immutable_local() {
    let errors = check_source("fn main() { let x: Int = 1; x = 2; }").unwrap_err();
    assert_eq!(errors[0].code, "RESOLVE_ASSIGN_IMMUTABLE");
}

#[test]
fn mir_check_reports_a_missing_return() {
    let errors = zeta::lower_source("fn main() -> Int { let x: Int = 1; }").unwrap_err();
    assert_eq!(errors[0].code, "MIR_MISSING_RETURN");
}

#[test]
fn mir_check_reports_a_wrong_return_type() {
    let errors = zeta::lower_source("fn main() -> Int { return \"text\"; }").unwrap_err();
    assert_eq!(errors[0].code, "MIR_RETURN_TYPE");
}

#[test]
fn renders_a_diagnostic_with_a_caret_under_the_span() {
    let d = zeta::diagnostic::Diagnostic::new("E", "bad", Span::new(4, 7));
    assert_eq!(d.render("let abc = 1;", "a.zeta"), "E at a.zeta:1:5: bad\n  |\n 1 | let abc = 1;\n  |     ^^^");
}

#[test]
fn parser_reports_one_error_for_each_bad_item() {
    let errors = parse_source("fn ; struct S { a } fn main() {}").unwrap_err();
    assert_eq!(errors.len(), 2);
    assert_eq!(errors[0].code, "PARSE_EXPECTED_IDENT");
    assert_eq!(errors[0].message, "expected function name");
    assert_eq!(errors[1].code, "PARSE_EXPECTED_SYMBOL");
    assert_eq!(errors[1].message, "expected `:` after field name");
}

#[test]
fn parses_type_annotations_into_their_text() {
    let m = parse_source("fn f(a: Map<Int, String>, b: (Int, Bool), c: (Int), d: fn(Int) -> Int, e: *Int, g: (Int,)) {}")
        .unwrap();
    match &m.items[0] {
        Item::Function(f) => {
            let types: Vec<&str> = f.params.iter().map(|p| p.ty.as_str()).collect();
            assert_eq!(types, vec!["Map<Int, String>", "(Int, Bool)", "Int", "fn(Int) -> Int", "*Int", "(Int)"]);
        },
        _ => panic!("expected a function"),
    }
}

#[test]
fn parses_products_of_sums_and_calls() {
    let m = parse_source("fn main() { x = (1 + 2) * f(3, y); }").unwrap();
    let body = match &m.items[0] {
        Item::Function(f) => &f.body,
        _ => panic!("expected a function"),
    };
    match &body[0] {
        Stmt::Assign { name, value: Expr::Binary { op: BinaryOp::Mul, left, right, .. }, .. } => {
            assert_eq!(name, "x");
            assert!(matches!(**left, Expr::Binary { op: BinaryOp::Add, .. }));
            match &**right {
                Expr::Call { callee, args, .. } => {
                    assert_eq!(callee, "f");
                    assert_eq!(args.len(), 2);
                    assert!(matches!(&args[1], Expr::Name { name, .. } if name == "y"));
                },
                _ => panic!("expected a call"),
            }
        },
        _ => panic!("expected an assignment"),
    }
}

#[test]
fn else_if_is_an_else_block_holding_one_if() {
    let m = parse_source("fn main() { if a { } else if b { } else { c; } }").unwrap();
    let body = match &m.items[0] {
        Item::Function(f) => &f.body,
        _ => panic!("expected a function"),
    };
    match &body[0] {
        Stmt::If { then_body, else_body, .. } => {
            assert!(then_body.is_empty());
            assert_eq!(else_body.len(), 1);
            match &else_body[0] {
                Stmt::If { else_body: inner, .. } => assert!(matches!(&inner[..], [Stmt::Expr(Expr::Name { .. })])),
                _ => panic!("expected the nested if"),
            }
        },
        _ => panic!("expected an if"),
    }
}

#[test]
fn match_arms_take_patterns_and_optional_commas() {
    let m = parse_source("fn main() { match x { 1 -> { } _ -> { }, true -> { } } }").unwrap();
    let body = match &m.items[0] {
        Item::Function(f) => &f.body,
        _ => panic!("expected a function"),
    };
    match &body[0] {
        Stmt::Match { arms, .. } => {
            assert_eq!(arms.len(), 3);
            assert_eq!(arms[0].pattern, Pattern::Int("1".to_string()));
            assert_eq!(arms[1].pattern, Pattern::Wildcard);
            assert_eq!(arms[2].pattern, Pattern::Bool(true));
        },
        _ => panic!("expected a match"),
    }
}

#[test]
fn assigning_to_something_other_than_a_name_is_an_error() {
    let errors = parse_source("fn main() { 1 = 2; }").unwrap_err();
    assert_eq!(errors[0].code, "PARSE_EXPECTED_ASSIGN_TARGET");
    // Recovery resumes after the `;`, where the stray `}` is not an item.
    assert_eq!(errors.len(), 2);
    assert_eq!(errors[1].code, "PARSE_EXPECTED_ITEM");
}

#[test]
fn the_same_parse_gives_the_same_ast_dump() {
    let source = "module demo; fn main(a: Int) -> Int { if a { return 1; } else { return f(a, 2); } }";
    let first = parse_source(source).unwrap();
    let second = parse_source(source).unwrap();
    assert_eq!(first, second);
    assert_eq!(first.dump(), second.dump());
    assert_eq!(dump_ast(source).unwrap(), first.dump());
}

#[test]
fn resolution_and_hir_dump_follow_the_parse() {
    let source = "fn main() -> Int { let x: Int = 1; return y + x; }";
    let errors = check_source(source).unwrap_err();
    assert_eq!(errors, check_source(source).unwrap_err());
    assert_eq!(errors[0].code, "RESOLVE_UNKNOWN_NAME");
    let good = "fn main() -> Int { let x: Int = 1; return x; }";
    let module = parse_source(good).unwrap();
    assert_eq!(zeta::dump_hir(good).unwrap(), zeta::hir::dump(&module));
}

#[test]
fn lexes_boolean_operators() {
    let tokens = lex("true && !false || x").unwrap();
    let kinds: Vec<TokenKind> = tokens.into_iter().map(|t| t.kind).collect();
    assert_eq!(
        kinds,
        vec![
            TokenKind::Keyword(Keyword::True),
            TokenKind::Symbol(Symbol::AndAnd),
            TokenKind::Symbol(Symbol::Bang),
            TokenKind::Keyword(Keyword::False),
            TokenKind::Symbol(Symbol::OrOr),
            TokenKind::Ident("x".to_string()),
            TokenKind::Eof,
        ]
    );
}

#[test]
fn every_bad_item_is_reported_with_the_item_message() {
    let tokens = lex("1; 2;").unwrap();
    let errors = zeta::parser::Parser::new(tokens).parse_module().unwrap_err();
    let m = "expected module, import, export, struct, enum, trait, impl, or fn";
    assert_eq!(
        errors,
        vec![
            zeta::diagnostic::Diagnostic::new("PARSE_EXPECTED_ITEM", m, Span::new(0, 1)),
            zeta::diagnostic::Diagnostic::new("PARSE_EXPECTED_ITEM", m, Span::new(3, 4)),
        ]
    );
}

#[test]
fn comparisons_bind_tighter_than_conjunctions() {
    let text = dump_ast("fn f() -> Bool { return a < b && c == d || e; }").unwrap();
    assert!(text.contains("Binary op=or\n"));
    let or_at = text.find("Binary op=or").unwrap();
    let and_at = text.find("Binary op=and").unwrap();
    let lt_at = text.find("Binary op=lt").unwrap();
    let eq_at = text.find("Binary op=eq").unwrap();
    assert!(or_at < and_at && and_at < lt_at && lt_at < eq_at);
}

#[test]
fn boolean_and_comparison_expressions_lower_and_verify() {
    assert!(zeta::lower_source("fn f() -> Bool { return 1 < 2 && true; }").is_ok());
    let errors = zeta::lower_source("fn f() -> Bool { return 1 && true; }").unwrap_err();
    assert_eq!(errors[0].code, "MIR_BINARY_TYPE");
}

#[test]
fn unknown_type_names_are_reported() {
    let errors = check_source("struct S { a: Foo } fn f(x: Bar) -> Baz { let y: Qux = 1; }").unwrap_err();
    let codes: Vec<&str> = errors.iter().map(|d| d.code).collect();
    assert_eq!(codes, vec!["TYPE_UNKNOWN_TYPE"; 4]);
    assert_eq!(errors[0].message, "unknown type `Foo`");
    assert_eq!(errors[3].message, "unknown type `Qux`");
    assert!(check_source("struct S { a: Int } enum E { A } fn f(s: S, e: E) -> IntArray { let y: Int = 1; }").is_ok());
    assert!(check_source("import std.core; fn f(x: OptionInt) {}").is_ok());
    assert!(check_source("fn f(x: OptionInt) {}").is_err());
    assert!(zeta::dump_hir("fn f(x: Bar) {}").is_err());
}

#[test]
fn unary_operators_parse_check_and_lower() {
    let source = "fn f() -> Bool { return true && !false; }";
    let ast = dump_ast(source).unwrap();
    assert!(ast.contains("Unary op=not\n"));
    let hir = zeta::dump_hir(source).unwrap();
    assert!(hir.contains("unary not\n"));
    let mir = dump_mir("fn f() -> Int { return -7; }").unwrap();
    assert!(mir.contains(" = unary neg _t0\n"));
    let errors = zeta::lower_source("fn f() -> Bool { return !1; }").unwrap_err();
    assert_eq!(errors[0].code, "MIR_UNARY_TYPE");
    assert_eq!(errors[0].message, "not operand expects `Bool`, found `Int`");
    assert_eq!(zeta::mir::unary_op_text(zeta::ast::UnaryOp::Neg), "neg");
}

#[test]
fn compound_assignment_assigns_the_operation() {
    let m = parse_source("fn f() { let mut x: Int = 1; x += 2; x -= 1; x *= 3; x /= 2; }").unwrap();
    let body = match &m.items[0] {
        Item::Function(f) => &f.body,
        _ => panic!("expected a function"),
    };
    match &body[1] {
        Stmt::Assign { name, value: Expr::Binary { op: BinaryOp::Add, left, .. }, .. } => {
            assert_eq!(name, "x");
            assert!(matches!(&**left, Expr::Name { name, .. } if name == "x"));
        },
        _ => panic!("expected an assignment"),
    }
    assert!(matches!(&body[4], Stmt::Assign { value: Expr::Binary { op: BinaryOp::Div, .. }, .. }));
    assert!(check_source("fn f() { let mut x: Int = 1; x += 2; }").is_ok());
    assert_eq!(check_source("fn f() { let x: Int = 1; x += 2; }").unwrap_err()[0].code, "RESOLVE_ASSIGN_IMMUTABLE");
}

#[test]
fn token_spans_follow_each_other_on_char_boundaries() {
    let source = "let s = \"é\"; // ü\nlet t = xs[0].len;";
    let tokens = lex(source).unwrap();
    for t in &tokens {
        assert!(t.span.start <= t.span.end);
        assert!(source.is_char_boundary(t.span.start));
        assert!(source.is_char_boundary(t.span.end));
    }
    for pair in tokens.windows(2) {
        assert!(pair[0].span.end <= pair[1].span.start);
    }
    assert_eq!(tokens[3].span, Span::new(8, 12));
}
