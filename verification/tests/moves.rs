use zeta::ast::Param;
use zeta::diagnostic::Span;
use zeta::mir::{MirExpr, MirFunction, MirMatchArm, MirPattern, MirPlace, MirStmt};
use zeta::move_analysis::{analyze, MovePlan};

fn param(name: &str) -> Param {
    Param { name: name.to_string(), name_span: Span::new(0, 0), ty: "String".to_string() }
}

fn load(name: &str) -> MirExpr {
    MirExpr::Load(name.to_string())
}

fn call(callee: &str, args: Vec<MirExpr>) -> MirExpr {
    MirExpr::Call { callee: callee.to_string(), args }
}

fn local(name: &str, value: MirExpr) -> MirStmt {
    MirStmt::Local { mutable: false, name: name.to_string(), ty: None, value }
}

fn function(params: Vec<Param>, body: Vec<MirStmt>) -> MirFunction {
    MirFunction { name: "f".to_string(), params, return_type: None, body }
}

#[test]
fn an_empty_plan_moves_nothing() {
    let plan = MovePlan::empty();
    assert!(!plan.is_move(0));
    assert!(!plan.is_flagged("x"));
}

#[test]
fn a_returned_parameter_is_moved() {
    let f = function(vec![param("a")], vec![MirStmt::Return(Some(load("a")))]);
    let plan = analyze(&f);
    assert!(plan.is_move(0));
    assert!(plan.is_flagged("a"));
}

#[test]
fn only_the_last_read_moves() {
    let f = function(
        vec![param("a")],
        vec![local("b", load("a")), MirStmt::Return(Some(call("g", vec![load("a"), load("b")])))],
    );
    let plan = analyze(&f);
    assert!(!plan.is_move(0));
    assert!(plan.is_move(1));
    assert!(plan.is_move(2));
    assert!(plan.is_flagged("a") && plan.is_flagged("b"));
}

#[test]
fn operands_of_a_binary_expression_are_not_moved() {
    let f = function(
        vec![param("a"), param("b")],
        vec![MirStmt::Return(Some(MirExpr::Binary {
            op: zeta::ast::BinaryOp::Add,
            left: Box::new(load("a")),
            right: Box::new(load("b")),
        }))],
    );
    let plan = analyze(&f);
    assert!(!plan.is_move(0) && !plan.is_move(1));
}

#[test]
fn a_read_in_a_loop_is_live_across_the_back_edge() {
    let looping = function(
        vec![param("x"), param("c")],
        vec![
            MirStmt::While { condition: load("c"), body: vec![local("y", call("g", vec![load("x")]))] },
            MirStmt::Return(None),
        ],
    );
    let plan = analyze(&looping);
    assert!(!plan.is_move(0));
    assert!(!plan.is_move(1));
    let straight = function(vec![param("x")], vec![local("y", call("g", vec![load("x")])), MirStmt::Return(None)]);
    assert!(analyze(&straight).is_move(0));
}

#[test]
fn names_defined_twice_are_never_moved() {
    let f = function(vec![param("a")], vec![local("a", load("a")), MirStmt::Return(Some(load("a")))]);
    let plan = analyze(&f);
    assert!(!plan.is_move(0) && !plan.is_move(1));
    assert!(!plan.is_flagged("a"));
}

#[test]
fn nothing_in_a_match_moves_and_pattern_names_are_blacklisted() {
    let f = function(
        vec![param("v")],
        vec![
            MirStmt::Match {
                value: load("v"),
                arms: vec![MirMatchArm {
                    pattern: MirPattern::Name("n".to_string()),
                    body: vec![MirStmt::Return(Some(load("n")))],
                }],
            },
            MirStmt::Return(Some(load("n"))),
        ],
    );
    let plan = analyze(&f);
    assert!(!plan.is_move(0) && !plan.is_move(1) && !plan.is_move(2));
}

#[test]
fn a_store_keeps_its_target_live() {
    let f = function(
        vec![param("a"), param("t")],
        vec![
            MirStmt::Store { place: MirPlace::Local("t".to_string()), value: load("t") },
            MirStmt::Return(Some(load("a"))),
        ],
    );
    let plan = analyze(&f);
    assert!(!plan.is_move(0));
    assert!(plan.is_move(1));
}

#[test]
fn both_branches_of_an_if_count() {
    let f = function(
        vec![param("a"), param("c")],
        vec![MirStmt::If {
            condition: load("c"),
            then_body: vec![MirStmt::Return(Some(load("a")))],
            else_body: vec![MirStmt::Drop(call("g", vec![load("a")]))],
        }],
    );
    let plan = analyze(&f);
    assert!(!plan.is_move(0));
    assert!(plan.is_move(1));
    assert!(plan.is_move(2));
}

#[test]
fn array_elements_move_but_index_and_field_bases_do_not() {
    let f = function(
        vec![param("a"), param("xs"), param("i")],
        vec![
            local("ys", MirExpr::ArrayLiteral { elements: vec![load("a")] }),
            local(
                "n",
                MirExpr::Index {
                    base: Box::new(load("xs")),
                    index: Box::new(MirExpr::FieldAccess { base: Box::new(load("i")), field: "len".to_string() }),
                },
            ),
            MirStmt::Return(Some(call("g", vec![load("ys"), load("n")]))),
        ],
    );
    let plan = analyze(&f);
    assert!(plan.is_move(0));
    assert!(!plan.is_move(1) && !plan.is_move(2));
    assert!(plan.is_move(3) && plan.is_move(4));
    assert!(plan.is_flagged("a") && !plan.is_flagged("xs") && !plan.is_flagged("i"));
}
