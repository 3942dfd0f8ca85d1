//! Move-on-last-use analysis: backward liveness over the structured MIR finds
//! the `Load(x)` reads that are the last use of `x` on every path, so that a
//! back end may move the value out instead of copying it.
//!
//! The analysis is conservative. Only reads in positions that hand ownership
//! on (a call argument, an enum payload, the value of a `let` or a store, a
//! returned value) are candidates; a name is never moved if it is defined more
//! than once (parameters and `let`s together) or bound by a `match` pattern;
//! nothing inside a `match` is moved; and a loop's body is judged against the
//! live set its back edge carries, found by iterating to a fixpoint.
//!
//! Reads are identified by their position: the reads of a function body are
//! numbered from zero in source order (statements in order; within an
//! expression, left operand before right and arguments in order).
use vstd::prelude::*;
use crate::mir::dump::{marms_size, mstmt_size, mstmts_size};
use crate::mir::{MirExpr, MirFunction, MirMatchArm, MirPattern, MirPlace, MirStmt};
use crate::ast::Param;
use crate::mir::dump::{lemma_marms_size_elem, lemma_mexprs_size_elem, lemma_mstmts_size_elem, mexpr_size, mexprs_size};
use crate::text::{contains_str, copy_string, copy_strings, str_equal, strings_view};

verus! {

// ---------------------------------------------------------------------------
// Numbering the reads
// ---------------------------------------------------------------------------

/// The number of `Load` reads in an expression.
pub open spec fn loads_expr(e: MirExpr) -> nat
    decreases e,
{
    match e {
        MirExpr::Load(_) => 1,
        MirExpr::Binary { left, right, .. } | MirExpr::Index { base: left, index: right } => loads_expr(*left) + loads_expr(*right),
        MirExpr::Unary { expr, .. } | MirExpr::FieldAccess { base: expr, .. } => loads_expr(*expr),
        MirExpr::Call { args, .. } | MirExpr::ArrayLiteral { elements: args } => loads_exprs(args@),
        MirExpr::EnumVariant { payload: Some(p), .. } => loads_expr(*p),
        _ => 0,
    }
}

pub open spec fn loads_exprs(es: Seq<MirExpr>) -> nat
    decreases es,
{
    if es.len() == 0 {
        0
    } else {
        loads_exprs(es.drop_last()) + loads_expr(es.last())
    }
}

/// The number of `Load` reads in a statement.
pub open spec fn loads_stmt(s: MirStmt) -> nat
    decreases s,
{
    match s {
        MirStmt::Local { value, .. } => loads_expr(value),
        MirStmt::Store { value, .. } => loads_expr(value),
        MirStmt::If { condition, then_body, else_body } => loads_expr(condition) + loads_stmts(then_body@)
            + loads_stmts(else_body@),
        MirStmt::While { condition, body } => loads_expr(condition) + loads_stmts(body@),
        MirStmt::Match { value, arms } => loads_expr(value) + loads_arms(arms@),
        MirStmt::Return(Some(e)) => loads_expr(e),
        MirStmt::Return(None) => 0,
        MirStmt::Drop(e) => loads_expr(e),
    }
}

pub open spec fn loads_stmts(ss: Seq<MirStmt>) -> nat
    decreases ss,
{
    if ss.len() == 0 {
        0
    } else {
        loads_stmts(ss.drop_last()) + loads_stmt(ss.last())
    }
}

pub open spec fn loads_arms(arms: Seq<MirMatchArm>) -> nat
    decreases arms,
{
    if arms.len() == 0 {
        0
    } else {
        loads_arms(arms.drop_last()) + loads_stmts(arms.last().body@)
    }
}

// ---------------------------------------------------------------------------
// Liveness
// ---------------------------------------------------------------------------

/// The names read by an expression.
pub open spec fn names_expr(e: MirExpr) -> Set<Seq<char>>
    decreases e,
{
    match e {
        MirExpr::Load(n) => set![n@],
        MirExpr::Binary { left, right, .. } | MirExpr::Index { base: left, index: right } => names_expr(*left).union(names_expr(*right)),
        MirExpr::Unary { expr, .. } | MirExpr::FieldAccess { base: expr, .. } => names_expr(*expr),
        MirExpr::Call { args, .. } | MirExpr::ArrayLiteral { elements: args } => names_exprs(args@),
        MirExpr::EnumVariant { payload: Some(p), .. } => names_expr(*p),
        _ => Set::empty(),
    }
}

pub open spec fn names_exprs(es: Seq<MirExpr>) -> Set<Seq<char>>
    decreases es,
{
    if es.len() == 0 {
        Set::empty()
    } else {
        names_exprs(es.drop_last()).union(names_expr(es.last()))
    }
}

/// The names a statement reads or stores to.
pub open spec fn names_stmt(s: MirStmt) -> Set<Seq<char>>
    decreases s,
{
    match s {
        MirStmt::Local { value, .. } => names_expr(value),
        MirStmt::Store { place: MirPlace::Local(n), value } => names_expr(value).insert(n@),
        MirStmt::If { condition, then_body, else_body } => names_expr(condition).union(
            names_stmts(then_body@),
        ).union(names_stmts(else_body@)),
        MirStmt::While { condition, body } => names_expr(condition).union(names_stmts(body@)),
        MirStmt::Match { value, arms } => names_expr(value).union(names_arms(arms@)),
        MirStmt::Return(Some(e)) => names_expr(e),
        MirStmt::Return(None) => Set::empty(),
        MirStmt::Drop(e) => names_expr(e),
    }
}

pub open spec fn names_stmts(ss: Seq<MirStmt>) -> Set<Seq<char>>
    decreases ss,
{
    if ss.len() == 0 {
        Set::empty()
    } else {
        names_stmts(ss.drop_last()).union(names_stmt(ss.last()))
    }
}

pub open spec fn names_arms(arms: Seq<MirMatchArm>) -> Set<Seq<char>>
    decreases arms,
{
    if arms.len() == 0 {
        Set::empty()
    } else {
        names_arms(arms.drop_last()).union(names_stmts(arms.last().body@))
    }
}

/// The names live before an expression, given those live after it.
pub open spec fn live_expr(e: MirExpr, out: Set<Seq<char>>) -> Set<Seq<char>>
    decreases e,
{
    match e {
        MirExpr::Load(n) => out.insert(n@),
        MirExpr::Binary { left, right, .. } | MirExpr::Index { base: left, index: right } => live_expr(*left, live_expr(*right, out)),
        MirExpr::Unary { expr, .. } | MirExpr::FieldAccess { base: expr, .. } => live_expr(*expr, out),
        MirExpr::Call { args, .. } | MirExpr::ArrayLiteral { elements: args } => live_exprs(args@, out),
        MirExpr::EnumVariant { payload: Some(p), .. } => live_expr(*p, out),
        _ => out,
    }
}

/// The names live before a list of expressions evaluated in order.
pub open spec fn live_exprs(es: Seq<MirExpr>, out: Set<Seq<char>>) -> Set<Seq<char>>
    decreases es,
{
    if es.len() == 0 {
        out
    } else {
        live_exprs(es.drop_last(), live_expr(es.last(), out))
    }
}

/// How many rounds a loop's fixpoint may take: one more than the number of
/// names the loop mentions, since every round but the last adds one.
pub open spec fn loop_fuel(condition: MirExpr, body: Seq<MirStmt>) -> nat {
    names_expr(condition).union(names_stmts(body)).len() + 1
}

/// The names live before a statement, given those live after it.
pub open spec fn live_stmt(s: MirStmt, out: Set<Seq<char>>) -> Set<Seq<char>>
    decreases mstmt_size(s), 1nat, 0nat,
{
    match s {
        MirStmt::Local { name, value, .. } => live_expr(value, out.remove(name@)),
        MirStmt::Store { place: MirPlace::Local(n), value } => live_expr(value, out.insert(n@)),
        MirStmt::If { condition, then_body, else_body } => live_expr(
            condition,
            live_stmts(then_body@, out).union(live_stmts(else_body@, out)),
        ),
        MirStmt::While { condition, body } => live_expr(
            condition,
            loop_fix(condition, body@, out, out, loop_fuel(condition, body@)),
        ),
        MirStmt::Match { value, arms } => live_expr(value, live_arms(arms@, out)),
        MirStmt::Return(Some(e)) => live_expr(e, Set::empty()),
        MirStmt::Return(None) => Set::empty(),
        MirStmt::Drop(e) => live_expr(e, out),
    }
}

/// The names live before a list of statements.
pub open spec fn live_stmts(ss: Seq<MirStmt>, out: Set<Seq<char>>) -> Set<Seq<char>>
    decreases mstmts_size(ss), 2nat, 0nat,
{
    if ss.len() == 0 {
        out
    } else {
        proof {
            lemma_mstmt_size_positive(ss.last());
        }
        live_stmts(ss.drop_last(), live_stmt(ss.last(), out))
    }
}

pub proof fn lemma_mstmt_size_positive(s: MirStmt)
    ensures
        mstmt_size(s) >= 1,
{
}

/// The names live at the start of any of the arms.
pub open spec fn live_arms(arms: Seq<MirMatchArm>, out: Set<Seq<char>>) -> Set<Seq<char>>
    decreases marms_size(arms), 2nat, 0nat,
{
    if arms.len() == 0 {
        Set::empty()
    } else {
        live_arms(arms.drop_last(), out).union(live_stmts(arms.last().body@, out))
    }
}

/// The live set at the end of a loop's body: starting from `lbo`, add what is
/// live before the condition until that adds nothing.
pub open spec fn loop_fix(
    condition: MirExpr,
    body: Seq<MirStmt>,
    out: Set<Seq<char>>,
    lbo: Set<Seq<char>>,
    fuel: nat,
) -> Set<Seq<char>>
    decreases mstmts_size(body) + 1, 0nat, fuel,
{
    if fuel == 0 {
        lbo
    } else {
        let top = live_expr(condition, live_stmts(body, lbo).union(out));
        if top.subset_of(lbo) {
            lbo
        } else {
            loop_fix(condition, body, out, lbo.union(top), (fuel - 1) as nat)
        }
    }
}

// ---------------------------------------------------------------------------
// Moves
// ---------------------------------------------------------------------------

/// The reads of an expression that may move, as (read number, name) pairs:
/// a read in a consuming position, of a name not live after it and not
/// blacklisted, while moves are being recorded. `base` is the number of the
/// expression's first read.
pub open spec fn moves_expr(
    e: MirExpr,
    out: Set<Seq<char>>,
    consuming: bool,
    record: bool,
    bl: Set<Seq<char>>,
    base: int,
) -> Set<(int, Seq<char>)>
    decreases e,
{
    match e {
        MirExpr::Load(n) => if record && consuming && !out.contains(n@) && !bl.contains(n@) {
            set![(base, n@)]
        } else {
            Set::empty()
        },
        MirExpr::Binary { left, right, .. } | MirExpr::Index { base: left, index: right } => moves_expr(
            *left,
            live_expr(*right, out),
            false,
            record,
            bl,
            base,
        ).union(moves_expr(*right, out, false, record, bl, base + loads_expr(*left))),
        MirExpr::Unary { expr, .. } | MirExpr::FieldAccess { base: expr, .. } => moves_expr(*expr, out, false, record, bl, base),
        MirExpr::Call { args, .. } | MirExpr::ArrayLiteral { elements: args } => moves_exprs(args@, out, record, bl, base),
        MirExpr::EnumVariant { payload: Some(p), .. } => moves_expr(*p, out, true, record, bl, base),
        _ => Set::empty(),
    }
}

/// The reads of a list of arguments that may move.
pub open spec fn moves_exprs(
    es: Seq<MirExpr>,
    out: Set<Seq<char>>,
    record: bool,
    bl: Set<Seq<char>>,
    base: int,
) -> Set<(int, Seq<char>)>
    decreases es,
{
    if es.len() == 0 {
        Set::empty()
    } else {
        moves_exprs(es.drop_last(), live_expr(es.last(), out), record, bl, base).union(
            moves_expr(es.last(), out, true, record, bl, base + loads_exprs(es.drop_last())),
        )
    }
}

/// The reads of a statement that may move.
pub open spec fn moves_stmt(
    s: MirStmt,
    out: Set<Seq<char>>,
    record: bool,
    bl: Set<Seq<char>>,
    base: int,
) -> Set<(int, Seq<char>)>
    decreases s,
{
    match s {
        MirStmt::Local { name, value, .. } => moves_expr(value, out.remove(name@), true, record, bl, base),
        MirStmt::Store { place: MirPlace::Local(n), value } => moves_expr(
            value,
            out.insert(n@),
            true,
            record,
            bl,
            base,
        ),
        MirStmt::If { condition, then_body, else_body } => moves_expr(
            condition,
            live_stmts(then_body@, out).union(live_stmts(else_body@, out)),
            false,
            record,
            bl,
            base,
        ).union(moves_stmts(then_body@, out, record, bl, base + loads_expr(condition))).union(
            moves_stmts(else_body@, out, record, bl, base + loads_expr(condition) + loads_stmts(then_body@)),
        ),
        MirStmt::While { condition, body } => moves_stmts(
            body@,
            loop_fix(condition, body@, out, out, loop_fuel(condition, body@)),
            record,
            bl,
            base + loads_expr(condition),
        ),
        MirStmt::Match { .. } => Set::empty(),
        MirStmt::Return(Some(e)) => moves_expr(e, Set::empty(), true, record, bl, base),
        MirStmt::Return(None) => Set::empty(),
        MirStmt::Drop(e) => moves_expr(e, out, false, record, bl, base),
    }
}

/// The reads of a list of statements that may move.
pub open spec fn moves_stmts(
    ss: Seq<MirStmt>,
    out: Set<Seq<char>>,
    record: bool,
    bl: Set<Seq<char>>,
    base: int,
) -> Set<(int, Seq<char>)>
    decreases ss,
{
    if ss.len() == 0 {
        Set::empty()
    } else {
        moves_stmts(ss.drop_last(), live_stmt(ss.last(), out), record, bl, base).union(
            moves_stmt(ss.last(), out, record, bl, base + loads_stmts(ss.drop_last())),
        )
    }
}

// ---------------------------------------------------------------------------
// The blacklist
// ---------------------------------------------------------------------------

/// The names a statement defines with `let`, in order.
pub open spec fn defs_stmt(s: MirStmt) -> Seq<Seq<char>>
    decreases s,
{
    match s {
        MirStmt::Local { name, .. } => seq![name@],
        MirStmt::If { then_body, else_body, .. } => defs_stmts(then_body@) + defs_stmts(else_body@),
        MirStmt::While { body, .. } => defs_stmts(body@),
        MirStmt::Match { arms, .. } => defs_arms(arms@),
        _ => Seq::empty(),
    }
}

pub open spec fn defs_stmts(ss: Seq<MirStmt>) -> Seq<Seq<char>>
    decreases ss,
{
    if ss.len() == 0 {
        Seq::empty()
    } else {
        defs_stmts(ss.drop_last()) + defs_stmt(ss.last())
    }
}

pub open spec fn defs_arms(arms: Seq<MirMatchArm>) -> Seq<Seq<char>>
    decreases arms,
{
    if arms.len() == 0 {
        Seq::empty()
    } else {
        defs_arms(arms.drop_last()) + defs_stmts(arms.last().body@)
    }
}

/// The name a `match` pattern binds, if any.
pub open spec fn pattern_binds(p: MirPattern) -> Set<Seq<char>> {
    match p {
        MirPattern::Variant { binding: Some(b), .. } => set![b@],
        MirPattern::Name(b) => set![b@],
        _ => Set::empty(),
    }
}

/// The names `match` patterns bind within a statement.
pub open spec fn bound_stmt(s: MirStmt) -> Set<Seq<char>>
    decreases s,
{
    match s {
        MirStmt::If { then_body, else_body, .. } => bound_stmts(then_body@).union(bound_stmts(else_body@)),
        MirStmt::While { body, .. } => bound_stmts(body@),
        MirStmt::Match { arms, .. } => bound_arms(arms@),
        _ => Set::empty(),
    }
}

pub open spec fn bound_stmts(ss: Seq<MirStmt>) -> Set<Seq<char>>
    decreases ss,
{
    if ss.len() == 0 {
        Set::empty()
    } else {
        bound_stmts(ss.drop_last()).union(bound_stmt(ss.last()))
    }
}

pub open spec fn bound_arms(arms: Seq<MirMatchArm>) -> Set<Seq<char>>
    decreases arms,
{
    if arms.len() == 0 {
        Set::empty()
    } else {
        bound_arms(arms.drop_last()).union(pattern_binds(arms.last().pattern)).union(
            bound_stmts(arms.last().body@),
        )
    }
}

/// How often `n` occurs in `s`.
pub open spec fn occurrences(s: Seq<Seq<char>>, n: Seq<char>) -> nat
    decreases s.len(),
{
    if s.len() == 0 {
        0
    } else {
        occurrences(s.drop_last(), n) + if s.last() == n { 1nat } else { 0nat }
    }
}

/// The names of parameters.
pub open spec fn param_names(ps: Seq<Param>) -> Seq<Seq<char>> {
    ps.map_values(|p: Param| p.name@)
}

/// The names a function defines: its parameters, then its `let`s.
pub open spec fn definitions(f: MirFunction) -> Seq<Seq<char>> {
    param_names(f.params@) + defs_stmts(f.body@)
}

/// The names of a function that are never moved: those defined more than
/// once, and those a `match` pattern binds.
pub open spec fn blacklist(f: MirFunction) -> Set<Seq<char>> {
    Set::new(|n: Seq<char>| occurrences(definitions(f), n) > 1 || bound_stmts(f.body@).contains(n))
}

/// The moves the analysis permits in a function, as (read number, name) pairs.
pub open spec fn planned_moves(f: MirFunction) -> Set<(int, Seq<char>)> {
    moves_stmts(f.body@, Set::empty(), true, blacklist(f), 0)
}


// ---------------------------------------------------------------------------
// Facts about liveness
// ---------------------------------------------------------------------------

pub proof fn lemma_names_expr_finite(e: MirExpr)
    ensures
        names_expr(e).finite(),
    decreases e,
{
    match e {
        MirExpr::Binary { left, right, .. } | MirExpr::Index { base: left, index: right } => {
            lemma_names_expr_finite(*left);
            lemma_names_expr_finite(*right);
        },
        MirExpr::Unary { expr, .. } | MirExpr::FieldAccess { base: expr, .. } => lemma_names_expr_finite(*expr),
        MirExpr::Call { args, .. } | MirExpr::ArrayLiteral { elements: args } => lemma_names_exprs_finite(args@),
        MirExpr::EnumVariant { payload: Some(p), .. } => lemma_names_expr_finite(*p),
        _ => {},
    }
}

pub proof fn lemma_names_exprs_finite(es: Seq<MirExpr>)
    ensures
        names_exprs(es).finite(),
    decreases es,
{
    if es.len() > 0 {
        lemma_names_exprs_finite(es.drop_last());
        lemma_names_expr_finite(es.last());
    }
}

pub proof fn lemma_names_stmt_finite(s: MirStmt)
    ensures
        names_stmt(s).finite(),
    decreases s,
{
    match s {
        MirStmt::Local { value, .. } => lemma_names_expr_finite(value),
        MirStmt::Store { value, .. } => lemma_names_expr_finite(value),
        MirStmt::If { condition, then_body, else_body } => {
            lemma_names_expr_finite(condition);
            lemma_names_stmts_finite(then_body@);
            lemma_names_stmts_finite(else_body@);
        },
        MirStmt::While { condition, body } => {
            lemma_names_expr_finite(condition);
            lemma_names_stmts_finite(body@);
        },
        MirStmt::Match { value, arms } => {
            lemma_names_expr_finite(value);
            lemma_names_arms_finite(arms@);
        },
        MirStmt::Return(Some(e)) => lemma_names_expr_finite(e),
        MirStmt::Return(None) => {},
        MirStmt::Drop(e) => lemma_names_expr_finite(e),
    }
}

pub proof fn lemma_names_stmts_finite(ss: Seq<MirStmt>)
    ensures
        names_stmts(ss).finite(),
    decreases ss,
{
    if ss.len() > 0 {
        lemma_names_stmts_finite(ss.drop_last());
        lemma_names_stmt_finite(ss.last());
    }
}

pub proof fn lemma_names_arms_finite(arms: Seq<MirMatchArm>)
    ensures
        names_arms(arms).finite(),
    decreases arms,
{
    if arms.len() > 0 {
        lemma_names_arms_finite(arms.drop_last());
        lemma_names_stmts_finite(arms.last().body@);
    }
}

/// What is live before an expression was live after it or is read by it.
pub proof fn lemma_live_expr_bound(e: MirExpr, out: Set<Seq<char>>)
    ensures
        live_expr(e, out).subset_of(out.union(names_expr(e))),
        out.subset_of(live_expr(e, out)),
    decreases e,
{
    match e {
        MirExpr::Binary { left, right, .. } | MirExpr::Index { base: left, index: right } => {
            lemma_live_expr_bound(*right, out);
            lemma_live_expr_bound(*left, live_expr(*right, out));
        },
        MirExpr::Unary { expr, .. } | MirExpr::FieldAccess { base: expr, .. } => lemma_live_expr_bound(*expr, out),
        MirExpr::Call { args, .. } | MirExpr::ArrayLiteral { elements: args } => lemma_live_exprs_bound(args@, out),
        MirExpr::EnumVariant { payload: Some(p), .. } => lemma_live_expr_bound(*p, out),
        _ => {},
    }
}

pub proof fn lemma_live_exprs_bound(es: Seq<MirExpr>, out: Set<Seq<char>>)
    ensures
        live_exprs(es, out).subset_of(out.union(names_exprs(es))),
        out.subset_of(live_exprs(es, out)),
    decreases es,
{
    if es.len() > 0 {
        lemma_live_expr_bound(es.last(), out);
        lemma_live_exprs_bound(es.drop_last(), live_expr(es.last(), out));
    }
}

/// What is live before a statement was live after it or is named by it.
pub proof fn lemma_live_stmt_bound(s: MirStmt, out: Set<Seq<char>>)
    ensures
        live_stmt(s, out).subset_of(out.union(names_stmt(s))),
    decreases mstmt_size(s), 1nat, 0nat,
{
    match s {
        MirStmt::Local { name, value, .. } => lemma_live_expr_bound(value, out.remove(name@)),
        MirStmt::Store { place: MirPlace::Local(n), value } => lemma_live_expr_bound(value, out.insert(n@)),
        MirStmt::If { condition, then_body, else_body } => {
            lemma_live_stmts_bound(then_body@, out);
            lemma_live_stmts_bound(else_body@, out);
            lemma_live_expr_bound(condition, live_stmts(then_body@, out).union(live_stmts(else_body@, out)));
        },
        MirStmt::While { condition, body } => {
            let f = loop_fuel(condition, body@);
            lemma_loop_fix_bound(condition, body@, out, out, f);
            lemma_live_expr_bound(condition, loop_fix(condition, body@, out, out, f));
        },
        MirStmt::Match { value, arms } => {
            lemma_live_arms_bound(arms@, out);
            lemma_live_expr_bound(value, live_arms(arms@, out));
        },
        MirStmt::Return(Some(e)) => lemma_live_expr_bound(e, Set::empty()),
        MirStmt::Return(None) => {},
        MirStmt::Drop(e) => lemma_live_expr_bound(e, out),
    }
}

pub proof fn lemma_live_stmts_bound(ss: Seq<MirStmt>, out: Set<Seq<char>>)
    ensures
        live_stmts(ss, out).subset_of(out.union(names_stmts(ss))),
    decreases mstmts_size(ss), 2nat, 0nat,
{
    if ss.len() > 0 {
        lemma_mstmt_size_positive(ss.last());
        lemma_live_stmt_bound(ss.last(), out);
        lemma_live_stmts_bound(ss.drop_last(), live_stmt(ss.last(), out));
    }
}

pub proof fn lemma_live_arms_bound(arms: Seq<MirMatchArm>, out: Set<Seq<char>>)
    ensures
        live_arms(arms, out).subset_of(out.union(names_arms(arms))),
    decreases marms_size(arms), 2nat, 0nat,
{
    if arms.len() > 0 {
        lemma_live_arms_bound(arms.drop_last(), out);
        lemma_live_stmts_bound(arms.last().body@, out);
    }
}

/// A round of a loop's fixpoint adds only names the loop mentions or that
/// are live after it.
pub proof fn lemma_loop_top_bound(
    condition: MirExpr,
    body: Seq<MirStmt>,
    out: Set<Seq<char>>,
    lbo: Set<Seq<char>>,
)
    ensures
        live_expr(condition, live_stmts(body, lbo).union(out)).subset_of(
            lbo.union(out).union(names_expr(condition).union(names_stmts(body))),
        ),
    decreases mstmts_size(body) + 1, 0nat, 0nat,
{
    lemma_live_stmts_bound(body, lbo);
    lemma_live_expr_bound(condition, live_stmts(body, lbo).union(out));
}

pub proof fn lemma_loop_fix_bound(
    condition: MirExpr,
    body: Seq<MirStmt>,
    out: Set<Seq<char>>,
    lbo: Set<Seq<char>>,
    fuel: nat,
)
    ensures
        loop_fix(condition, body, out, lbo, fuel).subset_of(
            lbo.union(out).union(names_expr(condition).union(names_stmts(body))),
        ),
        lbo.subset_of(loop_fix(condition, body, out, lbo, fuel)),
    decreases mstmts_size(body) + 1, 0nat, fuel,
{
    if fuel > 0 {
        let top = live_expr(condition, live_stmts(body, lbo).union(out));
        if !top.subset_of(lbo) {
            lemma_loop_top_bound(condition, body, out, lbo);
            lemma_loop_fix_bound(condition, body, out, lbo.union(top), (fuel - 1) as nat);
        }
    }
}

// ---------------------------------------------------------------------------
// Facts about moves
// ---------------------------------------------------------------------------

/// Nothing moves while moves are not being recorded.
pub proof fn lemma_moves_expr_unrecorded(
    e: MirExpr,
    out: Set<Seq<char>>,
    consuming: bool,
    bl: Set<Seq<char>>,
    base: int,
)
    ensures
        moves_expr(e, out, consuming, false, bl, base) == Set::<(int, Seq<char>)>::empty(),
    decreases e,
{
    match e {
        MirExpr::Binary { left, right, .. } | MirExpr::Index { base: left, index: right } => {
            lemma_moves_expr_unrecorded(*left, live_expr(*right, out), false, bl, base);
            lemma_moves_expr_unrecorded(*right, out, false, bl, base + loads_expr(*left));
            assert(moves_expr(e, out, consuming, false, bl, base) =~= Set::<(int, Seq<char>)>::empty());
        },
        MirExpr::Unary { expr, .. } | MirExpr::FieldAccess { base: expr, .. } => {
            lemma_moves_expr_unrecorded(*expr, out, false, bl, base);
            assert(moves_expr(e, out, consuming, false, bl, base) =~= Set::<(int, Seq<char>)>::empty());
        },
        MirExpr::Call { args, .. } | MirExpr::ArrayLiteral { elements: args } => lemma_moves_exprs_unrecorded(args@, out, bl, base),
        MirExpr::EnumVariant { payload: Some(p), .. } => lemma_moves_expr_unrecorded(*p, out, true, bl, base),
        _ => {},
    }
}

pub proof fn lemma_moves_exprs_unrecorded(es: Seq<MirExpr>, out: Set<Seq<char>>, bl: Set<Seq<char>>, base: int)
    ensures
        moves_exprs(es, out, false, bl, base) == Set::<(int, Seq<char>)>::empty(),
    decreases es,
{
    if es.len() > 0 {
        lemma_moves_exprs_unrecorded(es.drop_last(), live_expr(es.last(), out), bl, base);
        lemma_moves_expr_unrecorded(es.last(), out, true, bl, base + loads_exprs(es.drop_last()));
        assert(moves_exprs(es, out, false, bl, base) =~= Set::<(int, Seq<char>)>::empty());
    }
}

pub proof fn lemma_moves_stmt_unrecorded(s: MirStmt, out: Set<Seq<char>>, bl: Set<Seq<char>>, base: int)
    ensures
        moves_stmt(s, out, false, bl, base) == Set::<(int, Seq<char>)>::empty(),
    decreases s,
{
    match s {
        MirStmt::Local { name, value, .. } => lemma_moves_expr_unrecorded(value, out.remove(name@), true, bl, base),
        MirStmt::Store { place: MirPlace::Local(n), value } => lemma_moves_expr_unrecorded(
            value,
            out.insert(n@),
            true,
            bl,
            base,
        ),
        MirStmt::If { condition, then_body, else_body } => {
            lemma_moves_expr_unrecorded(
                condition,
                live_stmts(then_body@, out).union(live_stmts(else_body@, out)),
                false,
                bl,
                base,
            );
            lemma_moves_stmts_unrecorded(then_body@, out, bl, base + loads_expr(condition));
            lemma_moves_stmts_unrecorded(
                else_body@,
                out,
                bl,
                base + loads_expr(condition) + loads_stmts(then_body@),
            );
            assert(moves_stmt(s, out, false, bl, base) =~= Set::<(int, Seq<char>)>::empty());
        },
        MirStmt::While { condition, body } => lemma_moves_stmts_unrecorded(
            body@,
            loop_fix(condition, body@, out, out, loop_fuel(condition, body@)),
            bl,
            base + loads_expr(condition),
        ),
        MirStmt::Match { .. } => {},
        MirStmt::Return(Some(e)) => lemma_moves_expr_unrecorded(e, Set::empty(), true, bl, base),
        MirStmt::Return(None) => {},
        MirStmt::Drop(e) => lemma_moves_expr_unrecorded(e, out, false, bl, base),
    }
}

pub proof fn lemma_moves_stmts_unrecorded(ss: Seq<MirStmt>, out: Set<Seq<char>>, bl: Set<Seq<char>>, base: int)
    ensures
        moves_stmts(ss, out, false, bl, base) == Set::<(int, Seq<char>)>::empty(),
    decreases ss,
{
    if ss.len() > 0 {
        lemma_moves_stmts_unrecorded(ss.drop_last(), live_stmt(ss.last(), out), bl, base);
        lemma_moves_stmt_unrecorded(ss.last(), out, bl, base + loads_stmts(ss.drop_last()));
        assert(moves_stmts(ss, out, false, bl, base) =~= Set::<(int, Seq<char>)>::empty());
    }
}


// ---------------------------------------------------------------------------
// Sets of names held in vectors
// ---------------------------------------------------------------------------

/// The names a vector of strings holds.
pub open spec fn name_set(v: Seq<String>) -> Set<Seq<char>> {
    strings_view(v).to_set()
}

fn set_insert(v: &mut Vec<String>, n: &str)
    ensures
        name_set(final(v)@) == name_set(old(v)@).insert(n@),
{
    if !contains_str(v, n) {
        v.push(copy_string(n));
        assert(strings_view(final(v)@) =~= strings_view(old(v)@).push(n@));
        proof {
            strings_view(old(v)@).lemma_push_to_set_commute(n@);
        }
    }
    assert(name_set(final(v)@) =~= name_set(old(v)@).insert(n@));
}

fn set_remove(v: &Vec<String>, n: &str) -> (r: Vec<String>)
    ensures
        name_set(r@) == name_set(v@).remove(n@),
{
    let mut r: Vec<String> = Vec::new();
    let mut i: usize = 0;
    while i < v.len()
        invariant
            i <= v@.len(),
            name_set(r@) == name_set(v@.subrange(0, i as int)).remove(n@),
        decreases v.len() - i,
    {
        let ghost prev = r@;
        if !str_equal(v[i].as_str(), n) {
            r.push(copy_string(v[i].as_str()));
            assert(strings_view(r@) =~= strings_view(prev).push(v@[i as int]@));
            proof {
                strings_view(prev).lemma_push_to_set_commute(v@[i as int]@);
            }
        }
        assert(strings_view(v@.subrange(0, i as int + 1)) =~= strings_view(v@.subrange(0, i as int)).push(
            v@[i as int]@,
        ));
        proof {
            strings_view(v@.subrange(0, i as int)).lemma_push_to_set_commute(v@[i as int]@);
        }
        assert(name_set(r@) =~= name_set(v@.subrange(0, i as int + 1)).remove(n@));
        i = i + 1;
    }
    assert(v@.subrange(0, v@.len() as int) =~= v@);
    r
}

fn set_union(a: &mut Vec<String>, b: &Vec<String>)
    ensures
        name_set(final(a)@) == name_set(old(a)@).union(name_set(b@)),
{
    let mut i: usize = 0;
    while i < b.len()
        invariant
            i <= b@.len(),
            name_set(a@) == name_set(old(a)@).union(name_set(b@.subrange(0, i as int))),
        decreases b.len() - i,
    {
        set_insert(a, b[i].as_str());
        assert(strings_view(b@.subrange(0, i as int + 1)) =~= strings_view(b@.subrange(0, i as int)).push(
            b@[i as int]@,
        ));
        proof {
            strings_view(b@.subrange(0, i as int)).lemma_push_to_set_commute(b@[i as int]@);
        }
        assert(name_set(a@) =~= name_set(old(a)@).union(name_set(b@.subrange(0, i as int + 1))));
        i = i + 1;
    }
    assert(b@.subrange(0, b@.len() as int) =~= b@);
}

fn set_subset(a: &Vec<String>, b: &Vec<String>) -> (r: bool)
    ensures
        r == name_set(a@).subset_of(name_set(b@)),
{
    let mut i: usize = 0;
    while i < a.len()
        invariant
            i <= a@.len(),
            forall|k: int| 0 <= k < i ==> name_set(b@).contains(#[trigger] strings_view(a@)[k]),
        decreases a.len() - i,
    {
        if !contains_str(b, a[i].as_str()) {
            assert(name_set(a@).contains(strings_view(a@)[i as int]));
            return false;
        }
        i = i + 1;
    }
    assert forall|x: Seq<char>| name_set(a@).contains(x) implies name_set(b@).contains(x) by {
        let k = choose|k: int| 0 <= k < strings_view(a@).len() && strings_view(a@)[k] == x;
    }
    true
}

fn set_copy(v: &Vec<String>) -> (r: Vec<String>)
    ensures
        name_set(r@) == name_set(v@),
{
    copy_strings(v)
}

// ---------------------------------------------------------------------------
// Counting reads
// ---------------------------------------------------------------------------

fn count_loads_expr(e: &MirExpr) -> (n: usize)
    requires
        loads_expr(*e) <= usize::MAX,
    ensures
        n == loads_expr(*e),
    decreases mexpr_size(*e),
{
    match e {
        MirExpr::Load(_) => 1,
        MirExpr::Binary { left, right, .. } | MirExpr::Index { base: left, index: right } => count_loads_expr(left) + count_loads_expr(right),
        MirExpr::Unary { expr: operand, .. } | MirExpr::FieldAccess { base: operand, .. } => count_loads_expr(operand),
        MirExpr::Call { args, .. } | MirExpr::ArrayLiteral { elements: args } => {
            let mut n: usize = 0;
            let mut i: usize = 0;
            while i < args.len()
                invariant
                    i <= args@.len(),
                    loads_exprs(args@) <= usize::MAX,
                    n == loads_exprs(args@.subrange(0, i as int)),
                    mexprs_size(args@) < mexpr_size(*e),
                decreases args.len() - i,
            {
                proof {
                    lemma_mexprs_size_elem(args@, i as int);
                    lemma_loads_exprs_prefix(args@, i as int + 1);
                    assert(args@.subrange(0, i as int + 1).drop_last() =~= args@.subrange(0, i as int));
                }
                n = n + count_loads_expr(&args[i]);
                i = i + 1;
            }
            assert(args@.subrange(0, args@.len() as int) =~= args@);
            n
        },
        MirExpr::EnumVariant { payload: Some(p), .. } => count_loads_expr(p),
        _ => 0,
    }
}

pub proof fn lemma_loads_exprs_prefix(es: Seq<MirExpr>, i: int)
    requires
        0 <= i <= es.len(),
    ensures
        loads_exprs(es.subrange(0, i)) <= loads_exprs(es),
    decreases es.len() - i,
{
    if i < es.len() {
        lemma_loads_exprs_prefix(es, i + 1);
        assert(es.subrange(0, i + 1).drop_last() =~= es.subrange(0, i));
    } else {
        assert(es.subrange(0, i) =~= es);
    }
}

pub proof fn lemma_loads_stmts_prefix(ss: Seq<MirStmt>, i: int)
    requires
        0 <= i <= ss.len(),
    ensures
        loads_stmts(ss.subrange(0, i)) <= loads_stmts(ss),
    decreases ss.len() - i,
{
    if i < ss.len() {
        lemma_loads_stmts_prefix(ss, i + 1);
        assert(ss.subrange(0, i + 1).drop_last() =~= ss.subrange(0, i));
    } else {
        assert(ss.subrange(0, i) =~= ss);
    }
}

pub proof fn lemma_loads_arms_prefix(arms: Seq<MirMatchArm>, i: int)
    requires
        0 <= i <= arms.len(),
    ensures
        loads_arms(arms.subrange(0, i)) <= loads_arms(arms),
    decreases arms.len() - i,
{
    if i < arms.len() {
        lemma_loads_arms_prefix(arms, i + 1);
        assert(arms.subrange(0, i + 1).drop_last() =~= arms.subrange(0, i));
    } else {
        assert(arms.subrange(0, i) =~= arms);
    }
}

fn count_loads_stmt(s: &MirStmt) -> (n: usize)
    requires
        loads_stmt(*s) <= usize::MAX,
    ensures
        n == loads_stmt(*s),
    decreases mstmt_size(*s), 0nat,
{
    match s {
        MirStmt::Local { value, .. } => count_loads_expr(value),
        MirStmt::Store { value, .. } => count_loads_expr(value),
        MirStmt::If { condition, then_body, else_body } => count_loads_expr(condition) + count_loads_stmts(
            then_body,
        ) + count_loads_stmts(else_body),
        MirStmt::While { condition, body } => count_loads_expr(condition) + count_loads_stmts(body),
        MirStmt::Match { value, arms } => {
            let mut n: usize = count_loads_expr(value);
            let mut i: usize = 0;
            while i < arms.len()
                invariant
                    i <= arms@.len(),
                    loads_expr(*value) + loads_arms(arms@) <= usize::MAX,
                    n == loads_expr(*value) + loads_arms(arms@.subrange(0, i as int)),
                    marms_size(arms@) < mstmt_size(*s),
                decreases arms.len() - i,
            {
                proof {
                    lemma_marms_size_elem(arms@, i as int);
                    lemma_loads_arms_prefix(arms@, i as int + 1);
                    assert(arms@.subrange(0, i as int + 1).drop_last() =~= arms@.subrange(0, i as int));
                    assert(arms@.subrange(0, i as int + 1).last() == arms@[i as int]);
                }
                n = n + count_loads_stmts(&arms[i].body);
                i = i + 1;
            }
            assert(arms@.subrange(0, arms@.len() as int) =~= arms@);
            n
        },
        MirStmt::Return(Some(e)) => count_loads_expr(e),
        MirStmt::Return(None) => 0,
        MirStmt::Drop(e) => count_loads_expr(e),
    }
}

fn count_loads_stmts(ss: &Vec<MirStmt>) -> (n: usize)
    requires
        loads_stmts(ss@) <= usize::MAX,
    ensures
        n == loads_stmts(ss@),
    decreases mstmts_size(ss@), 1nat,
{
    let mut n: usize = 0;
    let mut i: usize = 0;
    while i < ss.len()
        invariant
            i <= ss@.len(),
            loads_stmts(ss@) <= usize::MAX,
            n == loads_stmts(ss@.subrange(0, i as int)),
        decreases ss.len() - i,
    {
        proof {
            lemma_mstmts_size_elem(ss@, i as int);
            lemma_loads_stmts_prefix(ss@, i as int + 1);
            assert(ss@.subrange(0, i as int + 1).drop_last() =~= ss@.subrange(0, i as int));
        }
        n = n + count_loads_stmt(&ss[i]);
        i = i + 1;
    }
    assert(ss@.subrange(0, ss@.len() as int) =~= ss@);
    n
}


// ---------------------------------------------------------------------------
// Collecting definitions and pattern bindings
// ---------------------------------------------------------------------------

fn collect_defs_stmt(s: &MirStmt, out: &mut Vec<String>)
    ensures
        strings_view(final(out)@) == strings_view(old(out)@) + defs_stmt(*s),
    decreases mstmt_size(*s), 0nat,
{
    match s {
        MirStmt::Local { name, .. } => {
            out.push(copy_string(name.as_str()));
            assert(strings_view(final(out)@) =~= strings_view(old(out)@) + defs_stmt(*s));
        },
        MirStmt::If { then_body, else_body, .. } => {
            collect_defs_stmts(then_body, out);
            collect_defs_stmts(else_body, out);
            assert(strings_view(final(out)@) =~= strings_view(old(out)@) + defs_stmt(*s));
        },
        MirStmt::While { body, .. } => {
            collect_defs_stmts(body, out);
        },
        MirStmt::Match { arms, .. } => {
            let mut i: usize = 0;
            while i < arms.len()
                invariant
                    i <= arms@.len(),
                    strings_view(out@) == strings_view(old(out)@) + defs_arms(arms@.subrange(0, i as int)),
                    marms_size(arms@) < mstmt_size(*s),
                decreases arms.len() - i,
            {
                proof {
                    lemma_marms_size_elem(arms@, i as int);
                }
                let ghost o = strings_view(out@);
                collect_defs_stmts(&arms[i].body, out);
                proof {
                    let sub = arms@.subrange(0, i as int + 1);
                    assert(sub.drop_last() =~= arms@.subrange(0, i as int));
                    assert(strings_view(out@) =~= strings_view(old(out)@) + defs_arms(sub));
                }
                i = i + 1;
            }
            assert(arms@.subrange(0, arms@.len() as int) =~= arms@);
        },
        _ => {
            assert(strings_view(final(out)@) =~= strings_view(old(out)@) + defs_stmt(*s));
        },
    }
}

fn collect_defs_stmts(ss: &Vec<MirStmt>, out: &mut Vec<String>)
    ensures
        strings_view(final(out)@) == strings_view(old(out)@) + defs_stmts(ss@),
    decreases mstmts_size(ss@), 1nat,
{
    let mut i: usize = 0;
    while i < ss.len()
        invariant
            i <= ss@.len(),
            strings_view(out@) == strings_view(old(out)@) + defs_stmts(ss@.subrange(0, i as int)),
        decreases ss.len() - i,
    {
        proof {
            lemma_mstmts_size_elem(ss@, i as int);
        }
        collect_defs_stmt(&ss[i], out);
        proof {
            let sub = ss@.subrange(0, i as int + 1);
            assert(sub.drop_last() =~= ss@.subrange(0, i as int));
            assert(strings_view(out@) =~= strings_view(old(out)@) + defs_stmts(sub));
        }
        i = i + 1;
    }
    assert(ss@.subrange(0, ss@.len() as int) =~= ss@);
}

fn collect_bound_stmt(s: &MirStmt, out: &mut Vec<String>)
    ensures
        name_set(final(out)@) == name_set(old(out)@).union(bound_stmt(*s)),
    decreases mstmt_size(*s), 0nat,
{
    match s {
        MirStmt::If { then_body, else_body, .. } => {
            collect_bound_stmts(then_body, out);
            collect_bound_stmts(else_body, out);
            assert(name_set(final(out)@) =~= name_set(old(out)@).union(bound_stmt(*s)));
        },
        MirStmt::While { body, .. } => {
            collect_bound_stmts(body, out);
        },
        MirStmt::Match { arms, .. } => {
            let mut i: usize = 0;
            while i < arms.len()
                invariant
                    i <= arms@.len(),
                    name_set(out@) == name_set(old(out)@).union(bound_arms(arms@.subrange(0, i as int))),
                    marms_size(arms@) < mstmt_size(*s),
                decreases arms.len() - i,
            {
                proof {
                    lemma_marms_size_elem(arms@, i as int);
                }
                match &arms[i].pattern {
                    MirPattern::Variant { binding: Some(b), .. } => set_insert(out, b.as_str()),
                    MirPattern::Name(b) => set_insert(out, b.as_str()),
                    _ => {},
                }
                collect_bound_stmts(&arms[i].body, out);
                proof {
                    let sub = arms@.subrange(0, i as int + 1);
                    assert(sub.drop_last() =~= arms@.subrange(0, i as int));
                    assert(name_set(out@) =~= name_set(old(out)@).union(bound_arms(sub)));
                }
                i = i + 1;
            }
            assert(arms@.subrange(0, arms@.len() as int) =~= arms@);
        },
        _ => {
            assert(name_set(final(out)@) =~= name_set(old(out)@).union(bound_stmt(*s)));
        },
    }
}

fn collect_bound_stmts(ss: &Vec<MirStmt>, out: &mut Vec<String>)
    ensures
        name_set(final(out)@) == name_set(old(out)@).union(bound_stmts(ss@)),
    decreases mstmts_size(ss@), 1nat,
{
    let mut i: usize = 0;
    assert(name_set(out@) =~= name_set(old(out)@).union(bound_stmts(ss@.subrange(0, 0))));
    while i < ss.len()
        invariant
            i <= ss@.len(),
            name_set(out@) == name_set(old(out)@).union(bound_stmts(ss@.subrange(0, i as int))),
        decreases ss.len() - i,
    {
        proof {
            lemma_mstmts_size_elem(ss@, i as int);
        }
        collect_bound_stmt(&ss[i], out);
        proof {
            let sub = ss@.subrange(0, i as int + 1);
            assert(sub.drop_last() =~= ss@.subrange(0, i as int));
            assert(name_set(out@) =~= name_set(old(out)@).union(bound_stmts(sub)));
        }
        i = i + 1;
    }
    assert(ss@.subrange(0, ss@.len() as int) =~= ss@);
}

fn defined_more_than_once(defs: &Vec<String>, n: &str) -> (b: bool)
    ensures
        b == (occurrences(strings_view(defs@), n@) > 1),
{
    let mut c: usize = 0;
    let mut i: usize = 0;
    while i < defs.len()
        invariant
            i <= defs@.len(),
            c <= 1,
            c == occurrences(strings_view(defs@.subrange(0, i as int)), n@),
        decreases defs.len() - i,
    {
        proof {
            assert(strings_view(defs@.subrange(0, i as int + 1)).drop_last() =~= strings_view(
                defs@.subrange(0, i as int),
            ));
        }
        if str_equal(defs[i].as_str(), n) {
            if c == 1 {
                proof {
                    lemma_occurrences_prefix(strings_view(defs@), n@, i as int + 1);
                    assert(strings_view(defs@.subrange(0, i as int + 1)) =~= strings_view(defs@).subrange(
                        0,
                        i as int + 1,
                    ));
                }
                return true;
            }
            c = c + 1;
        }
        i = i + 1;
    }
    assert(defs@.subrange(0, defs@.len() as int) =~= defs@);
    false
}

pub proof fn lemma_occurrences_prefix(s: Seq<Seq<char>>, n: Seq<char>, i: int)
    requires
        0 <= i <= s.len(),
    ensures
        occurrences(s.subrange(0, i), n) <= occurrences(s, n),
    decreases s.len() - i,
{
    if i < s.len() {
        lemma_occurrences_prefix(s, n, i + 1);
        assert(s.subrange(0, i + 1).drop_last() =~= s.subrange(0, i));
    } else {
        assert(s.subrange(0, i) =~= s);
    }
}


// ---------------------------------------------------------------------------
// The walk
// ---------------------------------------------------------------------------

/// The (read number, name) pairs that parallel vectors record.
pub open spec fn pairs_of(eligible: Seq<usize>, flagged: Seq<String>) -> Set<(int, Seq<char>)> {
    Set::new(
        |p: (int, Seq<char>)|
            exists|i: int| 0 <= i < eligible.len() && i < flagged.len() && eligible[i] == p.0 && flagged[i]@ == p.1,
    )
}

/// The state of the backward walk: the definitions and pattern bindings that
/// make up the blacklist, and the moves found so far.
struct Walker {
    defs: Vec<String>,
    bound: Vec<String>,
    eligible: Vec<usize>,
    flagged: Vec<String>,
}

impl Walker {
    spec fn bl(&self) -> Set<Seq<char>> {
        Set::new(
            |n: Seq<char>| occurrences(strings_view(self.defs@), n) > 1 || name_set(self.bound@).contains(n),
        )
    }

    spec fn moves(&self) -> Set<(int, Seq<char>)> {
        pairs_of(self.eligible@, self.flagged@)
    }

    spec fn wf(&self) -> bool {
        self.eligible@.len() == self.flagged@.len()
    }

    spec fn keeps(&self, old: &Walker) -> bool {
        &&& self.wf()
        &&& self.defs == old.defs
        &&& self.bound == old.bound
    }

    fn blacklisted(&self, n: &str) -> (b: bool)
        ensures
            b == self.bl().contains(n@),
    {
        defined_more_than_once(&self.defs, n) || contains_str(&self.bound, n)
    }

    fn record(&mut self, k: usize, n: &str)
        requires
            old(self).wf(),
        ensures
            final(self).keeps(old(self)),
            final(self).moves() == old(self).moves().insert((k as int, n@)),
    {
        let ghost e0 = self.eligible@;
        let ghost f0 = self.flagged@;
        self.eligible.push(k);
        self.flagged.push(copy_string(n));
        proof {
            let m = self.moves();
            let m0 = pairs_of(e0, f0);
            assert forall|p: (int, Seq<char>)| m.contains(p) <==> m0.insert((k as int, n@)).contains(p) by {
                if m0.contains(p) {
                    let i = choose|i: int| 0 <= i < e0.len() && i < f0.len() && e0[i] == p.0 && f0[i]@ == p.1;
                    assert(self.eligible@[i] == p.0 && self.flagged@[i]@ == p.1);
                }
                if p == (k as int, n@) {
                    assert(self.eligible@[e0.len() as int] == p.0);
                }
                if m.contains(p) {
                    let i = choose|i: int|
                        0 <= i < self.eligible@.len() && i < self.flagged@.len() && self.eligible@[i] == p.0
                            && self.flagged@[i]@ == p.1;
                    if i < e0.len() {
                        assert(e0[i] == p.0 && f0[i]@ == p.1);
                    }
                }
            }
            assert(m =~= m0.insert((k as int, n@)));
        }
    }

    fn walk_expr(&mut self, e: &MirExpr, live: Vec<String>, consuming: bool, record: bool, base: usize) -> (r:
        Vec<String>)
        requires
            old(self).wf(),
            base + loads_expr(*e) <= usize::MAX,
        ensures
            final(self).keeps(old(self)),
            name_set(r@) == live_expr(*e, name_set(live@)),
            final(self).moves() == old(self).moves().union(
                moves_expr(*e, name_set(live@), consuming, record, old(self).bl(), base as int),
            ),
        decreases mexpr_size(*e),
    {
        let ghost out = name_set(live@);
        let ghost bl = self.bl();
        match e {
            MirExpr::Load(name) => {
                let dead = !contains_str(&live, name.as_str());
                proof {
                    strings_view(live@).to_set();
                }
                if record && consuming && dead && !self.blacklisted(name.as_str()) {
                    self.record(base, name.as_str());
                } else {
                    assert(self.moves() =~= old(self).moves().union(
                        moves_expr(*e, out, consuming, record, bl, base as int),
                    ));
                }
                let mut live = live;
                set_insert(&mut live, name.as_str());
                live
            },
            MirExpr::Binary { left, right, .. } | MirExpr::Index { base: left, index: right } => {
                let nl = count_loads_expr(left);
                let live = self.walk_expr(right, live, false, record, base + nl);
                let r = self.walk_expr(left, live, false, record, base);
                assert(self.moves() =~= old(self).moves().union(
                    moves_expr(*e, out, consuming, record, bl, base as int),
                ));
                r
            },
            MirExpr::Unary { expr: operand, .. } | MirExpr::FieldAccess { base: operand, .. } => {
                let r = self.walk_expr(operand, live, false, record, base);
                assert(self.moves() =~= old(self).moves().union(
                    moves_expr(*e, out, consuming, record, bl, base as int),
                ));
                r
            },
            MirExpr::Call { args, .. } | MirExpr::ArrayLiteral { elements: args } => {
                let n = count_loads_expr(e);
                let mut end: usize = base + n;
                let mut i: usize = args.len();
                let mut cur = live;
                assert(args@.subrange(0, args@.len() as int) =~= args@);
                while i > 0
                    invariant
                        i <= args@.len(),
                        self.keeps(old(self)),
                        bl == old(self).bl(),
                        out == name_set(live@),
                        mexprs_size(args@) < mexpr_size(*e),
                        end == base + loads_exprs(args@.subrange(0, i as int)),
                        end <= usize::MAX,
                        live_exprs(args@, out) == live_exprs(args@.subrange(0, i as int), name_set(cur@)),
                        self.moves().union(moves_exprs(args@.subrange(0, i as int), name_set(cur@), record, bl, base as int))
                            == old(self).moves().union(moves_exprs(args@, out, record, bl, base as int)),
                    decreases i,
                {
                    let ghost c0 = name_set(cur@);
                    let ghost m0 = self.moves();
                    let ghost sub = args@.subrange(0, i as int);
                    i = i - 1;
                    proof {
                        lemma_mexprs_size_elem(args@, i as int);
                        assert(sub.drop_last() =~= args@.subrange(0, i as int));
                        assert(sub.last() == args@[i as int]);
                    }
                    let k = count_loads_expr(&args[i]);
                    end = end - k;
                    cur = self.walk_expr(&args[i], cur, true, record, end);
                    proof {
                        assert(self.bl() =~= bl);
                        assert(end == base + loads_exprs(sub.drop_last()));
                        assert(moves_exprs(sub, c0, record, bl, base as int) == moves_exprs(
                            sub.drop_last(),
                            live_expr(sub.last(), c0),
                            record,
                            bl,
                            base as int,
                        ).union(moves_expr(sub.last(), c0, true, record, bl, end as int)));
                        assert(self.moves() == m0.union(moves_expr(args@[i as int], c0, true, record, bl, end as int)));
                        assert(self.moves().union(moves_exprs(args@.subrange(0, i as int), name_set(cur@), record, bl, base as int))
                            =~= m0.union(moves_exprs(sub, c0, record, bl, base as int)));
                    }
                }
                proof {
                    assert(args@.subrange(0, 0) =~= Seq::<MirExpr>::empty());
                    assert(self.moves() =~= old(self).moves().union(moves_expr(*e, out, consuming, record, bl, base as int)));
                }
                cur
            },
            MirExpr::EnumVariant { payload: Some(p), .. } => self.walk_expr(p, live, true, record, base),
            _ => {
                assert(self.moves() =~= old(self).moves().union(
                    moves_expr(*e, out, consuming, record, bl, base as int),
                ));
                live
            },
        }
    }

    fn walk_stmts(&mut self, ss: &Vec<MirStmt>, live: Vec<String>, record: bool, base: usize) -> (r: Vec<
        String,
    >)
        requires
            old(self).wf(),
            base + loads_stmts(ss@) <= usize::MAX,
        ensures
            final(self).keeps(old(self)),
            name_set(r@) == live_stmts(ss@, name_set(live@)),
            final(self).moves() == old(self).moves().union(
                moves_stmts(ss@, name_set(live@), record, old(self).bl(), base as int),
            ),
        decreases mstmts_size(ss@), 2nat, 0nat,
    {
        let ghost out = name_set(live@);
        let ghost bl = self.bl();
        let n = count_loads_stmts(ss);
        let mut end: usize = base + n;
        let mut i: usize = ss.len();
        let mut cur = live;
        assert(ss@.subrange(0, ss@.len() as int) =~= ss@);
        while i > 0
            invariant
                i <= ss@.len(),
                self.keeps(old(self)),
                bl == old(self).bl(),
                end == base + loads_stmts(ss@.subrange(0, i as int)),
                end <= usize::MAX,
                live_stmts(ss@, out) == live_stmts(ss@.subrange(0, i as int), name_set(cur@)),
                self.moves().union(moves_stmts(ss@.subrange(0, i as int), name_set(cur@), record, bl, base as int))
                    == old(self).moves().union(moves_stmts(ss@, out, record, bl, base as int)),
            decreases i,
        {
            let ghost c0 = name_set(cur@);
            let ghost m0 = self.moves();
            let ghost sub = ss@.subrange(0, i as int);
            i = i - 1;
            proof {
                lemma_mstmts_size_elem(ss@, i as int);
                assert(sub.drop_last() =~= ss@.subrange(0, i as int));
                assert(sub.last() == ss@[i as int]);
            }
            let k = count_loads_stmt(&ss[i]);
            end = end - k;
            cur = self.walk_stmt(&ss[i], cur, record, end);
            proof {
                assert(self.bl() =~= bl);
                assert(self.moves().union(moves_stmts(ss@.subrange(0, i as int), name_set(cur@), record, bl, base as int))
                    =~= m0.union(moves_stmts(sub, c0, record, bl, base as int)));
            }
        }
        proof {
            assert(ss@.subrange(0, 0) =~= Seq::<MirStmt>::empty());
            assert(self.moves() =~= old(self).moves().union(moves_stmts(ss@, out, record, bl, base as int)));
        }
        cur
    }

    fn walk_stmt(&mut self, s: &MirStmt, live: Vec<String>, record: bool, base: usize) -> (r: Vec<String>)
        requires
            old(self).wf(),
            base + loads_stmt(*s) <= usize::MAX,
        ensures
            final(self).keeps(old(self)),
            name_set(r@) == live_stmt(*s, name_set(live@)),
            final(self).moves() == old(self).moves().union(
                moves_stmt(*s, name_set(live@), record, old(self).bl(), base as int),
            ),
        decreases mstmt_size(*s), 1nat, 0nat,
    {
        let ghost out = name_set(live@);
        let ghost bl = self.bl();
        match s {
            MirStmt::Local { name, value, .. } => {
                let after = set_remove(&live, name.as_str());
                self.walk_expr(value, after, true, record, base)
            },
            MirStmt::Store { place: MirPlace::Local(n), value } => {
                let mut l = live;
                set_insert(&mut l, n.as_str());
                self.walk_expr(value, l, true, record, base)
            },
            MirStmt::If { condition, then_body, else_body } => {
                let nc = count_loads_expr(condition);
                let nt = count_loads_stmts(then_body);
                let lt = self.walk_stmts(then_body, set_copy(&live), record, base + nc);
                let le = self.walk_stmts(else_body, live, record, base + nc + nt);
                let mut merged = lt;
                set_union(&mut merged, &le);
                let r = self.walk_expr(condition, merged, false, record, base);
                assert(self.moves() =~= old(self).moves().union(moves_stmt(*s, out, record, bl, base as int)));
                r
            },
            MirStmt::While { condition, body } => {
                let nc = count_loads_expr(condition);
                let lbo = self.loop_live_out(condition, body, &live, base);
                if record {
                    let _ = self.walk_stmts(body, set_copy(&lbo), true, base + nc);
                } else {
                    proof {
                        lemma_moves_stmts_unrecorded(body@, name_set(lbo@), bl, base + nc);
                    }
                }
                let ghost m1 = self.moves();
                let r = self.walk_expr(condition, lbo, false, false, base);
                proof {
                    lemma_moves_expr_unrecorded(*condition, name_set(lbo@), false, bl, base as int);
                    assert(self.moves() =~= old(self).moves().union(moves_stmt(*s, out, record, bl, base as int)));
                }
                r
            },
            MirStmt::Match { value, arms } => {
                let mut merged: Vec<String> = Vec::new();
                let mut i: usize = 0;
                assert(name_set(merged@) =~= live_arms(arms@.subrange(0, 0), out));
                while i < arms.len()
                    invariant
                        i <= arms@.len(),
                        self.keeps(old(self)),
                        self.moves() == old(self).moves(),
                        bl == old(self).bl(),
                        out == name_set(live@),
                        marms_size(arms@) < mstmt_size(*s),
                        loads_arms(arms@) <= usize::MAX,
                        name_set(merged@) == live_arms(arms@.subrange(0, i as int), out),
                    decreases arms.len() - i,
                {
                    proof {
                        lemma_marms_size_elem(arms@, i as int);
                        lemma_loads_arms_prefix(arms@, i as int + 1);
                        assert(arms@.subrange(0, i as int + 1).drop_last() =~= arms@.subrange(0, i as int));
                        assert(arms@.subrange(0, i as int + 1).last() == arms@[i as int]);
                    }
                    let la = self.walk_stmts(&arms[i].body, set_copy(&live), false, 0);
                    proof {
                        assert(self.bl() =~= bl);
                        lemma_moves_stmts_unrecorded(arms@[i as int].body@, out, bl, 0);
                        assert(self.moves() =~= old(self).moves());
                    }
                    set_union(&mut merged, &la);
                    proof {
                        let sub = arms@.subrange(0, i as int + 1);
                        assert(name_set(merged@) =~= live_arms(sub, out));
                    }
                    i = i + 1;
                }
                assert(arms@.subrange(0, arms@.len() as int) =~= arms@);
                let r = self.walk_expr(value, merged, false, false, base);
                proof {
                    assert(self.bl() =~= bl);
                    lemma_moves_expr_unrecorded(*value, name_set(merged@), false, bl, base as int);
                    assert(self.moves() =~= old(self).moves().union(moves_stmt(*s, out, record, bl, base as int)));
                }
                r
            },
            MirStmt::Return(Some(e)) => {
                let empty: Vec<String> = Vec::new();
                assert(name_set(empty@) =~= Set::<Seq<char>>::empty());
                self.walk_expr(e, empty, true, record, base)
            },
            MirStmt::Return(None) => {
                assert(self.moves() =~= old(self).moves().union(moves_stmt(*s, out, record, bl, base as int)));
                let r: Vec<String> = Vec::new();
                assert(name_set(r@) =~= Set::<Seq<char>>::empty());
                r
            },
            MirStmt::Drop(e) => self.walk_expr(e, live, false, record, base),
        }
    }

    /// The live set a loop's back edge carries, found by iterating from the
    /// set live after the loop until a round adds nothing.
    fn loop_live_out(&mut self, condition: &MirExpr, body: &Vec<MirStmt>, live: &Vec<String>, base: usize) -> (r:
        Vec<String>)
        requires
            old(self).wf(),
            base + loads_expr(*condition) + loads_stmts(body@) <= usize::MAX,
        ensures
            final(self).keeps(old(self)),
            final(self).moves() == old(self).moves(),
            name_set(r@) == loop_fix(*condition, body@, name_set(live@), name_set(live@), loop_fuel(*condition, body@)),
        decreases mstmts_size(body@) + 1, 0nat, 0nat,
    {
        let ghost out = name_set(live@);
        let ghost bl = self.bl();
        let ghost names = names_expr(*condition).union(names_stmts(body@));
        let ghost fuel = loop_fuel(*condition, body@);
        let nc = count_loads_expr(condition);
        let mut lbo = set_copy(live);
        let ghost mut k: nat = 0;
        proof {
            lemma_names_expr_finite(*condition);
            lemma_names_stmts_finite(body@);
            vstd::set_lib::lemma_len_subset(names.difference(out), names);
        }
        loop
            invariant
                self.keeps(old(self)),
                self.moves() == old(self).moves(),
                bl == old(self).bl(),
                out == name_set(live@),
                names == names_expr(*condition).union(names_stmts(body@)),
                names.finite(),
                fuel == names.len() + 1,
                nc == loads_expr(*condition),
                base + loads_expr(*condition) + loads_stmts(body@) <= usize::MAX,
                out.subset_of(name_set(lbo@)),
                names.difference(name_set(lbo@)).len() + k + 1 <= fuel,
                loop_fix(*condition, body@, out, out, fuel) == loop_fix(
                    *condition,
                    body@,
                    out,
                    name_set(lbo@),
                    (fuel - k) as nat,
                ),
            ensures
                self.keeps(old(self)),
                self.moves() == old(self).moves(),
                name_set(lbo@) == loop_fix(*condition, body@, out, out, fuel),
            decreases names.difference(name_set(lbo@)).len(),
        {
            let ghost l0 = name_set(lbo@);
            let li_body = self.walk_stmts(body, set_copy(&lbo), false, base + nc);
            proof {
                assert(self.bl() =~= bl);
                lemma_moves_stmts_unrecorded(body@, l0, bl, base + nc);
            }
            let mut u = li_body;
            set_union(&mut u, live);
            let li_top = self.walk_expr(condition, u, false, false, base);
            proof {
                lemma_moves_expr_unrecorded(*condition, name_set(u@), false, bl, base as int);
                assert(self.moves() =~= old(self).moves());
            }
            if set_subset(&li_top, &lbo) {
                assert(loop_fix(*condition, body@, out, l0, (fuel - k) as nat) == l0);
                break;
            }
            let ghost top = name_set(li_top@);
            set_union(&mut lbo, &li_top);
            proof {
                lemma_loop_top_bound(*condition, body@, out, l0);
                let x = choose|x: Seq<char>| top.contains(x) && !l0.contains(x);
                assert(names.contains(x));
                names.lemma_set_insert_diff_decreases(l0, x);
                vstd::set_lib::lemma_len_subset(names.difference(name_set(lbo@)), names.difference(l0.insert(x)));
                k = k + 1;
            }
        }
        lbo
    }
}


// ---------------------------------------------------------------------------
// The plan
// ---------------------------------------------------------------------------

/// The reads of a function that may move, and the names that need a runtime
/// moved-flag (those with at least one such read).
pub struct MovePlan {
    eligible: Vec<usize>,
    flagged: Vec<String>,
}

impl MovePlan {
    #[verifier::type_invariant]
    spec fn paired(&self) -> bool {
        self.eligible@.len() == self.flagged@.len()
    }

    /// The permitted moves, as (read number, name) pairs.
    pub closed spec fn moves(&self) -> Set<(int, Seq<char>)> {
        pairs_of(self.eligible@, self.flagged@)
    }

    /// A plan that permits no moves.
    pub fn empty() -> (p: MovePlan)
        ensures
            p.moves() == Set::<(int, Seq<char>)>::empty(),
    {
        let p = MovePlan { eligible: Vec::new(), flagged: Vec::new() };
        assert(p.moves() =~= Set::<(int, Seq<char>)>::empty());
        p
    }

    /// Whether the read numbered `load` may move.
    pub fn is_move(&self, load: usize) -> (b: bool)
        ensures
            b == exists|n: Seq<char>| self.moves().contains((load as int, n)),
    {
        proof {
            use_type_invariant(self);
        }
        let mut i: usize = 0;
        while i < self.eligible.len()
            invariant
                i <= self.eligible@.len(),
                self.eligible@.len() == self.flagged@.len(),
                forall|j: int| 0 <= j < i ==> self.eligible@[j] != load,
            decreases self.eligible.len() - i,
        {
            if self.eligible[i] == load {
                assert(self.moves().contains((load as int, self.flagged@[i as int]@)));
                return true;
            }
            i = i + 1;
        }
        false
    }

    /// Whether `name` needs a runtime moved-flag: some read of it may move.
    pub fn is_flagged(&self, name: &str) -> (b: bool)
        ensures
            b == exists|k: int| self.moves().contains((k, name@)),
    {
        proof {
            use_type_invariant(self);
        }
        let mut i: usize = 0;
        while i < self.flagged.len()
            invariant
                i <= self.flagged@.len(),
                self.eligible@.len() == self.flagged@.len(),
                forall|j: int| 0 <= j < i ==> self.flagged@[j]@ != name@,
            decreases self.flagged.len() - i,
        {
            if str_equal(self.flagged[i].as_str(), name) {
                assert(self.moves().contains((self.eligible@[i as int] as int, name@)));
                return true;
            }
            i = i + 1;
        }
        false
    }
}

/// The move plan of a function: the reads that are the last use of their
/// name on every path, in positions that hand ownership on, of names that are
/// neither defined twice nor bound by a `match` pattern.
pub fn analyze(func: &MirFunction) -> (plan: MovePlan)
    requires
        loads_stmts(func.body@) <= usize::MAX,
    ensures
        plan.moves() == planned_moves(*func),
{
    let mut defs: Vec<String> = Vec::new();
    let mut i: usize = 0;
    while i < func.params.len()
        invariant
            i <= func.params@.len(),
            defs@.len() == i,
            strings_view(defs@) == param_names(func.params@.subrange(0, i as int)),
        decreases func.params.len() - i,
    {
        let ghost d0 = strings_view(defs@);
        defs.push(copy_string(func.params[i].name.as_str()));
        proof {
            let ps = func.params@.subrange(0, i as int + 1);
            assert(defs@.len() == i + 1);
            assert forall|j: int| 0 <= j < i + 1 implies strings_view(defs@)[j] == param_names(ps)[j] by {
                assert(ps[j] == func.params@[j]);
                assert(param_names(ps)[j] == ps[j].name@);
                assert(strings_view(defs@)[j] == defs@[j]@);
                if j < i {
                    assert(func.params@.subrange(0, i as int)[j] == func.params@[j]);
                    assert(d0[j] == param_names(func.params@.subrange(0, i as int))[j]);
                }
            }
            assert(strings_view(defs@) =~= param_names(ps));
        }
        i = i + 1;
    }
    assert(func.params@.subrange(0, func.params@.len() as int) =~= func.params@);
    collect_defs_stmts(&func.body, &mut defs);
    let mut bound: Vec<String> = Vec::new();
    collect_bound_stmts(&func.body, &mut bound);
    let mut w = Walker { defs, bound, eligible: Vec::new(), flagged: Vec::new() };
    proof {
        assert(strings_view(w.defs@) =~= definitions(*func));
        assert(name_set(Seq::<String>::empty()) =~= Set::<Seq<char>>::empty());
        assert(w.bl() =~= blacklist(*func));
        assert(w.moves() =~= Set::<(int, Seq<char>)>::empty());
    }
    let empty: Vec<String> = Vec::new();
    assert(name_set(empty@) =~= Set::<Seq<char>>::empty());
    let _ = w.walk_stmts(&func.body, empty, true, 0);
    let plan = MovePlan { eligible: w.eligible, flagged: w.flagged };
    assert(plan.moves() =~= planned_moves(*func));
    plan
}


// ---------------------------------------------------------------------------
// What every plan satisfies
// ---------------------------------------------------------------------------

/// Whether every pair of `m` names a read numbered in `[lo, hi)` of a name
/// outside `bl`.
pub open spec fn moves_within(m: Set<(int, Seq<char>)>, lo: int, hi: int, bl: Set<Seq<char>>) -> bool {
    forall|p: (int, Seq<char>)| #[trigger] m.contains(p) ==> lo <= p.0 < hi && !bl.contains(p.1)
}

pub proof fn lemma_moves_expr_within(
    e: MirExpr,
    out: Set<Seq<char>>,
    consuming: bool,
    record: bool,
    bl: Set<Seq<char>>,
    base: int,
)
    ensures
        moves_within(moves_expr(e, out, consuming, record, bl, base), base, base + loads_expr(e), bl),
    decreases e,
{
    match e {
        MirExpr::Binary { left, right, .. } | MirExpr::Index { base: left, index: right } => {
            lemma_moves_expr_within(*left, live_expr(*right, out), false, record, bl, base);
            lemma_moves_expr_within(*right, out, false, record, bl, base + loads_expr(*left));
        },
        MirExpr::Unary { expr, .. } | MirExpr::FieldAccess { base: expr, .. } => lemma_moves_expr_within(*expr, out, false, record, bl, base),
        MirExpr::Call { args, .. } | MirExpr::ArrayLiteral { elements: args } => lemma_moves_exprs_within(args@, out, record, bl, base),
        MirExpr::EnumVariant { payload: Some(p), .. } => lemma_moves_expr_within(*p, out, true, record, bl, base),
        _ => {},
    }
}

pub proof fn lemma_moves_exprs_within(
    es: Seq<MirExpr>,
    out: Set<Seq<char>>,
    record: bool,
    bl: Set<Seq<char>>,
    base: int,
)
    ensures
        moves_within(moves_exprs(es, out, record, bl, base), base, base + loads_exprs(es), bl),
    decreases es,
{
    if es.len() > 0 {
        lemma_moves_exprs_within(es.drop_last(), live_expr(es.last(), out), record, bl, base);
        lemma_moves_expr_within(es.last(), out, true, record, bl, base + loads_exprs(es.drop_last()));
    }
}

pub proof fn lemma_moves_stmt_within(s: MirStmt, out: Set<Seq<char>>, record: bool, bl: Set<Seq<char>>, base: int)
    ensures
        moves_within(moves_stmt(s, out, record, bl, base), base, base + loads_stmt(s), bl),
    decreases s,
{
    match s {
        MirStmt::Local { name, value, .. } => lemma_moves_expr_within(value, out.remove(name@), true, record, bl, base),
        MirStmt::Store { place: MirPlace::Local(n), value } => lemma_moves_expr_within(
            value,
            out.insert(n@),
            true,
            record,
            bl,
            base,
        ),
        MirStmt::If { condition, then_body, else_body } => {
            lemma_moves_expr_within(
                condition,
                live_stmts(then_body@, out).union(live_stmts(else_body@, out)),
                false,
                record,
                bl,
                base,
            );
            lemma_moves_stmts_within(then_body@, out, record, bl, base + loads_expr(condition));
            lemma_moves_stmts_within(
                else_body@,
                out,
                record,
                bl,
                base + loads_expr(condition) + loads_stmts(then_body@),
            );
        },
        MirStmt::While { condition, body } => lemma_moves_stmts_within(
            body@,
            loop_fix(condition, body@, out, out, loop_fuel(condition, body@)),
            record,
            bl,
            base + loads_expr(condition),
        ),
        MirStmt::Match { .. } => {},
        MirStmt::Return(Some(e)) => lemma_moves_expr_within(e, Set::empty(), true, record, bl, base),
        MirStmt::Return(None) => {},
        MirStmt::Drop(e) => lemma_moves_expr_within(e, out, false, record, bl, base),
    }
}

pub proof fn lemma_moves_stmts_within(
    ss: Seq<MirStmt>,
    out: Set<Seq<char>>,
    record: bool,
    bl: Set<Seq<char>>,
    base: int,
)
    ensures
        moves_within(moves_stmts(ss, out, record, bl, base), base, base + loads_stmts(ss), bl),
    decreases ss,
{
    if ss.len() > 0 {
        lemma_moves_stmts_within(ss.drop_last(), live_stmt(ss.last(), out), record, bl, base);
        lemma_moves_stmt_within(ss.last(), out, record, bl, base + loads_stmts(ss.drop_last()));
    }
}

// ---------------------------------------------------------------------------
// Later reads
// ---------------------------------------------------------------------------

/// Whether a statement returns on every path through it.
pub open spec fn always_returns(s: MirStmt) -> bool
    decreases s,
{
    match s {
        MirStmt::Return(_) => true,
        MirStmt::If { then_body, else_body, .. } => list_returns(then_body@) && list_returns(else_body@),
        MirStmt::Match { arms, .. } => arms_return(arms@),
        _ => false,
    }
}

/// Whether some statement of `ss` returns on every path through it.
pub open spec fn list_returns(ss: Seq<MirStmt>) -> bool
    decreases ss,
{
    ss.len() > 0 && (list_returns(ss.drop_last()) || always_returns(ss.last()))
}

/// Whether every arm returns.
pub open spec fn arms_return(arms: Seq<MirMatchArm>) -> bool
    decreases arms,
{
    arms.len() == 0 || (arms_return(arms.drop_last()) && list_returns(arms.last().body@))
}

/// The names a statement may read before a `let` in it binds them anew: every
/// name its expressions read, on any path (either branch of an `if`, the
/// condition and body of a loop, any arm of a `match`).
pub open spec fn exposed_stmt(s: MirStmt) -> Set<Seq<char>>
    decreases s,
{
    match s {
        MirStmt::Local { value, .. } => names_expr(value),
        MirStmt::Store { value, .. } => names_expr(value),
        MirStmt::If { condition, then_body, else_body } => names_expr(condition).union(
            exposed_stmts(then_body@),
        ).union(exposed_stmts(else_body@)),
        MirStmt::While { condition, body } => names_expr(condition).union(exposed_stmts(body@)),
        MirStmt::Match { value, arms } => names_expr(value).union(exposed_arms(arms@)),
        MirStmt::Return(Some(e)) => names_expr(e),
        MirStmt::Return(None) => Set::empty(),
        MirStmt::Drop(e) => names_expr(e),
    }
}

/// The names a list of statements may read before a `let` among them binds
/// them anew; nothing after a statement that always returns is read.
pub open spec fn exposed_stmts(ss: Seq<MirStmt>) -> Set<Seq<char>>
    decreases ss,
{
    if ss.len() == 0 {
        Set::empty()
    } else if list_returns(ss.drop_last()) {
        exposed_stmts(ss.drop_last())
    } else {
        let pre = ss.drop_last();
        exposed_stmts(pre).union(exposed_stmt(ss.last()).filter(|n: Seq<char>| !defs_stmts(pre).contains(n)))
    }
}

pub open spec fn exposed_arms(arms: Seq<MirMatchArm>) -> Set<Seq<char>>
    decreases arms,
{
    if arms.len() == 0 {
        Set::empty()
    } else {
        exposed_arms(arms.drop_last()).union(exposed_stmts(arms.last().body@))
    }
}

proof fn lemma_live_expr_reads(e: MirExpr, out: Set<Seq<char>>)
    ensures
        names_expr(e).subset_of(live_expr(e, out)),
    decreases e,
{
    match e {
        MirExpr::Binary { left, right, .. } | MirExpr::Index { base: left, index: right } => {
            lemma_live_expr_reads(*right, out);
            lemma_live_expr_reads(*left, live_expr(*right, out));
            lemma_live_expr_bound(*left, live_expr(*right, out));
        },
        MirExpr::Unary { expr, .. } | MirExpr::FieldAccess { base: expr, .. } => lemma_live_expr_reads(*expr, out),
        MirExpr::Call { args, .. } | MirExpr::ArrayLiteral { elements: args } => lemma_live_exprs_reads(args@, out),
        MirExpr::EnumVariant { payload: Some(p), .. } => lemma_live_expr_reads(*p, out),
        _ => {},
    }
}

proof fn lemma_live_exprs_reads(es: Seq<MirExpr>, out: Set<Seq<char>>)
    ensures
        names_exprs(es).subset_of(live_exprs(es, out)),
    decreases es,
{
    if es.len() > 0 {
        lemma_live_expr_reads(es.last(), out);
        lemma_live_exprs_reads(es.drop_last(), live_expr(es.last(), out));
        lemma_live_exprs_bound(es.drop_last(), live_expr(es.last(), out));
    }
}

/// Through a statement that does not always return, what is live after it is
/// live before it, unless a `let` in it binds the name.
proof fn lemma_live_passes_stmt(s: MirStmt, out: Set<Seq<char>>, n: Seq<char>)
    requires
        !always_returns(s),
        out.contains(n),
        !defs_stmt(s).contains(n),
    ensures
        live_stmt(s, out).contains(n),
    decreases mstmt_size(s), 1nat, 0nat,
{
    match s {
        MirStmt::Local { name, value, .. } => {
            assert(defs_stmt(s)[0] == name@);
            lemma_live_expr_bound(value, out.remove(name@));
        },
        MirStmt::Store { place: MirPlace::Local(m), value } => lemma_live_expr_bound(value, out.insert(m@)),
        MirStmt::If { condition, then_body, else_body } => {
            let x = live_stmts(then_body@, out).union(live_stmts(else_body@, out));
            if !list_returns(then_body@) {
                assert(!defs_stmts(then_body@).contains(n)) by {
                    if defs_stmts(then_body@).contains(n) {
                        let i = choose|i: int| 0 <= i < defs_stmts(then_body@).len() && defs_stmts(then_body@)[i] == n;
                        assert(defs_stmt(s)[i] == n);
                    }
                }
                lemma_live_passes_stmts(then_body@, out, n);
            } else {
                assert(!defs_stmts(else_body@).contains(n)) by {
                    if defs_stmts(else_body@).contains(n) {
                        let i = choose|i: int| 0 <= i < defs_stmts(else_body@).len() && defs_stmts(else_body@)[i] == n;
                        assert(defs_stmt(s)[defs_stmts(then_body@).len() + i] == n);
                    }
                }
                lemma_live_passes_stmts(else_body@, out, n);
            }
            lemma_live_expr_bound(condition, x);
        },
        MirStmt::While { condition, body } => {
            let f = loop_fuel(condition, body@);
            lemma_loop_fix_bound(condition, body@, out, out, f);
            lemma_live_expr_bound(condition, loop_fix(condition, body@, out, out, f));
        },
        MirStmt::Match { value, arms } => {
            lemma_live_passes_arms(arms@, out, n);
            lemma_live_expr_bound(value, live_arms(arms@, out));
        },
        MirStmt::Return(_) => {},
        MirStmt::Drop(e) => lemma_live_expr_bound(e, out),
    }
}

proof fn lemma_live_passes_stmts(ss: Seq<MirStmt>, out: Set<Seq<char>>, n: Seq<char>)
    requires
        !list_returns(ss),
        out.contains(n),
        !defs_stmts(ss).contains(n),
    ensures
        live_stmts(ss, out).contains(n),
    decreases mstmts_size(ss), 2nat, 0nat,
{
    if ss.len() > 0 {
        let pre = ss.drop_last();
        lemma_mstmt_size_positive(ss.last());
        assert(!defs_stmt(ss.last()).contains(n)) by {
            if defs_stmt(ss.last()).contains(n) {
                let i = choose|i: int| 0 <= i < defs_stmt(ss.last()).len() && defs_stmt(ss.last())[i] == n;
                assert(defs_stmts(ss)[defs_stmts(pre).len() + i] == n);
            }
        }
        assert(!defs_stmts(pre).contains(n)) by {
            if defs_stmts(pre).contains(n) {
                let i = choose|i: int| 0 <= i < defs_stmts(pre).len() && defs_stmts(pre)[i] == n;
                assert(defs_stmts(ss)[i] == n);
            }
        }
        lemma_live_passes_stmt(ss.last(), out, n);
        lemma_live_passes_stmts(pre, live_stmt(ss.last(), out), n);
    }
}

proof fn lemma_live_passes_arms(arms: Seq<MirMatchArm>, out: Set<Seq<char>>, n: Seq<char>)
    requires
        !arms_return(arms),
        out.contains(n),
        !defs_arms(arms).contains(n),
    ensures
        live_arms(arms, out).contains(n),
    decreases marms_size(arms), 2nat, 0nat,
{
    let pre = arms.drop_last();
    let body = arms.last().body@;
    if !arms_return(pre) {
        assert(!defs_arms(pre).contains(n)) by {
            if defs_arms(pre).contains(n) {
                let i = choose|i: int| 0 <= i < defs_arms(pre).len() && defs_arms(pre)[i] == n;
                assert(defs_arms(arms)[i] == n);
            }
        }
        lemma_live_passes_arms(pre, out, n);
    } else {
        lemma_marms_size_elem(arms, arms.len() - 1);
        assert(arms[arms.len() - 1] == arms.last());
        assert(!defs_stmts(body).contains(n)) by {
            if defs_stmts(body).contains(n) {
                let i = choose|i: int| 0 <= i < defs_stmts(body).len() && defs_stmts(body)[i] == n;
                assert(defs_arms(arms)[defs_arms(pre).len() + i] == n);
            }
        }
        lemma_live_passes_stmts(body, out, n);
    }
}

/// What a statement may read before binding it anew is live before it.
proof fn lemma_exposed_stmt_live(s: MirStmt, out: Set<Seq<char>>)
    ensures
        exposed_stmt(s).subset_of(live_stmt(s, out)),
    decreases mstmt_size(s), 1nat, 0nat,
{
    match s {
        MirStmt::Local { name, value, .. } => lemma_live_expr_reads(value, out.remove(name@)),
        MirStmt::Store { place: MirPlace::Local(m), value } => lemma_live_expr_reads(value, out.insert(m@)),
        MirStmt::If { condition, then_body, else_body } => {
            let x = live_stmts(then_body@, out).union(live_stmts(else_body@, out));
            lemma_exposed_stmts_live(then_body@, out);
            lemma_exposed_stmts_live(else_body@, out);
            lemma_live_expr_reads(condition, x);
            lemma_live_expr_bound(condition, x);
        },
        MirStmt::While { condition, body } => {
            let f = loop_fuel(condition, body@);
            let top = live_expr(condition, live_stmts(body@, out).union(out));
            lemma_exposed_stmts_live(body@, out);
            lemma_live_expr_bound(condition, live_stmts(body@, out).union(out));
            if !top.subset_of(out) {
                lemma_loop_fix_bound(condition, body@, out, out.union(top), (f - 1) as nat);
            }
            let lf = loop_fix(condition, body@, out, out, f);
            assert(live_stmts(body@, out).subset_of(lf));
            lemma_live_expr_reads(condition, lf);
            lemma_live_expr_bound(condition, lf);
        },
        MirStmt::Match { value, arms } => {
            lemma_exposed_arms_live(arms@, out);
            lemma_live_expr_reads(value, live_arms(arms@, out));
            lemma_live_expr_bound(value, live_arms(arms@, out));
        },
        MirStmt::Return(Some(e)) => lemma_live_expr_reads(e, Set::empty()),
        MirStmt::Return(None) => {},
        MirStmt::Drop(e) => lemma_live_expr_reads(e, out),
    }
}

proof fn lemma_exposed_stmts_live(ss: Seq<MirStmt>, out: Set<Seq<char>>)
    ensures
        exposed_stmts(ss).subset_of(live_stmts(ss, out)),
    decreases mstmts_size(ss), 2nat, 0nat,
{
    if ss.len() > 0 {
        let pre = ss.drop_last();
        let l = live_stmt(ss.last(), out);
        lemma_mstmt_size_positive(ss.last());
        lemma_exposed_stmt_live(ss.last(), out);
        lemma_exposed_stmts_live(pre, l);
        if !list_returns(pre) {
            assert forall|n: Seq<char>| exposed_stmt(ss.last()).contains(n) && !defs_stmts(pre).contains(n) implies live_stmts(
                ss,
                out,
            ).contains(n) by {
                lemma_live_passes_stmts(pre, l, n);
            }
        }
    }
}

proof fn lemma_exposed_arms_live(arms: Seq<MirMatchArm>, out: Set<Seq<char>>)
    ensures
        exposed_arms(arms).subset_of(live_arms(arms, out)),
    decreases marms_size(arms), 2nat, 0nat,
{
    if arms.len() > 0 {
        lemma_exposed_arms_live(arms.drop_last(), out);
        lemma_marms_size_elem(arms, arms.len() - 1);
        assert(arms[arms.len() - 1] == arms.last());
        lemma_exposed_stmts_live(arms.last().body@, out);
    }
}

/// Whatever a list of statements may read before binding it anew is live
/// before the list, whatever is live after it: in particular every name read
/// in either branch of an `if` (and not bound first) is live before the `if`.
pub proof fn law_later_reads_are_live(ss: Seq<MirStmt>, out: Set<Seq<char>>)
    ensures
        exposed_stmts(ss).subset_of(live_stmts(ss, out)),
{
    lemma_exposed_stmts_live(ss, out);
}

/// A read planned as a move is of a name not live after it.
proof fn lemma_moves_expr_not_live(
    e: MirExpr,
    out: Set<Seq<char>>,
    consuming: bool,
    bl: Set<Seq<char>>,
    base: int,
    p: (int, Seq<char>),
)
    requires
        moves_expr(e, out, consuming, true, bl, base).contains(p),
    ensures
        !out.contains(p.1),
    decreases e,
{
    match e {
        MirExpr::Binary { left, right, .. } | MirExpr::Index { base: left, index: right } => {
            lemma_live_expr_bound(*right, out);
            if moves_expr(*left, live_expr(*right, out), false, true, bl, base).contains(p) {
                lemma_moves_expr_not_live(*left, live_expr(*right, out), false, bl, base, p);
            } else {
                lemma_moves_expr_not_live(*right, out, false, bl, base + loads_expr(*left), p);
            }
        },
        MirExpr::Unary { expr, .. } | MirExpr::FieldAccess { base: expr, .. } => lemma_moves_expr_not_live(
            *expr,
            out,
            false,
            bl,
            base,
            p,
        ),
        MirExpr::Call { args, .. } | MirExpr::ArrayLiteral { elements: args } => lemma_moves_exprs_not_live(
            args@,
            out,
            bl,
            base,
            p,
        ),
        MirExpr::EnumVariant { payload: Some(x), .. } => lemma_moves_expr_not_live(*x, out, true, bl, base, p),
        _ => {},
    }
}

proof fn lemma_moves_exprs_not_live(
    es: Seq<MirExpr>,
    out: Set<Seq<char>>,
    bl: Set<Seq<char>>,
    base: int,
    p: (int, Seq<char>),
)
    requires
        moves_exprs(es, out, true, bl, base).contains(p),
    ensures
        !out.contains(p.1),
    decreases es,
{
    if es.len() > 0 {
        let l = live_expr(es.last(), out);
        lemma_live_expr_bound(es.last(), out);
        if moves_exprs(es.drop_last(), l, true, bl, base).contains(p) {
            lemma_moves_exprs_not_live(es.drop_last(), l, bl, base, p);
        } else {
            lemma_moves_expr_not_live(es.last(), out, true, bl, base + loads_exprs(es.drop_last()), p);
        }
    }
}

proof fn lemma_loads_stmts_concat(a: Seq<MirStmt>, b: Seq<MirStmt>)
    ensures
        loads_stmts(a + b) == loads_stmts(a) + loads_stmts(b),
    decreases b.len(),
{
    if b.len() == 0 {
        assert(a + b =~= a);
    } else {
        lemma_loads_stmts_concat(a, b.drop_last());
        assert((a + b).drop_last() =~= a + b.drop_last());
        assert((a + b).last() == b.last());
    }
}

/// The moves of `a + b` are those of `a`, with what `b` needs live after it,
/// and those of `b`, numbered after the reads of `a`.
proof fn lemma_moves_stmts_concat(
    a: Seq<MirStmt>,
    b: Seq<MirStmt>,
    out: Set<Seq<char>>,
    bl: Set<Seq<char>>,
    base: int,
)
    ensures
        moves_stmts(a + b, out, true, bl, base) == moves_stmts(a, live_stmts(b, out), true, bl, base).union(
            moves_stmts(b, out, true, bl, base + loads_stmts(a)),
        ),
    decreases b.len(),
{
    if b.len() == 0 {
        assert(a + b =~= a);
        assert(moves_stmts(a, out, true, bl, base).union(Set::empty()) =~= moves_stmts(a, out, true, bl, base));
    } else {
        let l = live_stmt(b.last(), out);
        lemma_moves_stmts_concat(a, b.drop_last(), l, bl, base);
        assert((a + b).drop_last() =~= a + b.drop_last());
        assert((a + b).last() == b.last());
        lemma_loads_stmts_concat(a, b.drop_last());
        assert(moves_stmts(a + b, out, true, bl, base) =~= moves_stmts(a, live_stmts(b, out), true, bl, base).union(
            moves_stmts(b, out, true, bl, base + loads_stmts(a)),
        ));
    }
}

/// A read in a `let`, an assignment or an expression statement of a function
/// body is planned as a move only when no later statement may read the name
/// before binding it anew: not on either branch of a following `if`, nor in a
/// following loop or `match` arm. (A `let` may move the name it rebinds.)
pub proof fn law_no_move_before_a_later_read(f: MirFunction, i: int, k: int, n: Seq<char>)
    requires
        0 <= i < f.body@.len(),
        f.body@[i] is Local || f.body@[i] is Store || f.body@[i] is Drop,
        planned_moves(f).contains((k, n)),
        loads_stmts(f.body@.take(i)) <= k < loads_stmts(f.body@.take(i + 1)),
        !(f.body@[i] matches MirStmt::Local { name, .. } && name@ == n),
    ensures
        !exposed_stmts(f.body@.skip(i + 1)).contains(n),
{
    let ss = f.body@;
    let bl = blacklist(f);
    let a = ss.take(i + 1);
    let rest = ss.skip(i + 1);
    let pre = ss.take(i);
    let s = ss[i];
    assert(a + rest =~= ss);
    lemma_moves_stmts_concat(a, rest, Set::empty(), bl, 0);
    let l = live_stmts(rest, Set::empty());
    lemma_moves_stmts_within(rest, Set::empty(), true, bl, loads_stmts(a) as int);
    assert(!moves_stmts(rest, Set::empty(), true, bl, loads_stmts(a) as int).contains((k, n)));
    assert(moves_stmts(a, l, true, bl, 0).contains((k, n)));
    assert(a.drop_last() =~= pre);
    assert(a.last() == s);
    lemma_moves_stmts_within(pre, live_stmt(s, l), true, bl, 0);
    assert(loads_stmts(a) == loads_stmts(pre) + loads_stmt(s));
    assert(!moves_stmts(pre, live_stmt(s, l), true, bl, 0).contains((k, n)));
    let b = loads_stmts(pre) as int;
    assert(moves_stmt(s, l, true, bl, b).contains((k, n)));
    match s {
        MirStmt::Local { name, value, .. } => {
            lemma_moves_expr_not_live(value, l.remove(name@), true, bl, b, (k, n));
        },
        MirStmt::Store { place: MirPlace::Local(m), value } => {
            lemma_moves_expr_not_live(value, l.insert(m@), true, bl, b, (k, n));
        },
        MirStmt::Drop(e) => {
            lemma_moves_expr_not_live(e, l, false, bl, b, (k, n));
        },
        _ => {},
    }
    lemma_exposed_stmts_live(rest, Set::empty());
}

/// A read in the condition of an `if` of a function body is planned as a move
/// only when neither branch may read the name before binding it anew.
pub proof fn law_no_move_in_a_condition_read_in_a_branch(f: MirFunction, i: int, k: int, n: Seq<char>)
    requires
        0 <= i < f.body@.len(),
        f.body@[i] is If,
        planned_moves(f).contains((k, n)),
        loads_stmts(f.body@.take(i)) <= k < loads_stmts(f.body@.take(i)) + loads_expr(f.body@[i]->If_condition),
    ensures
        !exposed_stmts(f.body@[i]->If_then_body@).contains(n),
        !exposed_stmts(f.body@[i]->If_else_body@).contains(n),
{
    let ss = f.body@;
    let bl = blacklist(f);
    let a = ss.take(i + 1);
    let rest = ss.skip(i + 1);
    let pre = ss.take(i);
    let s = ss[i];
    assert(a + rest =~= ss);
    lemma_moves_stmts_concat(a, rest, Set::empty(), bl, 0);
    let l = live_stmts(rest, Set::empty());
    assert(a.drop_last() =~= pre);
    assert(a.last() == s);
    assert(loads_stmts(a) == loads_stmts(pre) + loads_stmt(s));
    lemma_moves_stmts_within(rest, Set::empty(), true, bl, loads_stmts(a) as int);
    assert(!moves_stmts(rest, Set::empty(), true, bl, loads_stmts(a) as int).contains((k, n)));
    assert(moves_stmts(a, l, true, bl, 0).contains((k, n)));
    lemma_moves_stmts_within(pre, live_stmt(s, l), true, bl, 0);
    assert(!moves_stmts(pre, live_stmt(s, l), true, bl, 0).contains((k, n)));
    let b = loads_stmts(pre) as int;
    assert(moves_stmt(s, l, true, bl, b).contains((k, n)));
    match s {
        MirStmt::If { condition, then_body, else_body } => {
            let x = live_stmts(then_body@, l).union(live_stmts(else_body@, l));
            let bt = b + loads_expr(condition);
            lemma_moves_stmts_within(then_body@, l, true, bl, bt);
            lemma_moves_stmts_within(else_body@, l, true, bl, bt + loads_stmts(then_body@));
            assert(!moves_stmts(then_body@, l, true, bl, bt).contains((k, n)));
            assert(!moves_stmts(else_body@, l, true, bl, bt + loads_stmts(then_body@)).contains((k, n)));
            assert(moves_expr(condition, x, false, true, bl, b).contains((k, n)));
            lemma_moves_expr_not_live(condition, x, false, bl, b, (k, n));
            lemma_exposed_stmts_live(then_body@, l);
            lemma_exposed_stmts_live(else_body@, l);
        },
        _ => {},
    }
}

/// Every move a plan permits is of a read that exists in the function and of
/// a name that is neither defined twice (parameters and `let`s together) nor
/// bound by a `match` pattern.
pub proof fn law_planned_moves_are_sound_reads(f: MirFunction)
    ensures
        forall|p: (int, Seq<char>)|
            #[trigger] planned_moves(f).contains(p) ==> 0 <= p.0 < loads_stmts(f.body@) && occurrences(
                definitions(f),
                p.1,
            ) <= 1 && !bound_stmts(f.body@).contains(p.1),
{
    lemma_moves_stmts_within(f.body@, Set::empty(), true, blacklist(f), 0);
}

/// A function that ends by returning a name moves that name there, unless the
/// name is blacklisted: nothing is live after a `return`.
pub proof fn law_returned_name_moves(f: MirFunction, name: Seq<char>)
    requires
        f.body@.len() > 0,
        f.body@.last() matches MirStmt::Return(Some(e)) && e matches MirExpr::Load(n) && n@ == name,
        !blacklist(f).contains(name),
    ensures
        planned_moves(f).contains((loads_stmts(f.body@) - 1, name)),
{
    let ss = f.body@;
    let bl = blacklist(f);
    let base = loads_stmts(ss.drop_last()) as int;
    assert(moves_stmt(ss.last(), Set::empty(), true, bl, base).contains((base, name)));
    match ss.last() {
        MirStmt::Return(Some(e)) => {
            assert(loads_stmt(ss.last()) == loads_expr(e));
        },
        _ => {},
    }
    assert(loads_stmts(ss) == base + 1);
}

} // verus!
