//! The grammar of the language as functions from tokens to syntax: what the
//! parser produces from a token list, stated over plain values. Each parsing
//! function takes the tokens and a position and gives the parsed value and
//! the position after it, or a diagnostic and the position where parsing
//! stopped.
use vstd::prelude::*;
use crate::ast::{UnaryOp, BinaryOp, EnumDecl, Expr, Field, Function, Item, MatchArm, Module, Param, Pattern, Stmt, StructDecl};
use crate::ast::expr_span;
use crate::diagnostic::{Diagnostic, Span, SpecDiagnostic};
use crate::lexer::{Keyword, SpecToken, SpecTokenKind, Symbol};
use crate::text::strings_view;

verus! {

// ---------------------------------------------------------------------------
// The syntax tree as plain values
// ---------------------------------------------------------------------------

/// An expression, its names and literals as character sequences.
pub enum ExprModel {
    Name { name: Seq<char>, span: Span },
    Int { value: Seq<char>, span: Span },
    Str { value: Seq<char>, span: Span },
    Bool { value: bool, span: Span },
    Binary { op: BinaryOp, left: Box<ExprModel>, right: Box<ExprModel>, span: Span },
    Unary { op: UnaryOp, expr: Box<ExprModel>, span: Span },
    Call { callee: Seq<char>, callee_span: Span, args: Seq<ExprModel>, span: Span },
    FieldAccess { base: Box<ExprModel>, field: Seq<char>, field_span: Span, span: Span },
    Index { base: Box<ExprModel>, index: Box<ExprModel>, span: Span },
    ArrayLiteral { elements: Seq<ExprModel>, span: Span },
}

/// A match pattern.
pub enum PatternModel {
    Name(Seq<char>),
    Int(Seq<char>),
    Str(Seq<char>),
    Bool(bool),
    Wildcard,
}

/// A statement; a match arm is its pattern and its body.
pub enum StmtModel {
    Let { mutable: bool, name: Seq<char>, name_span: Span, ty: Option<Seq<char>>, value: ExprModel },
    Assign { name: Seq<char>, name_span: Span, value: ExprModel },
    If { condition: ExprModel, then_body: Seq<StmtModel>, else_body: Seq<StmtModel> },
    While { condition: ExprModel, body: Seq<StmtModel> },
    Match { value: ExprModel, arms: Seq<(PatternModel, Seq<StmtModel>)> },
    Return(Option<ExprModel>),
    Expr(ExprModel),
}

/// A parameter or a field: its name, the span of the name, and its type.
pub type TypedName = (Seq<char>, Span, Seq<char>);

/// A function declaration.
pub struct FunctionModel {
    pub exported: bool,
    pub name: Seq<char>,
    pub name_span: Span,
    pub params: Seq<TypedName>,
    pub return_type: Option<Seq<char>>,
    pub body: Seq<StmtModel>,
}

/// A top-level item; a module declaration holds its dotted name, an import
/// its path.
pub enum ItemModel {
    ModuleDecl(Seq<char>),
    Import(Seq<Seq<char>>),
    Struct { exported: bool, name: Seq<char>, name_span: Span, fields: Seq<TypedName> },
    Enum { exported: bool, name: Seq<char>, name_span: Span, variants: Seq<Seq<char>> },
    Function(FunctionModel),
}

/// An optional text as a character sequence.
pub open spec fn opt_text(o: Option<String>) -> Option<Seq<char>> {
    match o {
        Some(t) => Some(t@),
        None => None,
    }
}

/// The plain value of an expression.
pub open spec fn expr_model(e: Expr) -> ExprModel
    decreases e,
{
    match e {
        Expr::Name { name, span } => ExprModel::Name { name: name@, span },
        Expr::Int { value, span } => ExprModel::Int { value: value@, span },
        Expr::String { value, span } => ExprModel::Str { value: value@, span },
        Expr::Bool { value, span } => ExprModel::Bool { value, span },
        Expr::Binary { op, left, right, span } => ExprModel::Binary {
            op,
            left: Box::new(expr_model(*left)),
            right: Box::new(expr_model(*right)),
            span,
        },
        Expr::Unary { op, expr, span } => ExprModel::Unary { op, expr: Box::new(expr_model(*expr)), span },
        Expr::Call { callee, callee_span, args, span } => ExprModel::Call {
            callee: callee@,
            callee_span,
            args: exprs_model(args@),
            span,
        },
        Expr::FieldAccess { base, field, field_span, span } => ExprModel::FieldAccess {
            base: Box::new(expr_model(*base)),
            field: field@,
            field_span,
            span,
        },
        Expr::Index { base, index, span } => ExprModel::Index {
            base: Box::new(expr_model(*base)),
            index: Box::new(expr_model(*index)),
            span,
        },
        Expr::ArrayLiteral { elements, span } => ExprModel::ArrayLiteral { elements: exprs_model(elements@), span },
    }
}

pub open spec fn exprs_model(es: Seq<Expr>) -> Seq<ExprModel>
    decreases es,
{
    if es.len() == 0 {
        Seq::empty()
    } else {
        exprs_model(es.drop_last()).push(expr_model(es.last()))
    }
}

pub open spec fn pattern_model(p: Pattern) -> PatternModel {
    match p {
        Pattern::Name(n) => PatternModel::Name(n@),
        Pattern::Int(v) => PatternModel::Int(v@),
        Pattern::String(v) => PatternModel::Str(v@),
        Pattern::Bool(b) => PatternModel::Bool(b),
        Pattern::Wildcard => PatternModel::Wildcard,
    }
}

pub open spec fn stmt_model(s: Stmt) -> StmtModel
    decreases s,
{
    match s {
        Stmt::Let { mutable, name, name_span, ty, value } => StmtModel::Let {
            mutable,
            name: name@,
            name_span,
            ty: opt_text(ty),
            value: expr_model(value),
        },
        Stmt::Assign { name, name_span, value } => StmtModel::Assign { name: name@, name_span, value: expr_model(value) },
        Stmt::If { condition, then_body, else_body } => StmtModel::If {
            condition: expr_model(condition),
            then_body: stmts_model(then_body@),
            else_body: stmts_model(else_body@),
        },
        Stmt::While { condition, body } => StmtModel::While {
            condition: expr_model(condition),
            body: stmts_model(body@),
        },
        Stmt::Match { value, arms } => StmtModel::Match { value: expr_model(value), arms: arms_model(arms@) },
        Stmt::Return(Some(e)) => StmtModel::Return(Some(expr_model(e))),
        Stmt::Return(None) => StmtModel::Return(None),
        Stmt::Expr(e) => StmtModel::Expr(expr_model(e)),
    }
}

pub open spec fn stmts_model(ss: Seq<Stmt>) -> Seq<StmtModel>
    decreases ss,
{
    if ss.len() == 0 {
        Seq::empty()
    } else {
        stmts_model(ss.drop_last()).push(stmt_model(ss.last()))
    }
}

pub open spec fn arms_model(arms: Seq<MatchArm>) -> Seq<(PatternModel, Seq<StmtModel>)>
    decreases arms,
{
    if arms.len() == 0 {
        Seq::empty()
    } else {
        arms_model(arms.drop_last()).push((pattern_model(arms.last().pattern), stmts_model(arms.last().body@)))
    }
}

pub open spec fn params_model(ps: Seq<Param>) -> Seq<TypedName> {
    ps.map_values(|p: Param| (p.name@, p.name_span, p.ty@))
}

pub open spec fn fields_model(fs: Seq<Field>) -> Seq<TypedName> {
    fs.map_values(|f: Field| (f.name@, f.name_span, f.ty@))
}

pub open spec fn function_model(f: Function) -> FunctionModel {
    FunctionModel {
        exported: f.exported,
        name: f.name@,
        name_span: f.name_span,
        params: params_model(f.params@),
        return_type: opt_text(f.return_type),
        body: stmts_model(f.body@),
    }
}

pub open spec fn item_model(i: Item) -> ItemModel {
    match i {
        Item::ModuleDecl { name } => ItemModel::ModuleDecl(name@),
        Item::Import { path } => ItemModel::Import(strings_view(path@)),
        Item::Struct(d) => ItemModel::Struct {
            exported: d.exported,
            name: d.name@,
            name_span: d.name_span,
            fields: fields_model(d.fields@),
        },
        Item::Enum(d) => ItemModel::Enum {
            exported: d.exported,
            name: d.name@,
            name_span: d.name_span,
            variants: strings_view(d.variants@),
        },
        Item::Function(f) => ItemModel::Function(function_model(f)),
    }
}

pub open spec fn items_model(items: Seq<Item>) -> Seq<ItemModel> {
    items.map_values(|i: Item| item_model(i))
}

/// The plain value of a module: its items.
pub open spec fn module_model(m: Module) -> Seq<ItemModel> {
    items_model(m.items@)
}

// ---------------------------------------------------------------------------
// Reading tokens
// ---------------------------------------------------------------------------

/// What a parsing function gives: the value and the position after it, or a
/// diagnostic and the position where parsing stopped.
pub type Parsed<A> = Result<(A, int), (SpecDiagnostic, int)>;

/// A diagnostic at the token at `pos`.
pub open spec fn diag_at(t: Seq<SpecToken>, pos: int, code: Seq<char>, message: Seq<char>) -> SpecDiagnostic {
    SpecDiagnostic { code, message, span: t[pos].span }
}

/// The result of a parsing function called where no token is: never reached
/// from a parser whose position stays on a token.
pub open spec fn off_the_end<A>(pos: int) -> Parsed<A> {
    Err((SpecDiagnostic { code: Seq::empty(), message: Seq::empty(), span: Span { start: 0, end: 0 } }, pos))
}

/// Whether `pos` is on a token.
pub open spec fn on_token(t: Seq<SpecToken>, pos: int) -> bool {
    0 <= pos < t.len()
}

/// Whether a parse that started at `pos` and stopped at `next` moved forward
/// and stayed on a token.
pub open spec fn moved_on(t: Seq<SpecToken>, pos: int, next: int) -> bool {
    pos < next < t.len()
}

pub open spec fn is_symbol(t: Seq<SpecToken>, pos: int, symbol: Symbol) -> bool {
    t[pos].kind == SpecTokenKind::Symbol(symbol)
}

pub open spec fn is_keyword(t: Seq<SpecToken>, pos: int, keyword: Keyword) -> bool {
    t[pos].kind == SpecTokenKind::Keyword(keyword)
}

/// The end of the span of the token before `pos` (of the first token at the
/// start).
pub open spec fn end_before(t: Seq<SpecToken>, pos: int) -> usize {
    if pos > 0 {
        t[pos - 1].span.end
    } else {
        t[0].span.end
    }
}

/// Expecting the symbol `symbol`: the position after it, or an error at it.
pub open spec fn expect_symbol(t: Seq<SpecToken>, pos: int, symbol: Symbol, message: Seq<char>) -> Result<int, (SpecDiagnostic, int)> {
    if is_symbol(t, pos, symbol) {
        Ok(pos + 1)
    } else {
        Err((diag_at(t, pos, "PARSE_EXPECTED_SYMBOL"@, message), pos))
    }
}

/// Expecting a name: the name with its span, or an error at the token.
pub open spec fn expect_ident(t: Seq<SpecToken>, pos: int, message: Seq<char>) -> Parsed<(Seq<char>, Span)> {
    match t[pos].kind {
        SpecTokenKind::Ident(n) => Ok(((n, t[pos].span), pos + 1)),
        _ => Err((diag_at(t, pos, "PARSE_EXPECTED_IDENT"@, message), pos)),
    }
}

// ---------------------------------------------------------------------------
// Expressions
// ---------------------------------------------------------------------------

/// The span of an expression.
pub open spec fn span_of(e: ExprModel) -> Span {
    match e {
        ExprModel::Name { span, .. } => span,
        ExprModel::Int { span, .. } => span,
        ExprModel::Str { span, .. } => span,
        ExprModel::Bool { span, .. } => span,
        ExprModel::Binary { span, .. } => span,
        ExprModel::Unary { span, .. } => span,
        ExprModel::Call { span, .. } => span,
        ExprModel::FieldAccess { span, .. } => span,
        ExprModel::Index { span, .. } => span,
        ExprModel::ArrayLiteral { span, .. } => span,
    }
}

/// The dotted name an expression spells, with its span, where it is a name
/// or a chain of field accesses on one (`a`, `a.b`, `a.b.c`).
pub open spec fn expr_path(e: ExprModel) -> Option<(Seq<char>, Span)>
    decreases e,
{
    match e {
        ExprModel::Name { name, span } => Some((name, span)),
        ExprModel::FieldAccess { base, field, field_span, span } => match expr_path(*base) {
            Some((path, _)) => Some((path + "."@ + field, Span { start: span.start, end: field_span.end })),
            None => None,
        },
        _ => None,
    }
}

/// `left op right`, spanning both.
pub open spec fn binary(op: BinaryOp, left: ExprModel, right: ExprModel) -> ExprModel {
    ExprModel::Binary {
        op,
        left: Box::new(left),
        right: Box::new(right),
        span: Span { start: span_of(left).start, end: span_of(right).end },
    }
}

/// An expression.
pub open spec fn parse_expr(t: Seq<SpecToken>, pos: int) -> Parsed<ExprModel>
    decreases t.len() - pos, 10nat,
{
    if !on_token(t, pos) {
        off_the_end(pos)
    } else {
        parse_or(t, pos)
    }
}

/// `a || b || c`, left-associative.
pub open spec fn parse_or(t: Seq<SpecToken>, pos: int) -> Parsed<ExprModel>
    decreases t.len() - pos, 9nat,
{
    if !on_token(t, pos) {
        off_the_end(pos)
    } else {
        match parse_and(t, pos) {
            Err(e) => Err(e),
            Ok((first, next)) => if moved_on(t, pos, next) {
                or_rest(t, next, first)
            } else {
                off_the_end(next)
            },
        }
    }
}

/// The `|| b` after the disjunction `acc` so far.
pub open spec fn or_rest(t: Seq<SpecToken>, pos: int, acc: ExprModel) -> Parsed<ExprModel>
    decreases t.len() - pos, 9nat,
{
    if !on_token(t, pos) {
        off_the_end(pos)
    } else if is_symbol(t, pos, Symbol::OrOr) {
        match parse_and(t, pos + 1) {
            Err(e) => Err(e),
            Ok((right, next)) => if moved_on(t, pos, next) {
                or_rest(t, next, binary(BinaryOp::Or, acc, right))
            } else {
                off_the_end(next)
            },
        }
    } else {
        Ok((acc, pos))
    }
}

/// `a && b && c`, left-associative.
pub open spec fn parse_and(t: Seq<SpecToken>, pos: int) -> Parsed<ExprModel>
    decreases t.len() - pos, 8nat,
{
    if !on_token(t, pos) {
        off_the_end(pos)
    } else {
        match parse_comparison(t, pos) {
            Err(e) => Err(e),
            Ok((first, next)) => if moved_on(t, pos, next) {
                and_rest(t, next, first)
            } else {
                off_the_end(next)
            },
        }
    }
}

/// The `&& b` after the conjunction `acc` so far.
pub open spec fn and_rest(t: Seq<SpecToken>, pos: int, acc: ExprModel) -> Parsed<ExprModel>
    decreases t.len() - pos, 8nat,
{
    if !on_token(t, pos) {
        off_the_end(pos)
    } else if is_symbol(t, pos, Symbol::AndAnd) {
        match parse_comparison(t, pos + 1) {
            Err(e) => Err(e),
            Ok((right, next)) => if moved_on(t, pos, next) {
                and_rest(t, next, binary(BinaryOp::And, acc, right))
            } else {
                off_the_end(next)
            },
        }
    } else {
        Ok((acc, pos))
    }
}

/// The comparison operator the token at `pos` stands for, if any.
pub open spec fn comparison_op(t: Seq<SpecToken>, pos: int) -> Option<BinaryOp> {
    if is_symbol(t, pos, Symbol::EqEq) {
        Some(BinaryOp::Eq)
    } else if is_symbol(t, pos, Symbol::BangEq) {
        Some(BinaryOp::NotEq)
    } else if is_symbol(t, pos, Symbol::Lte) {
        Some(BinaryOp::Lte)
    } else if is_symbol(t, pos, Symbol::Lt) {
        Some(BinaryOp::Lt)
    } else if is_symbol(t, pos, Symbol::Gte) {
        Some(BinaryOp::Gte)
    } else if is_symbol(t, pos, Symbol::Gt) {
        Some(BinaryOp::Gt)
    } else {
        None
    }
}

/// `a < b == c`, left-associative comparisons of sums.
pub open spec fn parse_comparison(t: Seq<SpecToken>, pos: int) -> Parsed<ExprModel>
    decreases t.len() - pos, 7nat,
{
    if !on_token(t, pos) {
        off_the_end(pos)
    } else {
        match parse_additive(t, pos) {
            Err(e) => Err(e),
            Ok((first, next)) => if moved_on(t, pos, next) {
                comparison_rest(t, next, first)
            } else {
                off_the_end(next)
            },
        }
    }
}

/// The `< b` after the comparison `acc` so far.
pub open spec fn comparison_rest(t: Seq<SpecToken>, pos: int, acc: ExprModel) -> Parsed<ExprModel>
    decreases t.len() - pos, 7nat,
{
    if !on_token(t, pos) {
        off_the_end(pos)
    } else {
        match comparison_op(t, pos) {
            Some(op) => match parse_additive(t, pos + 1) {
                Err(e) => Err(e),
                Ok((right, next)) => if moved_on(t, pos, next) {
                    comparison_rest(t, next, binary(op, acc, right))
                } else {
                    off_the_end(next)
                },
            },
            None => Ok((acc, pos)),
        }
    }
}

/// `a + b - c`, left-associative.
pub open spec fn parse_additive(t: Seq<SpecToken>, pos: int) -> Parsed<ExprModel>
    decreases t.len() - pos, 5nat,
{
    if !on_token(t, pos) {
        off_the_end(pos)
    } else {
        match parse_multiplicative(t, pos) {
            Err(e) => Err(e),
            Ok((first, next)) => if moved_on(t, pos, next) {
                additive_rest(t, next, first)
            } else {
                off_the_end(next)
            },
        }
    }
}

/// The `+ b - c` after the sum `acc` so far.
pub open spec fn additive_rest(t: Seq<SpecToken>, pos: int, acc: ExprModel) -> Parsed<ExprModel>
    decreases t.len() - pos, 5nat,
{
    if !on_token(t, pos) {
        off_the_end(pos)
    } else if is_symbol(t, pos, Symbol::Plus) || is_symbol(t, pos, Symbol::Minus) {
        let op = if is_symbol(t, pos, Symbol::Plus) { BinaryOp::Add } else { BinaryOp::Sub };
        match parse_multiplicative(t, pos + 1) {
            Err(e) => Err(e),
            Ok((right, next)) => if moved_on(t, pos, next) {
                additive_rest(t, next, binary(op, acc, right))
            } else {
                off_the_end(next)
            },
        }
    } else {
        Ok((acc, pos))
    }
}

/// `a * b / c`, left-associative.
pub open spec fn parse_multiplicative(t: Seq<SpecToken>, pos: int) -> Parsed<ExprModel>
    decreases t.len() - pos, 4nat,
{
    if !on_token(t, pos) {
        off_the_end(pos)
    } else {
        match parse_unary(t, pos) {
            Err(e) => Err(e),
            Ok((first, next)) => if moved_on(t, pos, next) {
                multiplicative_rest(t, next, first)
            } else {
                off_the_end(next)
            },
        }
    }
}

/// The `* b / c` after the product `acc` so far.
pub open spec fn multiplicative_rest(t: Seq<SpecToken>, pos: int, acc: ExprModel) -> Parsed<ExprModel>
    decreases t.len() - pos, 4nat,
{
    if !on_token(t, pos) {
        off_the_end(pos)
    } else if is_symbol(t, pos, Symbol::Star) || is_symbol(t, pos, Symbol::Slash) {
        let op = if is_symbol(t, pos, Symbol::Star) { BinaryOp::Mul } else { BinaryOp::Div };
        match parse_unary(t, pos + 1) {
            Err(e) => Err(e),
            Ok((right, next)) => if moved_on(t, pos, next) {
                multiplicative_rest(t, next, binary(op, acc, right))
            } else {
                off_the_end(next)
            },
        }
    } else {
        Ok((acc, pos))
    }
}

/// `!e` and `-e`, or a call or primary expression.
pub open spec fn parse_unary(t: Seq<SpecToken>, pos: int) -> Parsed<ExprModel>
    decreases t.len() - pos, 3nat,
{
    if !on_token(t, pos) {
        off_the_end(pos)
    } else if is_symbol(t, pos, Symbol::Bang) || is_symbol(t, pos, Symbol::Minus) {
        let op = if is_symbol(t, pos, Symbol::Bang) { UnaryOp::Not } else { UnaryOp::Neg };
        if moved_on(t, pos, pos + 1) {
            match parse_unary(t, pos + 1) {
                Err(e) => Err(e),
                Ok((operand, next)) => Ok((
                    ExprModel::Unary {
                        op,
                        expr: Box::new(operand),
                        span: Span { start: t[pos].span.start, end: span_of(operand).end },
                    },
                    next,
                )),
            }
        } else {
            off_the_end(pos + 1)
        }
    } else {
        parse_call(t, pos)
    }
}

/// A primary expression followed by any number of postfixes: call
/// arguments after a name path, `.field` (or `.0`), `.m(args)` on a value
/// that is not a name path (the call `m(value, args)`), and `[index]`.
pub open spec fn parse_call(t: Seq<SpecToken>, pos: int) -> Parsed<ExprModel>
    decreases t.len() - pos, 2nat,
{
    if !on_token(t, pos) {
        off_the_end(pos)
    } else {
        match parse_primary(t, pos) {
            Err(e) => Err(e),
            Ok((e, next)) => if moved_on(t, pos, next) {
                postfix_rest(t, next, e)
            } else {
                off_the_end(next)
            },
        }
    }
}

/// The postfixes from `pos` on, applied to `acc`.
pub open spec fn postfix_rest(t: Seq<SpecToken>, pos: int, acc: ExprModel) -> Parsed<ExprModel>
    decreases t.len() - pos, 1nat,
{
    if !on_token(t, pos) {
        off_the_end(pos)
    } else if !is_symbol(t, pos, Symbol::LParen) && !is_symbol(t, pos, Symbol::Dot) && !is_symbol(
        t,
        pos,
        Symbol::LBracket,
    ) {
        Ok((acc, pos))
    } else {
        let step = if is_symbol(t, pos, Symbol::LParen) {
            call_postfix(t, pos, acc)
        } else if is_symbol(t, pos, Symbol::Dot) {
            dot_postfix(t, pos, acc)
        } else {
            index_postfix(t, pos, acc)
        };
        match step {
            Err(e) => Err(e),
            Ok((e, next)) => if moved_on(t, pos, next) {
                postfix_rest(t, next, e)
            } else {
                off_the_end(next)
            },
        }
    }
}

/// Call arguments at `pos` (on `(`) after `acc`, which must be a name path.
pub open spec fn call_postfix(t: Seq<SpecToken>, pos: int, acc: ExprModel) -> Parsed<ExprModel>
    decreases t.len() - pos, 0nat,
{
    if !on_token(t, pos) {
        off_the_end(pos)
    } else {
        match expr_path(acc) {
            None => Err((
                diag_at(t, pos + 1, "PARSE_EXPECTED_CALL_TARGET"@, "expected function name before call arguments"@),
                pos + 1,
            )),
            Some((callee, callee_span)) => match parse_call_args(t, pos + 1) {
                Err(e) => Err(e),
                Ok((args, after)) => Ok((
                    ExprModel::Call {
                        callee,
                        callee_span,
                        args,
                        span: Span { start: callee_span.start, end: end_before(t, after) },
                    },
                    after,
                )),
            },
        }
    }
}

/// `.field`, `.0` or `.m(args)` at `pos` (on `.`) after `acc`: a method
/// call only where `acc` is not a name path.
pub open spec fn dot_postfix(t: Seq<SpecToken>, pos: int, acc: ExprModel) -> Parsed<ExprModel>
    decreases t.len() - pos, 0nat,
{
    let start = span_of(acc).start;
    if !on_token(t, pos + 1) {
        off_the_end(pos + 1)
    } else if t[pos + 1].kind is Int {
        let field_span = t[pos + 1].span;
        Ok((
            ExprModel::FieldAccess {
                base: Box::new(acc),
                field: t[pos + 1].kind->Int_0,
                field_span,
                span: Span { start, end: field_span.end },
            },
            pos + 2,
        ))
    } else {
        match expect_ident(t, pos + 1, "expected field name after `.`"@) {
            Err(e) => Err(e),
            Ok(((field, field_span), after)) => if on_token(t, after) && is_symbol(t, after, Symbol::LParen)
                && expr_path(acc) is None {
                match parse_call_args(t, after + 1) {
                    Err(e) => Err(e),
                    Ok((rest, end)) => Ok((
                        ExprModel::Call {
                            callee: field,
                            callee_span: field_span,
                            args: seq![acc] + rest,
                            span: Span { start, end: end_before(t, end) },
                        },
                        end,
                    )),
                }
            } else {
                Ok((
                    ExprModel::FieldAccess {
                        base: Box::new(acc),
                        field,
                        field_span,
                        span: Span { start, end: field_span.end },
                    },
                    after,
                ))
            },
        }
    }
}

/// `[index]` at `pos` (on `[`) after `acc`.
pub open spec fn index_postfix(t: Seq<SpecToken>, pos: int, acc: ExprModel) -> Parsed<ExprModel>
    decreases t.len() - pos, 0nat,
{
    if !on_token(t, pos) {
        off_the_end(pos)
    } else {
        match parse_expr(t, pos + 1) {
            Err(e) => Err(e),
            Ok((index, next)) => match expect_symbol(t, next, Symbol::RBracket, "expected `]` after index expression"@) {
                Err(e) => Err(e),
                Ok(after) => Ok((
                    ExprModel::Index {
                        base: Box::new(acc),
                        index: Box::new(index),
                        span: Span { start: span_of(acc).start, end: end_before(t, after) },
                    },
                    after,
                )),
            },
        }
    }
}

/// The arguments after `(`, through the closing `)`.
pub open spec fn parse_call_args(t: Seq<SpecToken>, pos: int) -> Parsed<Seq<ExprModel>>
    decreases t.len() - pos, 12nat,
{
    if !on_token(t, pos) {
        off_the_end(pos)
    } else if is_symbol(t, pos, Symbol::RParen) {
        Ok((Seq::empty(), pos + 1))
    } else {
        call_args_rest(t, pos, Seq::empty())
    }
}

/// The arguments from `pos` on, after the arguments `acc` and their commas.
pub open spec fn call_args_rest(t: Seq<SpecToken>, pos: int, acc: Seq<ExprModel>) -> Parsed<Seq<ExprModel>>
    decreases t.len() - pos, 11nat,
{
    if !on_token(t, pos) {
        off_the_end(pos)
    } else {
        match parse_expr(t, pos) {
            Err(e) => Err(e),
            Ok((arg, next)) => if is_symbol(t, next, Symbol::Comma) {
                if moved_on(t, pos, next) {
                    call_args_rest(t, next + 1, acc.push(arg))
                } else {
                    off_the_end(next)
                }
            } else {
                match expect_symbol(t, next, Symbol::RParen, "expected `)` after call arguments"@) {
                    Ok(after) => Ok((acc.push(arg), after)),
                    Err(e) => Err(e),
                }
            },
        }
    }
}

/// A name, a literal, or a parenthesized expression.
pub open spec fn parse_primary(t: Seq<SpecToken>, pos: int) -> Parsed<ExprModel>
    decreases t.len() - pos, 1nat,
{
    if !on_token(t, pos) {
        off_the_end(pos)
    } else {
        let span = t[pos].span;
        match t[pos].kind {
            SpecTokenKind::Ident(name) => Ok((ExprModel::Name { name, span }, pos + 1)),
            SpecTokenKind::Int(value) => Ok((ExprModel::Int { value, span }, pos + 1)),
            SpecTokenKind::Str(value) => Ok((ExprModel::Str { value, span }, pos + 1)),
            SpecTokenKind::Keyword(Keyword::True) => Ok((ExprModel::Bool { value: true, span }, pos + 1)),
            SpecTokenKind::Keyword(Keyword::False) => Ok((ExprModel::Bool { value: false, span }, pos + 1)),
            SpecTokenKind::Symbol(Symbol::LParen) => match parse_expr(t, pos + 1) {
                Err(e) => Err(e),
                Ok((inner, next)) => match expect_symbol(t, next, Symbol::RParen, "expected `)` after expression"@) {
                    Ok(after) => Ok((inner, after)),
                    Err(e) => Err(e),
                },
            },
            SpecTokenKind::Symbol(Symbol::LBracket) => match array_elements(t, pos + 1) {
                Err(e) => Err(e),
                Ok((elements, after)) => Ok((
                    ExprModel::ArrayLiteral { elements, span: Span { start: span.start, end: end_before(t, after) } },
                    after,
                )),
            },
            _ => Err((diag_at(t, pos, "PARSE_EXPECTED_EXPR"@, "expected expression"@), pos)),
        }
    }
}

/// The elements of an array literal, from `pos` (after its `[`) through the
/// closing `]`; a trailing comma is allowed.
pub open spec fn array_elements(t: Seq<SpecToken>, pos: int) -> Parsed<Seq<ExprModel>>
    decreases t.len() - pos, 12nat,
{
    if !on_token(t, pos) {
        off_the_end(pos)
    } else if is_symbol(t, pos, Symbol::RBracket) {
        Ok((Seq::empty(), pos + 1))
    } else {
        elements_rest(t, pos, Seq::empty())
    }
}

/// The elements from `pos` on, after the elements `acc` and their commas.
pub open spec fn elements_rest(t: Seq<SpecToken>, pos: int, acc: Seq<ExprModel>) -> Parsed<Seq<ExprModel>>
    decreases t.len() - pos, 11nat,
{
    if !on_token(t, pos) {
        off_the_end(pos)
    } else {
        match parse_expr(t, pos) {
            Err(e) => Err(e),
            Ok((element, next)) => if is_symbol(t, next, Symbol::Comma) {
                if moved_on(t, pos, next) {
                    if on_token(t, next + 1) && is_symbol(t, next + 1, Symbol::RBracket) {
                        Ok((acc.push(element), next + 2))
                    } else {
                        elements_rest(t, next + 1, acc.push(element))
                    }
                } else {
                    off_the_end(next)
                }
            } else {
                match expect_symbol(t, next, Symbol::RBracket, "expected `]` after array literal"@) {
                    Ok(after) => Ok((acc.push(element), after)),
                    Err(e) => Err(e),
                }
            },
        }
    }
}

// ---------------------------------------------------------------------------
// What the parser returned, as plain values
// ---------------------------------------------------------------------------

pub open spec fn expr_parsed(r: Result<Expr, Diagnostic>, pos: int) -> Parsed<ExprModel> {
    match r {
        Ok(e) => Ok((expr_model(e), pos)),
        Err(d) => Err((d@, pos)),
    }
}

pub open spec fn exprs_parsed(r: Result<Vec<Expr>, Diagnostic>, pos: int) -> Parsed<Seq<ExprModel>> {
    match r {
        Ok(es) => Ok((exprs_model(es@), pos)),
        Err(d) => Err((d@, pos)),
    }
}

/// An expression and its plain value cover the same span.
pub proof fn lemma_span_of_model(e: Expr)
    ensures
        span_of(expr_model(e)) == expr_span(e),
{
}

// ---------------------------------------------------------------------------
// Type annotations
// ---------------------------------------------------------------------------

/// The parts joined with `sep` between them.
pub open spec fn join_texts(parts: Seq<Seq<char>>, sep: Seq<char>) -> Seq<char>
    decreases parts.len(),
{
    if parts.len() == 0 {
        Seq::empty()
    } else if parts.len() == 1 {
        parts[0]
    } else {
        join_texts(parts.drop_last(), sep) + sep + parts.last()
    }
}

/// A path's parts joined with `.` are its dotted text.
pub proof fn lemma_dotted_is_joined(parts: Seq<String>)
    ensures
        crate::ast::dotted(parts) == join_texts(strings_view(parts), "."@),
    decreases parts.len(),
{
    if parts.len() > 1 {
        lemma_dotted_is_joined(parts.drop_last());
        assert(strings_view(parts.drop_last()) =~= strings_view(parts).drop_last());
    }
}

/// A type annotation, as its canonical text with its span: a name, a generic
/// instance `Name<A, B>`, a tuple `(A, B)` (a single parenthesized type is
/// that type), a function type `fn(A) -> R`, or a pointer `*T`.
pub open spec fn parse_type(t: Seq<SpecToken>, pos: int, message: Seq<char>) -> Parsed<(Seq<char>, Span)>
    decreases t.len() - pos, 1nat,
{
    if !on_token(t, pos) {
        off_the_end(pos)
    } else {
        let start = t[pos].span.start;
        if is_symbol(t, pos, Symbol::Star) {
            if moved_on(t, pos, pos + 1) {
                match parse_type(t, pos + 1, "expected pointee type after `*`"@) {
                    Err(e) => Err(e),
                    Ok(((inner, inner_span), next)) => Ok((("*"@ + inner, Span { start, end: inner_span.end }), next)),
                }
            } else {
                off_the_end(pos + 1)
            }
        } else if is_keyword(t, pos, Keyword::Fn) {
            match expect_symbol(t, pos + 1, Symbol::LParen, "expected `(` after `fn` in function type"@) {
                Err(e) => Err(e),
                Ok(open) => {
                    let params = if is_symbol(t, open, Symbol::RParen) {
                        Ok((Seq::empty(), open))
                    } else if moved_on(t, pos, open) {
                        type_list(t, open, Seq::empty(), "expected parameter type"@)
                    } else {
                        off_the_end(open)
                    };
                    match params {
                        Err(e) => Err(e),
                        Ok((params, next)) => match expect_symbol(
                            t,
                            next,
                            Symbol::RParen,
                            "expected `)` after function-type parameters"@,
                        ) {
                            Err(e) => Err(e),
                            Ok(close) => match expect_symbol(t, close, Symbol::Arrow, "expected `->` in function type"@) {
                                Err(e) => Err(e),
                                Ok(ret_pos) => if moved_on(t, pos, ret_pos) {
                                    match parse_type(t, ret_pos, "expected function return type"@) {
                                        Err(e) => Err(e),
                                        Ok(((ret, _), after)) => Ok((
                                            (
                                                "fn("@ + join_texts(params, ", "@) + ") -> "@ + ret,
                                                Span { start, end: end_before(t, after) },
                                            ),
                                            after,
                                        )),
                                    }
                                } else {
                                    off_the_end(ret_pos)
                                },
                            },
                        },
                    }
                },
            }
        } else if is_symbol(t, pos, Symbol::LParen) {
            let parts = if is_symbol(t, pos + 1, Symbol::RParen) {
                Ok(((Seq::empty(), false), pos + 1))
            } else if moved_on(t, pos, pos + 1) {
                tuple_list(t, pos + 1, Seq::empty(), false)
            } else {
                off_the_end(pos + 1)
            };
            match parts {
                Err(e) => Err(e),
                Ok(((parts, saw_comma), next)) => match expect_symbol(t, next, Symbol::RParen, "expected `)` after tuple type"@) {
                    Err(e) => Err(e),
                    Ok(after) => {
                        let span = Span { start, end: end_before(t, after) };
                        if parts.len() == 1 && !saw_comma {
                            Ok(((parts[0], span), after))
                        } else {
                            Ok((("("@ + join_texts(parts, ", "@) + ")"@, span), after))
                        }
                    },
                },
            }
        } else {
            match expect_ident(t, pos, message) {
                Err(e) => Err(e),
                Ok(((name, span), next)) => if is_symbol(t, next, Symbol::Lt) {
                    let args = if is_symbol(t, next + 1, Symbol::Gt) {
                        Ok((Seq::empty(), next + 1))
                    } else if moved_on(t, pos, next + 1) {
                        type_list(t, next + 1, Seq::empty(), "expected generic type argument"@)
                    } else {
                        off_the_end(next + 1)
                    };
                    match args {
                        Err(e) => Err(e),
                        Ok((args, close)) => match expect_symbol(
                            t,
                            close,
                            Symbol::Gt,
                            "expected `>` after generic type arguments"@,
                        ) {
                            Err(e) => Err(e),
                            Ok(after) => Ok((
                                (name + "<"@ + join_texts(args, ", "@) + ">"@, Span { start: span.start, end: end_before(t, after) }),
                                after,
                            )),
                        },
                    }
                } else {
                    Ok(((name, span), next))
                },
            }
        }
    }
}

/// Comma-separated types from `pos` on, after the types `acc`: stops after
/// the first type that no comma follows.
pub open spec fn type_list(t: Seq<SpecToken>, pos: int, acc: Seq<Seq<char>>, message: Seq<char>) -> Parsed<Seq<Seq<char>>>
    decreases t.len() - pos, 2nat,
{
    if !on_token(t, pos) {
        off_the_end(pos)
    } else {
        match parse_type(t, pos, message) {
            Err(e) => Err(e),
            Ok(((ty, _), next)) => if is_symbol(t, next, Symbol::Comma) {
                if moved_on(t, pos, next + 1) {
                    type_list(t, next + 1, acc.push(ty), message)
                } else {
                    off_the_end(next + 1)
                }
            } else {
                Ok((acc.push(ty), next))
            },
        }
    }
}

/// The types of a tuple from `pos` on, after the types `acc`; a trailing
/// comma before `)` is allowed. Also gives whether a comma was seen.
pub open spec fn tuple_list(t: Seq<SpecToken>, pos: int, acc: Seq<Seq<char>>, saw_comma: bool) -> Parsed<(Seq<Seq<char>>, bool)>
    decreases t.len() - pos, 2nat,
{
    if !on_token(t, pos) {
        off_the_end(pos)
    } else {
        match parse_type(t, pos, "expected type"@) {
            Err(e) => Err(e),
            Ok(((ty, _), next)) => if is_symbol(t, next, Symbol::Comma) {
                if is_symbol(t, next + 1, Symbol::RParen) {
                    Ok(((acc.push(ty), true), next + 1))
                } else if moved_on(t, pos, next + 1) {
                    tuple_list(t, next + 1, acc.push(ty), true)
                } else {
                    off_the_end(next + 1)
                }
            } else {
                Ok(((acc.push(ty), saw_comma), next))
            },
        }
    }
}

pub open spec fn text_parsed(r: Result<(String, Span), Diagnostic>, pos: int) -> Parsed<(Seq<char>, Span)> {
    match r {
        Ok((s, span)) => Ok(((s@, span), pos)),
        Err(d) => Err((d@, pos)),
    }
}

// ---------------------------------------------------------------------------
// Statements
// ---------------------------------------------------------------------------

/// A match pattern: one token.
pub open spec fn parse_pattern(t: Seq<SpecToken>, pos: int) -> Parsed<PatternModel> {
    match t[pos].kind {
        SpecTokenKind::Ident(n) => if n == "_"@ {
            Ok((PatternModel::Wildcard, pos + 1))
        } else {
            Ok((PatternModel::Name(n), pos + 1))
        },
        SpecTokenKind::Int(v) => Ok((PatternModel::Int(v), pos + 1)),
        SpecTokenKind::Str(v) => Ok((PatternModel::Str(v), pos + 1)),
        SpecTokenKind::Keyword(Keyword::True) => Ok((PatternModel::Bool(true), pos + 1)),
        SpecTokenKind::Keyword(Keyword::False) => Ok((PatternModel::Bool(false), pos + 1)),
        _ => Err((diag_at(t, pos, "PARSE_EXPECTED_PATTERN"@, "expected match pattern"@), pos)),
    }
}

/// The optional `: Type` of a `let` at `pos`.
pub open spec fn let_type(t: Seq<SpecToken>, pos: int) -> Parsed<Option<Seq<char>>> {
    if is_symbol(t, pos, Symbol::Colon) {
        match parse_type(t, pos + 1, "expected local type"@) {
            Err(e) => Err(e),
            Ok(((ty, _), next)) => Ok((Some(ty), next)),
        }
    } else {
        Ok((None, pos))
    }
}

/// The rest of a `let` statement after the keyword.
pub open spec fn let_rest(t: Seq<SpecToken>, pos: int) -> Parsed<StmtModel> {
    let mutable = is_keyword(t, pos, Keyword::Mut);
    let name_pos = if mutable { pos + 1 } else { pos };
    match expect_ident(t, name_pos, "expected local name"@) {
        Err(e) => Err(e),
        Ok(((name, name_span), p1)) => match let_type(t, p1) {
            Err(e) => Err(e),
            Ok((ty, p2)) => match expect_symbol(t, p2, Symbol::Eq, "expected `=` in let statement"@) {
                Err(e) => Err(e),
                Ok(p3) => match parse_expr(t, p3) {
                    Err(e) => Err(e),
                    Ok((value, p4)) => match expect_symbol(t, p4, Symbol::Semicolon, "expected `;` after let statement"@) {
                        Err(e) => Err(e),
                        Ok(p5) => Ok((StmtModel::Let { mutable, name, name_span, ty, value }, p5)),
                    },
                },
            },
        },
    }
}

/// The rest of a `return` statement after the keyword.
pub open spec fn return_rest(t: Seq<SpecToken>, pos: int) -> Parsed<StmtModel> {
    if is_symbol(t, pos, Symbol::Semicolon) {
        Ok((StmtModel::Return(None), pos + 1))
    } else {
        match parse_expr(t, pos) {
            Err(e) => Err(e),
            Ok((value, p1)) => match expect_symbol(t, p1, Symbol::Semicolon, "expected `;` after return statement"@) {
                Err(e) => Err(e),
                Ok(p2) => Ok((StmtModel::Return(Some(value)), p2)),
            },
        }
    }
}

/// The operator of a compound assignment `+=`, `-=`, `*=` or `/=` at `pos`.
pub open spec fn compound_op(t: Seq<SpecToken>, pos: int) -> Option<BinaryOp> {
    if is_symbol(t, pos, Symbol::PlusEq) {
        Some(BinaryOp::Add)
    } else if is_symbol(t, pos, Symbol::MinusEq) {
        Some(BinaryOp::Sub)
    } else if is_symbol(t, pos, Symbol::StarEq) {
        Some(BinaryOp::Mul)
    } else if is_symbol(t, pos, Symbol::SlashEq) {
        Some(BinaryOp::Div)
    } else {
        None
    }
}

/// An expression statement, or an assignment when `=` follows a name; `a op=
/// b` assigns `a op b` to `a`.
pub open spec fn expr_stmt(t: Seq<SpecToken>, pos: int) -> Parsed<StmtModel> {
    match parse_expr(t, pos) {
        Err(e) => Err(e),
        Ok((e, p1)) => if is_symbol(t, p1, Symbol::Eq) {
            match e {
                ExprModel::Name { name, span } => match parse_expr(t, p1 + 1) {
                    Err(err) => Err(err),
                    Ok((value, p2)) => match expect_symbol(t, p2, Symbol::Semicolon, "expected `;` after assignment"@) {
                        Err(err) => Err(err),
                        Ok(p3) => Ok((StmtModel::Assign { name, name_span: span, value }, p3)),
                    },
                },
                _ => Err((
                    diag_at(t, p1 + 1, "PARSE_EXPECTED_ASSIGN_TARGET"@, "expected a local name before `=`"@),
                    p1 + 1,
                )),
            }
        } else if compound_op(t, p1) is Some {
            let op = compound_op(t, p1).unwrap();
            match e {
                ExprModel::Name { name, span } => match parse_expr(t, p1 + 1) {
                    Err(err) => Err(err),
                    Ok((rhs, p2)) => match expect_symbol(t, p2, Symbol::Semicolon, "expected `;` after assignment"@) {
                        Err(err) => Err(err),
                        Ok(p3) => Ok((
                            StmtModel::Assign {
                                name,
                                name_span: span,
                                value: binary(op, ExprModel::Name { name, span }, rhs),
                            },
                            p3,
                        )),
                    },
                },
                _ => Err((
                    diag_at(t, p1 + 1, "PARSE_EXPECTED_ASSIGN_TARGET"@, "expected a local name before `=`"@),
                    p1 + 1,
                )),
            }
        } else {
            match expect_symbol(t, p1, Symbol::Semicolon, "expected `;` after expression statement"@) {
                Err(err) => Err(err),
                Ok(p2) => Ok((StmtModel::Expr(e), p2)),
            }
        },
    }
}

/// The statements of a block after its `{`, through the closing `}`.
pub open spec fn parse_block(t: Seq<SpecToken>, pos: int) -> Parsed<Seq<StmtModel>>
    decreases t.len() - pos, 3nat,
{
    if !on_token(t, pos) {
        off_the_end(pos)
    } else {
        block_rest(t, pos, Seq::empty())
    }
}

/// The statements of a block from `pos` on, after the statements `acc`.
pub open spec fn block_rest(t: Seq<SpecToken>, pos: int, acc: Seq<StmtModel>) -> Parsed<Seq<StmtModel>>
    decreases t.len() - pos, 2nat,
{
    if !on_token(t, pos) {
        off_the_end(pos)
    } else if is_symbol(t, pos, Symbol::RBrace) || t[pos].kind is Eof {
        match expect_symbol(t, pos, Symbol::RBrace, "expected `}` after function body"@) {
            Err(e) => Err(e),
            Ok(after) => Ok((acc, after)),
        }
    } else {
        match parse_stmt(t, pos) {
            Err(e) => Err(e),
            Ok((stmt, next)) => if moved_on(t, pos, next) {
                block_rest(t, next, acc.push(stmt))
            } else {
                off_the_end(next)
            },
        }
    }
}

/// A statement.
pub open spec fn parse_stmt(t: Seq<SpecToken>, pos: int) -> Parsed<StmtModel>
    decreases t.len() - pos, 1nat,
{
    if !on_token(t, pos) {
        off_the_end(pos)
    } else if is_keyword(t, pos, Keyword::Let) {
        let_rest(t, pos + 1)
    } else if is_keyword(t, pos, Keyword::If) {
        if moved_on(t, pos, pos + 1) {
            if_rest(t, pos + 1)
        } else {
            off_the_end(pos + 1)
        }
    } else if is_keyword(t, pos, Keyword::While) {
        if moved_on(t, pos, pos + 1) {
            while_rest(t, pos + 1)
        } else {
            off_the_end(pos + 1)
        }
    } else if is_keyword(t, pos, Keyword::Match) {
        if moved_on(t, pos, pos + 1) {
            match_rest(t, pos + 1)
        } else {
            off_the_end(pos + 1)
        }
    } else if is_keyword(t, pos, Keyword::Return) {
        return_rest(t, pos + 1)
    } else {
        expr_stmt(t, pos)
    }
}

/// The rest of an `if` statement after the keyword; `else if` is an `else`
/// block holding a single `if`.
pub open spec fn if_rest(t: Seq<SpecToken>, pos: int) -> Parsed<StmtModel>
    decreases t.len() - pos, 1nat,
{
    if !on_token(t, pos) {
        off_the_end(pos)
    } else {
        match parse_expr(t, pos) {
            Err(e) => Err(e),
            Ok((condition, p1)) => match expect_symbol(t, p1, Symbol::LBrace, "expected `{` after if condition"@) {
                Err(e) => Err(e),
                Ok(p2) => if moved_on(t, pos, p2) {
                    match parse_block(t, p2) {
                        Err(e) => Err(e),
                        Ok((then_body, p3)) => match else_part(t, pos, p3) {
                            Err(e) => Err(e),
                            Ok((else_body, p4)) => Ok((StmtModel::If { condition, then_body, else_body }, p4)),
                        },
                    }
                } else {
                    off_the_end(p2)
                },
            },
        }
    }
}

/// What follows the `then` block of an `if` that started at `start`, at `pos`.
pub open spec fn else_part(t: Seq<SpecToken>, start: int, pos: int) -> Parsed<Seq<StmtModel>>
    decreases t.len() - start, 0nat,
{
    if !(start < pos) {
        off_the_end(pos)
    } else if is_keyword(t, pos, Keyword::Else) {
        if is_keyword(t, pos + 1, Keyword::If) {
            if moved_on(t, start, pos + 1) {
                match parse_stmt(t, pos + 1) {
                    Err(e) => Err(e),
                    Ok((nested, p1)) => Ok((seq![nested], p1)),
                }
            } else {
                off_the_end(pos + 1)
            }
        } else {
            match expect_symbol(t, pos + 1, Symbol::LBrace, "expected `{` after else"@) {
                Err(e) => Err(e),
                Ok(p1) => if moved_on(t, start, p1) {
                    parse_block(t, p1)
                } else {
                    off_the_end(p1)
                },
            }
        }
    } else {
        Ok((Seq::empty(), pos))
    }
}

/// The rest of a `while` statement after the keyword.
pub open spec fn while_rest(t: Seq<SpecToken>, pos: int) -> Parsed<StmtModel>
    decreases t.len() - pos, 1nat,
{
    if !on_token(t, pos) {
        off_the_end(pos)
    } else {
        match parse_expr(t, pos) {
            Err(e) => Err(e),
            Ok((condition, p1)) => match expect_symbol(t, p1, Symbol::LBrace, "expected `{` after while condition"@) {
                Err(e) => Err(e),
                Ok(p2) => if moved_on(t, pos, p2) {
                    match parse_block(t, p2) {
                        Err(e) => Err(e),
                        Ok((body, p3)) => Ok((StmtModel::While { condition, body }, p3)),
                    }
                } else {
                    off_the_end(p2)
                },
            },
        }
    }
}

/// The rest of a `match` statement after the keyword.
pub open spec fn match_rest(t: Seq<SpecToken>, pos: int) -> Parsed<StmtModel>
    decreases t.len() - pos, 1nat,
{
    if !on_token(t, pos) {
        off_the_end(pos)
    } else {
        match parse_expr(t, pos) {
            Err(e) => Err(e),
            Ok((value, p1)) => match expect_symbol(t, p1, Symbol::LBrace, "expected `{` after match value"@) {
                Err(e) => Err(e),
                Ok(p2) => if moved_on(t, pos, p2) {
                    match arms_rest(t, p2, Seq::empty()) {
                        Err(e) => Err(e),
                        Ok((arms, p3)) => Ok((StmtModel::Match { value, arms }, p3)),
                    }
                } else {
                    off_the_end(p2)
                },
            },
        }
    }
}

/// The arms of a match from `pos` on, after the arms `acc`, through the
/// closing `}`.
pub open spec fn arms_rest(t: Seq<SpecToken>, pos: int, acc: Seq<(PatternModel, Seq<StmtModel>)>) -> Parsed<Seq<(PatternModel, Seq<StmtModel>)>>
    decreases t.len() - pos, 2nat,
{
    if !on_token(t, pos) {
        off_the_end(pos)
    } else if is_symbol(t, pos, Symbol::RBrace) || t[pos].kind is Eof {
        match expect_symbol(t, pos, Symbol::RBrace, "expected `}` after match arms"@) {
            Err(e) => Err(e),
            Ok(after) => Ok((acc, after)),
        }
    } else {
        match parse_arm(t, pos) {
            Err(e) => Err(e),
            Ok((arm, next)) => if moved_on(t, pos, next) {
                arms_rest(t, next, acc.push(arm))
            } else {
                off_the_end(next)
            },
        }
    }
}

/// A match arm `pattern -> { body }`, with an optional trailing comma.
pub open spec fn parse_arm(t: Seq<SpecToken>, pos: int) -> Parsed<(PatternModel, Seq<StmtModel>)>
    decreases t.len() - pos, 1nat,
{
    if !on_token(t, pos) {
        off_the_end(pos)
    } else {
        match parse_pattern(t, pos) {
            Err(e) => Err(e),
            Ok((pattern, p1)) => match expect_symbol(t, p1, Symbol::Arrow, "expected `->` after match pattern"@) {
                Err(e) => Err(e),
                Ok(p2) => match expect_symbol(t, p2, Symbol::LBrace, "expected `{` after match arm"@) {
                    Err(e) => Err(e),
                    Ok(p3) => if moved_on(t, pos, p3) {
                        match parse_block(t, p3) {
                            Err(e) => Err(e),
                            Ok((body, p4)) => Ok(((pattern, body), if is_symbol(t, p4, Symbol::Comma) { p4 + 1 } else { p4 })),
                        }
                    } else {
                        off_the_end(p3)
                    },
                },
            },
        }
    }
}

pub open spec fn pattern_parsed(r: Result<Pattern, Diagnostic>, pos: int) -> Parsed<PatternModel> {
    match r {
        Ok(p) => Ok((pattern_model(p), pos)),
        Err(d) => Err((d@, pos)),
    }
}

pub open spec fn stmt_parsed(r: Result<Stmt, Diagnostic>, pos: int) -> Parsed<StmtModel> {
    match r {
        Ok(s) => Ok((stmt_model(s), pos)),
        Err(d) => Err((d@, pos)),
    }
}

pub open spec fn stmts_parsed(r: Result<Vec<Stmt>, Diagnostic>, pos: int) -> Parsed<Seq<StmtModel>> {
    match r {
        Ok(ss) => Ok((stmts_model(ss@), pos)),
        Err(d) => Err((d@, pos)),
    }
}

pub open spec fn arm_parsed(r: Result<MatchArm, Diagnostic>, pos: int) -> Parsed<(PatternModel, Seq<StmtModel>)> {
    match r {
        Ok(a) => Ok(((pattern_model(a.pattern), stmts_model(a.body@)), pos)),
        Err(d) => Err((d@, pos)),
    }
}

// ---------------------------------------------------------------------------
// Items and modules
// ---------------------------------------------------------------------------

/// A dotted path `a.b.c`: its names and the span they cover.
pub open spec fn parse_path(t: Seq<SpecToken>, pos: int) -> Parsed<(Seq<Seq<char>>, Span)> {
    match expect_ident(t, pos, "expected module path"@) {
        Err(e) => Err(e),
        Ok(((first, _), next)) => path_rest(t, next, seq![first], t[pos].span.start),
    }
}

/// The `.name` parts of a path from `pos` on, after the names `acc`.
pub open spec fn path_rest(t: Seq<SpecToken>, pos: int, acc: Seq<Seq<char>>, start: usize) -> Parsed<(Seq<Seq<char>>, Span)>
    decreases t.len() - pos,
{
    if !on_token(t, pos) {
        off_the_end(pos)
    } else if is_symbol(t, pos, Symbol::Dot) {
        match expect_ident(t, pos + 1, "expected name after `.`"@) {
            Err(e) => Err(e),
            Ok(((name, _), next)) => if moved_on(t, pos, next) {
                path_rest(t, next, acc.push(name), start)
            } else {
                off_the_end(next)
            },
        }
    } else {
        Ok(((acc, Span { start, end: end_before(t, pos) }), pos))
    }
}

/// `name: Type`, as a parameter or a field.
pub open spec fn typed_name(t: Seq<SpecToken>, pos: int, name_message: Seq<char>, colon_message: Seq<char>, type_message: Seq<char>) -> Parsed<TypedName> {
    match expect_ident(t, pos, name_message) {
        Err(e) => Err(e),
        Ok(((name, name_span), p1)) => match expect_symbol(t, p1, Symbol::Colon, colon_message) {
            Err(e) => Err(e),
            Ok(p2) => match parse_type(t, p2, type_message) {
                Err(e) => Err(e),
                Ok(((ty, _), p3)) => Ok(((name, name_span, ty), p3)),
            },
        },
    }
}

/// Function parameters, up to (not through) the closing `)`.
pub open spec fn parse_params(t: Seq<SpecToken>, pos: int) -> Parsed<Seq<TypedName>> {
    if is_symbol(t, pos, Symbol::RParen) {
        Ok((Seq::empty(), pos))
    } else {
        param_list(t, pos, Seq::empty())
    }
}

/// Comma-separated parameters from `pos` on, after the parameters `acc`.
pub open spec fn param_list(t: Seq<SpecToken>, pos: int, acc: Seq<TypedName>) -> Parsed<Seq<TypedName>>
    decreases t.len() - pos,
{
    if !on_token(t, pos) {
        off_the_end(pos)
    } else {
        match typed_name(
            t,
            pos,
            "expected parameter name"@,
            "expected `:` after parameter name"@,
            "expected parameter type"@,
        ) {
            Err(e) => Err(e),
            Ok((param, next)) => if is_symbol(t, next, Symbol::Comma) {
                if moved_on(t, pos, next + 1) {
                    param_list(t, next + 1, acc.push(param))
                } else {
                    off_the_end(next + 1)
                }
            } else {
                Ok((acc.push(param), next))
            },
        }
    }
}

/// Whether the token at `pos` closes a braced list: `}` or the end.
pub open spec fn at_close(t: Seq<SpecToken>, pos: int) -> bool {
    is_symbol(t, pos, Symbol::RBrace) || t[pos].kind is Eof
}

/// Struct fields from `pos` on, after the fields `acc`, up to the closing `}`.
pub open spec fn field_list(t: Seq<SpecToken>, pos: int, acc: Seq<TypedName>) -> Parsed<Seq<TypedName>>
    decreases t.len() - pos,
{
    if !on_token(t, pos) {
        off_the_end(pos)
    } else if at_close(t, pos) {
        Ok((acc, pos))
    } else {
        match typed_name(t, pos, "expected field name"@, "expected `:` after field name"@, "expected field type"@) {
            Err(e) => Err(e),
            Ok((field, next)) => if is_symbol(t, next, Symbol::Comma) {
                if moved_on(t, pos, next + 1) {
                    field_list(t, next + 1, acc.push(field))
                } else {
                    off_the_end(next + 1)
                }
            } else {
                Ok((acc.push(field), next))
            },
        }
    }
}

/// Enum variants from `pos` on, after the variants `acc`, up to the closing `}`.
pub open spec fn variant_list(t: Seq<SpecToken>, pos: int, acc: Seq<Seq<char>>) -> Parsed<Seq<Seq<char>>>
    decreases t.len() - pos,
{
    if !on_token(t, pos) {
        off_the_end(pos)
    } else if at_close(t, pos) {
        Ok((acc, pos))
    } else {
        match expect_ident(t, pos, "expected enum variant name"@) {
            Err(e) => Err(e),
            Ok(((variant, _), next)) => if is_symbol(t, next, Symbol::Comma) {
                if moved_on(t, pos, next + 1) {
                    variant_list(t, next + 1, acc.push(variant))
                } else {
                    off_the_end(next + 1)
                }
            } else {
                Ok((acc.push(variant), next))
            },
        }
    }
}

/// A struct after the keyword.
pub open spec fn parse_struct(t: Seq<SpecToken>, pos: int, exported: bool) -> Parsed<ItemModel> {
    match expect_ident(t, pos, "expected struct name"@) {
        Err(e) => Err(e),
        Ok(((name, name_span), p1)) => match expect_symbol(t, p1, Symbol::LBrace, "expected `{` after struct name"@) {
            Err(e) => Err(e),
            Ok(p2) => match field_list(t, p2, Seq::empty()) {
                Err(e) => Err(e),
                Ok((fields, p3)) => match expect_symbol(t, p3, Symbol::RBrace, "expected `}` after struct fields"@) {
                    Err(e) => Err(e),
                    Ok(p4) => Ok((ItemModel::Struct { exported, name, name_span, fields }, p4)),
                },
            },
        },
    }
}

/// An enum after the keyword.
pub open spec fn parse_enum(t: Seq<SpecToken>, pos: int, exported: bool) -> Parsed<ItemModel> {
    match expect_ident(t, pos, "expected enum name"@) {
        Err(e) => Err(e),
        Ok(((name, name_span), p1)) => match expect_symbol(t, p1, Symbol::LBrace, "expected `{` after enum name"@) {
            Err(e) => Err(e),
            Ok(p2) => match variant_list(t, p2, Seq::empty()) {
                Err(e) => Err(e),
                Ok((variants, p3)) => match expect_symbol(t, p3, Symbol::RBrace, "expected `}` after enum variants"@) {
                    Err(e) => Err(e),
                    Ok(p4) => Ok((ItemModel::Enum { exported, name, name_span, variants }, p4)),
                },
            },
        },
    }
}

/// The optional `-> Type` of a function at `pos`.
pub open spec fn return_type(t: Seq<SpecToken>, pos: int) -> Parsed<Option<Seq<char>>> {
    if is_symbol(t, pos, Symbol::Arrow) {
        match parse_type(t, pos + 1, "expected return type after `->`"@) {
            Err(e) => Err(e),
            Ok(((ty, _), next)) => Ok((Some(ty), next)),
        }
    } else {
        Ok((None, pos))
    }
}

/// A function after the keyword.
pub open spec fn parse_function(t: Seq<SpecToken>, pos: int, exported: bool) -> Parsed<FunctionModel> {
    match expect_ident(t, pos, "expected function name"@) {
        Err(e) => Err(e),
        Ok(((name, name_span), p1)) => match expect_symbol(t, p1, Symbol::LParen, "expected `(` after function name"@) {
            Err(e) => Err(e),
            Ok(p2) => match parse_params(t, p2) {
                Err(e) => Err(e),
                Ok((params, p3)) => match expect_symbol(t, p3, Symbol::RParen, "expected `)` after parameters"@) {
                    Err(e) => Err(e),
                    Ok(p4) => match return_type(t, p4) {
                        Err(e) => Err(e),
                        Ok((return_type, p5)) => match expect_symbol(t, p5, Symbol::LBrace, "expected function body"@) {
                            Err(e) => Err(e),
                            Ok(p6) => match parse_block(t, p6) {
                                Err(e) => Err(e),
                                Ok((body, p7)) => Ok((FunctionModel { exported, name, name_span, params, return_type, body }, p7)),
                            },
                        },
                    },
                },
            },
        },
    }
}

/// An item: a module declaration, an import, or a struct, enum or function,
/// each of the last four maybe after `export`.
pub open spec fn parse_item(t: Seq<SpecToken>, pos: int) -> Parsed<ItemModel> {
    if is_keyword(t, pos, Keyword::Module) {
        match parse_path(t, pos + 1) {
            Err(e) => Err(e),
            Ok(((path, _), p1)) => match expect_symbol(t, p1, Symbol::Semicolon, "expected `;` after module declaration"@) {
                Err(e) => Err(e),
                Ok(p2) => Ok((ItemModel::ModuleDecl(join_texts(path, "."@)), p2)),
            },
        }
    } else {
        let exported = is_keyword(t, pos, Keyword::Export);
        let p = if exported { pos + 1 } else { pos };
        if is_keyword(t, p, Keyword::Import) {
            match parse_path(t, p + 1) {
                Err(e) => Err(e),
                Ok(((path, _), p1)) => match expect_symbol(t, p1, Symbol::Semicolon, "expected `;` after import"@) {
                    Err(e) => Err(e),
                    Ok(p2) => Ok((ItemModel::Import(path), p2)),
                },
            }
        } else if is_keyword(t, p, Keyword::Struct) {
            parse_struct(t, p + 1, exported)
        } else if is_keyword(t, p, Keyword::Enum) {
            parse_enum(t, p + 1, exported)
        } else if is_keyword(t, p, Keyword::Fn) {
            match parse_function(t, p + 1, exported) {
                Err(e) => Err(e),
                Ok((f, p1)) => Ok((ItemModel::Function(f), p1)),
            }
        } else {
            Err((
                diag_at(t, p, "PARSE_EXPECTED_ITEM"@, "expected module, import, export, struct, enum, trait, impl, or fn"@),
                p,
            ))
        }
    }
}

/// Whether the token at `pos` starts an item.
pub open spec fn at_item_start(t: Seq<SpecToken>, pos: int) -> bool {
    ||| is_keyword(t, pos, Keyword::Module)
    ||| is_keyword(t, pos, Keyword::Import)
    ||| is_keyword(t, pos, Keyword::Export)
    ||| is_keyword(t, pos, Keyword::Struct)
    ||| is_keyword(t, pos, Keyword::Enum)
    ||| is_keyword(t, pos, Keyword::Fn)
}

/// Where parsing resumes after a bad item: past the next `;`, or at the next
/// token that starts an item, or at the end.
pub open spec fn recover(t: Seq<SpecToken>, pos: int) -> int
    decreases t.len() - pos,
{
    if !on_token(t, pos) || t[pos].kind is Eof {
        pos
    } else if is_symbol(t, pos, Symbol::Semicolon) {
        pos + 1
    } else if at_item_start(t, pos) {
        pos
    } else {
        recover(t, pos + 1)
    }
}

/// The items of a module from `pos` on, after the items `items` and the
/// diagnostics `diags`: the items if no item failed, else a diagnostic for
/// each item that failed.
pub open spec fn module_rest(t: Seq<SpecToken>, pos: int, items: Seq<ItemModel>, diags: Seq<SpecDiagnostic>) -> Result<Seq<ItemModel>, Seq<SpecDiagnostic>>
    decreases t.len() - pos,
{
    if !on_token(t, pos) || t[pos].kind is Eof {
        if diags.len() == 0 {
            Ok(items)
        } else {
            Err(diags)
        }
    } else {
        match parse_item(t, pos) {
            Ok((item, next)) => if moved_on(t, pos, next) {
                module_rest(t, next, items.push(item), diags)
            } else {
                Err(diags.push(diag_at(t, pos, Seq::empty(), Seq::empty())))
            },
            Err((d, stop)) => {
                let next = recover(t, stop);
                if moved_on(t, pos, next) {
                    module_rest(t, next, items, diags.push(d))
                } else {
                    Err(diags.push(d))
                }
            },
        }
    }
}

/// A whole module from the token at `pos`: its items, or the diagnostics of
/// the items that did not parse.
pub open spec fn parse_module(t: Seq<SpecToken>, pos: int) -> Result<Seq<ItemModel>, Seq<SpecDiagnostic>> {
    module_rest(t, pos, Seq::empty(), Seq::empty())
}

/// What parsing a token list gives: the module's items, or a diagnostic for
/// each item that did not parse.
#[verifier::opaque]
pub open spec fn parse_tokens(t: Seq<SpecToken>) -> Result<Seq<ItemModel>, Seq<SpecDiagnostic>> {
    parse_module(t, 0)
}

pub open spec fn path_parsed(r: Result<(Vec<String>, Span), Diagnostic>, pos: int) -> Parsed<(Seq<Seq<char>>, Span)> {
    match r {
        Ok((path, span)) => Ok(((strings_view(path@), span), pos)),
        Err(d) => Err((d@, pos)),
    }
}

pub open spec fn params_parsed(r: Result<Vec<Param>, Diagnostic>, pos: int) -> Parsed<Seq<TypedName>> {
    match r {
        Ok(ps) => Ok((params_model(ps@), pos)),
        Err(d) => Err((d@, pos)),
    }
}

pub open spec fn struct_parsed(r: Result<StructDecl, Diagnostic>, pos: int) -> Parsed<ItemModel> {
    match r {
        Ok(d) => Ok((item_model(Item::Struct(d)), pos)),
        Err(d) => Err((d@, pos)),
    }
}

pub open spec fn enum_parsed(r: Result<EnumDecl, Diagnostic>, pos: int) -> Parsed<ItemModel> {
    match r {
        Ok(d) => Ok((item_model(Item::Enum(d)), pos)),
        Err(d) => Err((d@, pos)),
    }
}

pub open spec fn function_parsed(r: Result<Function, Diagnostic>, pos: int) -> Parsed<FunctionModel> {
    match r {
        Ok(f) => Ok((function_model(f), pos)),
        Err(d) => Err((d@, pos)),
    }
}

pub open spec fn item_parsed(r: Result<Item, Diagnostic>, pos: int) -> Parsed<ItemModel> {
    match r {
        Ok(i) => Ok((item_model(i), pos)),
        Err(d) => Err((d@, pos)),
    }
}

/// What a module parse returned, as plain values.
pub open spec fn module_parsed(r: Result<Module, Vec<Diagnostic>>) -> Result<Seq<ItemModel>, Seq<SpecDiagnostic>> {
    match r {
        Ok(m) => Ok(module_model(m)),
        Err(ds) => Err(crate::diagnostic::diags_view(ds@)),
    }
}

// ---------------------------------------------------------------------------
// The syntax-tree dump depends on the plain values alone
// ---------------------------------------------------------------------------

pub proof fn lemma_push_injective<A>(s1: Seq<A>, a1: A, s2: Seq<A>, a2: A)
    requires
        s1.push(a1) == s2.push(a2),
    ensures
        s1 == s2,
        a1 == a2,
{
    assert(s1 =~= s1.push(a1).drop_last());
    assert(s2 =~= s2.push(a2).drop_last());
    assert(s1.push(a1).last() == a1);
    assert(s2.push(a2).last() == a2);
}

pub proof fn lemma_exprs_model_len(es: Seq<Expr>)
    ensures
        exprs_model(es).len() == es.len(),
    decreases es.len(),
{
    if es.len() > 0 {
        lemma_exprs_model_len(es.drop_last());
    }
}

pub proof fn lemma_exprs_model_concat(a: Seq<Expr>, b: Seq<Expr>)
    ensures
        exprs_model(a + b) == exprs_model(a) + exprs_model(b),
    decreases b.len(),
{
    if b.len() == 0 {
        assert(a + b =~= a);
        assert(exprs_model(a) + exprs_model(b) =~= exprs_model(a));
    } else {
        lemma_exprs_model_concat(a, b.drop_last());
        assert((a + b).drop_last() =~= a + b.drop_last());
        assert((a + b).last() == b.last());
        assert(exprs_model(a) + exprs_model(b) =~= (exprs_model(a) + exprs_model(b.drop_last())).push(expr_model(b.last())));
    }
}

pub proof fn lemma_stmts_model_len(ss: Seq<Stmt>)
    ensures
        stmts_model(ss).len() == ss.len(),
    decreases ss.len(),
{
    if ss.len() > 0 {
        lemma_stmts_model_len(ss.drop_last());
    }
}

pub proof fn lemma_arms_model_len(a: Seq<MatchArm>)
    ensures
        arms_model(a).len() == a.len(),
    decreases a.len(),
{
    if a.len() > 0 {
        lemma_arms_model_len(a.drop_last());
    }
}

proof fn lemma_expr_dump(e1: Expr, e2: Expr, pad: Seq<char>)
    requires
        expr_model(e1) == expr_model(e2),
    ensures
        crate::ast::expr_text(e1, pad) == crate::ast::expr_text(e2, pad),
    decreases e1,
{
    match e1 {
        Expr::Binary { left, right, .. } => {
            if let Expr::Binary { left: l2, right: r2, .. } = e2 {
                lemma_expr_dump(*left, *l2, crate::ast::indented(pad));
                lemma_expr_dump(*right, *r2, crate::ast::indented(pad));
            }
        },
        Expr::Call { args, .. } => {
            if let Expr::Call { args: a2, .. } = e2 {
                lemma_exprs_dump(args@, a2@, crate::ast::indented(pad));
            }
        },
        Expr::Unary { expr, .. } => {
            if let Expr::Unary { expr: x2, .. } = e2 {
                lemma_expr_dump(*expr, *x2, crate::ast::indented(pad));
            }
        },
        Expr::FieldAccess { base, .. } => {
            if let Expr::FieldAccess { base: b2, .. } = e2 {
                lemma_expr_dump(*base, *b2, crate::ast::indented(pad));
            }
        },
        Expr::Index { base, index, .. } => {
            if let Expr::Index { base: b2, index: i2, .. } = e2 {
                lemma_expr_dump(*base, *b2, crate::ast::indented(pad));
                lemma_expr_dump(*index, *i2, crate::ast::indented(pad));
            }
        },
        Expr::ArrayLiteral { elements, .. } => {
            if let Expr::ArrayLiteral { elements: e2s, .. } = e2 {
                lemma_exprs_dump(elements@, e2s@, crate::ast::indented(pad));
            }
        },
        _ => {},
    }
}

proof fn lemma_exprs_dump(es1: Seq<Expr>, es2: Seq<Expr>, pad: Seq<char>)
    requires
        exprs_model(es1) == exprs_model(es2),
    ensures
        crate::ast::exprs_text(es1, pad) == crate::ast::exprs_text(es2, pad),
    decreases es1,
{
    lemma_exprs_model_len(es1);
    lemma_exprs_model_len(es2);
    if es1.len() > 0 {
        assert(es1.drop_last() =~= es1.subrange(0, es1.len() - 1));
        assert(es2.drop_last() =~= es2.subrange(0, es2.len() - 1));
        lemma_push_injective(
            exprs_model(es1.drop_last()),
            expr_model(es1.last()),
            exprs_model(es2.drop_last()),
            expr_model(es2.last()),
        );
        lemma_exprs_dump(es1.drop_last(), es2.drop_last(), pad);
        lemma_expr_dump(es1.last(), es2.last(), pad);
    }
}

proof fn lemma_stmt_dump(s1: Stmt, s2: Stmt, pad: Seq<char>)
    requires
        stmt_model(s1) == stmt_model(s2),
    ensures
        crate::ast::stmt_text(s1, pad) == crate::ast::stmt_text(s2, pad),
    decreases s1,
{
    let p1 = crate::ast::indented(pad);
    let p2 = crate::ast::indented(p1);
    match s1 {
        Stmt::Let { value, ty, .. } => {
            if let Stmt::Let { value: v2, ty: t2, .. } = s2 {
                lemma_expr_dump(value, v2, p1);
                match (ty, t2) {
                    (Some(a), Some(b)) => assert(a@ == b@),
                    _ => {},
                }
            }
        },
        Stmt::Assign { value, .. } => {
            if let Stmt::Assign { value: v2, .. } = s2 {
                lemma_expr_dump(value, v2, p1);
            }
        },
        Stmt::If { condition, then_body, else_body } => {
            if let Stmt::If { condition: c2, then_body: t2, else_body: e2 } = s2 {
                lemma_expr_dump(condition, c2, p2);
                lemma_stmts_dump(then_body@, t2@, p2);
                lemma_stmts_dump(else_body@, e2@, p2);
            }
        },
        Stmt::While { condition, body } => {
            if let Stmt::While { condition: c2, body: b2 } = s2 {
                lemma_expr_dump(condition, c2, p2);
                lemma_stmts_dump(body@, b2@, p2);
            }
        },
        Stmt::Match { value, arms } => {
            if let Stmt::Match { value: v2, arms: a2 } = s2 {
                lemma_expr_dump(value, v2, p2);
                lemma_arms_dump(arms@, a2@, pad);
            }
        },
        Stmt::Return(Some(value)) => {
            if let Stmt::Return(Some(v2)) = s2 {
                lemma_expr_dump(value, v2, p1);
            }
        },
        Stmt::Return(None) => {},
        Stmt::Expr(value) => {
            if let Stmt::Expr(v2) = s2 {
                lemma_expr_dump(value, v2, p1);
            }
        },
    }
}

proof fn lemma_stmts_dump(ss1: Seq<Stmt>, ss2: Seq<Stmt>, pad: Seq<char>)
    requires
        stmts_model(ss1) == stmts_model(ss2),
    ensures
        ss1.len() == ss2.len(),
        crate::ast::stmts_text(ss1, pad) == crate::ast::stmts_text(ss2, pad),
    decreases ss1,
{
    lemma_stmts_model_len(ss1);
    lemma_stmts_model_len(ss2);
    if ss1.len() > 0 {
        assert(ss1.drop_last() =~= ss1.subrange(0, ss1.len() - 1));
        assert(ss2.drop_last() =~= ss2.subrange(0, ss2.len() - 1));
        lemma_push_injective(
            stmts_model(ss1.drop_last()),
            stmt_model(ss1.last()),
            stmts_model(ss2.drop_last()),
            stmt_model(ss2.last()),
        );
        lemma_stmts_dump(ss1.drop_last(), ss2.drop_last(), pad);
        lemma_stmt_dump(ss1.last(), ss2.last(), pad);
    }
}

proof fn lemma_arms_dump(a1: Seq<MatchArm>, a2: Seq<MatchArm>, pad: Seq<char>)
    requires
        arms_model(a1) == arms_model(a2),
    ensures
        crate::ast::arms_text(a1, pad) == crate::ast::arms_text(a2, pad),
    decreases a1,
{
    lemma_arms_model_len(a1);
    lemma_arms_model_len(a2);
    if a1.len() > 0 {
        assert(a1.drop_last() =~= a1.subrange(0, a1.len() - 1));
        assert(a2.drop_last() =~= a2.subrange(0, a2.len() - 1));
        let x1 = a1.last();
        let x2 = a2.last();
        lemma_push_injective(
            arms_model(a1.drop_last()),
            (pattern_model(x1.pattern), stmts_model(x1.body@)),
            arms_model(a2.drop_last()),
            (pattern_model(x2.pattern), stmts_model(x2.body@)),
        );
        lemma_arms_dump(a1.drop_last(), a2.drop_last(), pad);
        lemma_stmts_dump(x1.body@, x2.body@, crate::ast::indented(crate::ast::indented(pad)));
        assert(crate::ast::pattern_text(x1.pattern) == crate::ast::pattern_text(x2.pattern));
    }
}

proof fn lemma_fields_dump(f1: Seq<Field>, f2: Seq<Field>, pad: Seq<char>)
    requires
        fields_model(f1) == fields_model(f2),
    ensures
        crate::ast::fields_text(f1, pad) == crate::ast::fields_text(f2, pad),
    decreases f1.len(),
{
    assert(f1.len() == fields_model(f1).len());
    if f1.len() > 0 {
        let n = f1.len() - 1;
        assert(fields_model(f1.subrange(0, n)) =~= fields_model(f1).subrange(0, n));
        assert(fields_model(f2.subrange(0, n)) =~= fields_model(f2).subrange(0, n));
        assert(fields_model(f1)[n] == fields_model(f2)[n]);
        lemma_fields_dump(f1.subrange(0, n), f2.subrange(0, n), pad);
    }
}

proof fn lemma_params_dump(p1: Seq<Param>, p2: Seq<Param>, pad: Seq<char>)
    requires
        params_model(p1) == params_model(p2),
    ensures
        crate::ast::params_text(p1, pad) == crate::ast::params_text(p2, pad),
    decreases p1.len(),
{
    assert(p1.len() == params_model(p1).len());
    if p1.len() > 0 {
        let n = p1.len() - 1;
        assert(params_model(p1.subrange(0, n)) =~= params_model(p1).subrange(0, n));
        assert(params_model(p2.subrange(0, n)) =~= params_model(p2).subrange(0, n));
        assert(params_model(p1)[n] == params_model(p2)[n]);
        lemma_params_dump(p1.subrange(0, n), p2.subrange(0, n), pad);
    }
}

proof fn lemma_variants_dump(v1: Seq<String>, v2: Seq<String>, pad: Seq<char>)
    requires
        strings_view(v1) == strings_view(v2),
    ensures
        crate::ast::variants_text(v1, pad) == crate::ast::variants_text(v2, pad),
    decreases v1.len(),
{
    assert(v1.len() == strings_view(v1).len());
    if v1.len() > 0 {
        let n = v1.len() - 1;
        assert(strings_view(v1.subrange(0, n)) =~= strings_view(v1).subrange(0, n));
        assert(strings_view(v2.subrange(0, n)) =~= strings_view(v2).subrange(0, n));
        assert(strings_view(v1)[n] == strings_view(v2)[n]);
        lemma_variants_dump(v1.subrange(0, n), v2.subrange(0, n), pad);
    }
}

proof fn lemma_item_dump(i1: Item, i2: Item, pad: Seq<char>)
    requires
        item_model(i1) == item_model(i2),
    ensures
        crate::ast::item_text(i1, pad) == crate::ast::item_text(i2, pad),
{
    match i1 {
        Item::Import { path } => {
            if let Item::Import { path: q } = i2 {
                lemma_dotted_is_joined(path@);
                lemma_dotted_is_joined(q@);
            }
        },
        Item::Struct(d) => {
            if let Item::Struct(d2) = i2 {
                lemma_fields_dump(d.fields@, d2.fields@, pad);
            }
        },
        Item::Enum(d) => {
            if let Item::Enum(d2) = i2 {
                lemma_variants_dump(d.variants@, d2.variants@, pad);
            }
        },
        Item::Function(f) => {
            if let Item::Function(g) = i2 {
                lemma_params_dump(f.params@, g.params@, pad);
                lemma_stmts_dump(f.body@, g.body@, crate::ast::indented(pad));
                match (f.return_type, g.return_type) {
                    (Some(a), Some(b)) => assert(a@ == b@),
                    _ => {},
                }
            }
        },
        _ => {},
    }
}

proof fn lemma_items_dump(i1: Seq<Item>, i2: Seq<Item>, pad: Seq<char>)
    requires
        items_model(i1) == items_model(i2),
    ensures
        crate::ast::items_text(i1, pad) == crate::ast::items_text(i2, pad),
    decreases i1.len(),
{
    assert(i1.len() == items_model(i1).len());
    if i1.len() > 0 {
        let n = i1.len() - 1;
        assert(items_model(i1.subrange(0, n)) =~= items_model(i1).subrange(0, n));
        assert(items_model(i2.subrange(0, n)) =~= items_model(i2).subrange(0, n));
        assert(items_model(i1)[n] == items_model(i2)[n]);
        assert(items_model(i1)[n] == item_model(i1[n]));
        assert(items_model(i2)[n] == item_model(i2[n]));
        lemma_item_dump(i1[n], i2[n], pad);
        lemma_items_dump(i1.subrange(0, n), i2.subrange(0, n), pad);
    }
}

/// The syntax-tree dump of a module depends on its plain value alone: two
/// modules with the same items dump the same text.
pub proof fn law_dump_depends_on_the_parse(m1: Module, m2: Module)
    requires
        module_model(m1) == module_model(m2),
    ensures
        crate::ast::module_text(m1) == crate::ast::module_text(m2),
{
    lemma_items_dump(m1.items@, m2.items@, "  "@);
}

} // verus!
