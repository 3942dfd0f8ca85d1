//! The syntax tree produced by the parser, and its indented text dump.
use vstd::prelude::*;
use crate::diagnostic::Span;
use crate::text::{push_char, push_str};

verus! {

#[derive(Debug, PartialEq, Eq)]
pub struct Module {
    pub items: Vec<Item>,
}

#[derive(Debug, PartialEq, Eq)]
pub enum Item {
    ModuleDecl { name: String },
    Import { path: Vec<String> },
    Struct(StructDecl),
    Enum(EnumDecl),
    Function(Function),
}

#[derive(Debug, PartialEq, Eq)]
pub struct StructDecl {
    pub exported: bool,
    pub name: String,
    pub name_span: Span,
    pub fields: Vec<Field>,
}

#[derive(Debug, PartialEq, Eq)]
pub struct Field {
    pub name: String,
    pub name_span: Span,
    pub ty: String,
}

#[derive(Debug, PartialEq, Eq)]
pub struct EnumDecl {
    pub exported: bool,
    pub name: String,
    pub name_span: Span,
    pub variants: Vec<String>,
}

#[derive(Debug, PartialEq, Eq)]
pub struct Function {
    pub exported: bool,
    pub name: String,
    pub name_span: Span,
    pub params: Vec<Param>,
    pub return_type: Option<String>,
    pub body: Vec<Stmt>,
}

#[derive(Debug, PartialEq, Eq)]
pub struct Param {
    pub name: String,
    pub name_span: Span,
    pub ty: String,
}

#[derive(Debug, PartialEq, Eq)]
pub enum Stmt {
    Let { mutable: bool, name: String, name_span: Span, ty: Option<String>, value: Expr },
    Assign { name: String, name_span: Span, value: Expr },
    If { condition: Expr, then_body: Vec<Stmt>, else_body: Vec<Stmt> },
    While { condition: Expr, body: Vec<Stmt> },
    Match { value: Expr, arms: Vec<MatchArm> },
    Return(Option<Expr>),
    Expr(Expr),
}

#[derive(Debug, PartialEq, Eq)]
pub struct MatchArm {
    pub pattern: Pattern,
    pub body: Vec<Stmt>,
}

#[derive(Debug, PartialEq, Eq)]
pub enum Pattern {
    Name(String),
    Int(String),
    String(String),
    Bool(bool),
    Wildcard,
}

#[derive(Debug, PartialEq, Eq)]
pub enum Expr {
    Name { name: String, span: Span },
    Int { value: String, span: Span },
    String { value: String, span: Span },
    Bool { value: bool, span: Span },
    Binary { op: BinaryOp, left: Box<Expr>, right: Box<Expr>, span: Span },
    Unary { op: UnaryOp, expr: Box<Expr>, span: Span },
    Call { callee: String, callee_span: Span, args: Vec<Expr>, span: Span },
    FieldAccess { base: Box<Expr>, field: String, field_span: Span, span: Span },
    Index { base: Box<Expr>, index: Box<Expr>, span: Span },
    ArrayLiteral { elements: Vec<Expr>, span: Span },
}

#[derive(Debug, Clone, Copy, PartialEq, Eq, Structural)]
pub enum BinaryOp {
    Add,
    Sub,
    Mul,
    Div,
    And,
    Or,
    Eq,
    NotEq,
    Lt,
    Lte,
    Gt,
    Gte,
}

/// `!` and unary `-`.
#[derive(Debug, Clone, Copy, PartialEq, Eq, Structural)]
pub enum UnaryOp {
    Not,
    Neg,
}

/// The span an expression covers.
pub open spec fn expr_span(e: Expr) -> Span {
    match e {
        Expr::Name { span, .. } => span,
        Expr::Int { span, .. } => span,
        Expr::String { span, .. } => span,
        Expr::Bool { span, .. } => span,
        Expr::Binary { span, .. } => span,
        Expr::Unary { span, .. } => span,
        Expr::Call { span, .. } => span,
        Expr::FieldAccess { span, .. } => span,
        Expr::Index { span, .. } => span,
        Expr::ArrayLiteral { span, .. } => span,
    }
}

impl Expr {
    pub fn span(&self) -> (s: Span)
        ensures
            s == expr_span(*self),
    {
        match self {
            Expr::Name { span, .. } => *span,
            Expr::Int { span, .. } => *span,
            Expr::String { span, .. } => *span,
            Expr::Bool { span, .. } => *span,
            Expr::Binary { span, .. } => *span,
            Expr::Unary { span, .. } => *span,
            Expr::Call { span, .. } => *span,
            Expr::FieldAccess { span, .. } => *span,
            Expr::Index { span, .. } => *span,
            Expr::ArrayLiteral { span, .. } => *span,
        }
    }
}

/// The name of a unary operator in dumps.
pub open spec fn unary_text(op: UnaryOp) -> Seq<char> {
    match op {
        UnaryOp::Not => "not"@,
        UnaryOp::Neg => "neg"@,
    }
}

impl UnaryOp {
    pub fn as_str(self) -> (s: &'static str)
        ensures
            s@ == unary_text(self),
    {
        match self {
            UnaryOp::Not => "not",
            UnaryOp::Neg => "neg",
        }
    }
}

/// The name of a binary operator in dumps.
pub open spec fn op_text(op: BinaryOp) -> Seq<char> {
    match op {
        BinaryOp::Add => "add"@,
        BinaryOp::Sub => "sub"@,
        BinaryOp::Mul => "mul"@,
        BinaryOp::Div => "div"@,
        BinaryOp::And => "and"@,
        BinaryOp::Or => "or"@,
        BinaryOp::Eq => "eq"@,
        BinaryOp::NotEq => "not_eq"@,
        BinaryOp::Lt => "lt"@,
        BinaryOp::Lte => "lte"@,
        BinaryOp::Gt => "gt"@,
        BinaryOp::Gte => "gte"@,
    }
}

impl BinaryOp {
    pub fn as_str(self) -> (s: &'static str)
        ensures
            s@ == op_text(self),
    {
        match self {
            BinaryOp::Add => "add",
            BinaryOp::Sub => "sub",
            BinaryOp::Mul => "mul",
            BinaryOp::Div => "div",
            BinaryOp::And => "and",
            BinaryOp::Or => "or",
            BinaryOp::Eq => "eq",
            BinaryOp::NotEq => "not_eq",
            BinaryOp::Lt => "lt",
            BinaryOp::Lte => "lte",
            BinaryOp::Gt => "gt",
            BinaryOp::Gte => "gte",
        }
    }
}

/// What Rust's `Debug` formatting writes for a string: the text quoted, with
/// quotes, backslashes and control characters escaped.
pub uninterp spec fn debug_quoted(s: Seq<char>) -> Seq<char>;

/// The `Debug` rendering of `s` (std's `<str as Debug>::fmt`).
#[verifier::external_body]
pub fn debug_string(s: &str) -> (r: String)
    ensures
        r@ == debug_quoted(s@),
{
    format!("{s:?}")
}

/// `true` or `false`.
pub open spec fn bool_text(b: bool) -> Seq<char> {
    if b { "true"@ } else { "false"@ }
}

pub fn push_bool(out: &mut String, b: bool)
    ensures
        final(out)@ == old(out)@ + bool_text(b),
{
    if b {
        push_str(out, "true");
    } else {
        push_str(out, "false");
    }
}

/// The parts joined with `.` between them.
pub open spec fn dotted(parts: Seq<String>) -> Seq<char>
    decreases parts.len(),
{
    if parts.len() == 0 {
        Seq::empty()
    } else if parts.len() == 1 {
        parts[0]@
    } else {
        dotted(parts.drop_last()) + "."@ + parts.last()@
    }
}

/// Appends the parts of a path joined with `.`.
pub fn push_dotted(out: &mut String, parts: &Vec<String>)
    ensures
        final(out)@ == old(out)@ + dotted(parts@),
{
    let mut i: usize = 0;
    while i < parts.len()
        invariant
            i <= parts@.len(),
            out@ == old(out)@ + dotted(parts@.subrange(0, i as int)),
        decreases parts.len() - i,
    {
        if i > 0 {
            push_str(out, ".");
        }
        push_str(out, parts[i].as_str());
        proof {
            let sub = parts@.subrange(0, i as int + 1);
            assert(sub.drop_last() =~= parts@.subrange(0, i as int));
        }
        i = i + 1;
    }
    assert(parts@.subrange(0, parts@.len() as int) =~= parts@);
}

/// The parts of a path joined with `.`.
pub fn join_dotted(parts: &Vec<String>) -> (s: String)
    ensures
        s@ == dotted(parts@),
{
    let mut s = String::new();
    push_dotted(&mut s, parts);
    assert(s@ =~= dotted(parts@));
    s
}

/// The dump text of a pattern.
pub open spec fn pattern_text(p: Pattern) -> Seq<char> {
    match p {
        Pattern::Name(n) => "name:"@ + n@,
        Pattern::Int(v) => "int:"@ + v@,
        Pattern::String(v) => "string:"@ + debug_quoted(v@),
        Pattern::Bool(b) => "bool:"@ + bool_text(b),
        Pattern::Wildcard => "_"@,
    }
}

impl Pattern {
    pub fn dump(&self) -> (s: String)
        ensures
            s@ == pattern_text(*self),
    {
        let mut out = String::new();
        match self {
            Pattern::Name(name) => {
                push_str(&mut out, "name:");
                push_str(&mut out, name.as_str());
            },
            Pattern::Int(value) => {
                push_str(&mut out, "int:");
                push_str(&mut out, value.as_str());
            },
            Pattern::String(value) => {
                push_str(&mut out, "string:");
                let quoted = debug_string(value.as_str());
                push_str(&mut out, quoted.as_str());
            },
            Pattern::Bool(value) => {
                push_str(&mut out, "bool:");
                push_bool(&mut out, *value);
            },
            Pattern::Wildcard => {
                push_str(&mut out, "_");
            },
        }
        assert(out@ =~= pattern_text(*self));
        out
    }
}

/// The dump of an expression at `indent`.
pub open spec fn expr_text(e: Expr, pad: Seq<char>) -> Seq<char>
    decreases e,
{
    match e {
        Expr::Name { name, .. } => pad + "Name "@ + name@ + "\n"@,
        Expr::Int { value, .. } => pad + "Int "@ + value@ + "\n"@,
        Expr::String { value, .. } => pad + "String "@ + debug_quoted(value@) + "\n"@,
        Expr::Bool { value, .. } => pad + "Bool "@ + bool_text(value) + "\n"@,
        Expr::Binary { op, left, right, .. } => pad + "Binary op="@ + op_text(op) + "\n"@
            + expr_text(*left, indented(pad)) + expr_text(*right, indented(pad)),
        Expr::Unary { op, expr, .. } => pad + "Unary op="@ + unary_text(op) + "\n"@ + expr_text(
            *expr,
            indented(pad),
        ),
        Expr::Call { callee, args, .. } => pad + "Call callee="@ + callee@ + "\n"@
            + exprs_text(args@, indented(pad)),
        Expr::FieldAccess { base, field, .. } => pad + "FieldAccess field="@ + field@ + "\n"@
            + expr_text(*base, indented(pad)),
        Expr::Index { base, index, .. } => pad + "Index\n"@ + expr_text(*base, indented(pad))
            + expr_text(*index, indented(pad)),
        Expr::ArrayLiteral { elements, .. } => pad + "ArrayLiteral\n"@ + exprs_text(elements@, indented(pad)),
    }
}

/// The dumps of a sequence of expressions, one after another.
pub open spec fn exprs_text(es: Seq<Expr>, pad: Seq<char>) -> Seq<char>
    decreases es,
{
    if es.len() == 0 {
        Seq::empty()
    } else {
        exprs_text(es.subrange(0, es.len() - 1), pad) + expr_text(es[es.len() - 1], pad)
    }
}

/// Number of expression nodes in `e`.
pub open spec fn expr_size(e: Expr) -> nat
    decreases e,
{
    match e {
        Expr::Binary { left, right, .. } => 1 + expr_size(*left) + expr_size(*right),
        Expr::Unary { expr, .. } => 1 + expr_size(*expr),
        Expr::Call { args, .. } => 1 + exprs_size(args@),
        Expr::FieldAccess { base, .. } => 1 + expr_size(*base),
        Expr::Index { base, index, .. } => 1 + expr_size(*base) + expr_size(*index),
        Expr::ArrayLiteral { elements, .. } => 1 + exprs_size(elements@),
        _ => 1,
    }
}

pub open spec fn exprs_size(es: Seq<Expr>) -> nat
    decreases es,
{
    if es.len() == 0 {
        0
    } else {
        exprs_size(es.subrange(0, es.len() - 1)) + expr_size(es[es.len() - 1])
    }
}

pub proof fn lemma_exprs_size_elem(es: Seq<Expr>, i: int)
    requires
        0 <= i < es.len(),
    ensures
        expr_size(es[i]) <= exprs_size(es),
    decreases es.len(),
{
    if i < es.len() - 1 {
        let pre = es.subrange(0, es.len() - 1);
        lemma_exprs_size_elem(pre, i);
        assert(pre[i] == es[i]);
    }
}

impl Expr {
    fn dump(&self, pad: &str, out: &mut String)
        ensures
            final(out)@ == old(out)@ + expr_text(*self, pad@),
        decreases expr_size(*self), 0nat,
    {
        push_str(out, pad);
        match self {
            Expr::Name { name, .. } => {
                push_str(out, "Name ");
                push_str(out, name.as_str());
                push_str(out, "\n");
            },
            Expr::Int { value, .. } => {
                push_str(out, "Int ");
                push_str(out, value.as_str());
                push_str(out, "\n");
            },
            Expr::String { value, .. } => {
                push_str(out, "String ");
                let quoted = debug_string(value.as_str());
                push_str(out, quoted.as_str());
                push_str(out, "\n");
            },
            Expr::Bool { value, .. } => {
                push_str(out, "Bool ");
                push_bool(out, *value);
                push_str(out, "\n");
            },
            Expr::Binary { op, left, right, .. } => {
                push_str(out, "Binary op=");
                push_str(out, op.as_str());
                push_str(out, "\n");
                let inner = indent_more(pad);
                left.dump(inner.as_str(), out);
                right.dump(inner.as_str(), out);
            },
            Expr::Unary { op, expr, .. } => {
                push_str(out, "Unary op=");
                push_str(out, op.as_str());
                push_str(out, "\n");
                let inner = indent_more(pad);
                expr.dump(inner.as_str(), out);
            },
            Expr::Call { callee, args, .. } => {
                push_str(out, "Call callee=");
                push_str(out, callee.as_str());
                push_str(out, "\n");
                let inner = indent_more(pad);
                dump_exprs(args, inner.as_str(), out);
            },
            Expr::FieldAccess { base, field, .. } => {
                push_str(out, "FieldAccess field=");
                push_str(out, field.as_str());
                push_str(out, "\n");
                let inner = indent_more(pad);
                base.dump(inner.as_str(), out);
            },
            Expr::Index { base, index, .. } => {
                push_str(out, "Index\n");
                let inner = indent_more(pad);
                base.dump(inner.as_str(), out);
                index.dump(inner.as_str(), out);
            },
            Expr::ArrayLiteral { elements, .. } => {
                push_str(out, "ArrayLiteral\n");
                let inner = indent_more(pad);
                dump_exprs(elements, inner.as_str(), out);
            },
        }
        assert(final(out)@ =~= old(out)@ + expr_text(*self, pad@));
    }
}

/// Dumps each expression of `es` at `pad`, one after another.
fn dump_exprs(es: &Vec<Expr>, pad: &str, out: &mut String)
    ensures
        final(out)@ == old(out)@ + exprs_text(es@, pad@),
    decreases exprs_size(es@), 1nat,
{
    let ghost before = out@;
    let mut i: usize = 0;
    while i < es.len()
        invariant
            i <= es@.len(),
            out@ == before + exprs_text(es@.subrange(0, i as int), pad@),
        decreases es.len() - i,
    {
        proof {
            lemma_exprs_size_elem(es@, i as int);
        }
        es[i].dump(pad, out);
        proof {
            let sub = es@.subrange(0, i as int + 1);
            assert(sub.subrange(0, sub.len() - 1) =~= es@.subrange(0, i as int));
        }
        i = i + 1;
    }
    assert(es@.subrange(0, es@.len() as int) =~= es@);
}

/// One more level of indentation: two more spaces.
pub open spec fn indented(pad: Seq<char>) -> Seq<char> {
    pad + "  "@
}

pub fn indent_more(pad: &str) -> (p: String)
    ensures
        p@ == indented(pad@),
{
    let mut p = String::new();
    push_str(&mut p, pad);
    push_str(&mut p, "  ");
    assert(p@ =~= indented(pad@));
    p
}


/// Number of statement and match-arm nodes in `s`.
pub open spec fn stmt_size(s: Stmt) -> nat
    decreases s,
{
    match s {
        Stmt::If { then_body, else_body, .. } => 1 + stmts_size(then_body@) + stmts_size(else_body@),
        Stmt::While { body, .. } => 1 + stmts_size(body@),
        Stmt::Match { arms, .. } => 1 + arms_size(arms@),
        _ => 1,
    }
}

pub open spec fn stmts_size(ss: Seq<Stmt>) -> nat
    decreases ss,
{
    if ss.len() == 0 {
        0
    } else {
        stmts_size(ss.subrange(0, ss.len() - 1)) + stmt_size(ss[ss.len() - 1])
    }
}

pub open spec fn arms_size(arms: Seq<MatchArm>) -> nat
    decreases arms,
{
    if arms.len() == 0 {
        0
    } else {
        arms_size(arms.subrange(0, arms.len() - 1)) + 1 + stmts_size(arms[arms.len() - 1].body@)
    }
}

pub proof fn lemma_stmts_size_elem(ss: Seq<Stmt>, i: int)
    requires
        0 <= i < ss.len(),
    ensures
        stmt_size(ss[i]) <= stmts_size(ss),
    decreases ss.len(),
{
    if i < ss.len() - 1 {
        let pre = ss.subrange(0, ss.len() - 1);
        lemma_stmts_size_elem(pre, i);
        assert(pre[i] == ss[i]);
    }
}

pub proof fn lemma_arms_size_elem(arms: Seq<MatchArm>, i: int)
    requires
        0 <= i < arms.len(),
    ensures
        stmts_size(arms[i].body@) < arms_size(arms),
    decreases arms.len(),
{
    if i < arms.len() - 1 {
        let pre = arms.subrange(0, arms.len() - 1);
        lemma_arms_size_elem(pre, i);
        assert(pre[i] == arms[i]);
    }
}

/// The first line of a `let` dump, after its indentation.
pub open spec fn let_header(name: Seq<char>, ty: Option<String>, mutable: bool) -> Seq<char> {
    "Let name="@ + name + match ty {
        Some(t) => " type="@ + t@,
        None => Seq::empty(),
    } + if mutable { " mutable=true"@ } else { Seq::empty() } + "\n"@
}

/// The `Else` part of an `if` dump, when the branch has statements.
pub open spec fn else_text(pad: Seq<char>, present: bool, body: Seq<char>) -> Seq<char> {
    if present {
        pad + "  Else\n"@ + body
    } else {
        Seq::empty()
    }
}

/// The dump of a statement with indentation `pad`.
pub open spec fn stmt_text(s: Stmt, pad: Seq<char>) -> Seq<char>
    decreases s,
{
    let pad2 = indented(indented(pad));
    match s {
        Stmt::Let { mutable, name, ty, value, .. } => pad + let_header(name@, ty, mutable) + expr_text(
            value,
            indented(pad),
        ),
        Stmt::Assign { name, value, .. } => pad + "Assign name="@ + name@ + "\n"@ + expr_text(
            value,
            indented(pad),
        ),
        Stmt::If { condition, then_body, else_body } => pad + "If\n"@ + pad + "  Condition\n"@
            + expr_text(condition, pad2) + pad + "  Then\n"@ + stmts_text(then_body@, pad2)
            + else_text(pad, else_body@.len() > 0, stmts_text(else_body@, pad2)),
        Stmt::While { condition, body } => pad + "While\n"@ + pad + "  Condition\n"@ + expr_text(
            condition,
            pad2,
        ) + pad + "  Body\n"@ + stmts_text(body@, pad2),
        Stmt::Match { value, arms } => pad + "Match\n"@ + pad + "  Value\n"@ + expr_text(value, pad2)
            + arms_text(arms@, pad),
        Stmt::Return(Some(value)) => pad + "Return\n"@ + expr_text(value, indented(pad)),
        Stmt::Return(None) => pad + "Return\n"@,
        Stmt::Expr(value) => pad + "ExprStmt\n"@ + expr_text(value, indented(pad)),
    }
}

/// The dumps of a sequence of statements, one after another.
pub open spec fn stmts_text(ss: Seq<Stmt>, pad: Seq<char>) -> Seq<char>
    decreases ss,
{
    if ss.len() == 0 {
        Seq::empty()
    } else {
        stmts_text(ss.subrange(0, ss.len() - 1), pad) + stmt_text(ss[ss.len() - 1], pad)
    }
}

/// The dumps of the arms of a `match` whose statement is at `pad`.
pub open spec fn arms_text(arms: Seq<MatchArm>, pad: Seq<char>) -> Seq<char>
    decreases arms,
{
    if arms.len() == 0 {
        Seq::empty()
    } else {
        let arm = arms[arms.len() - 1];
        arms_text(arms.subrange(0, arms.len() - 1), pad) + pad + "  Arm pattern="@ + pattern_text(
            arm.pattern,
        ) + "\n"@ + stmts_text(arm.body@, indented(indented(pad)))
    }
}

/// Appends the dumps of `stmts` at `pad`.
fn dump_stmts(stmts: &Vec<Stmt>, pad: &str, out: &mut String)
    ensures
        final(out)@ == old(out)@ + stmts_text(stmts@, pad@),
    decreases stmts_size(stmts@), 1nat,
{
    let mut i: usize = 0;
    while i < stmts.len()
        invariant
            i <= stmts@.len(),
            out@ == old(out)@ + stmts_text(stmts@.subrange(0, i as int), pad@),
        decreases stmts.len() - i,
    {
        proof {
            lemma_stmts_size_elem(stmts@, i as int);
        }
        stmts[i].dump(pad, out);
        proof {
            let sub = stmts@.subrange(0, i as int + 1);
            assert(sub.subrange(0, sub.len() - 1) =~= stmts@.subrange(0, i as int));
        }
        i = i + 1;
    }
    assert(stmts@.subrange(0, stmts@.len() as int) =~= stmts@);
}

/// Appends the dumps of the arms of a `match` whose statement is at `pad`.
fn dump_arms(arms: &Vec<MatchArm>, pad: &str, inner2: &str, out: &mut String)
    requires
        inner2@ == indented(indented(pad@)),
    ensures
        final(out)@ == old(out)@ + arms_text(arms@, pad@),
    decreases arms_size(arms@), 2nat,
{
    let mut i: usize = 0;
    while i < arms.len()
        invariant
            i <= arms@.len(),
            inner2@ == indented(indented(pad@)),
            out@ == old(out)@ + arms_text(arms@.subrange(0, i as int), pad@),
        decreases arms.len() - i,
    {
        proof {
            lemma_arms_size_elem(arms@, i as int);
        }
        let arm = &arms[i];
        push_str(out, pad);
        push_str(out, "  Arm pattern=");
        let p = arm.pattern.dump();
        push_str(out, p.as_str());
        push_str(out, "\n");
        dump_stmts(&arm.body, inner2, out);
        proof {
            let sub = arms@.subrange(0, i as int + 1);
            assert(sub.subrange(0, sub.len() - 1) =~= arms@.subrange(0, i as int));
            assert(out@ =~= old(out)@ + arms_text(sub, pad@));
        }
        i = i + 1;
    }
    assert(arms@.subrange(0, arms@.len() as int) =~= arms@);
}

fn let_header_text(name: &String, ty: &Option<String>, mutable: bool) -> (h: String)
    ensures
        h@ == let_header(name@, *ty, mutable),
{
    let mut h = String::new();
    push_str(&mut h, "Let name=");
    push_str(&mut h, name.as_str());
    match ty {
        Some(t) => {
            push_str(&mut h, " type=");
            push_str(&mut h, t.as_str());
        },
        None => {},
    }
    if mutable {
        push_str(&mut h, " mutable=true");
    }
    push_str(&mut h, "\n");
    assert(h@ =~= let_header(name@, *ty, mutable));
    h
}

/// Appends the dump of an `if` statement at `pad`.
fn dump_if(condition: &Expr, then_body: &Vec<Stmt>, else_body: &Vec<Stmt>, pad: &str, out: &mut String)
    ensures
        final(out)@ == old(out)@ + stmt_text(
            Stmt::If { condition: *condition, then_body: *then_body, else_body: *else_body },
            pad@,
        ),
    decreases stmts_size(then_body@) + stmts_size(else_body@), 3nat,
{
    let inner = indent_more(pad);
    let inner2 = indent_more(inner.as_str());
    let ghost a0 = old(out)@;
    push_str(out, pad);
    push_str(out, "If\n");
    push_str(out, pad);
    push_str(out, "  Condition\n");
    let ghost acc1 = pad@ + "If\n"@ + pad@ + "  Condition\n"@;
    assert(out@ =~= a0 + acc1);
    condition.dump(inner2.as_str(), out);
    proof {
        crate::text::lemma_concat_assoc(a0, acc1, expr_text(*condition, inner2@));
    }
    let ghost acc2 = acc1 + expr_text(*condition, inner2@);
    let ghost b2 = out@;
    push_str(out, pad);
    push_str(out, "  Then\n");
    proof {
        assert(out@ =~= b2 + (pad@ + "  Then\n"@));
        crate::text::lemma_concat_assoc(a0, acc2, pad@ + "  Then\n"@);
        assert(acc2 + (pad@ + "  Then\n"@) =~= acc2 + pad@ + "  Then\n"@);
    }
    let ghost acc3 = acc2 + pad@ + "  Then\n"@;
    dump_stmts(then_body, inner2.as_str(), out);
    proof {
        crate::text::lemma_concat_assoc(a0, acc3, stmts_text(then_body@, inner2@));
    }
    let ghost acc4 = acc3 + stmts_text(then_body@, inner2@);
    let ghost b4 = out@;
    if else_body.len() > 0 {
        push_str(out, pad);
        push_str(out, "  Else\n");
        dump_stmts(else_body, inner2.as_str(), out);
    }
    proof {
        let et = else_text(pad@, else_body@.len() > 0, stmts_text(else_body@, inner2@));
        assert(out@ =~= b4 + et);
        crate::text::lemma_concat_assoc(a0, acc4, et);
    }
}

impl Stmt {
    fn dump(&self, pad: &str, out: &mut String)
        ensures
            final(out)@ == old(out)@ + stmt_text(*self, pad@),
        decreases stmt_size(*self), 0nat,
    {
        match self {
            Stmt::Let { mutable, name, ty, value, .. } => {
                let inner = indent_more(pad);
                push_str(out, pad);
                let h = let_header_text(name, ty, *mutable);
                push_str(out, h.as_str());
                value.dump(inner.as_str(), out);
                assert(final(out)@ =~= old(out)@ + stmt_text(*self, pad@));
            },
            Stmt::Assign { name, value, .. } => {
                let inner = indent_more(pad);
                push_str(out, pad);
                push_str(out, "Assign name=");
                push_str(out, name.as_str());
                push_str(out, "\n");
                value.dump(inner.as_str(), out);
                assert(final(out)@ =~= old(out)@ + stmt_text(*self, pad@));
            },
            Stmt::If { condition, then_body, else_body } => {
                dump_if(condition, then_body, else_body, pad, out);
            },
            Stmt::While { condition, body } => {
                let inner = indent_more(pad);
                let inner2 = indent_more(inner.as_str());
                push_str(out, pad);
                push_str(out, "While\n");
                push_str(out, pad);
                push_str(out, "  Condition\n");
                condition.dump(inner2.as_str(), out);
                push_str(out, pad);
                push_str(out, "  Body\n");
                dump_stmts(body, inner2.as_str(), out);
                assert(final(out)@ =~= old(out)@ + stmt_text(*self, pad@));
            },
            Stmt::Match { value, arms } => {
                let inner = indent_more(pad);
                let inner2 = indent_more(inner.as_str());
                push_str(out, pad);
                push_str(out, "Match\n");
                push_str(out, pad);
                push_str(out, "  Value\n");
                value.dump(inner2.as_str(), out);
                dump_arms(arms, pad, inner2.as_str(), out);
                assert(final(out)@ =~= old(out)@ + stmt_text(*self, pad@));
            },
            Stmt::Return(Some(value)) => {
                let inner = indent_more(pad);
                push_str(out, pad);
                push_str(out, "Return\n");
                value.dump(inner.as_str(), out);
                assert(final(out)@ =~= old(out)@ + stmt_text(*self, pad@));
            },
            Stmt::Return(None) => {
                push_str(out, pad);
                push_str(out, "Return\n");
                assert(final(out)@ =~= old(out)@ + stmt_text(*self, pad@));
            },
            Stmt::Expr(value) => {
                let inner = indent_more(pad);
                push_str(out, pad);
                push_str(out, "ExprStmt\n");
                value.dump(inner.as_str(), out);
                assert(final(out)@ =~= old(out)@ + stmt_text(*self, pad@));
            },
        }
    }
}


pub open spec fn fields_text(fields: Seq<Field>, pad: Seq<char>) -> Seq<char>
    decreases fields.len(),
{
    if fields.len() == 0 {
        Seq::empty()
    } else {
        let f = fields[fields.len() - 1];
        fields_text(fields.subrange(0, fields.len() - 1), pad) + pad + "  Field name="@ + f.name@
            + " type="@ + f.ty@ + "\n"@
    }
}

pub open spec fn variants_text(variants: Seq<String>, pad: Seq<char>) -> Seq<char>
    decreases variants.len(),
{
    if variants.len() == 0 {
        Seq::empty()
    } else {
        variants_text(variants.subrange(0, variants.len() - 1), pad) + pad + "  Variant name="@
            + variants[variants.len() - 1]@ + "\n"@
    }
}

pub open spec fn params_text(params: Seq<Param>, pad: Seq<char>) -> Seq<char>
    decreases params.len(),
{
    if params.len() == 0 {
        Seq::empty()
    } else {
        let p = params[params.len() - 1];
        params_text(params.subrange(0, params.len() - 1), pad) + pad + "  Param name="@ + p.name@
            + " type="@ + p.ty@ + "\n"@
    }
}

/// The dump of a top-level item with indentation `pad`.
pub open spec fn item_text(item: Item, pad: Seq<char>) -> Seq<char> {
    match item {
        Item::ModuleDecl { name } => pad + "ModuleDecl name="@ + name@ + "\n"@,
        Item::Import { path } => pad + "Import path="@ + dotted(path@) + "\n"@,
        Item::Struct(decl) => pad + "Struct name="@ + decl.name@ + " exported="@ + bool_text(
            decl.exported,
        ) + "\n"@ + fields_text(decl.fields@, pad),
        Item::Enum(decl) => pad + "Enum name="@ + decl.name@ + " exported="@ + bool_text(decl.exported)
            + "\n"@ + variants_text(decl.variants@, pad),
        Item::Function(f) => pad + "Function name="@ + f.name@ + " exported="@ + bool_text(f.exported)
            + "\n"@ + params_text(f.params@, pad) + match f.return_type {
            Some(t) => pad + "  Return type="@ + t@ + "\n"@,
            None => Seq::empty(),
        } + stmts_text(f.body@, indented(pad)),
    }
}

pub open spec fn items_text(items: Seq<Item>, pad: Seq<char>) -> Seq<char>
    decreases items.len(),
{
    if items.len() == 0 {
        Seq::empty()
    } else {
        items_text(items.subrange(0, items.len() - 1), pad) + item_text(items[items.len() - 1], pad)
    }
}

/// The dump of a module: a header line, then each item one level in.
pub open spec fn module_text(m: Module) -> Seq<char> {
    "Module\n"@ + items_text(m.items@, "  "@)
}

fn dump_fields(fields: &Vec<Field>, pad: &str, out: &mut String)
    ensures
        final(out)@ == old(out)@ + fields_text(fields@, pad@),
{
    let mut i: usize = 0;
    while i < fields.len()
        invariant
            i <= fields@.len(),
            out@ == old(out)@ + fields_text(fields@.subrange(0, i as int), pad@),
        decreases fields.len() - i,
    {
        let field = &fields[i];
        push_str(out, pad);
        push_str(out, "  Field name=");
        push_str(out, field.name.as_str());
        push_str(out, " type=");
        push_str(out, field.ty.as_str());
        push_str(out, "\n");
        proof {
            let sub = fields@.subrange(0, i as int + 1);
            assert(sub.subrange(0, sub.len() - 1) =~= fields@.subrange(0, i as int));
            assert(out@ =~= old(out)@ + fields_text(sub, pad@));
        }
        i = i + 1;
    }
    assert(fields@.subrange(0, fields@.len() as int) =~= fields@);
}

fn dump_variants(variants: &Vec<String>, pad: &str, out: &mut String)
    ensures
        final(out)@ == old(out)@ + variants_text(variants@, pad@),
{
    let mut i: usize = 0;
    while i < variants.len()
        invariant
            i <= variants@.len(),
            out@ == old(out)@ + variants_text(variants@.subrange(0, i as int), pad@),
        decreases variants.len() - i,
    {
        push_str(out, pad);
        push_str(out, "  Variant name=");
        push_str(out, variants[i].as_str());
        push_str(out, "\n");
        proof {
            let sub = variants@.subrange(0, i as int + 1);
            assert(sub.subrange(0, sub.len() - 1) =~= variants@.subrange(0, i as int));
            assert(out@ =~= old(out)@ + variants_text(sub, pad@));
        }
        i = i + 1;
    }
    assert(variants@.subrange(0, variants@.len() as int) =~= variants@);
}

fn dump_params(params: &Vec<Param>, pad: &str, out: &mut String)
    ensures
        final(out)@ == old(out)@ + params_text(params@, pad@),
{
    let mut i: usize = 0;
    while i < params.len()
        invariant
            i <= params@.len(),
            out@ == old(out)@ + params_text(params@.subrange(0, i as int), pad@),
        decreases params.len() - i,
    {
        let param = &params[i];
        push_str(out, pad);
        push_str(out, "  Param name=");
        push_str(out, param.name.as_str());
        push_str(out, " type=");
        push_str(out, param.ty.as_str());
        push_str(out, "\n");
        proof {
            let sub = params@.subrange(0, i as int + 1);
            assert(sub.subrange(0, sub.len() - 1) =~= params@.subrange(0, i as int));
            assert(out@ =~= old(out)@ + params_text(sub, pad@));
        }
        i = i + 1;
    }
    assert(params@.subrange(0, params@.len() as int) =~= params@);
}

impl Item {
    #[verifier::spinoff_prover]
    #[verifier::rlimit(50)]
    fn dump(&self, pad: &str, out: &mut String)
        ensures
            final(out)@ == old(out)@ + item_text(*self, pad@),
    {
        push_str(out, pad);
        match self {
            Item::ModuleDecl { name } => {
                push_str(out, "ModuleDecl name=");
                push_str(out, name.as_str());
                push_str(out, "\n");
            },
            Item::Import { path } => {
                push_str(out, "Import path=");
                push_dotted(out, path);
                push_str(out, "\n");
            },
            Item::Struct(decl) => {
                push_str(out, "Struct name=");
                push_str(out, decl.name.as_str());
                push_str(out, " exported=");
                push_bool(out, decl.exported);
                push_str(out, "\n");
                dump_fields(&decl.fields, pad, out);
            },
            Item::Enum(decl) => {
                push_str(out, "Enum name=");
                push_str(out, decl.name.as_str());
                push_str(out, " exported=");
                push_bool(out, decl.exported);
                push_str(out, "\n");
                dump_variants(&decl.variants, pad, out);
            },
            Item::Function(function) => {
                push_str(out, "Function name=");
                push_str(out, function.name.as_str());
                push_str(out, " exported=");
                push_bool(out, function.exported);
                push_str(out, "\n");
                dump_params(&function.params, pad, out);
                match &function.return_type {
                    Some(return_type) => {
                        push_str(out, pad);
                        push_str(out, "  Return type=");
                        push_str(out, return_type.as_str());
                        push_str(out, "\n");
                    },
                    None => {},
                }
                let inner = indent_more(pad);
                dump_stmts(&function.body, inner.as_str(), out);
            },
        }
        assert(final(out)@ =~= old(out)@ + item_text(*self, pad@));
    }
}

impl Module {
    /// The indented text dump of the module's syntax tree.
    pub fn dump(&self) -> (s: String)
        ensures
            s@ == module_text(*self),
    {
        let mut out = String::new();
        push_str(&mut out, "Module\n");
        let mut i: usize = 0;
        while i < self.items.len()
            invariant
                i <= self.items@.len(),
                out@ == "Module\n"@ + items_text(self.items@.subrange(0, i as int), "  "@),
            decreases self.items.len() - i,
        {
            self.items[i].dump("  ", &mut out);
            proof {
                let sub = self.items@.subrange(0, i as int + 1);
                assert(sub.subrange(0, sub.len() - 1) =~= self.items@.subrange(0, i as int));
                assert(out@ =~= "Module\n"@ + items_text(sub, "  "@));
            }
            i = i + 1;
        }
        assert(self.items@.subrange(0, self.items@.len() as int) =~= self.items@);
        out
    }
}

} // verus!
