//! The mid-level IR: a flat, explicitly typed form of a module that the
//! back ends consume. This module lowers a parsed module into it, dumps it as
//! text, and checks it for type and control-flow errors.
use vstd::prelude::*;
use crate::ast::{
    arms_size, expr_size, exprs_size, lemma_arms_size_elem, lemma_exprs_size_elem,
    lemma_stmts_size_elem, stmt_size, stmts_size, BinaryOp, UnaryOp, Expr, Function, Item, MatchArm, Module,
    Param, Pattern, Stmt,
};
use crate::resolver::{enum_list_names, enum_names_view, enums_view, last_dot, module_enums, EnumNames};
use crate::text::{
    chars_of, contains_str, copy_string, copy_strings, lemma_text_less_irreflexive, lemma_text_less_total,
    lemma_text_less_transitive, str_equal, string_from_range, strings_view, text_before, text_less,
};

pub mod check;
pub mod dump;

pub use self::check::{operator_trait_method, verify};
pub use self::dump::unary_op_text;
pub use self::dump::{binary_op_text, dump, dump_program};

verus! {

/// A lowered program: its enums and its functions.
#[derive(Debug, PartialEq, Eq)]
pub struct Program {
    pub enums: Vec<MirEnum>,
    pub functions: Vec<MirFunction>,
}

#[derive(Debug, PartialEq, Eq)]
pub struct MirEnum {
    pub name: String,
    pub variants: Vec<MirEnumVariant>,
}

#[derive(Debug, PartialEq, Eq)]
pub struct MirEnumVariant {
    pub name: String,
    pub payload_type: Option<String>,
}

#[derive(Debug, PartialEq, Eq)]
pub struct MirFunction {
    pub name: String,
    pub params: Vec<Param>,
    pub return_type: Option<String>,
    pub body: Vec<MirStmt>,
}

#[derive(Debug, PartialEq, Eq)]
pub enum MirStmt {
    Local { mutable: bool, name: String, ty: Option<String>, value: MirExpr },
    Store { place: MirPlace, value: MirExpr },
    If { condition: MirExpr, then_body: Vec<MirStmt>, else_body: Vec<MirStmt> },
    While { condition: MirExpr, body: Vec<MirStmt> },
    Match { value: MirExpr, arms: Vec<MirMatchArm> },
    Return(Option<MirExpr>),
    Drop(MirExpr),
}

/// The target of a store.
#[derive(Debug, PartialEq, Eq)]
pub enum MirPlace {
    Local(String),
}

#[derive(Debug, PartialEq, Eq)]
pub struct MirMatchArm {
    pub pattern: MirPattern,
    pub body: Vec<MirStmt>,
}

#[derive(Debug, PartialEq, Eq)]
pub enum MirPattern {
    Name(String),
    Variant { enum_name: String, variant: String, binding: Option<String> },
    Int(String),
    String(String),
    Bool(bool),
    Wildcard,
}

#[derive(Debug, PartialEq, Eq)]
pub enum MirExpr {
    Load(String),
    Int(String),
    String(String),
    Bool(bool),
    Binary { op: BinaryOp, left: Box<MirExpr>, right: Box<MirExpr> },
    Unary { op: UnaryOp, expr: Box<MirExpr> },
    Call { callee: String, args: Vec<MirExpr> },
    EnumVariant { enum_name: String, variant: String, payload: Option<Box<MirExpr>> },
    FieldAccess { base: Box<MirExpr>, field: String },
    ArrayLiteral { elements: Vec<MirExpr> },
    Index { base: Box<MirExpr>, index: Box<MirExpr> },
}

// ---------------------------------------------------------------------------
// Lowering
// ---------------------------------------------------------------------------

/// The enum variants lowering recognises in `Enum.Variant(..)` calls: those of
/// the module's own enums, and those of enums declared elsewhere.
pub struct SpecVariants {
    pub local: Seq<(Seq<char>, Seq<Seq<char>>)>,
    pub external: Seq<(Seq<char>, Seq<Seq<char>>)>,
}

/// The variant names of the last enum called `name`, if there is one.
pub open spec fn last_variants(es: Seq<(Seq<char>, Seq<Seq<char>>)>, name: Seq<char>) -> Option<
    Seq<Seq<char>>,
>
    decreases es.len(),
{
    if es.len() == 0 {
        None
    } else if es.last().0 == name {
        Some(es.last().1)
    } else {
        last_variants(es.drop_last(), name)
    }
}

/// Whether `variant` is a variant of the enum `name`.
pub open spec fn knows_variant(t: SpecVariants, name: Seq<char>, variant: Seq<char>) -> bool {
    ||| (last_variants(t.local, name) matches Some(vs) && vs.contains(variant))
    ||| exists|i: int|
        0 <= i < t.external.len() && t.external[i].0 == name && t.external[i].1.contains(variant)
}

/// Whether a call to `callee` constructs an enum value: `callee` is
/// `Enum.Variant`, split at its last dot, for a known variant.
pub open spec fn is_variant_callee(callee: Seq<char>, t: SpecVariants) -> bool {
    let k = last_dot(callee);
    k >= 0 && knows_variant(t, callee.subrange(0, k), callee.subrange(k + 1, callee.len() as int))
}

/// Whether `m` is the lowering of `e`.
pub open spec fn lowers_expr(e: Expr, m: MirExpr, t: SpecVariants) -> bool
    decreases e,
{
    match e {
        Expr::Name { name, .. } => m == MirExpr::Load(name),
        Expr::Int { value, .. } => m == MirExpr::Int(value),
        Expr::String { value, .. } => m == MirExpr::String(value),
        Expr::Bool { value, .. } => m == MirExpr::Bool(value),
        Expr::Binary { op, left, right, .. } => m matches MirExpr::Binary { op: o, left: l, right: r }
            && o == op && lowers_expr(*left, *l, t) && lowers_expr(*right, *r, t),
        Expr::Unary { op, expr, .. } => m matches MirExpr::Unary { op: o, expr: x } && o == op && lowers_expr(
            *expr,
            *x,
            t,
        ),
        Expr::Call { callee, args, .. } => if is_variant_callee(callee@, t) {
            let k = last_dot(callee@);
            &&& m matches MirExpr::EnumVariant { enum_name, variant, payload }
            &&& enum_name@ == callee@.subrange(0, k)
            &&& variant@ == callee@.subrange(k + 1, callee@.len() as int)
            &&& if args@.len() == 0 {
                payload is None
            } else {
                payload matches Some(p) && lowers_expr(args@[0], *p, t)
            }
        } else {
            m matches MirExpr::Call { callee: c, args: margs } && c == callee && lowers_exprs(
                args@,
                margs@,
                t,
            )
        },
        Expr::FieldAccess { base, field, .. } => if base_names_variant(*base, field@, t) {
            *base matches Expr::Name { name, .. } && m matches MirExpr::EnumVariant { enum_name, variant, payload }
                && enum_name == name && variant == field && payload is None
        } else {
            m matches MirExpr::FieldAccess { base: b, field: f } && f == field && lowers_expr(*base, *b, t)
        },
        Expr::Index { base, index, .. } => m matches MirExpr::Index { base: b, index: i } && lowers_expr(
            *base,
            *b,
            t,
        ) && lowers_expr(*index, *i, t),
        Expr::ArrayLiteral { elements, .. } => m matches MirExpr::ArrayLiteral { elements: ms } && lowers_exprs(
            elements@,
            ms@,
            t,
        ),
    }
}

/// Whether `base.field` names a variant without payload: `base` is the name
/// of an enum that has the variant `field`.
pub open spec fn base_names_variant(base: Expr, field: Seq<char>, t: SpecVariants) -> bool {
    base matches Expr::Name { name, .. } && knows_variant(t, name@, field)
}

/// Whether `ms` lowers `es`, one for one.
pub open spec fn lowers_exprs(es: Seq<Expr>, ms: Seq<MirExpr>, t: SpecVariants) -> bool
    decreases es,
{
    if es.len() == 0 {
        ms.len() == 0
    } else {
        ms.len() == es.len() && lowers_exprs(es.drop_last(), ms.drop_last(), t) && lowers_expr(
            es.last(),
            ms.last(),
            t,
        )
    }
}

/// The pattern a surface pattern lowers to.
pub open spec fn lowered_pattern(p: Pattern) -> MirPattern {
    match p {
        Pattern::Name(n) => MirPattern::Name(n),
        Pattern::Int(v) => MirPattern::Int(v),
        Pattern::String(v) => MirPattern::String(v),
        Pattern::Bool(b) => MirPattern::Bool(b),
        Pattern::Wildcard => MirPattern::Wildcard,
    }
}

/// Whether `m` is the lowering of the statement `s`.
pub open spec fn lowers_stmt(s: Stmt, m: MirStmt, t: SpecVariants) -> bool
    decreases s,
{
    match s {
        Stmt::Let { mutable, name, ty, value, .. } => m matches MirStmt::Local {
            mutable: mm,
            name: n,
            ty: mt,
            value: v,
        } && mm == mutable && n == name && mt == ty && lowers_expr(value, v, t),
        Stmt::Assign { name, value, .. } => m matches MirStmt::Store { place: MirPlace::Local(n), value: v }
            && n == name && lowers_expr(value, v, t),
        Stmt::If { condition, then_body, else_body } => m matches MirStmt::If {
            condition: c,
            then_body: tb,
            else_body: eb,
        } && lowers_expr(condition, c, t) && lowers_stmts(then_body@, tb@, t) && lowers_stmts(
            else_body@,
            eb@,
            t,
        ),
        Stmt::While { condition, body } => m matches MirStmt::While { condition: c, body: b }
            && lowers_expr(condition, c, t) && lowers_stmts(body@, b@, t),
        Stmt::Match { value, arms } => m matches MirStmt::Match { value: v, arms: ma } && lowers_expr(
            value,
            v,
            t,
        ) && lowers_arms(arms@, ma@, t),
        Stmt::Return(None) => m == MirStmt::Return(None),
        Stmt::Return(Some(e)) => m matches MirStmt::Return(Some(v)) && lowers_expr(e, v, t),
        Stmt::Expr(e) => m matches MirStmt::Drop(v) && lowers_expr(e, v, t),
    }
}

pub open spec fn lowers_stmts(ss: Seq<Stmt>, ms: Seq<MirStmt>, t: SpecVariants) -> bool
    decreases ss,
{
    if ss.len() == 0 {
        ms.len() == 0
    } else {
        ms.len() == ss.len() && lowers_stmts(ss.drop_last(), ms.drop_last(), t) && lowers_stmt(
            ss.last(),
            ms.last(),
            t,
        )
    }
}

pub open spec fn lowers_arms(arms: Seq<MatchArm>, ms: Seq<MirMatchArm>, t: SpecVariants) -> bool
    decreases arms,
{
    if arms.len() == 0 {
        ms.len() == 0
    } else {
        &&& ms.len() == arms.len()
        &&& lowers_arms(arms.drop_last(), ms.drop_last(), t)
        &&& ms.last().pattern == lowered_pattern(arms.last().pattern)
        &&& lowers_stmts(arms.last().body@, ms.last().body@, t)
    }
}

/// Whether `m` is the lowering of the function `f`.
pub open spec fn lowers_function(f: Function, m: MirFunction, t: SpecVariants) -> bool {
    &&& m.name == f.name
    &&& m.params@ == f.params@
    &&& m.return_type == f.return_type
    &&& lowers_stmts(f.body@, m.body@, t)
}

/// The functions among `items`.
pub open spec fn function_items(items: Seq<Item>) -> Seq<Function>
    decreases items.len(),
{
    if items.len() == 0 {
        Seq::empty()
    } else {
        function_items(items.drop_last()) + match items.last() {
            Item::Function(f) => seq![f],
            _ => Seq::empty(),
        }
    }
}

/// What lowering consults to recognise variant constructors.
struct VariantTable {
    local: Vec<EnumNames>,
    external: Vec<EnumNames>,
}

impl VariantTable {
    spec fn view(&self) -> SpecVariants {
        SpecVariants { local: enums_view(self.local@), external: enums_view(self.external@) }
    }
}

/// Whether the table knows `variant` of the enum `name`.
fn table_knows(table: &VariantTable, name: &str, variant: &str) -> (b: bool)
    ensures
        b == knows_variant(table.view(), name@, variant@),
{
    let ghost ls = enums_view(table.local@);
    let mut i = table.local.len();
    let mut done = false;
    let mut known = false;
    assert(ls.subrange(0, ls.len() as int) =~= ls);
    while i > 0 && !done
        invariant
            i <= ls.len(),
            ls == enums_view(table.local@),
            !done ==> last_variants(ls, name@) == last_variants(ls.subrange(0, i as int), name@),
            known ==> done,
            done ==> i > 0 && last_variants(ls, name@) == Some(ls[i - 1].1) && known == ls[i
                - 1].1.contains(variant@),
        decreases i + (if done { 0int } else { 1int }),
    {
        let ghost sub = ls.subrange(0, i as int);
        assert(sub.drop_last() =~= ls.subrange(0, i as int - 1));
        if str_equal(table.local[i - 1].name.as_str(), name) {
            assert(sub.last() == enum_names_view(table.local@[i - 1]));
            assert(last_variants(sub, name@) == Some(sub.last().1));
            known = crate::text::contains_str(&table.local[i - 1].variants, variant);
            assert(known == sub.last().1.contains(variant@));
            done = true;
        } else {
            i = i - 1;
        }
    }
    if !done {
        assert(ls.subrange(0, 0) =~= Seq::<(Seq<char>, Seq<Seq<char>>)>::empty());
    }
    if known {
        assert(last_variants(table.view().local, name@) matches Some(vs) && vs.contains(variant@));
        return true;
    }
    let ghost es = enums_view(table.external@);
    let mut j: usize = 0;
    while j < table.external.len()
        invariant
            j <= es.len(),
            es == enums_view(table.external@),
            !(last_variants(ls, name@) matches Some(vs) && vs.contains(variant@)),
            forall|k: int| 0 <= k < j ==> !(es[k].0 == name@ && es[k].1.contains(variant@)),
        decreases table.external.len() - j,
    {
        if str_equal(table.external[j].name.as_str(), name) && crate::text::contains_str(
            &table.external[j].variants,
            variant,
        ) {
            assert(es[j as int] == enum_names_view(table.external@[j as int]));
            assert(0 <= j < es.len() && es[j as int].0 == name@ && es[j as int].1.contains(variant@));
            assert(table.view().external == es);
            return true;
        }
        j = j + 1;
    }
    false
}

/// Splits `callee` at its last dot when it names a known variant.
fn variant_parts(callee: &str, table: &VariantTable) -> (r: Option<(String, String)>)
    ensures
        r is Some == is_variant_callee(callee@, table.view()),
        r matches Some((e, v)) ==> e@ == callee@.subrange(0, last_dot(callee@)) && v@
            == callee@.subrange(last_dot(callee@) + 1, callee@.len() as int),
{
    let chars = chars_of(callee);
    let ghost s = chars@;
    let mut k = chars.len();
    assert(s.subrange(0, s.len() as int) =~= s);
    while k > 0 && chars[k - 1] != '.'
        invariant
            k <= s.len(),
            s == chars@,
            last_dot(s) == last_dot(s.subrange(0, k as int)),
        decreases k,
    {
        assert(s.subrange(0, k as int).drop_last() =~= s.subrange(0, k as int - 1));
        k = k - 1;
    }
    if k == 0 {
        assert(s.subrange(0, 0) =~= Seq::<char>::empty());
        return None;
    }
    assert(s.subrange(0, k as int).last() == '.');
    let dot = k - 1;
    let enum_name = string_from_range(&chars, 0, dot);
    let variant = string_from_range(&chars, dot + 1, chars.len());
    if table_knows(table, enum_name.as_str(), variant.as_str()) {
        Some((enum_name, variant))
    } else {
        None
    }
}

pub(crate) fn copy_opt_string(s: &Option<String>) -> (r: Option<String>)
    ensures
        r == *s,
{
    match s {
        Some(t) => Some(t.clone()),
        None => None,
    }
}

pub(crate) fn copy_params(params: &Vec<Param>) -> (r: Vec<Param>)
    ensures
        r@ == params@,
{
    let mut r: Vec<Param> = Vec::new();
    let mut i: usize = 0;
    while i < params.len()
        invariant
            i <= params@.len(),
            r@ == params@.subrange(0, i as int),
        decreases params.len() - i,
    {
        let p = &params[i];
        r.push(Param { name: p.name.clone(), name_span: p.name_span, ty: p.ty.clone() });
        assert(r@ =~= params@.subrange(0, i as int + 1));
        i = i + 1;
    }
    assert(params@.subrange(0, params@.len() as int) =~= params@);
    r
}

fn lower_expr(expr: &Expr, table: &VariantTable) -> (m: MirExpr)
    ensures
        lowers_expr(*expr, m, table.view()),
    decreases expr_size(*expr), 0nat,
{
    match expr {
        Expr::Name { name, .. } => MirExpr::Load(name.clone()),
        Expr::Int { value, .. } => MirExpr::Int(value.clone()),
        Expr::String { value, .. } => MirExpr::String(value.clone()),
        Expr::Bool { value, .. } => MirExpr::Bool(*value),
        Expr::Binary { op, left, right, .. } => {
            let l = lower_expr(left, table);
            let r = lower_expr(right, table);
            MirExpr::Binary { op: *op, left: Box::new(l), right: Box::new(r) }
        },
        Expr::Unary { op, expr: operand, .. } => {
            let x = lower_expr(operand, table);
            MirExpr::Unary { op: *op, expr: Box::new(x) }
        },
        Expr::Call { callee, args, .. } => {
            match variant_parts(callee.as_str(), table) {
                Some((enum_name, variant)) => {
                    let payload = if args.len() > 0 {
                        proof {
                            lemma_exprs_size_elem(args@, 0);
                        }
                        Some(Box::new(lower_expr(&args[0], table)))
                    } else {
                        None
                    };
                    MirExpr::EnumVariant { enum_name, variant, payload }
                },
                None => MirExpr::Call { callee: callee.clone(), args: lower_exprs(args, table) },
            }
        },
        Expr::FieldAccess { base, field, .. } => {
            let variant = match &**base {
                Expr::Name { name, .. } => if table_knows(table, name.as_str(), field.as_str()) {
                    Some(name.clone())
                } else {
                    None
                },
                _ => None,
            };
            match variant {
                Some(enum_name) => MirExpr::EnumVariant { enum_name, variant: field.clone(), payload: None },
                None => MirExpr::FieldAccess { base: Box::new(lower_expr(base, table)), field: field.clone() },
            }
        },
        Expr::Index { base, index, .. } => {
            let b = lower_expr(base, table);
            let i = lower_expr(index, table);
            MirExpr::Index { base: Box::new(b), index: Box::new(i) }
        },
        Expr::ArrayLiteral { elements, .. } => MirExpr::ArrayLiteral { elements: lower_exprs(elements, table) },
    }
}

/// The lowerings of `es`, one for one.
fn lower_exprs(es: &Vec<Expr>, table: &VariantTable) -> (ms: Vec<MirExpr>)
    ensures
        ms@.len() == es@.len(),
        lowers_exprs(es@, ms@, table.view()),
    decreases exprs_size(es@), 1nat,
{
    let mut ms: Vec<MirExpr> = Vec::new();
    let mut i: usize = 0;
    while i < es.len()
        invariant
            i <= es@.len(),
            ms@.len() == i,
            lowers_exprs(es@.subrange(0, i as int), ms@, table.view()),
        decreases es.len() - i,
    {
        proof {
            lemma_exprs_size_elem(es@, i as int);
        }
        let m = lower_expr(&es[i], table);
        let ghost prev = ms@;
        ms.push(m);
        proof {
            let sub = es@.subrange(0, i as int + 1);
            assert(sub.drop_last() =~= es@.subrange(0, i as int));
            assert(ms@.drop_last() =~= prev);
        }
        i = i + 1;
    }
    assert(es@.subrange(0, es@.len() as int) =~= es@);
    ms
}

fn lower_pattern(pattern: &Pattern) -> (m: MirPattern)
    ensures
        m == lowered_pattern(*pattern),
{
    match pattern {
        Pattern::Name(n) => MirPattern::Name(n.clone()),
        Pattern::Int(v) => MirPattern::Int(v.clone()),
        Pattern::String(v) => MirPattern::String(v.clone()),
        Pattern::Bool(b) => MirPattern::Bool(*b),
        Pattern::Wildcard => MirPattern::Wildcard,
    }
}

fn lower_place(name: &String) -> (p: MirPlace)
    ensures
        p == MirPlace::Local(*name),
{
    MirPlace::Local(name.clone())
}

fn lower_stmts(stmts: &Vec<Stmt>, table: &VariantTable) -> (ms: Vec<MirStmt>)
    ensures
        lowers_stmts(stmts@, ms@, table.view()),
    decreases stmts_size(stmts@), 1nat,
{
    let mut ms: Vec<MirStmt> = Vec::new();
    let mut i: usize = 0;
    while i < stmts.len()
        invariant
            i <= stmts@.len(),
            ms@.len() == i,
            lowers_stmts(stmts@.subrange(0, i as int), ms@, table.view()),
        decreases stmts.len() - i,
    {
        proof {
            lemma_stmts_size_elem(stmts@, i as int);
        }
        let m = lower_stmt(&stmts[i], table);
        let ghost prev = ms@;
        ms.push(m);
        proof {
            let sub = stmts@.subrange(0, i as int + 1);
            assert(sub.drop_last() =~= stmts@.subrange(0, i as int));
            assert(ms@.drop_last() =~= prev);
        }
        i = i + 1;
    }
    assert(stmts@.subrange(0, stmts@.len() as int) =~= stmts@);
    ms
}

fn lower_arms(arms: &Vec<MatchArm>, table: &VariantTable) -> (ms: Vec<MirMatchArm>)
    ensures
        lowers_arms(arms@, ms@, table.view()),
    decreases arms_size(arms@), 1nat,
{
    let mut ms: Vec<MirMatchArm> = Vec::new();
    let mut i: usize = 0;
    while i < arms.len()
        invariant
            i <= arms@.len(),
            ms@.len() == i,
            lowers_arms(arms@.subrange(0, i as int), ms@, table.view()),
        decreases arms.len() - i,
    {
        proof {
            lemma_arms_size_elem(arms@, i as int);
        }
        let body = lower_stmts(&arms[i].body, table);
        let m = MirMatchArm { pattern: lower_pattern(&arms[i].pattern), body };
        let ghost prev = ms@;
        ms.push(m);
        proof {
            let sub = arms@.subrange(0, i as int + 1);
            assert(sub.drop_last() =~= arms@.subrange(0, i as int));
            assert(ms@.drop_last() =~= prev);
        }
        i = i + 1;
    }
    assert(arms@.subrange(0, arms@.len() as int) =~= arms@);
    ms
}

fn lower_stmt(stmt: &Stmt, table: &VariantTable) -> (m: MirStmt)
    ensures
        lowers_stmt(*stmt, m, table.view()),
    decreases stmt_size(*stmt), 0nat,
{
    match stmt {
        Stmt::Let { mutable, name, ty, value, .. } => MirStmt::Local {
            mutable: *mutable,
            name: name.clone(),
            ty: copy_opt_string(ty),
            value: lower_expr(value, table),
        },
        Stmt::Assign { name, value, .. } => {
            let v = lower_expr(value, table);
            MirStmt::Store { place: lower_place(name), value: v }
        },
        Stmt::If { condition, then_body, else_body } => {
            let c = lower_expr(condition, table);
            let t = lower_stmts(then_body, table);
            let e = lower_stmts(else_body, table);
            MirStmt::If { condition: c, then_body: t, else_body: e }
        },
        Stmt::While { condition, body } => {
            let c = lower_expr(condition, table);
            let b = lower_stmts(body, table);
            MirStmt::While { condition: c, body: b }
        },
        Stmt::Match { value, arms } => {
            let v = lower_expr(value, table);
            let a = lower_arms(arms, table);
            MirStmt::Match { value: v, arms: a }
        },
        Stmt::Return(value) => match value {
            Some(e) => MirStmt::Return(Some(lower_expr(e, table))),
            None => MirStmt::Return(None),
        },
        Stmt::Expr(e) => MirStmt::Drop(lower_expr(e, table)),
    }
}

fn lower_function(function: &Function, table: &VariantTable) -> (m: MirFunction)
    ensures
        lowers_function(*function, m, table.view()),
{
    MirFunction {
        name: function.name.clone(),
        params: copy_params(&function.params),
        return_type: copy_opt_string(&function.return_type),
        body: lower_stmts(&function.body, table),
    }
}

/// The module's enums with their variant names, in declaration order.
fn enum_variants(module: &Module) -> (r: Vec<EnumNames>)
    ensures
        enums_view(r@) == module_enums(module.items@),
{
    let items = &module.items;
    let mut r: Vec<EnumNames> = Vec::new();
    let mut i: usize = 0;
    while i < items.len()
        invariant
            i <= items@.len(),
            items == &module.items,
            enums_view(r@) == module_enums(items@.subrange(0, i as int)),
        decreases items.len() - i,
    {
        let ghost sub = items@.subrange(0, i as int + 1);
        assert(sub.drop_last() =~= items@.subrange(0, i as int));
        let ghost prev = r@;
        match &items[i] {
            Item::Enum(decl) => {
                let entry = EnumNames { name: decl.name.clone(), variants: crate::text::copy_strings(&decl.variants) };
                r.push(entry);
                assert(enums_view(r@) =~= enums_view(prev).push(enum_names_view(entry)));
            },
            _ => {
                assert(enums_view(r@) =~= enums_view(prev) + Seq::<(Seq<char>, Seq<Seq<char>>)>::empty());
            },
        }
        i = i + 1;
    }
    assert(items@.subrange(0, items@.len() as int) =~= items@);
    r
}

// ---------------------------------------------------------------------------
// Enums declared elsewhere, and the public lowering entry points
// ---------------------------------------------------------------------------

pub open spec fn opt_text(o: Option<String>) -> Option<Seq<char>> {
    match o {
        Some(t) => Some(t@),
        None => None,
    }
}

pub open spec fn variant_view(v: MirEnumVariant) -> (Seq<char>, Option<Seq<char>>) {
    (v.name@, opt_text(v.payload_type))
}

pub open spec fn variants_view(vs: Seq<MirEnumVariant>) -> Seq<(Seq<char>, Option<Seq<char>>)> {
    vs.map_values(|v: MirEnumVariant| variant_view(v))
}

pub open spec fn mir_enum_view(e: MirEnum) -> (Seq<char>, Seq<(Seq<char>, Option<Seq<char>>)>) {
    (e.name@, variants_view(e.variants@))
}

pub open spec fn mir_enums_view(es: Seq<MirEnum>) -> Seq<
    (Seq<char>, Seq<(Seq<char>, Option<Seq<char>>)>),
> {
    es.map_values(|e: MirEnum| mir_enum_view(e))
}

/// `t` with `x` inserted before the first entry whose key is above `x`'s.
pub open spec fn insert_by_key<T>(t: Seq<(Seq<char>, T)>, x: (Seq<char>, T)) -> Seq<(Seq<char>, T)>
    decreases t.len(),
{
    if t.len() == 0 {
        seq![x]
    } else if text_less(x.0, t[0].0) {
        seq![x] + t
    } else {
        seq![t[0]] + insert_by_key(t.drop_first(), x)
    }
}

/// The entries of `s` in ascending key order (entries with equal keys keep
/// their relative order).
pub open spec fn sort_by_key<T>(s: Seq<(Seq<char>, T)>) -> Seq<(Seq<char>, T)>
    decreases s.len(),
{
    if s.len() == 0 {
        Seq::empty()
    } else {
        insert_by_key(sort_by_key(s.drop_last()), s.last())
    }
}

/// The enums among `ext` whose names are not in `names`, in order, each with
/// its variants sorted by name.
pub open spec fn kept_external(
    ext: Seq<(Seq<char>, Seq<(Seq<char>, Option<Seq<char>>)>)>,
    names: Seq<Seq<char>>,
) -> Seq<(Seq<char>, Seq<(Seq<char>, Option<Seq<char>>)>)>
    decreases ext.len(),
{
    if ext.len() == 0 {
        Seq::empty()
    } else {
        kept_external(ext.drop_last(), names) + if names.contains(ext.last().0) {
            Seq::empty()
        } else {
            seq![(ext.last().0, sort_by_key(ext.last().1))]
        }
    }
}

/// Variant names paired with no payload type.
pub open spec fn without_payloads(ns: Seq<Seq<char>>) -> Seq<(Seq<char>, Option<Seq<char>>)> {
    ns.map_values(|n: Seq<char>| (n, None::<Seq<char>>))
}

/// A module enum as lowering lists it: its variants carry no payload.
pub open spec fn local_mir_enum(e: (Seq<char>, Seq<Seq<char>>)) -> (
    Seq<char>,
    Seq<(Seq<char>, Option<Seq<char>>)>,
) {
    (e.0, without_payloads(e.1))
}

/// The names of variants.
pub open spec fn variant_names(vs: Seq<MirEnumVariant>) -> Seq<Seq<char>> {
    vs.map_values(|v: MirEnumVariant| v.name@)
}

/// The enum and variant names of an enum declared elsewhere.
pub open spec fn external_name(e: MirEnum) -> (Seq<char>, Seq<Seq<char>>) {
    (e.name@, variant_names(e.variants@))
}

/// The enum and variant names of enums declared elsewhere.
pub open spec fn external_names(ext: Seq<MirEnum>) -> Seq<(Seq<char>, Seq<Seq<char>>)> {
    ext.map_values(|e: MirEnum| external_name(e))
}

/// Whether `p` is the lowering of `module`, given the enums declared elsewhere:
/// the module's enums in order, then the other enums not declared by the module
/// in ascending name order, each with its variants in ascending name order, then
/// the lowered functions in order.
pub open spec fn lowered_program(module: Module, ext: Seq<MirEnum>, p: Program) -> bool {
    let locals = module_enums(module.items@);
    let t = SpecVariants { local: locals, external: external_names(ext) };
    let kept = kept_external(mir_enums_view(ext), enum_list_names(locals));
    let fs = function_items(module.items@);
    &&& p.enums@.len() == locals.len() + kept.len()
    &&& forall|i: int|
        0 <= i < locals.len() ==> mir_enum_view(#[trigger] p.enums@[i]) == local_mir_enum(locals[i])
    &&& mir_enums_view(p.enums@).subrange(locals.len() as int, p.enums@.len() as int) == sort_by_key(
        kept,
    )
    &&& p.functions@.len() == fs.len()
    &&& forall|i: int| 0 <= i < fs.len() ==> lowers_function(fs[i], #[trigger] p.functions@[i], t)
}

pub proof fn lemma_insert_by_key_len<T>(t: Seq<(Seq<char>, T)>, x: (Seq<char>, T))
    ensures
        insert_by_key(t, x).len() == t.len() + 1,
    decreases t.len(),
{
    if t.len() > 0 && !text_less(x.0, t[0].0) {
        lemma_insert_by_key_len(t.drop_first(), x);
    }
}

pub proof fn lemma_sort_by_key_len<T>(s: Seq<(Seq<char>, T)>)
    ensures
        sort_by_key(s).len() == s.len(),
    decreases s.len(),
{
    if s.len() > 0 {
        lemma_sort_by_key_len(s.drop_last());
        lemma_insert_by_key_len(sort_by_key(s.drop_last()), s.last());
    }
}

/// Inserting at the first position whose key is above `x`'s is `insert_by_key`.
pub proof fn lemma_insert_at_position<T>(t: Seq<(Seq<char>, T)>, p: int, x: (Seq<char>, T))
    requires
        0 <= p <= t.len(),
        forall|k: int| 0 <= k < p ==> !text_less(x.0, #[trigger] t[k].0),
        p < t.len() ==> text_less(x.0, t[p].0),
    ensures
        insert_by_key(t, x) == t.insert(p, x),
    decreases p,
{
    if t.len() == 0 {
        assert(t.insert(p, x) =~= seq![x]);
    } else if p == 0 {
        assert(t.insert(p, x) =~= seq![x] + t);
    } else {
        let r = t.drop_first();
        assert forall|k: int| 0 <= k < p - 1 implies !text_less(x.0, #[trigger] r[k].0) by {
            assert(r[k] == t[k + 1]);
        }
        lemma_insert_at_position(r, p - 1, x);
        assert(t.insert(p, x) =~= seq![t[0]] + r.insert(p - 1, x));
    }
}

fn copy_variant(v: &MirEnumVariant) -> (r: MirEnumVariant)
    ensures
        r == *v,
{
    MirEnumVariant { name: v.name.clone(), payload_type: copy_opt_string(&v.payload_type) }
}

/// The variants in ascending name order.
fn sorted_variants(vs: &Vec<MirEnumVariant>) -> (r: Vec<MirEnumVariant>)
    ensures
        variants_view(r@) == sort_by_key(variants_view(vs@)),
{
    let ghost inp = variants_view(vs@);
    let mut out: Vec<MirEnumVariant> = Vec::new();
    let mut i: usize = 0;
    while i < vs.len()
        invariant
            i <= vs@.len(),
            inp == variants_view(vs@),
            variants_view(out@) == sort_by_key(inp.subrange(0, i as int)),
        decreases vs.len() - i,
    {
        let x = copy_variant(&vs[i]);
        let ghost ov = variants_view(out@);
        let mut p: usize = 0;
        while p < out.len() && !text_before(x.name.as_str(), out[p].name.as_str())
            invariant
                p <= out@.len(),
                ov == variants_view(out@),
                forall|k: int| 0 <= k < p ==> !text_less(x.name@, #[trigger] ov[k].0),
            decreases out.len() - p,
        {
            p = p + 1;
        }
        proof {
            lemma_insert_at_position(ov, p as int, variant_view(x));
            let sub = inp.subrange(0, i as int + 1);
            assert(sub.drop_last() =~= inp.subrange(0, i as int));
            assert(sub.last() == variant_view(x));
        }
        out.insert(p, x);
        assert(variants_view(out@) =~= ov.insert(p as int, variant_view(vs@[i as int])));
        i = i + 1;
    }
    assert(inp.subrange(0, inp.len() as int) =~= inp);
    out
}

/// Whether one of `enums` is called `name`.
fn has_enum_named(enums: &Vec<EnumNames>, name: &str) -> (b: bool)
    ensures
        b == enum_list_names(enums_view(enums@)).contains(name@),
{
    let ghost names = enum_list_names(enums_view(enums@));
    let mut i: usize = 0;
    while i < enums.len()
        invariant
            i <= enums@.len(),
            names == enum_list_names(enums_view(enums@)),
            forall|k: int| 0 <= k < i ==> names[k] != name@,
        decreases enums.len() - i,
    {
        if str_equal(enums[i].name.as_str(), name) {
            assert(names[i as int] == name@);
            return true;
        }
        i = i + 1;
    }
    false
}

/// The enums of `ext` that `locals` does not declare, in ascending name order,
/// each with its variants sorted by name.
fn sorted_external(ext: &Vec<MirEnum>, locals: &Vec<EnumNames>) -> (r: Vec<MirEnum>)
    ensures
        mir_enums_view(r@) == sort_by_key(
            kept_external(mir_enums_view(ext@), enum_list_names(enums_view(locals@))),
        ),
{
    let ghost ev = mir_enums_view(ext@);
    let ghost names = enum_list_names(enums_view(locals@));
    let mut out: Vec<MirEnum> = Vec::new();
    let mut i: usize = 0;
    while i < ext.len()
        invariant
            i <= ext@.len(),
            ev == mir_enums_view(ext@),
            names == enum_list_names(enums_view(locals@)),
            mir_enums_view(out@) == sort_by_key(kept_external(ev.subrange(0, i as int), names)),
        decreases ext.len() - i,
    {
        let ghost ov = mir_enums_view(out@);
        let ghost kept0 = kept_external(ev.subrange(0, i as int), names);
        proof {
            let sub = ev.subrange(0, i as int + 1);
            assert(sub.drop_last() =~= ev.subrange(0, i as int));
            assert(sub.last() == ev[i as int]);
            assert(ev[i as int] == mir_enum_view(ext@[i as int]));
        }
        let e = &ext[i];
        if has_enum_named(locals, e.name.as_str()) {
            assert(kept_external(ev.subrange(0, i as int + 1), names) =~= kept0);
        } else {
            let vs = sorted_variants(&e.variants);
            let x = MirEnum { name: e.name.clone(), variants: vs };
            let mut p: usize = 0;
            while p < out.len() && !text_before(x.name.as_str(), out[p].name.as_str())
                invariant
                    p <= out@.len(),
                    ov == mir_enums_view(out@),
                    forall|k: int| 0 <= k < p ==> !text_less(x.name@, #[trigger] ov[k].0),
                decreases out.len() - p,
            {
                p = p + 1;
            }
            proof {
                lemma_insert_at_position(ov, p as int, mir_enum_view(x));
                let kept1 = kept_external(ev.subrange(0, i as int + 1), names);
                assert(kept1 =~= kept0.push(mir_enum_view(x)));
                assert(kept1.drop_last() =~= kept0);
            }
            out.insert(p, x);
            assert(mir_enums_view(out@) =~= ov.insert(p as int, mir_enum_view(x)));
        }
        i = i + 1;
    }
    assert(ev.subrange(0, ev.len() as int) =~= ev);
    out
}

/// The names of the variants.
fn variant_name_list(vs: &Vec<MirEnumVariant>) -> (r: Vec<String>)
    ensures
        strings_view(r@) == variant_names(vs@),
{
    let mut r: Vec<String> = Vec::new();
    let mut j: usize = 0;
    while j < vs.len()
        invariant
            j <= vs@.len(),
            r@.len() == j,
            forall|k: int| 0 <= k < j ==> (#[trigger] r@[k])@ == vs@[k].name@,
        decreases vs.len() - j,
    {
        r.push(vs[j].name.clone());
        j = j + 1;
    }
    assert(strings_view(r@) =~= variant_names(vs@));
    r
}

/// The enum and variant names of `ext`.
fn external_name_table(ext: &Vec<MirEnum>) -> (r: Vec<EnumNames>)
    ensures
        enums_view(r@) == external_names(ext@),
{
    let mut r: Vec<EnumNames> = Vec::new();
    let mut i: usize = 0;
    while i < ext.len()
        invariant
            i <= ext@.len(),
            r@.len() == i,
            forall|k: int| 0 <= k < i ==> enum_names_view(#[trigger] r@[k]) == external_name(ext@[k]),
        decreases ext.len() - i,
    {
        let names = variant_name_list(&ext[i].variants);
        r.push(EnumNames { name: ext[i].name.clone(), variants: names });
        i = i + 1;
    }
    assert(enums_view(r@) =~= external_names(ext@));
    r
}

/// A module enum as the lowered program lists it.
fn local_enum(e: &EnumNames) -> (m: MirEnum)
    ensures
        mir_enum_view(m) == local_mir_enum(enum_names_view(*e)),
{
    let mut variants: Vec<MirEnumVariant> = Vec::new();
    let mut j: usize = 0;
    while j < e.variants.len()
        invariant
            j <= e.variants@.len(),
            variants@.len() == j,
            forall|k: int|
                0 <= k < j ==> variant_view(#[trigger] variants@[k]) == (
                    e.variants@[k]@,
                    None::<Seq<char>>,
                ),
        decreases e.variants.len() - j,
    {
        variants.push(MirEnumVariant { name: e.variants[j].clone(), payload_type: None });
        j = j + 1;
    }
    assert(variants_view(variants@) =~= without_payloads(strings_view(e.variants@)));
    MirEnum { name: e.name.clone(), variants }
}

/// Lowers `module`; `Enum.Variant(..)` calls of the module's own enums become
/// enum constructions.
pub fn lower(module: &Module) -> (p: Program)
    ensures
        lowered_program(*module, Seq::empty(), p),
{
    let none: Vec<MirEnum> = Vec::new();
    lower_with_external_enum_variants(module, &none)
}

/// Lowers `module`, given the enums other modules declare: calls of their
/// variants become enum constructions too, and those the module does not
/// declare itself are listed after its own, by name.
pub fn lower_with_external_enum_variants(module: &Module, external_enum_variants: &Vec<MirEnum>) -> (p:
    Program)
    ensures
        lowered_program(*module, external_enum_variants@, p),
{
    let locals = enum_variants(module);
    let table = VariantTable { local: locals, external: external_name_table(external_enum_variants) };
    let ghost lv = enums_view(table.local@);
    let mut enums: Vec<MirEnum> = Vec::new();
    let mut i: usize = 0;
    while i < table.local.len()
        invariant
            i <= lv.len(),
            lv == enums_view(table.local@),
            enums@.len() == i,
            forall|k: int| 0 <= k < i ==> mir_enum_view(#[trigger] enums@[k]) == local_mir_enum(lv[k]),
        decreases table.local.len() - i,
    {
        let m = local_enum(&table.local[i]);
        enums.push(m);
        i = i + 1;
    }
    let ghost head = enums@;
    let mut tail = sorted_external(external_enum_variants, &table.local);
    enums.append(&mut tail);
    proof {
        let mv = mir_enums_view(enums@);
        assert(mv.subrange(lv.len() as int, enums@.len() as int) =~= mir_enums_view(
            enums@.subrange(lv.len() as int, enums@.len() as int),
        ));
        assert(enums@.subrange(lv.len() as int, enums@.len() as int) =~= enums@.skip(lv.len() as int));
        assert forall|k: int| 0 <= k < lv.len() implies mir_enum_view(#[trigger] enums@[k])
            == local_mir_enum(lv[k]) by {
            assert(enums@[k] == head[k]);
        }
    }
    let items = &module.items;
    let ghost t = table.view();
    let mut functions: Vec<MirFunction> = Vec::new();
    let mut j: usize = 0;
    while j < items.len()
        invariant
            j <= items@.len(),
            items == &module.items,
            t == table.view(),
            functions@.len() == function_items(items@.subrange(0, j as int)).len(),
            forall|k: int|
                0 <= k < functions@.len() ==> lowers_function(
                    function_items(items@.subrange(0, j as int))[k],
                    #[trigger] functions@[k],
                    t,
                ),
        decreases items.len() - j,
    {
        let ghost sub = items@.subrange(0, j as int + 1);
        let ghost before = function_items(items@.subrange(0, j as int));
        assert(sub.drop_last() =~= items@.subrange(0, j as int));
        match &items[j] {
            Item::Function(f) => {
                let m = lower_function(f, &table);
                functions.push(m);
                assert(function_items(sub) =~= before.push(*f));
            },
            _ => {
                assert(function_items(sub) =~= before);
            },
        }
        j = j + 1;
    }
    assert(items@.subrange(0, items@.len() as int) =~= items@);
    let p = Program { enums, functions };
    proof {
        let locals = module_enums(module.items@);
        let kept = kept_external(mir_enums_view(external_enum_variants@), enum_list_names(locals));
        assert(lv == locals);
        lemma_sort_by_key_len(kept);
        assert(p.enums@.len() == locals.len() + kept.len());
        assert(mir_enums_view(p.enums@).subrange(locals.len() as int, p.enums@.len() as int) == sort_by_key(kept));
        assert(t == SpecVariants { local: locals, external: external_names(external_enum_variants@) });
    }
    p
}

} // verus!
