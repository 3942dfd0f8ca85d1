//! The HIR dump: the resolved module printed as declarations with their
//! visibility and types, and statements and expressions as locals, constants,
//! calls and operators.
use vstd::prelude::*;
use crate::ast::{
    unary_text, bool_text, debug_quoted, debug_string, dotted, indent_more, indented, lemma_arms_size_elem,
    lemma_exprs_size_elem, lemma_stmts_size_elem, op_text, pattern_text, push_bool, push_dotted,
    arms_size, expr_size, exprs_size, stmt_size, stmts_size, BinaryOp, Expr, Field, Item, MatchArm,
    Module, Param, Pattern, Stmt,
};
use crate::grammar::{
    arms_model, expr_model, exprs_model, fields_model, item_model, items_model, lemma_arms_model_len,
    lemma_dotted_is_joined, lemma_exprs_model_len, lemma_push_injective, lemma_stmts_model_len, module_model,
    params_model, pattern_model, stmt_model, stmts_model,
};
use crate::text::{push_str, strings_view};

verus! {

/// `exported` or `private`.
pub open spec fn visibility_text(exported: bool) -> Seq<char> {
    if exported { "exported"@ } else { "private"@ }
}

fn visibility(exported: bool) -> (s: &'static str)
    ensures
        s@ == visibility_text(exported),
{
    if exported {
        "exported"
    } else {
        "private"
    }
}

fn binary_op_text(op: BinaryOp) -> (s: &'static str)
    ensures
        s@ == op_text(op),
{
    op.as_str()
}

/// The HIR text of a match pattern.
fn hir_pattern_text(pattern: &Pattern) -> (s: String)
    ensures
        s@ == pattern_text(*pattern),
{
    pattern.dump()
}

pub open spec fn hir_expr_text(e: Expr, pad: Seq<char>) -> Seq<char>
    decreases e,
{
    match e {
        Expr::Name { name, .. } => pad + "local "@ + name@ + "\n"@,
        Expr::Int { value, .. } => pad + "const Int "@ + value@ + "\n"@,
        Expr::String { value, .. } => pad + "const String "@ + debug_quoted(value@) + "\n"@,
        Expr::Bool { value, .. } => pad + "const Bool "@ + bool_text(value) + "\n"@,
        Expr::Binary { op, left, right, .. } => pad + "binary "@ + op_text(op) + "\n"@
            + hir_expr_text(*left, indented(pad)) + hir_expr_text(*right, indented(pad)),
        Expr::Unary { op, expr, .. } => pad + "unary "@ + unary_text(op) + "\n"@ + hir_expr_text(
            *expr,
            indented(pad),
        ),
        Expr::Call { callee, args, .. } => pad + "call "@ + callee@ + "\n"@ + hir_exprs_text(
            args@,
            indented(pad),
        ),
        Expr::FieldAccess { base, field, .. } => pad + "field_access "@ + field@ + "\n"@ + hir_expr_text(
            *base,
            indented(pad),
        ),
        Expr::ArrayLiteral { elements, .. } => pad + "array_literal\n"@ + hir_exprs_text(elements@, indented(pad)),
        Expr::Index { base, index, .. } => pad + "index\n"@ + hir_expr_text(*base, indented(pad))
            + hir_expr_text(*index, indented(pad)),
    }
}

pub open spec fn hir_exprs_text(es: Seq<Expr>, pad: Seq<char>) -> Seq<char>
    decreases es,
{
    if es.len() == 0 {
        Seq::empty()
    } else {
        hir_exprs_text(es.subrange(0, es.len() - 1), pad) + hir_expr_text(es[es.len() - 1], pad)
    }
}

fn dump_expr(expr: &Expr, pad: &str, out: &mut String)
    ensures
        final(out)@ == old(out)@ + hir_expr_text(*expr, pad@),
    decreases expr_size(*expr), 0nat,
{
    push_str(out, pad);
    match expr {
        Expr::Name { name, .. } => {
            push_str(out, "local ");
            push_str(out, name.as_str());
            push_str(out, "\n");
        },
        Expr::Int { value, .. } => {
            push_str(out, "const Int ");
            push_str(out, value.as_str());
            push_str(out, "\n");
        },
        Expr::String { value, .. } => {
            push_str(out, "const String ");
            let quoted = debug_string(value.as_str());
            push_str(out, quoted.as_str());
            push_str(out, "\n");
        },
        Expr::Bool { value, .. } => {
            push_str(out, "const Bool ");
            push_bool(out, *value);
            push_str(out, "\n");
        },
        Expr::Binary { op, left, right, .. } => {
            push_str(out, "binary ");
            push_str(out, binary_op_text(*op));
            push_str(out, "\n");
            let inner = indent_more(pad);
            dump_expr(left, inner.as_str(), out);
            dump_expr(right, inner.as_str(), out);
        },
        Expr::Unary { op, expr, .. } => {
            push_str(out, "unary ");
            push_str(out, op.as_str());
            push_str(out, "\n");
            let inner = indent_more(pad);
            dump_expr(expr, inner.as_str(), out);
        },
        Expr::Call { callee, args, .. } => {
            push_str(out, "call ");
            push_str(out, callee.as_str());
            push_str(out, "\n");
            let inner = indent_more(pad);
            dump_exprs(args, inner.as_str(), out);
        },
        Expr::FieldAccess { base, field, .. } => {
            push_str(out, "field_access ");
            push_str(out, field.as_str());
            push_str(out, "\n");
            let inner = indent_more(pad);
            dump_expr(base, inner.as_str(), out);
        },
        Expr::ArrayLiteral { elements, .. } => {
            push_str(out, "array_literal\n");
            let inner = indent_more(pad);
            dump_exprs(elements, inner.as_str(), out);
        },
        Expr::Index { base, index, .. } => {
            push_str(out, "index\n");
            let inner = indent_more(pad);
            dump_expr(base, inner.as_str(), out);
            dump_expr(index, inner.as_str(), out);
        },
    }
    assert(final(out)@ =~= old(out)@ + hir_expr_text(*expr, pad@));
}

/// Dumps each expression of `es` at `pad`, one after another.
fn dump_exprs(es: &Vec<Expr>, pad: &str, out: &mut String)
    ensures
        final(out)@ == old(out)@ + hir_exprs_text(es@, pad@),
    decreases exprs_size(es@), 1nat,
{
    let ghost before = out@;
    let mut i: usize = 0;
    while i < es.len()
        invariant
            i <= es@.len(),
            out@ == before + hir_exprs_text(es@.subrange(0, i as int), pad@),
        decreases es.len() - i,
    {
        proof {
            lemma_exprs_size_elem(es@, i as int);
        }
        dump_expr(&es[i], pad, out);
        proof {
            let sub = es@.subrange(0, i as int + 1);
            assert(sub.subrange(0, sub.len() - 1) =~= es@.subrange(0, i as int));
        }
        i = i + 1;
    }
    assert(es@.subrange(0, es@.len() as int) =~= es@);
}

pub open spec fn hir_stmt_text(s: Stmt, pad: Seq<char>) -> Seq<char>
    decreases s,
{
    let pad2 = indented(indented(pad));
    match s {
        Stmt::Let { mutable, name, ty, value, .. } => pad + "let "@ + name@ + ": "@ + match ty {
            Some(t) => t@,
            None => "<inferred>"@,
        } + " mutability="@ + if mutable { "mutable"@ } else { "immutable"@ } + "\n"@ + hir_expr_text(
            value,
            indented(pad),
        ),
        Stmt::Assign { name, value, .. } => pad + "assign "@ + name@ + "\n"@ + hir_expr_text(
            value,
            indented(pad),
        ),
        Stmt::If { condition, then_body, else_body } => pad + "if\n"@ + pad + "  condition\n"@
            + hir_expr_text(condition, pad2) + pad + "  then\n"@ + hir_stmts_text(then_body@, pad2)
            + if else_body@.len() > 0 {
            pad + "  else\n"@ + hir_stmts_text(else_body@, pad2)
        } else {
            Seq::empty()
        },
        Stmt::While { condition, body } => pad + "while\n"@ + pad + "  condition\n"@ + hir_expr_text(
            condition,
            pad2,
        ) + pad + "  body\n"@ + hir_stmts_text(body@, pad2),
        Stmt::Match { value, arms } => pad + "match\n"@ + pad + "  value\n"@ + hir_expr_text(value, pad2)
            + hir_arms_text(arms@, pad),
        Stmt::Return(Some(value)) => pad + "return\n"@ + hir_expr_text(value, indented(pad)),
        Stmt::Return(None) => pad + "return Unit\n"@,
        Stmt::Expr(value) => pad + "expr\n"@ + hir_expr_text(value, indented(pad)),
    }
}

pub open spec fn hir_stmts_text(ss: Seq<Stmt>, pad: Seq<char>) -> Seq<char>
    decreases ss,
{
    if ss.len() == 0 {
        Seq::empty()
    } else {
        hir_stmts_text(ss.subrange(0, ss.len() - 1), pad) + hir_stmt_text(ss[ss.len() - 1], pad)
    }
}

pub open spec fn hir_arms_text(arms: Seq<MatchArm>, pad: Seq<char>) -> Seq<char>
    decreases arms,
{
    if arms.len() == 0 {
        Seq::empty()
    } else {
        let arm = arms[arms.len() - 1];
        hir_arms_text(arms.subrange(0, arms.len() - 1), pad) + pad + "  arm "@ + pattern_text(
            arm.pattern,
        ) + "\n"@ + hir_stmts_text(arm.body@, indented(indented(pad)))
    }
}

fn dump_stmts(stmts: &Vec<Stmt>, pad: &str, out: &mut String)
    ensures
        final(out)@ == old(out)@ + hir_stmts_text(stmts@, pad@),
    decreases stmts_size(stmts@), 1nat,
{
    let mut i: usize = 0;
    while i < stmts.len()
        invariant
            i <= stmts@.len(),
            out@ == old(out)@ + hir_stmts_text(stmts@.subrange(0, i as int), pad@),
        decreases stmts.len() - i,
    {
        proof {
            lemma_stmts_size_elem(stmts@, i as int);
        }
        dump_stmt(&stmts[i], pad, out);
        proof {
            let sub = stmts@.subrange(0, i as int + 1);
            assert(sub.subrange(0, sub.len() - 1) =~= stmts@.subrange(0, i as int));
        }
        i = i + 1;
    }
    assert(stmts@.subrange(0, stmts@.len() as int) =~= stmts@);
}

fn dump_arms(arms: &Vec<MatchArm>, pad: &str, inner2: &str, out: &mut String)
    requires
        inner2@ == indented(indented(pad@)),
    ensures
        final(out)@ == old(out)@ + hir_arms_text(arms@, pad@),
    decreases arms_size(arms@), 2nat,
{
    let mut i: usize = 0;
    while i < arms.len()
        invariant
            i <= arms@.len(),
            inner2@ == indented(indented(pad@)),
            out@ == old(out)@ + hir_arms_text(arms@.subrange(0, i as int), pad@),
        decreases arms.len() - i,
    {
        proof {
            lemma_arms_size_elem(arms@, i as int);
        }
        let arm = &arms[i];
        push_str(out, pad);
        push_str(out, "  arm ");
        let p = hir_pattern_text(&arm.pattern);
        push_str(out, p.as_str());
        push_str(out, "\n");
        dump_stmts(&arm.body, inner2, out);
        proof {
            let sub = arms@.subrange(0, i as int + 1);
            assert(sub.subrange(0, sub.len() - 1) =~= arms@.subrange(0, i as int));
            assert(out@ =~= old(out)@ + hir_arms_text(sub, pad@));
        }
        i = i + 1;
    }
    assert(arms@.subrange(0, arms@.len() as int) =~= arms@);
}

fn dump_stmt(stmt: &Stmt, pad: &str, out: &mut String)
    ensures
        final(out)@ == old(out)@ + hir_stmt_text(*stmt, pad@),
    decreases stmt_size(*stmt), 0nat,
{
    let inner = indent_more(pad);
    let inner2 = indent_more(inner.as_str());
    push_str(out, pad);
    match stmt {
        Stmt::Let { mutable, name, ty, value, .. } => {
            push_str(out, "let ");
            push_str(out, name.as_str());
            push_str(out, ": ");
            match ty {
                Some(t) => push_str(out, t.as_str()),
                None => push_str(out, "<inferred>"),
            }
            push_str(out, " mutability=");
            if *mutable {
                push_str(out, "mutable");
            } else {
                push_str(out, "immutable");
            }
            push_str(out, "\n");
            dump_expr(value, inner.as_str(), out);
        },
        Stmt::Assign { name, value, .. } => {
            push_str(out, "assign ");
            push_str(out, name.as_str());
            push_str(out, "\n");
            dump_expr(value, inner.as_str(), out);
        },
        Stmt::If { condition, then_body, else_body } => {
            push_str(out, "if\n");
            push_str(out, pad);
            push_str(out, "  condition\n");
            dump_expr(condition, inner2.as_str(), out);
            push_str(out, pad);
            push_str(out, "  then\n");
            dump_stmts(then_body, inner2.as_str(), out);
            if else_body.len() > 0 {
                push_str(out, pad);
                push_str(out, "  else\n");
                dump_stmts(else_body, inner2.as_str(), out);
            }
        },
        Stmt::While { condition, body } => {
            push_str(out, "while\n");
            push_str(out, pad);
            push_str(out, "  condition\n");
            dump_expr(condition, inner2.as_str(), out);
            push_str(out, pad);
            push_str(out, "  body\n");
            dump_stmts(body, inner2.as_str(), out);
        },
        Stmt::Match { value, arms } => {
            push_str(out, "match\n");
            push_str(out, pad);
            push_str(out, "  value\n");
            dump_expr(value, inner2.as_str(), out);
            dump_arms(arms, pad, inner2.as_str(), out);
        },
        Stmt::Return(Some(value)) => {
            push_str(out, "return\n");
            dump_expr(value, inner.as_str(), out);
        },
        Stmt::Return(None) => {
            push_str(out, "return Unit\n");
        },
        Stmt::Expr(value) => {
            push_str(out, "expr\n");
            dump_expr(value, inner.as_str(), out);
        },
    }
    assert(final(out)@ =~= old(out)@ + hir_stmt_text(*stmt, pad@));
}

pub open spec fn hir_fields_text(fields: Seq<Field>, pad: Seq<char>) -> Seq<char>
    decreases fields.len(),
{
    if fields.len() == 0 {
        Seq::empty()
    } else {
        let f = fields[fields.len() - 1];
        hir_fields_text(fields.subrange(0, fields.len() - 1), pad) + pad + "  field "@ + f.name@
            + ": "@ + f.ty@ + "\n"@
    }
}

pub open spec fn hir_variants_text(variants: Seq<String>, pad: Seq<char>) -> Seq<char>
    decreases variants.len(),
{
    if variants.len() == 0 {
        Seq::empty()
    } else {
        hir_variants_text(variants.subrange(0, variants.len() - 1), pad) + pad + "  variant "@
            + variants[variants.len() - 1]@ + "\n"@
    }
}

pub open spec fn hir_params_text(params: Seq<Param>, pad: Seq<char>) -> Seq<char>
    decreases params.len(),
{
    if params.len() == 0 {
        Seq::empty()
    } else {
        let p = params[params.len() - 1];
        hir_params_text(params.subrange(0, params.len() - 1), pad) + pad + "  param "@ + p.name@
            + ": "@ + p.ty@ + "\n"@
    }
}

pub open spec fn hir_item_text(item: Item, pad: Seq<char>) -> Seq<char> {
    match item {
        Item::ModuleDecl { name } => pad + "module "@ + name@ + "\n"@,
        Item::Import { path } => pad + "import "@ + dotted(path@) + "\n"@,
        Item::Struct(decl) => pad + "type struct "@ + decl.name@ + " visibility="@ + visibility_text(
            decl.exported,
        ) + "\n"@ + hir_fields_text(decl.fields@, pad),
        Item::Enum(decl) => pad + "type enum "@ + decl.name@ + " visibility="@ + visibility_text(
            decl.exported,
        ) + "\n"@ + hir_variants_text(decl.variants@, pad),
        Item::Function(f) => pad + "fn "@ + f.name@ + " visibility="@ + visibility_text(f.exported)
            + " -> "@ + match f.return_type {
            Some(t) => t@,
            None => "Unit"@,
        } + "\n"@ + hir_params_text(f.params@, pad) + pad + "  body\n"@ + hir_stmts_text(
            f.body@,
            indented(indented(pad)),
        ),
    }
}

pub open spec fn hir_items_text(items: Seq<Item>, pad: Seq<char>) -> Seq<char>
    decreases items.len(),
{
    if items.len() == 0 {
        Seq::empty()
    } else {
        hir_items_text(items.subrange(0, items.len() - 1), pad) + hir_item_text(
            items[items.len() - 1],
            pad,
        )
    }
}

/// The HIR dump of a module.
pub open spec fn hir_text(m: Module) -> Seq<char> {
    "HirModule\n"@ + hir_items_text(m.items@, "  "@)
}

fn dump_fields(fields: &Vec<Field>, pad: &str, out: &mut String)
    ensures
        final(out)@ == old(out)@ + hir_fields_text(fields@, pad@),
{
    let mut i: usize = 0;
    while i < fields.len()
        invariant
            i <= fields@.len(),
            out@ == old(out)@ + hir_fields_text(fields@.subrange(0, i as int), pad@),
        decreases fields.len() - i,
    {
        let field = &fields[i];
        push_str(out, pad);
        push_str(out, "  field ");
        push_str(out, field.name.as_str());
        push_str(out, ": ");
        push_str(out, field.ty.as_str());
        push_str(out, "\n");
        proof {
            let sub = fields@.subrange(0, i as int + 1);
            assert(sub.subrange(0, sub.len() - 1) =~= fields@.subrange(0, i as int));
            assert(out@ =~= old(out)@ + hir_fields_text(sub, pad@));
        }
        i = i + 1;
    }
    assert(fields@.subrange(0, fields@.len() as int) =~= fields@);
}

fn dump_variants(variants: &Vec<String>, pad: &str, out: &mut String)
    ensures
        final(out)@ == old(out)@ + hir_variants_text(variants@, pad@),
{
    let mut i: usize = 0;
    while i < variants.len()
        invariant
            i <= variants@.len(),
            out@ == old(out)@ + hir_variants_text(variants@.subrange(0, i as int), pad@),
        decreases variants.len() - i,
    {
        push_str(out, pad);
        push_str(out, "  variant ");
        push_str(out, variants[i].as_str());
        push_str(out, "\n");
        proof {
            let sub = variants@.subrange(0, i as int + 1);
            assert(sub.subrange(0, sub.len() - 1) =~= variants@.subrange(0, i as int));
            assert(out@ =~= old(out)@ + hir_variants_text(sub, pad@));
        }
        i = i + 1;
    }
    assert(variants@.subrange(0, variants@.len() as int) =~= variants@);
}

fn dump_params(params: &Vec<Param>, pad: &str, out: &mut String)
    ensures
        final(out)@ == old(out)@ + hir_params_text(params@, pad@),
{
    let mut i: usize = 0;
    while i < params.len()
        invariant
            i <= params@.len(),
            out@ == old(out)@ + hir_params_text(params@.subrange(0, i as int), pad@),
        decreases params.len() - i,
    {
        let param = &params[i];
        push_str(out, pad);
        push_str(out, "  param ");
        push_str(out, param.name.as_str());
        push_str(out, ": ");
        push_str(out, param.ty.as_str());
        push_str(out, "\n");
        proof {
            let sub = params@.subrange(0, i as int + 1);
            assert(sub.subrange(0, sub.len() - 1) =~= params@.subrange(0, i as int));
            assert(out@ =~= old(out)@ + hir_params_text(sub, pad@));
        }
        i = i + 1;
    }
    assert(params@.subrange(0, params@.len() as int) =~= params@);
}

fn dump_item(item: &Item, pad: &str, out: &mut String)
    ensures
        final(out)@ == old(out)@ + hir_item_text(*item, pad@),
{
    push_str(out, pad);
    match item {
        Item::ModuleDecl { name } => {
            push_str(out, "module ");
            push_str(out, name.as_str());
            push_str(out, "\n");
        },
        Item::Import { path } => {
            push_str(out, "import ");
            push_dotted(out, path);
            push_str(out, "\n");
        },
        Item::Struct(decl) => {
            push_str(out, "type struct ");
            push_str(out, decl.name.as_str());
            push_str(out, " visibility=");
            push_str(out, visibility(decl.exported));
            push_str(out, "\n");
            dump_fields(&decl.fields, pad, out);
        },
        Item::Enum(decl) => {
            push_str(out, "type enum ");
            push_str(out, decl.name.as_str());
            push_str(out, " visibility=");
            push_str(out, visibility(decl.exported));
            push_str(out, "\n");
            dump_variants(&decl.variants, pad, out);
        },
        Item::Function(function) => {
            push_str(out, "fn ");
            push_str(out, function.name.as_str());
            push_str(out, " visibility=");
            push_str(out, visibility(function.exported));
            push_str(out, " -> ");
            match &function.return_type {
                Some(t) => push_str(out, t.as_str()),
                None => push_str(out, "Unit"),
            }
            push_str(out, "\n");
            dump_params(&function.params, pad, out);
            push_str(out, pad);
            push_str(out, "  body\n");
            let inner = indent_more(pad);
            let inner2 = indent_more(inner.as_str());
            dump_stmts(&function.body, inner2.as_str(), out);
        },
    }
    assert(final(out)@ =~= old(out)@ + hir_item_text(*item, pad@));
}

/// The HIR dump of a module.
pub fn dump(module: &Module) -> (s: String)
    ensures
        s@ == hir_text(*module),
{
    let mut out = String::new();
    push_str(&mut out, "HirModule\n");
    let mut i: usize = 0;
    while i < module.items.len()
        invariant
            i <= module.items@.len(),
            out@ == "HirModule\n"@ + hir_items_text(module.items@.subrange(0, i as int), "  "@),
        decreases module.items.len() - i,
    {
        dump_item(&module.items[i], "  ", &mut out);
        proof {
            let sub = module.items@.subrange(0, i as int + 1);
            assert(sub.subrange(0, sub.len() - 1) =~= module.items@.subrange(0, i as int));
            assert(out@ =~= "HirModule\n"@ + hir_items_text(sub, "  "@));
        }
        i = i + 1;
    }
    assert(module.items@.subrange(0, module.items@.len() as int) =~= module.items@);
    out
}

// ---------------------------------------------------------------------------
// The HIR dump depends on the plain value of a module alone
// ---------------------------------------------------------------------------

proof fn lemma_hir_expr_dump(e1: Expr, e2: Expr, pad: Seq<char>)
    requires
        expr_model(e1) == expr_model(e2),
    ensures
        hir_expr_text(e1, pad) == hir_expr_text(e2, pad),
    decreases e1,
{
    match e1 {
        Expr::Binary { left, right, .. } => {
            if let Expr::Binary { left: l2, right: r2, .. } = e2 {
                lemma_hir_expr_dump(*left, *l2, indented(pad));
                lemma_hir_expr_dump(*right, *r2, indented(pad));
            }
        },
        Expr::Call { args, .. } => {
            if let Expr::Call { args: a2, .. } = e2 {
                lemma_hir_exprs_dump(args@, a2@, indented(pad));
            }
        },
        Expr::Unary { expr, .. } => {
            if let Expr::Unary { expr: x2, .. } = e2 {
                lemma_hir_expr_dump(*expr, *x2, indented(pad));
            }
        },
        Expr::FieldAccess { base, .. } => {
            if let Expr::FieldAccess { base: b2, .. } = e2 {
                lemma_hir_expr_dump(*base, *b2, indented(pad));
            }
        },
        Expr::Index { base, index, .. } => {
            if let Expr::Index { base: b2, index: i2, .. } = e2 {
                lemma_hir_expr_dump(*base, *b2, indented(pad));
                lemma_hir_expr_dump(*index, *i2, indented(pad));
            }
        },
        Expr::ArrayLiteral { elements, .. } => {
            if let Expr::ArrayLiteral { elements: e2s, .. } = e2 {
                lemma_hir_exprs_dump(elements@, e2s@, indented(pad));
            }
        },
        _ => {},
    }
}

proof fn lemma_hir_exprs_dump(es1: Seq<Expr>, es2: Seq<Expr>, pad: Seq<char>)
    requires
        exprs_model(es1) == exprs_model(es2),
    ensures
        hir_exprs_text(es1, pad) == hir_exprs_text(es2, pad),
    decreases es1,
{
    lemma_exprs_model_len(es1);
    lemma_exprs_model_len(es2);
    if es1.len() > 0 {
        assert(es1.drop_last() =~= es1.subrange(0, es1.len() - 1));
        assert(es2.drop_last() =~= es2.subrange(0, es2.len() - 1));
        lemma_push_injective(
            exprs_model(es1.drop_last()),
            expr_model(es1.last()),
            exprs_model(es2.drop_last()),
            expr_model(es2.last()),
        );
        lemma_hir_exprs_dump(es1.drop_last(), es2.drop_last(), pad);
        lemma_hir_expr_dump(es1.last(), es2.last(), pad);
    }
}

proof fn lemma_hir_stmt_dump(s1: Stmt, s2: Stmt, pad: Seq<char>)
    requires
        stmt_model(s1) == stmt_model(s2),
    ensures
        hir_stmt_text(s1, pad) == hir_stmt_text(s2, pad),
    decreases s1,
{
    let p1 = indented(pad);
    let p2 = indented(p1);
    match s1 {
        Stmt::Let { value, ty, .. } => {
            if let Stmt::Let { value: v2, ty: t2, .. } = s2 {
                lemma_hir_expr_dump(value, v2, p1);
                match (ty, t2) {
                    (Some(a), Some(b)) => assert(a@ == b@),
                    _ => {},
                }
            }
        },
        Stmt::Assign { value, .. } => {
            if let Stmt::Assign { value: v2, .. } = s2 {
                lemma_hir_expr_dump(value, v2, p1);
            }
        },
        Stmt::If { condition, then_body, else_body } => {
            if let Stmt::If { condition: c2, then_body: t2, else_body: e2 } = s2 {
                lemma_hir_expr_dump(condition, c2, p2);
                lemma_hir_stmts_dump(then_body@, t2@, p2);
                lemma_hir_stmts_dump(else_body@, e2@, p2);
            }
        },
        Stmt::While { condition, body } => {
            if let Stmt::While { condition: c2, body: b2 } = s2 {
                lemma_hir_expr_dump(condition, c2, p2);
                lemma_hir_stmts_dump(body@, b2@, p2);
            }
        },
        Stmt::Match { value, arms } => {
            if let Stmt::Match { value: v2, arms: a2 } = s2 {
                lemma_hir_expr_dump(value, v2, p2);
                lemma_hir_arms_dump(arms@, a2@, pad);
            }
        },
        Stmt::Return(Some(value)) => {
            if let Stmt::Return(Some(v2)) = s2 {
                lemma_hir_expr_dump(value, v2, p1);
            }
        },
        Stmt::Return(None) => {},
        Stmt::Expr(value) => {
            if let Stmt::Expr(v2) = s2 {
                lemma_hir_expr_dump(value, v2, p1);
            }
        },
    }
}

proof fn lemma_hir_stmts_dump(ss1: Seq<Stmt>, ss2: Seq<Stmt>, pad: Seq<char>)
    requires
        stmts_model(ss1) == stmts_model(ss2),
    ensures
        ss1.len() == ss2.len(),
        hir_stmts_text(ss1, pad) == hir_stmts_text(ss2, pad),
    decreases ss1,
{
    lemma_stmts_model_len(ss1);
    lemma_stmts_model_len(ss2);
    if ss1.len() > 0 {
        assert(ss1.drop_last() =~= ss1.subrange(0, ss1.len() - 1));
        assert(ss2.drop_last() =~= ss2.subrange(0, ss2.len() - 1));
        lemma_push_injective(
            stmts_model(ss1.drop_last()),
            stmt_model(ss1.last()),
            stmts_model(ss2.drop_last()),
            stmt_model(ss2.last()),
        );
        lemma_hir_stmts_dump(ss1.drop_last(), ss2.drop_last(), pad);
        lemma_hir_stmt_dump(ss1.last(), ss2.last(), pad);
    }
}

proof fn lemma_hir_arms_dump(a1: Seq<MatchArm>, a2: Seq<MatchArm>, pad: Seq<char>)
    requires
        arms_model(a1) == arms_model(a2),
    ensures
        hir_arms_text(a1, pad) == hir_arms_text(a2, pad),
    decreases a1,
{
    lemma_arms_model_len(a1);
    lemma_arms_model_len(a2);
    if a1.len() > 0 {
        assert(a1.drop_last() =~= a1.subrange(0, a1.len() - 1));
        assert(a2.drop_last() =~= a2.subrange(0, a2.len() - 1));
        let x1 = a1.last();
        let x2 = a2.last();
        lemma_push_injective(
            arms_model(a1.drop_last()),
            (pattern_model(x1.pattern), stmts_model(x1.body@)),
            arms_model(a2.drop_last()),
            (pattern_model(x2.pattern), stmts_model(x2.body@)),
        );
        lemma_hir_arms_dump(a1.drop_last(), a2.drop_last(), pad);
        lemma_hir_stmts_dump(x1.body@, x2.body@, indented(indented(pad)));
        assert(pattern_text(x1.pattern) == pattern_text(x2.pattern));
    }
}

proof fn lemma_hir_fields_dump(f1: Seq<Field>, f2: Seq<Field>, pad: Seq<char>)
    requires
        fields_model(f1) == fields_model(f2),
    ensures
        hir_fields_text(f1, pad) == hir_fields_text(f2, pad),
    decreases f1.len(),
{
    assert(f1.len() == fields_model(f1).len());
    if f1.len() > 0 {
        let n = f1.len() - 1;
        assert(fields_model(f1.subrange(0, n)) =~= fields_model(f1).subrange(0, n));
        assert(fields_model(f2.subrange(0, n)) =~= fields_model(f2).subrange(0, n));
        assert(fields_model(f1)[n] == fields_model(f2)[n]);
        lemma_hir_fields_dump(f1.subrange(0, n), f2.subrange(0, n), pad);
    }
}

proof fn lemma_hir_params_dump(p1: Seq<Param>, p2: Seq<Param>, pad: Seq<char>)
    requires
        params_model(p1) == params_model(p2),
    ensures
        hir_params_text(p1, pad) == hir_params_text(p2, pad),
    decreases p1.len(),
{
    assert(p1.len() == params_model(p1).len());
    if p1.len() > 0 {
        let n = p1.len() - 1;
        assert(params_model(p1.subrange(0, n)) =~= params_model(p1).subrange(0, n));
        assert(params_model(p2.subrange(0, n)) =~= params_model(p2).subrange(0, n));
        assert(params_model(p1)[n] == params_model(p2)[n]);
        lemma_hir_params_dump(p1.subrange(0, n), p2.subrange(0, n), pad);
    }
}

proof fn lemma_hir_variants_dump(v1: Seq<String>, v2: Seq<String>, pad: Seq<char>)
    requires
        strings_view(v1) == strings_view(v2),
    ensures
        hir_variants_text(v1, pad) == hir_variants_text(v2, pad),
    decreases v1.len(),
{
    assert(v1.len() == strings_view(v1).len());
    if v1.len() > 0 {
        let n = v1.len() - 1;
        assert(strings_view(v1.subrange(0, n)) =~= strings_view(v1).subrange(0, n));
        assert(strings_view(v2.subrange(0, n)) =~= strings_view(v2).subrange(0, n));
        assert(strings_view(v1)[n] == strings_view(v2)[n]);
        lemma_hir_variants_dump(v1.subrange(0, n), v2.subrange(0, n), pad);
    }
}

proof fn lemma_hir_item_dump(i1: Item, i2: Item, pad: Seq<char>)
    requires
        item_model(i1) == item_model(i2),
    ensures
        hir_item_text(i1, pad) == hir_item_text(i2, pad),
{
    match i1 {
        Item::Import { path } => {
            if let Item::Import { path: q } = i2 {
                lemma_dotted_is_joined(path@);
                lemma_dotted_is_joined(q@);
            }
        },
        Item::Struct(d) => {
            if let Item::Struct(d2) = i2 {
                lemma_hir_fields_dump(d.fields@, d2.fields@, pad);
            }
        },
        Item::Enum(d) => {
            if let Item::Enum(d2) = i2 {
                lemma_hir_variants_dump(d.variants@, d2.variants@, pad);
            }
        },
        Item::Function(f) => {
            if let Item::Function(g) = i2 {
                lemma_hir_params_dump(f.params@, g.params@, pad);
                lemma_hir_stmts_dump(f.body@, g.body@, indented(indented(pad)));
                match (f.return_type, g.return_type) {
                    (Some(a), Some(b)) => assert(a@ == b@),
                    _ => {},
                }
            }
        },
        _ => {},
    }
}

proof fn lemma_hir_items_dump(i1: Seq<Item>, i2: Seq<Item>, pad: Seq<char>)
    requires
        items_model(i1) == items_model(i2),
    ensures
        hir_items_text(i1, pad) == hir_items_text(i2, pad),
    decreases i1.len(),
{
    assert(i1.len() == items_model(i1).len());
    if i1.len() > 0 {
        let n = i1.len() - 1;
        assert(items_model(i1.subrange(0, n)) =~= items_model(i1).subrange(0, n));
        assert(items_model(i2.subrange(0, n)) =~= items_model(i2).subrange(0, n));
        assert(items_model(i1)[n] == items_model(i2)[n]);
        assert(items_model(i1)[n] == item_model(i1[n]));
        assert(items_model(i2)[n] == item_model(i2[n]));
        lemma_hir_item_dump(i1[n], i2[n], pad);
        lemma_hir_items_dump(i1.subrange(0, n), i2.subrange(0, n), pad);
    }
}

/// The HIR dump of a module depends on its plain value alone: two modules
/// with the same items dump the same text.
pub proof fn law_hir_dump_depends_on_the_parse(m1: Module, m2: Module)
    requires
        module_model(m1) == module_model(m2),
    ensures
        hir_text(m1) == hir_text(m2),
{
    lemma_hir_items_dump(m1.items@, m2.items@, "  "@);
}

} // verus!
