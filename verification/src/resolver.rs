//! Name resolution: every name a function reads is a parameter, a local in
//! scope, or a top-level item; every call targets a known function (of the
//! module, imported, or a builtin of an imported standard module), an enum
//! variant, or a local; assignments target mutable locals; top-level names and
//! locals are not declared twice; imports name a standard module or one in the
//! checked module graph.
//!
//! `resolve_spec` states the diagnostics a module gets, in order: first the
//! top-level checks item by item, then each function's checks.
use vstd::prelude::*;
use crate::ast::{dotted, join_dotted, Expr, Function, Item, MatchArm, Module, Pattern, Stmt};
use crate::ast::{
    arms_size, expr_size, exprs_size, lemma_arms_size_elem, lemma_exprs_size_elem,
    lemma_stmts_size_elem, stmt_size, stmts_size,
};
use crate::diagnostic::{diags_view, Diagnostic, Span, SpecDiagnostic};
use crate::grammar::{
    arms_model, expr_model, exprs_model, item_model, items_model, lemma_arms_model_len, lemma_dotted_is_joined,
    lemma_exprs_model_len, lemma_push_injective, lemma_stmts_model_len, module_model, params_model, pattern_model,
    stmt_model, stmts_model,
};
use crate::std_api::{
    core_function, io_function, is_core_function, is_core_path, is_io_function, is_io_path,
    is_standard_import, is_std_core_import, is_std_io_import, standard_import_names_text,
};
use crate::text::{
    concat3, concat5, contains_str, copy_string, copy_strings, str_equal, strings_view,
};

verus! {

/// An enum's name and variant names.
pub struct EnumNames {
    pub name: String,
    pub variants: Vec<String>,
}

pub open spec fn enum_names_view(e: EnumNames) -> (Seq<char>, Seq<Seq<char>>) {
    (e.name@, strings_view(e.variants@))
}

pub open spec fn enums_view(es: Seq<EnumNames>) -> Seq<(Seq<char>, Seq<Seq<char>>)> {
    es.map_values(|e: EnumNames| enum_names_view(e))
}

/// What resolution of one module may consult.
pub struct SpecEnv {
    pub functions: Seq<Seq<char>>,
    pub core: bool,
    pub io: bool,
    pub top: Seq<Seq<char>>,
    pub enums: Seq<(Seq<char>, Seq<Seq<char>>)>,
    pub ambiguous: Seq<Seq<char>>,
}

struct Env {
    functions: Vec<String>,
    core: bool,
    io: bool,
    top: Vec<String>,
    enums: Vec<EnumNames>,
    ambiguous: Vec<String>,
}

impl Env {
    spec fn view(&self) -> SpecEnv {
        SpecEnv {
            functions: strings_view(self.functions@),
            core: self.core,
            io: self.io,
            top: strings_view(self.top@),
            enums: enums_view(self.enums@),
            ambiguous: strings_view(self.ambiguous@),
        }
    }
}

/// A local binding: its name and whether it is mutable.
struct Binding {
    name: String,
    mutable: bool,
}

spec fn locals_view(ls: Seq<Binding>) -> Seq<(Seq<char>, bool)> {
    ls.map_values(|b: Binding| (b.name@, b.mutable))
}

/// The mutability of the latest binding of `name`, if it is bound.
pub open spec fn lookup(locals: Seq<(Seq<char>, bool)>, name: Seq<char>) -> Option<bool>
    decreases locals.len(),
{
    if locals.len() == 0 {
        None
    } else if locals.last().0 == name {
        Some(locals.last().1)
    } else {
        lookup(locals.drop_last(), name)
    }
}

/// Whether `name` names a function the module may call directly.
pub open spec fn is_function(env: SpecEnv, name: Seq<char>) -> bool {
    ||| env.functions.contains(name)
    ||| is_intrinsic(name)
    ||| env.core && is_core_function(name)
    ||| env.io && is_io_function(name)
}

/// The array and raw-pointer intrinsics, callable everywhere.
pub open spec fn is_intrinsic(name: Seq<char>) -> bool {
    ||| name == "array_push"@
    ||| name == "array_repeat"@
    ||| name == "ptr_from_addr"@
    ||| name == "ptr_addr"@
    ||| name == "ptr_read"@
    ||| name == "ptr_write"@
    ||| name == "ptr_offset"@
    ||| name == "array_data_addr"@
}

fn intrinsic(name: &str) -> (b: bool)
    ensures
        b == is_intrinsic(name@),
{
    str_equal(name, "array_push") || str_equal(name, "array_repeat") || str_equal(name, "ptr_from_addr")
        || str_equal(name, "ptr_addr") || str_equal(name, "ptr_read") || str_equal(name, "ptr_write")
        || str_equal(name, "ptr_offset") || str_equal(name, "array_data_addr")
}

/// Index of the last `.` in `s`, or -1.
pub open spec fn last_dot(s: Seq<char>) -> int
    decreases s.len(),
{
    if s.len() == 0 {
        -1
    } else if s.last() == '.' {
        s.len() - 1
    } else {
        last_dot(s.drop_last())
    }
}

/// Whether `callee` is `Enum.Variant` for a known enum and one of its variants.
pub open spec fn is_variant_call(callee: Seq<char>, enums: Seq<(Seq<char>, Seq<Seq<char>>)>) -> bool {
    let k = last_dot(callee);
    k >= 0 && exists|i: int|
        0 <= i < enums.len() && enums[i].0 == callee.subrange(0, k) && enums[i].1.contains(
            callee.subrange(k + 1, callee.len() as int),
        )
}

pub open spec fn diag(code: Seq<char>, message: Seq<char>, span: Span) -> SpecDiagnostic {
    SpecDiagnostic { code, message, span }
}

pub open spec fn unknown_name(name: Seq<char>, f: Seq<char>, span: Span) -> SpecDiagnostic {
    diag("RESOLVE_UNKNOWN_NAME"@, "unknown name `"@ + name + "` in function `"@ + f + "`"@, span)
}

pub open spec fn duplicate_local(name: Seq<char>, f: Seq<char>, span: Span) -> SpecDiagnostic {
    diag("RESOLVE_DUPLICATE_LOCAL"@, "duplicate local `"@ + name + "` in function `"@ + f + "`"@, span)
}

/// The diagnostics for an expression.
pub open spec fn expr_diags(
    e: Expr,
    locals: Seq<(Seq<char>, bool)>,
    env: SpecEnv,
    f: Seq<char>,
) -> Seq<SpecDiagnostic>
    decreases e,
{
    match e {
        Expr::Name { name, span } => if lookup(locals, name@) is None && !env.top.contains(name@) {
            seq![unknown_name(name@, f, span)]
        } else {
            Seq::empty()
        },
        Expr::Binary { left, right, .. } => expr_diags(*left, locals, env, f) + expr_diags(
            *right,
            locals,
            env,
            f,
        ),
        Expr::Unary { expr, .. } => expr_diags(*expr, locals, env, f),
        Expr::Call { callee, callee_span, args, .. } => call_diags(
            callee@,
            callee_span,
            locals,
            env,
            f,
        ) + exprs_diags(args@, locals, env, f),
        Expr::FieldAccess { base, .. } => expr_diags(*base, locals, env, f),
        Expr::Index { base, index, .. } => expr_diags(*base, locals, env, f) + expr_diags(*index, locals, env, f),
        Expr::ArrayLiteral { elements, .. } => exprs_diags(elements@, locals, env, f),
        _ => Seq::empty(),
    }
}

/// The diagnostic for a call target, if it is not callable.
pub open spec fn call_diags(
    callee: Seq<char>,
    span: Span,
    locals: Seq<(Seq<char>, bool)>,
    env: SpecEnv,
    f: Seq<char>,
) -> Seq<SpecDiagnostic> {
    if !is_function(env, callee) && !is_variant_call(callee, env.enums) && lookup(locals, callee) is None {
        if env.ambiguous.contains(callee) {
            seq![
                diag(
                    "RESOLVE_AMBIGUOUS_FUNCTION"@,
                    "ambiguous imported function `"@ + callee + "` in function `"@ + f
                        + "`; use a qualified call or import alias"@,
                    span,
                ),
            ]
        } else {
            seq![
                diag(
                    "RESOLVE_UNKNOWN_FUNCTION"@,
                    "unknown function `"@ + callee + "` in function `"@ + f + "`"@,
                    span,
                ),
            ]
        }
    } else {
        Seq::empty()
    }
}

pub open spec fn exprs_diags(
    es: Seq<Expr>,
    locals: Seq<(Seq<char>, bool)>,
    env: SpecEnv,
    f: Seq<char>,
) -> Seq<SpecDiagnostic>
    decreases es,
{
    if es.len() == 0 {
        Seq::empty()
    } else {
        exprs_diags(es.subrange(0, es.len() - 1), locals, env, f) + expr_diags(
            es[es.len() - 1],
            locals,
            env,
            f,
        )
    }
}

/// The locals a match arm's pattern adds: a name pattern binds the name.
pub open spec fn pattern_locals(p: Pattern, locals: Seq<(Seq<char>, bool)>) -> Seq<(Seq<char>, bool)> {
    match p {
        Pattern::Name(n) => locals.push((n@, false)),
        _ => locals,
    }
}

/// The diagnostics for a statement, and the locals in scope after it.
pub open spec fn stmt_diags(
    s: Stmt,
    locals: Seq<(Seq<char>, bool)>,
    env: SpecEnv,
    f: Seq<char>,
) -> (Seq<SpecDiagnostic>, Seq<(Seq<char>, bool)>)
    decreases s,
{
    match s {
        Stmt::Let { mutable, name, name_span, value, .. } => (
            expr_diags(value, locals, env, f) + if lookup(locals, name@) is Some {
                seq![duplicate_local(name@, f, name_span)]
            } else {
                Seq::empty()
            },
            locals.push((name@, mutable)),
        ),
        Stmt::Assign { name, name_span, value } => (
            expr_diags(value, locals, env, f) + match lookup(locals, name@) {
                Some(true) => Seq::empty(),
                Some(false) => seq![
                    diag(
                        "RESOLVE_ASSIGN_IMMUTABLE"@,
                        "cannot assign to immutable local `"@ + name@
                            + "`; declare it with `let mut`"@,
                        name_span,
                    ),
                ],
                None => seq![unknown_name(name@, f, name_span)],
            },
            locals,
        ),
        Stmt::If { condition, then_body, else_body } => (
            expr_diags(condition, locals, env, f) + stmts_diags(then_body@, locals, env, f).0
                + stmts_diags(else_body@, locals, env, f).0,
            locals,
        ),
        Stmt::While { condition, body } => (
            expr_diags(condition, locals, env, f) + stmts_diags(body@, locals, env, f).0,
            locals,
        ),
        Stmt::Match { value, arms } => (
            expr_diags(value, locals, env, f) + arms_diags(arms@, locals, env, f),
            locals,
        ),
        Stmt::Return(Some(value)) => (expr_diags(value, locals, env, f), locals),
        Stmt::Return(None) => (Seq::empty(), locals),
        Stmt::Expr(value) => (expr_diags(value, locals, env, f), locals),
    }
}

/// The diagnostics for a block, each statement seeing the locals the ones
/// before it declared, and the locals in scope at its end.
pub open spec fn stmts_diags(
    ss: Seq<Stmt>,
    locals: Seq<(Seq<char>, bool)>,
    env: SpecEnv,
    f: Seq<char>,
) -> (Seq<SpecDiagnostic>, Seq<(Seq<char>, bool)>)
    decreases ss,
{
    if ss.len() == 0 {
        (Seq::empty(), locals)
    } else {
        let (d, l) = stmts_diags(ss.subrange(0, ss.len() - 1), locals, env, f);
        let (d2, l2) = stmt_diags(ss[ss.len() - 1], l, env, f);
        (d + d2, l2)
    }
}

pub open spec fn arms_diags(
    arms: Seq<MatchArm>,
    locals: Seq<(Seq<char>, bool)>,
    env: SpecEnv,
    f: Seq<char>,
) -> Seq<SpecDiagnostic>
    decreases arms,
{
    if arms.len() == 0 {
        Seq::empty()
    } else {
        let arm = arms[arms.len() - 1];
        arms_diags(arms.subrange(0, arms.len() - 1), locals, env, f) + stmts_diags(
            arm.body@,
            pattern_locals(arm.pattern, locals),
            env,
            f,
        ).0
    }
}


proof fn lemma_lookup_none_on_empty(name: Seq<char>)
    ensures
        lookup(Seq::<(Seq<char>, bool)>::empty(), name) is None,
{
}

fn find_local(locals: &Vec<Binding>, name: &str) -> (r: Option<bool>)
    ensures
        r == lookup(locals_view(locals@), name@),
{
    let mut i = locals.len();
    assert(locals@.subrange(0, locals@.len() as int) =~= locals@);
    while i > 0
        invariant
            i <= locals@.len(),
            lookup(locals_view(locals@), name@) == lookup(locals_view(locals@.subrange(0, i as int)), name@),
        decreases i,
    {
        let ghost sub = locals_view(locals@.subrange(0, i as int));
        assert(sub.drop_last() =~= locals_view(locals@.subrange(0, i as int - 1)));
        if str_equal(locals[i - 1].name.as_str(), name) {
            return Some(locals[i - 1].mutable);
        }
        i = i - 1;
    }
    assert(locals_view(locals@.subrange(0, 0)) =~= Seq::empty());
    None
}

fn clone_locals(locals: &Vec<Binding>) -> (r: Vec<Binding>)
    ensures
        locals_view(r@) == locals_view(locals@),
{
    let mut r: Vec<Binding> = Vec::new();
    let mut i: usize = 0;
    while i < locals.len()
        invariant
            i <= locals@.len(),
            r@.len() == i,
            locals_view(r@) =~= locals_view(locals@.subrange(0, i as int)),
        decreases locals.len() - i,
    {
        let ghost prev = r@;
        r.push(Binding { name: copy_string(locals[i].name.as_str()), mutable: locals[i].mutable });
        proof {
            assert forall|k: int| 0 <= k < i + 1 implies locals_view(r@)[k] == locals_view(
                locals@.subrange(0, i as int + 1),
            )[k] by {
                if k < i {
                    assert(locals_view(prev)[k] == locals_view(locals@.subrange(0, i as int))[k]);
                }
            }
        }
        i = i + 1;
    }
    assert(locals@.subrange(0, locals@.len() as int) =~= locals@);
    r
}

fn push_local(locals: &mut Vec<Binding>, name: &str, mutable: bool)
    ensures
        locals_view(final(locals)@) == locals_view(old(locals)@).push((name@, mutable)),
{
    locals.push(Binding { name: copy_string(name), mutable });
    assert(locals_view(locals@) =~= locals_view(old(locals)@).push((name@, mutable)));
}

fn push_diag(diags: &mut Vec<Diagnostic>, d: Diagnostic)
    ensures
        diags_view(final(diags)@) == diags_view(old(diags)@).push(d@),
{
    diags.push(d);
    assert(diags_view(diags@) =~= diags_view(old(diags)@).push(d@));
}

fn is_enum_variant_call(callee: &str, enums: &Vec<EnumNames>) -> (b: bool)
    ensures
        b == is_variant_call(callee@, enums_view(enums@)),
{
    let chars = crate::text::chars_of(callee);
    let ghost s = chars@;
    let mut k = chars.len();
    assert(s.subrange(0, s.len() as int) =~= s);
    while k > 0 && chars[k - 1] != '.'
        invariant
            k <= s.len(),
            s == chars@,
            last_dot(s) == last_dot(s.subrange(0, k as int)),
        decreases k,
    {
        assert(s.subrange(0, k as int).drop_last() =~= s.subrange(0, k as int - 1));
        k = k - 1;
    }
    if k == 0 {
        assert(s.subrange(0, 0) =~= Seq::<char>::empty());
        return false;
    }
    proof {
        assert(s.subrange(0, k as int).last() == '.');
    }
    let dot = k - 1;
    let enum_name = crate::text::string_from_range(&chars, 0, dot);
    let variant = crate::text::string_from_range(&chars, dot + 1, chars.len());
    let mut i: usize = 0;
    while i < enums.len()
        invariant
            i <= enums@.len(),
            last_dot(s) == dot,
            s == chars@,
            s == callee@,
            enum_name@ == s.subrange(0, dot as int),
            variant@ == s.subrange(dot + 1, s.len() as int),
            forall|j: int|
                0 <= j < i ==> !(enums_view(enums@)[j].0 == enum_name@ && enums_view(enums@)[j].1.contains(
                    variant@,
                )),
        decreases enums.len() - i,
    {
        if str_equal(enums[i].name.as_str(), enum_name.as_str()) && contains_str(
            &enums[i].variants,
            variant.as_str(),
        ) {
            proof {
                assert(enums_view(enums@)[i as int].0 == enum_name@);
            }
            return true;
        }
        i = i + 1;
    }
    false
}

fn check_expr(
    expr: &Expr,
    locals: &Vec<Binding>,
    env: &Env,
    function_name: &str,
    diags: &mut Vec<Diagnostic>,
)
    ensures
        diags_view(final(diags)@) == diags_view(old(diags)@) + expr_diags(
            *expr,
            locals_view(locals@),
            env.view(),
            function_name@,
        ),
    decreases expr_size(*expr), 0nat,
{
    let ghost before = diags_view(diags@);
    match expr {
        Expr::Name { name, span } => {
            if find_local(locals, name.as_str()).is_none() && !contains_str(&env.top, name.as_str()) {
                let message = concat5(
                    "unknown name `",
                    name.as_str(),
                    "` in function `",
                    function_name,
                    "`",
                );
                push_diag(diags, Diagnostic::new("RESOLVE_UNKNOWN_NAME", message.as_str(), *span));
            }
        },
        Expr::Binary { left, right, .. } => {
            check_expr(left, locals, env, function_name, diags);
            check_expr(right, locals, env, function_name, diags);
        },
        Expr::Unary { expr: operand, .. } => {
            check_expr(operand, locals, env, function_name, diags);
        },
        Expr::Call { callee, callee_span, args, .. } => {
            check_call(callee.as_str(), *callee_span, locals, env, function_name, diags);
            check_exprs(args, locals, env, function_name, diags);
        },
        Expr::FieldAccess { base, .. } => {
            check_expr(base, locals, env, function_name, diags);
        },
        Expr::Index { base, index, .. } => {
            check_expr(base, locals, env, function_name, diags);
            check_expr(index, locals, env, function_name, diags);
        },
        Expr::ArrayLiteral { elements, .. } => {
            check_exprs(elements, locals, env, function_name, diags);
        },
        _ => {},
    }
    assert(diags_view(diags@) =~= before + expr_diags(
        *expr,
        locals_view(locals@),
        env.view(),
        function_name@,
    ));
}

/// Resolves each expression of `es`, one after another.
fn check_exprs(
    es: &Vec<Expr>,
    locals: &Vec<Binding>,
    env: &Env,
    function_name: &str,
    diags: &mut Vec<Diagnostic>,
)
    ensures
        diags_view(final(diags)@) == diags_view(old(diags)@) + exprs_diags(
            es@,
            locals_view(locals@),
            env.view(),
            function_name@,
        ),
    decreases exprs_size(es@), 1nat,
{
    let ghost before = diags_view(diags@);
    let mut i: usize = 0;
    while i < es.len()
        invariant
            i <= es@.len(),
            diags_view(diags@) == before + exprs_diags(
                es@.subrange(0, i as int),
                locals_view(locals@),
                env.view(),
                function_name@,
            ),
        decreases es.len() - i,
    {
        proof {
            lemma_exprs_size_elem(es@, i as int);
        }
        check_expr(&es[i], locals, env, function_name, diags);
        proof {
            let sub = es@.subrange(0, i as int + 1);
            assert(sub.subrange(0, sub.len() - 1) =~= es@.subrange(0, i as int));
        }
        i = i + 1;
    }
    assert(es@.subrange(0, es@.len() as int) =~= es@);
}

fn check_call(
    callee: &str,
    span: Span,
    locals: &Vec<Binding>,
    env: &Env,
    function_name: &str,
    diags: &mut Vec<Diagnostic>,
)
    ensures
        diags_view(final(diags)@) == diags_view(old(diags)@) + call_diags(
            callee@,
            span,
            locals_view(locals@),
            env.view(),
            function_name@,
        ),
{
    let known = contains_str(&env.functions, callee) || intrinsic(callee) || (env.core && core_function(callee)) || (env.io
        && io_function(callee));
    if !known && !is_enum_variant_call(callee, &env.enums) && find_local(locals, callee).is_none() {
        if contains_str(&env.ambiguous, callee) {
            let message = concat5(
                "ambiguous imported function `",
                callee,
                "` in function `",
                function_name,
                "`; use a qualified call or import alias",
            );
            push_diag(diags, Diagnostic::new("RESOLVE_AMBIGUOUS_FUNCTION", message.as_str(), span));
        } else {
            let message = concat5("unknown function `", callee, "` in function `", function_name, "`");
            push_diag(diags, Diagnostic::new("RESOLVE_UNKNOWN_FUNCTION", message.as_str(), span));
        }
        assert(diags_view(diags@) =~= diags_view(old(diags)@) + call_diags(
            callee@,
            span,
            locals_view(locals@),
            env.view(),
            function_name@,
        ));
    } else {
        assert(diags_view(diags@) =~= diags_view(old(diags)@) + call_diags(
            callee@,
            span,
            locals_view(locals@),
            env.view(),
            function_name@,
        ));
    }
}

fn check_stmts(
    stmts: &Vec<Stmt>,
    locals: &mut Vec<Binding>,
    env: &Env,
    function_name: &str,
    diags: &mut Vec<Diagnostic>,
)
    ensures
        ({
            let (d, l) = stmts_diags(stmts@, locals_view(old(locals)@), env.view(), function_name@);
            &&& diags_view(final(diags)@) == diags_view(old(diags)@) + d
            &&& locals_view(final(locals)@) == l
        }),
    decreases stmts_size(stmts@), 1nat,
{
    let mut i: usize = 0;
    while i < stmts.len()
        invariant
            i <= stmts@.len(),
            ({
                let (d, l) = stmts_diags(
                    stmts@.subrange(0, i as int),
                    locals_view(old(locals)@),
                    env.view(),
                    function_name@,
                );
                &&& diags_view(diags@) == diags_view(old(diags)@) + d
                &&& locals_view(locals@) == l
            }),
        decreases stmts.len() - i,
    {
        proof {
            lemma_stmts_size_elem(stmts@, i as int);
        }
        check_stmt(&stmts[i], locals, env, function_name, diags);
        proof {
            let sub = stmts@.subrange(0, i as int + 1);
            assert(sub.subrange(0, sub.len() - 1) =~= stmts@.subrange(0, i as int));
            let (d, l) = stmts_diags(sub, locals_view(old(locals)@), env.view(), function_name@);
            assert(diags_view(diags@) =~= diags_view(old(diags)@) + d);
        }
        i = i + 1;
    }
    assert(stmts@.subrange(0, stmts@.len() as int) =~= stmts@);
}

fn check_stmt(
    stmt: &Stmt,
    locals: &mut Vec<Binding>,
    env: &Env,
    function_name: &str,
    diags: &mut Vec<Diagnostic>,
)
    ensures
        ({
            let (d, l) = stmt_diags(*stmt, locals_view(old(locals)@), env.view(), function_name@);
            &&& diags_view(final(diags)@) == diags_view(old(diags)@) + d
            &&& locals_view(final(locals)@) == l
        }),
    decreases stmt_size(*stmt), 0nat,
{
    let ghost before = diags_view(diags@);
    let ghost l0 = locals_view(locals@);
    match stmt {
        Stmt::Let { mutable, name, name_span, value, .. } => {
            check_expr(value, locals, env, function_name, diags);
            if find_local(locals, name.as_str()).is_some() {
                let message = concat5(
                    "duplicate local `",
                    name.as_str(),
                    "` in function `",
                    function_name,
                    "`",
                );
                push_diag(diags, Diagnostic::new("RESOLVE_DUPLICATE_LOCAL", message.as_str(), *name_span));
            }
            push_local(locals, name.as_str(), *mutable);
        },
        Stmt::Assign { name, name_span, value } => {
            check_expr(value, locals, env, function_name, diags);
            match find_local(locals, name.as_str()) {
                Some(true) => {},
                Some(false) => {
                    let message = concat3(
                        "cannot assign to immutable local `",
                        name.as_str(),
                        "`; declare it with `let mut`",
                    );
                    push_diag(diags, Diagnostic::new("RESOLVE_ASSIGN_IMMUTABLE", message.as_str(), *name_span));
                },
                None => {
                    let message = concat5(
                        "unknown name `",
                        name.as_str(),
                        "` in function `",
                        function_name,
                        "`",
                    );
                    push_diag(diags, Diagnostic::new("RESOLVE_UNKNOWN_NAME", message.as_str(), *name_span));
                },
            }
        },
        Stmt::If { condition, then_body, else_body } => {
            check_expr(condition, locals, env, function_name, diags);
            let mut then_locals = clone_locals(locals);
            check_stmts(then_body, &mut then_locals, env, function_name, diags);
            let mut else_locals = clone_locals(locals);
            check_stmts(else_body, &mut else_locals, env, function_name, diags);
        },
        Stmt::While { condition, body } => {
            check_expr(condition, locals, env, function_name, diags);
            let mut loop_locals = clone_locals(locals);
            check_stmts(body, &mut loop_locals, env, function_name, diags);
        },
        Stmt::Match { value, arms } => {
            check_expr(value, locals, env, function_name, diags);
            check_arms(arms, locals, env, function_name, diags);
        },
        Stmt::Return(Some(value)) => {
            check_expr(value, locals, env, function_name, diags);
        },
        Stmt::Return(None) => {},
        Stmt::Expr(value) => {
            check_expr(value, locals, env, function_name, diags);
        },
    }
    assert(diags_view(diags@) =~= before + stmt_diags(*stmt, l0, env.view(), function_name@).0);
}

fn check_arms(
    arms: &Vec<MatchArm>,
    locals: &Vec<Binding>,
    env: &Env,
    function_name: &str,
    diags: &mut Vec<Diagnostic>,
)
    ensures
        diags_view(final(diags)@) == diags_view(old(diags)@) + arms_diags(
            arms@,
            locals_view(locals@),
            env.view(),
            function_name@,
        ),
    decreases arms_size(arms@), 2nat,
{
    let mut i: usize = 0;
    while i < arms.len()
        invariant
            i <= arms@.len(),
            diags_view(diags@) == diags_view(old(diags)@) + arms_diags(
                arms@.subrange(0, i as int),
                locals_view(locals@),
                env.view(),
                function_name@,
            ),
        decreases arms.len() - i,
    {
        proof {
            lemma_arms_size_elem(arms@, i as int);
        }
        let arm = &arms[i];
        let mut arm_locals = clone_locals(locals);
        match &arm.pattern {
            Pattern::Name(name) => push_local(&mut arm_locals, name.as_str(), false),
            _ => {},
        }
        check_stmts(&arm.body, &mut arm_locals, env, function_name, diags);
        proof {
            let sub = arms@.subrange(0, i as int + 1);
            assert(sub.subrange(0, sub.len() - 1) =~= arms@.subrange(0, i as int));
            assert(diags_view(diags@) =~= diags_view(old(diags)@) + arms_diags(
                sub,
                locals_view(locals@),
                env.view(),
                function_name@,
            ));
        }
        i = i + 1;
    }
    assert(arms@.subrange(0, arms@.len() as int) =~= arms@);
}


/// The diagnostics for a function's parameters, and the locals they bind.
pub open spec fn params_diags(params: Seq<crate::ast::Param>, f: Seq<char>) -> (
    Seq<SpecDiagnostic>,
    Seq<(Seq<char>, bool)>,
)
    decreases params.len(),
{
    if params.len() == 0 {
        (Seq::empty(), Seq::empty())
    } else {
        let (d, l) = params_diags(params.drop_last(), f);
        let p = params.last();
        (
            d + if lookup(l, p.name@) is Some {
                seq![duplicate_local(p.name@, f, p.name_span)]
            } else {
                Seq::empty()
            },
            l.push((p.name@, false)),
        )
    }
}

/// The diagnostics for one function: its parameters, then its body.
pub open spec fn function_diags(fun: Function, env: SpecEnv) -> Seq<SpecDiagnostic> {
    let (d, l) = params_diags(fun.params@, fun.name@);
    d + stmts_diags(fun.body@, l, env, fun.name@).0
}

/// The diagnostics for every function among `items`, in order.
pub open spec fn functions_diags(items: Seq<Item>, env: SpecEnv) -> Seq<SpecDiagnostic>
    decreases items.len(),
{
    if items.len() == 0 {
        Seq::empty()
    } else {
        functions_diags(items.drop_last(), env) + match items.last() {
            Item::Function(fun) => function_diags(fun, env),
            _ => Seq::empty(),
        }
    }
}

/// The name a top-level item declares, with its span.
pub open spec fn item_name(item: Item) -> Option<(Seq<char>, Span)> {
    match item {
        Item::Struct(d) => Some((d.name@, d.name_span)),
        Item::Enum(d) => Some((d.name@, d.name_span)),
        Item::Function(f) => Some((f.name@, f.name_span)),
        _ => None,
    }
}

pub open spec fn unknown_import(name: Seq<char>) -> SpecDiagnostic {
    diag(
        "RESOLVE_UNKNOWN_IMPORT"@,
        "unknown import `"@ + name
            + "`; Stage 1 currently supports standard imports `"@ + standard_import_names_text()
            + "` or modules present in the checked module graph"@,
        Span { start: 0, end: 0 },
    )
}

/// The diagnostics of the top-level checks over `items`, and the item names
/// seen: unknown imports and duplicate item names, item by item.
pub open spec fn top_level_diags(items: Seq<Item>, local_imports: Seq<Seq<char>>) -> (
    Seq<SpecDiagnostic>,
    Seq<Seq<char>>,
)
    decreases items.len(),
{
    if items.len() == 0 {
        (Seq::empty(), Seq::empty())
    } else {
        let (d, seen) = top_level_diags(items.drop_last(), local_imports);
        let item = items.last();
        let d_import = match item {
            Item::Import { path } => if is_core_path(path@) || is_io_path(path@) || local_imports.contains(
                dotted(path@),
            ) {
                Seq::empty()
            } else {
                seq![unknown_import(dotted(path@))]
            },
            _ => Seq::empty(),
        };
        match item_name(item) {
            Some((n, sp)) => (
                d + d_import + if seen.contains(n) {
                    seq![diag("RESOLVE_DUPLICATE_ITEM"@, "duplicate top-level item `"@ + n + "`"@, sp)]
                } else {
                    Seq::empty()
                },
                seen.push(n),
            ),
            None => (d + d_import, seen),
        }
    }
}

/// The names of the functions among `items`.
pub open spec fn function_names(items: Seq<Item>) -> Seq<Seq<char>>
    decreases items.len(),
{
    if items.len() == 0 {
        Seq::empty()
    } else {
        function_names(items.drop_last()) + match items.last() {
            Item::Function(f) => seq![f.name@],
            _ => Seq::empty(),
        }
    }
}

/// The names the items declare.
pub open spec fn item_names(items: Seq<Item>) -> Seq<Seq<char>>
    decreases items.len(),
{
    if items.len() == 0 {
        Seq::empty()
    } else {
        item_names(items.drop_last()) + match item_name(items.last()) {
            Some((n, _)) => seq![n],
            None => Seq::empty(),
        }
    }
}

/// The enums among `items`, with their variant names.
pub open spec fn module_enums(items: Seq<Item>) -> Seq<(Seq<char>, Seq<Seq<char>>)>
    decreases items.len(),
{
    if items.len() == 0 {
        Seq::empty()
    } else {
        module_enums(items.drop_last()) + match items.last() {
            Item::Enum(d) => seq![(d.name@, strings_view(d.variants@))],
            _ => Seq::empty(),
        }
    }
}

/// Whether some item imports `std.core`.
pub open spec fn imports_core(items: Seq<Item>) -> bool
    decreases items.len(),
{
    if items.len() == 0 {
        false
    } else {
        imports_core(items.drop_last()) || (items.last() matches Item::Import { path } && is_core_path(
            path@,
        ))
    }
}

/// Whether some item imports `std.io`.
pub open spec fn imports_io(items: Seq<Item>) -> bool
    decreases items.len(),
{
    if items.len() == 0 {
        false
    } else {
        imports_io(items.drop_last()) || (items.last() matches Item::Import { path } && is_io_path(
            path@,
        ))
    }
}

/// The names of enums declared elsewhere.
pub open spec fn enum_list_names(es: Seq<(Seq<char>, Seq<Seq<char>>)>) -> Seq<Seq<char>> {
    es.map_values(|e: (Seq<char>, Seq<Seq<char>>)| e.0)
}

/// What resolving `module` consults, given the names the module graph provides.
pub open spec fn env_of(
    module: Module,
    external_functions: Seq<Seq<char>>,
    external_enums: Seq<(Seq<char>, Seq<Seq<char>>)>,
    ambiguous: Seq<Seq<char>>,
) -> SpecEnv {
    SpecEnv {
        functions: function_names(module.items@) + external_functions,
        core: imports_core(module.items@),
        io: imports_io(module.items@),
        top: item_names(module.items@) + enum_list_names(external_enums),
        enums: module_enums(module.items@) + external_enums,
        ambiguous,
    }
}

/// Every diagnostic resolution reports for `module`, in order.
pub open spec fn resolve_spec(
    module: Module,
    local_imports: Seq<Seq<char>>,
    external_functions: Seq<Seq<char>>,
    external_enums: Seq<(Seq<char>, Seq<Seq<char>>)>,
    ambiguous: Seq<Seq<char>>,
) -> Seq<SpecDiagnostic> {
    top_level_diags(module.items@, local_imports).0 + functions_diags(
        module.items@,
        env_of(module, external_functions, external_enums, ambiguous),
    )
}


fn check_function(function: &Function, env: &Env, diags: &mut Vec<Diagnostic>)
    ensures
        diags_view(final(diags)@) == diags_view(old(diags)@) + function_diags(*function, env.view()),
{
    let mut locals: Vec<Binding> = Vec::new();
    let params = &function.params;
    let mut i: usize = 0;
    while i < params.len()
        invariant
            i <= params@.len(),
            ({
                let (d, l) = params_diags(params@.subrange(0, i as int), function.name@);
                &&& diags_view(diags@) == diags_view(old(diags)@) + d
                &&& locals_view(locals@) == l
            }),
        decreases params.len() - i,
    {
        let param = &params[i];
        proof {
            let sub = params@.subrange(0, i as int + 1);
            assert(sub.drop_last() =~= params@.subrange(0, i as int));
        }
        if find_local(&locals, param.name.as_str()).is_some() {
            let message = concat5(
                "duplicate local `",
                param.name.as_str(),
                "` in function `",
                function.name.as_str(),
                "`",
            );
            push_diag(diags, Diagnostic::new("RESOLVE_DUPLICATE_LOCAL", message.as_str(), param.name_span));
        }
        push_local(&mut locals, param.name.as_str(), false);
        proof {
            let sub = params@.subrange(0, i as int + 1);
            let (d, l) = params_diags(sub, function.name@);
            assert(diags_view(diags@) =~= diags_view(old(diags)@) + d);
        }
        i = i + 1;
    }
    assert(params@.subrange(0, params@.len() as int) =~= params@);
    check_stmts(&function.body, &mut locals, env, function.name.as_str(), diags);
    assert(diags_view(diags@) =~= diags_view(old(diags)@) + function_diags(*function, env.view()));
}

fn check_top_level(module: &Module, local_imports: &Vec<String>, diags: &mut Vec<Diagnostic>)
    ensures
        diags_view(final(diags)@) == diags_view(old(diags)@) + top_level_diags(
            module.items@,
            strings_view(local_imports@),
        ).0,
{
    let items = &module.items;
    let mut names: Vec<String> = Vec::new();
    let mut i: usize = 0;
    while i < items.len()
        invariant
            i <= items@.len(),
            ({
                let (d, seen) = top_level_diags(items@.subrange(0, i as int), strings_view(local_imports@));
                &&& diags_view(diags@) == diags_view(old(diags)@) + d
                &&& strings_view(names@) == seen
            }),
        decreases items.len() - i,
    {
        proof {
            let sub = items@.subrange(0, i as int + 1);
            assert(sub.drop_last() =~= items@.subrange(0, i as int));
        }
        let ghost d0 = diags_view(diags@);
        let item = &items[i];
        match item {
            Item::Import { path } => check_import(path, local_imports, diags),
            _ => {},
        }
        let named: Option<(&String, Span)> = match item {
            Item::Struct(d) => Some((&d.name, d.name_span)),
            Item::Enum(d) => Some((&d.name, d.name_span)),
            Item::Function(f) => Some((&f.name, f.name_span)),
            _ => None,
        };
        match named {
            Some((name, span)) => {
                if contains_str(&names, name.as_str()) {
                    let message = concat3("duplicate top-level item `", name.as_str(), "`");
                    push_diag(diags, Diagnostic::new("RESOLVE_DUPLICATE_ITEM", message.as_str(), span));
                }
                let ghost prev = names@;
                names.push(copy_string(name.as_str()));
                assert(strings_view(names@) =~= strings_view(prev).push(name@));
            },
            None => {},
        }
        proof {
            let sub = items@.subrange(0, i as int + 1);
            let (d, seen) = top_level_diags(sub, strings_view(local_imports@));
            assert(diags_view(diags@) =~= diags_view(old(diags)@) + d);
        }
        i = i + 1;
    }
    assert(items@.subrange(0, items@.len() as int) =~= items@);
}

fn check_import(path: &Vec<String>, local_imports: &Vec<String>, diags: &mut Vec<Diagnostic>)
    ensures
        diags_view(final(diags)@) == diags_view(old(diags)@) + if is_core_path(path@) || is_io_path(path@)
            || strings_view(local_imports@).contains(dotted(path@)) {
            Seq::<SpecDiagnostic>::empty()
        } else {
            seq![unknown_import(dotted(path@))]
        },
{
    let import_name = join_dotted(path);
    if is_standard_import(path) || contains_str(local_imports, import_name.as_str()) {
        assert(diags_view(diags@) =~= diags_view(old(diags)@) + Seq::<SpecDiagnostic>::empty());
        return;
    }
    let mut message = String::new();
    crate::text::push_str(&mut message, "unknown import `");
    crate::text::push_str(&mut message, import_name.as_str());
    crate::text::push_str(&mut message, "`; Stage 1 currently supports standard imports `");
    crate::text::push_str(&mut message, "std.core`, `std.io");
    crate::text::push_str(&mut message, "` or modules present in the checked module graph");
    push_diag(diags, Diagnostic::new("RESOLVE_UNKNOWN_IMPORT", message.as_str(), Span::new(0, 0)));
    assert(diags_view(diags@) =~= diags_view(old(diags)@) + seq![unknown_import(dotted(path@))]);
}

/// Builds what resolution consults for `module`.
fn build_env(
    module: &Module,
    external_functions: &Vec<String>,
    external_enums: &Vec<EnumNames>,
    ambiguous: &Vec<String>,
) -> (env: Env)
    ensures
        env.view() == env_of(
            *module,
            strings_view(external_functions@),
            enums_view(external_enums@),
            strings_view(ambiguous@),
        ),
{
    let items = &module.items;
    let mut functions: Vec<String> = Vec::new();
    let mut top: Vec<String> = Vec::new();
    let mut enums: Vec<EnumNames> = Vec::new();
    let mut core = false;
    let mut io = false;
    let mut i: usize = 0;
    while i < items.len()
        invariant
            i <= items@.len(),
            strings_view(functions@) == function_names(items@.subrange(0, i as int)),
            strings_view(top@) == item_names(items@.subrange(0, i as int)),
            enums_view(enums@) == module_enums(items@.subrange(0, i as int)),
            core == imports_core(items@.subrange(0, i as int)),
            io == imports_io(items@.subrange(0, i as int)),
        decreases items.len() - i,
    {
        proof {
            let sub = items@.subrange(0, i as int + 1);
            assert(sub.drop_last() =~= items@.subrange(0, i as int));
        }
        let ghost f0 = functions@;
        let ghost t0 = top@;
        let ghost e0 = enums@;
        match &items[i] {
            Item::Function(f) => {
                functions.push(copy_string(f.name.as_str()));
                top.push(copy_string(f.name.as_str()));
                assert(strings_view(functions@) =~= strings_view(f0).push(f.name@));
                assert(strings_view(top@) =~= strings_view(t0).push(f.name@));
            },
            Item::Struct(d) => {
                top.push(copy_string(d.name.as_str()));
                assert(strings_view(top@) =~= strings_view(t0).push(d.name@));
            },
            Item::Enum(d) => {
                top.push(copy_string(d.name.as_str()));
                assert(strings_view(top@) =~= strings_view(t0).push(d.name@));
                let entry = EnumNames { name: copy_string(d.name.as_str()), variants: copy_strings(&d.variants) };
                enums.push(entry);
                assert(enums_view(enums@) =~= enums_view(e0).push(enum_names_view(entry)));
            },
            Item::Import { path } => {
                if is_std_core_import(path) {
                    core = true;
                }
                if is_std_io_import(path) {
                    io = true;
                }
            },
            _ => {},
        }
        proof {
            let sub = items@.subrange(0, i as int + 1);
            assert(strings_view(functions@) =~= function_names(sub));
            assert(strings_view(top@) =~= item_names(sub));
            assert(enums_view(enums@) =~= module_enums(sub));
        }
        i = i + 1;
    }
    assert(items@.subrange(0, items@.len() as int) =~= items@);
    let ghost fm = functions@;
    let mut j: usize = 0;
    while j < external_functions.len()
        invariant
            j <= external_functions@.len(),
            strings_view(functions@) == strings_view(fm) + strings_view(external_functions@.subrange(0, j as int)),
        decreases external_functions.len() - j,
    {
        let ghost prev = functions@;
        functions.push(copy_string(external_functions[j].as_str()));
        assert(strings_view(functions@) =~= strings_view(fm) + strings_view(
            external_functions@.subrange(0, j as int + 1),
        )) by {
            assert(strings_view(functions@) =~= strings_view(prev).push(external_functions@[j as int]@));
        }
        j = j + 1;
    }
    assert(external_functions@.subrange(0, external_functions@.len() as int) =~= external_functions@);
    let ghost tm = top@;
    let ghost em = enums@;
    let mut k: usize = 0;
    while k < external_enums.len()
        invariant
            k <= external_enums@.len(),
            strings_view(top@) == strings_view(tm) + enum_list_names(enums_view(external_enums@.subrange(0, k as int))),
            enums_view(enums@) == enums_view(em) + enums_view(external_enums@.subrange(0, k as int)),
        decreases external_enums.len() - k,
    {
        let ghost tprev = top@;
        let ghost eprev = enums@;
        let external = &external_enums[k];
        top.push(copy_string(external.name.as_str()));
        let entry = EnumNames { name: copy_string(external.name.as_str()), variants: copy_strings(&external.variants) };
        enums.push(entry);
        proof {
            assert(strings_view(top@) =~= strings_view(tprev).push(external.name@));
            assert(enums_view(enums@) =~= enums_view(eprev).push(enum_names_view(entry)));
            let sub = external_enums@.subrange(0, k as int + 1);
            assert(enums_view(sub) =~= enums_view(external_enums@.subrange(0, k as int)).push(
                enum_names_view(*external),
            ));
            assert(strings_view(top@) =~= strings_view(tm) + enum_list_names(enums_view(sub)));
            assert(enums_view(enums@) =~= enums_view(em) + enums_view(sub));
        }
        k = k + 1;
    }
    assert(external_enums@.subrange(0, external_enums@.len() as int) =~= external_enums@);
    Env { functions, core, io, top, enums, ambiguous: copy_strings(ambiguous) }
}

/// Resolves a module against the names of the checked module graph: local
/// modules it may import, functions imported from them, enums they export, and
/// imported names that more than one module exports.
pub fn resolve_with_imports_functions_enums_and_ambiguous(
    module: &Module,
    local_imports: &Vec<String>,
    external_functions: &Vec<String>,
    external_enum_variants: &Vec<EnumNames>,
    ambiguous_external_functions: &Vec<String>,
) -> (r: Result<(), Vec<Diagnostic>>)
    ensures
        ({
            let spec = resolve_spec(
                *module,
                strings_view(local_imports@),
                strings_view(external_functions@),
                enums_view(external_enum_variants@),
                strings_view(ambiguous_external_functions@),
            );
            match r {
                Ok(()) => spec.len() == 0,
                Err(ds) => spec.len() > 0 && diags_view(ds@) == spec,
            }
        }),
{
    let mut diagnostics: Vec<Diagnostic> = Vec::new();
    check_top_level(module, local_imports, &mut diagnostics);
    let env = build_env(module, external_functions, external_enum_variants, ambiguous_external_functions);
    let ghost d0 = diags_view(diagnostics@);
    let items = &module.items;
    let mut i: usize = 0;
    while i < items.len()
        invariant
            i <= items@.len(),
            diags_view(diagnostics@) == d0 + functions_diags(items@.subrange(0, i as int), env.view()),
        decreases items.len() - i,
    {
        proof {
            let sub = items@.subrange(0, i as int + 1);
            assert(sub.drop_last() =~= items@.subrange(0, i as int));
        }
        match &items[i] {
            Item::Function(function) => check_function(function, &env, &mut diagnostics),
            _ => {},
        }
        proof {
            let sub = items@.subrange(0, i as int + 1);
            assert(diags_view(diagnostics@) =~= d0 + functions_diags(sub, env.view()));
        }
        i = i + 1;
    }
    assert(items@.subrange(0, items@.len() as int) =~= items@);
    assert(diagnostics@.len() == diags_view(diagnostics@).len());
    if diagnostics.len() == 0 {
        Ok(())
    } else {
        Err(diagnostics)
    }
}

pub fn resolve_with_imports_functions_and_ambiguous(
    module: &Module,
    local_imports: &Vec<String>,
    external_functions: &Vec<String>,
    ambiguous_external_functions: &Vec<String>,
) -> (r: Result<(), Vec<Diagnostic>>)
    ensures
        ({
            let spec = resolve_spec(
                *module,
                strings_view(local_imports@),
                strings_view(external_functions@),
                Seq::empty(),
                strings_view(ambiguous_external_functions@),
            );
            match r {
                Ok(()) => spec.len() == 0,
                Err(ds) => spec.len() > 0 && diags_view(ds@) == spec,
            }
        }),
{
    let none: Vec<EnumNames> = Vec::new();
    assert(enums_view(none@) =~= Seq::empty());
    resolve_with_imports_functions_enums_and_ambiguous(
        module,
        local_imports,
        external_functions,
        &none,
        ambiguous_external_functions,
    )
}

pub fn resolve_with_imports_and_functions(
    module: &Module,
    local_imports: &Vec<String>,
    external_functions: &Vec<String>,
) -> (r: Result<(), Vec<Diagnostic>>)
    ensures
        ({
            let spec = resolve_spec(
                *module,
                strings_view(local_imports@),
                strings_view(external_functions@),
                Seq::empty(),
                Seq::empty(),
            );
            match r {
                Ok(()) => spec.len() == 0,
                Err(ds) => spec.len() > 0 && diags_view(ds@) == spec,
            }
        }),
{
    let none: Vec<String> = Vec::new();
    assert(strings_view(none@) =~= Seq::empty());
    resolve_with_imports_functions_and_ambiguous(module, local_imports, external_functions, &none)
}

pub fn resolve_with_imports(module: &Module, local_imports: &Vec<String>) -> (r: Result<(), Vec<Diagnostic>>)
    ensures
        ({
            let spec = resolve_spec(*module, strings_view(local_imports@), Seq::empty(), Seq::empty(), Seq::empty());
            match r {
                Ok(()) => spec.len() == 0,
                Err(ds) => spec.len() > 0 && diags_view(ds@) == spec,
            }
        }),
{
    let none: Vec<String> = Vec::new();
    assert(strings_view(none@) =~= Seq::empty());
    resolve_with_imports_and_functions(module, local_imports, &none)
}

/// Resolves a single module on its own (no module graph).
pub fn resolve(module: &Module) -> (r: Result<(), Vec<Diagnostic>>)
    ensures
        ({
            let spec = resolve_spec(*module, Seq::empty(), Seq::empty(), Seq::empty(), Seq::empty());
            match r {
                Ok(()) => spec.len() == 0,
                Err(ds) => spec.len() > 0 && diags_view(ds@) == spec,
            }
        }),
{
    let none: Vec<String> = Vec::new();
    assert(strings_view(none@) =~= Seq::empty());
    resolve_with_imports(module, &none)
}

// ---------------------------------------------------------------------------
// Resolution depends on the plain value of a module alone
// ---------------------------------------------------------------------------

proof fn lemma_expr_diags_model(e1: Expr, e2: Expr, locals: Seq<(Seq<char>, bool)>, env: SpecEnv, f: Seq<char>)
    requires
        expr_model(e1) == expr_model(e2),
    ensures
        expr_diags(e1, locals, env, f) == expr_diags(e2, locals, env, f),
    decreases e1,
{
    match e1 {
        Expr::Binary { left, right, .. } => {
            if let Expr::Binary { left: l2, right: r2, .. } = e2 {
                lemma_expr_diags_model(*left, *l2, locals, env, f);
                lemma_expr_diags_model(*right, *r2, locals, env, f);
            }
        },
        Expr::Call { args, .. } => {
            if let Expr::Call { args: a2, .. } = e2 {
                lemma_exprs_diags_model(args@, a2@, locals, env, f);
            }
        },
        Expr::Unary { expr, .. } => {
            if let Expr::Unary { expr: x2, .. } = e2 {
                lemma_expr_diags_model(*expr, *x2, locals, env, f);
            }
        },
        Expr::FieldAccess { base, .. } => {
            if let Expr::FieldAccess { base: b2, .. } = e2 {
                lemma_expr_diags_model(*base, *b2, locals, env, f);
            }
        },
        Expr::Index { base, index, .. } => {
            if let Expr::Index { base: b2, index: i2, .. } = e2 {
                lemma_expr_diags_model(*base, *b2, locals, env, f);
                lemma_expr_diags_model(*index, *i2, locals, env, f);
            }
        },
        Expr::ArrayLiteral { elements, .. } => {
            if let Expr::ArrayLiteral { elements: e2s, .. } = e2 {
                lemma_exprs_diags_model(elements@, e2s@, locals, env, f);
            }
        },
        _ => {},
    }
}

proof fn lemma_exprs_diags_model(es1: Seq<Expr>, es2: Seq<Expr>, locals: Seq<(Seq<char>, bool)>, env: SpecEnv, f: Seq<char>)
    requires
        exprs_model(es1) == exprs_model(es2),
    ensures
        exprs_diags(es1, locals, env, f) == exprs_diags(es2, locals, env, f),
    decreases es1,
{
    lemma_exprs_model_len(es1);
    lemma_exprs_model_len(es2);
    if es1.len() > 0 {
        assert(es1.drop_last() =~= es1.subrange(0, es1.len() - 1));
        assert(es2.drop_last() =~= es2.subrange(0, es2.len() - 1));
        lemma_push_injective(
            exprs_model(es1.drop_last()),
            expr_model(es1.last()),
            exprs_model(es2.drop_last()),
            expr_model(es2.last()),
        );
        lemma_exprs_diags_model(es1.drop_last(), es2.drop_last(), locals, env, f);
        lemma_expr_diags_model(es1.last(), es2.last(), locals, env, f);
    }
}

proof fn lemma_stmt_diags_model(s1: Stmt, s2: Stmt, locals: Seq<(Seq<char>, bool)>, env: SpecEnv, f: Seq<char>)
    requires
        stmt_model(s1) == stmt_model(s2),
    ensures
        stmt_diags(s1, locals, env, f) == stmt_diags(s2, locals, env, f),
    decreases s1,
{
    match s1 {
        Stmt::Let { value, .. } => {
            if let Stmt::Let { value: v2, .. } = s2 {
                lemma_expr_diags_model(value, v2, locals, env, f);
            }
        },
        Stmt::Assign { value, .. } => {
            if let Stmt::Assign { value: v2, .. } = s2 {
                lemma_expr_diags_model(value, v2, locals, env, f);
            }
        },
        Stmt::If { condition, then_body, else_body } => {
            if let Stmt::If { condition: c2, then_body: t2, else_body: e2 } = s2 {
                lemma_expr_diags_model(condition, c2, locals, env, f);
                lemma_stmts_diags_model(then_body@, t2@, locals, env, f);
                lemma_stmts_diags_model(else_body@, e2@, locals, env, f);
            }
        },
        Stmt::While { condition, body } => {
            if let Stmt::While { condition: c2, body: b2 } = s2 {
                lemma_expr_diags_model(condition, c2, locals, env, f);
                lemma_stmts_diags_model(body@, b2@, locals, env, f);
            }
        },
        Stmt::Match { value, arms } => {
            if let Stmt::Match { value: v2, arms: a2 } = s2 {
                lemma_expr_diags_model(value, v2, locals, env, f);
                lemma_arms_diags_model(arms@, a2@, locals, env, f);
            }
        },
        Stmt::Return(Some(value)) => {
            if let Stmt::Return(Some(v2)) = s2 {
                lemma_expr_diags_model(value, v2, locals, env, f);
            }
        },
        Stmt::Return(None) => {},
        Stmt::Expr(value) => {
            if let Stmt::Expr(v2) = s2 {
                lemma_expr_diags_model(value, v2, locals, env, f);
            }
        },
    }
}

proof fn lemma_stmts_diags_model(ss1: Seq<Stmt>, ss2: Seq<Stmt>, locals: Seq<(Seq<char>, bool)>, env: SpecEnv, f: Seq<char>)
    requires
        stmts_model(ss1) == stmts_model(ss2),
    ensures
        stmts_diags(ss1, locals, env, f) == stmts_diags(ss2, locals, env, f),
    decreases ss1,
{
    lemma_stmts_model_len(ss1);
    lemma_stmts_model_len(ss2);
    if ss1.len() > 0 {
        assert(ss1.drop_last() =~= ss1.subrange(0, ss1.len() - 1));
        assert(ss2.drop_last() =~= ss2.subrange(0, ss2.len() - 1));
        lemma_push_injective(
            stmts_model(ss1.drop_last()),
            stmt_model(ss1.last()),
            stmts_model(ss2.drop_last()),
            stmt_model(ss2.last()),
        );
        lemma_stmts_diags_model(ss1.drop_last(), ss2.drop_last(), locals, env, f);
        let l = stmts_diags(ss1.drop_last(), locals, env, f).1;
        lemma_stmt_diags_model(ss1.last(), ss2.last(), l, env, f);
    }
}

proof fn lemma_arms_diags_model(a1: Seq<MatchArm>, a2: Seq<MatchArm>, locals: Seq<(Seq<char>, bool)>, env: SpecEnv, f: Seq<char>)
    requires
        arms_model(a1) == arms_model(a2),
    ensures
        arms_diags(a1, locals, env, f) == arms_diags(a2, locals, env, f),
    decreases a1,
{
    lemma_arms_model_len(a1);
    lemma_arms_model_len(a2);
    if a1.len() > 0 {
        assert(a1.drop_last() =~= a1.subrange(0, a1.len() - 1));
        assert(a2.drop_last() =~= a2.subrange(0, a2.len() - 1));
        let x1 = a1.last();
        let x2 = a2.last();
        lemma_push_injective(
            arms_model(a1.drop_last()),
            (pattern_model(x1.pattern), stmts_model(x1.body@)),
            arms_model(a2.drop_last()),
            (pattern_model(x2.pattern), stmts_model(x2.body@)),
        );
        lemma_arms_diags_model(a1.drop_last(), a2.drop_last(), locals, env, f);
        assert(pattern_locals(x1.pattern, locals) == pattern_locals(x2.pattern, locals));
        lemma_stmts_diags_model(x1.body@, x2.body@, pattern_locals(x1.pattern, locals), env, f);
    }
}

proof fn lemma_params_diags_model(p1: Seq<crate::ast::Param>, p2: Seq<crate::ast::Param>, f: Seq<char>)
    requires
        params_model(p1) == params_model(p2),
    ensures
        params_diags(p1, f) == params_diags(p2, f),
    decreases p1.len(),
{
    assert(p1.len() == params_model(p1).len());
    if p1.len() > 0 {
        let n = p1.len() - 1;
        assert(params_model(p1.drop_last()) =~= params_model(p1).drop_last());
        assert(params_model(p2.drop_last()) =~= params_model(p2).drop_last());
        assert(params_model(p1)[n] == params_model(p2)[n]);
        lemma_params_diags_model(p1.drop_last(), p2.drop_last(), f);
    }
}

pub proof fn lemma_items_model_prefix(i1: Seq<Item>, i2: Seq<Item>)
    requires
        items_model(i1) == items_model(i2),
        i1.len() > 0,
    ensures
        i1.len() == i2.len(),
        items_model(i1.drop_last()) == items_model(i2.drop_last()),
        item_model(i1.last()) == item_model(i2.last()),
{
    assert(i1.len() == items_model(i1).len());
    let n = i1.len() - 1;
    assert(items_model(i1.drop_last()) =~= items_model(i1).drop_last());
    assert(items_model(i2.drop_last()) =~= items_model(i2).drop_last());
    assert(items_model(i1)[n] == item_model(i1[n]));
    assert(items_model(i2)[n] == item_model(i2[n]));
}

proof fn lemma_functions_diags_model(i1: Seq<Item>, i2: Seq<Item>, env: SpecEnv)
    requires
        items_model(i1) == items_model(i2),
    ensures
        functions_diags(i1, env) == functions_diags(i2, env),
    decreases i1.len(),
{
    assert(i1.len() == items_model(i1).len());
    if i1.len() > 0 {
        lemma_items_model_prefix(i1, i2);
        lemma_functions_diags_model(i1.drop_last(), i2.drop_last(), env);
        if let Item::Function(fun) = i1.last() {
            if let Item::Function(g) = i2.last() {
                lemma_params_diags_model(fun.params@, g.params@, fun.name@);
                let l = params_diags(fun.params@, fun.name@).1;
                lemma_stmts_diags_model(fun.body@, g.body@, l, env, fun.name@);
            }
        }
    }
}

pub proof fn lemma_top_level_diags_model(i1: Seq<Item>, i2: Seq<Item>, local_imports: Seq<Seq<char>>)
    requires
        items_model(i1) == items_model(i2),
    ensures
        top_level_diags(i1, local_imports) == top_level_diags(i2, local_imports),
        function_names(i1) == function_names(i2),
        item_names(i1) == item_names(i2),
        module_enums(i1) == module_enums(i2),
        imports_core(i1) == imports_core(i2),
        imports_io(i1) == imports_io(i2),
    decreases i1.len(),
{
    assert(i1.len() == items_model(i1).len());
    if i1.len() > 0 {
        lemma_items_model_prefix(i1, i2);
        lemma_top_level_diags_model(i1.drop_last(), i2.drop_last(), local_imports);
        if let Item::Import { path } = i1.last() {
            if let Item::Import { path: q } = i2.last() {
                lemma_dotted_is_joined(path@);
                lemma_dotted_is_joined(q@);
            }
        }
    }
}

/// Resolution depends on a module's plain value alone: two modules with the
/// same items get the same diagnostics.
pub proof fn law_resolution_depends_on_the_parse(
    m1: Module,
    m2: Module,
    local_imports: Seq<Seq<char>>,
    external_functions: Seq<Seq<char>>,
    external_enums: Seq<(Seq<char>, Seq<Seq<char>>)>,
    ambiguous: Seq<Seq<char>>,
)
    requires
        module_model(m1) == module_model(m2),
    ensures
        resolve_spec(m1, local_imports, external_functions, external_enums, ambiguous) == resolve_spec(
            m2,
            local_imports,
            external_functions,
            external_enums,
            ambiguous,
        ),
{
    lemma_top_level_diags_model(m1.items@, m2.items@, local_imports);
    let env = env_of(m1, external_functions, external_enums, ambiguous);
    assert(env == env_of(m2, external_functions, external_enums, ambiguous));
    lemma_functions_diags_model(m1.items@, m2.items@, env);
}

// ---------------------------------------------------------------------------
// Knowing more names adds no diagnostic
// ---------------------------------------------------------------------------

/// Whether some enum of `es` called `name` has the variant `v`.
pub open spec fn has_variant(es: Seq<(Seq<char>, Seq<Seq<char>>)>, name: Seq<char>, v: Seq<char>) -> bool {
    exists|j: int| 0 <= j < es.len() && es[j].0 == name && es[j].1.contains(v)
}

/// Whether some enum of `es` is called `name`.
pub open spec fn has_enum(es: Seq<(Seq<char>, Seq<Seq<char>>)>, name: Seq<char>) -> bool {
    exists|j: int| 0 <= j < es.len() && es[j].0 == name
}

/// Whether `e2` has every enum name of `e`, and every variant `e` gives an
/// enum name.
pub open spec fn enums_covered(e: Seq<(Seq<char>, Seq<Seq<char>>)>, e2: Seq<(Seq<char>, Seq<Seq<char>>)>) -> bool {
    &&& forall|n: Seq<char>| #[trigger] has_enum(e, n) ==> has_enum(e2, n)
    &&& forall|n: Seq<char>, v: Seq<char>| #[trigger] has_variant(e, n, v) ==> has_variant(e2, n, v)
}

/// Whether `b` knows every name `a` knows, and the same ambiguous names.
pub open spec fn env_within(a: SpecEnv, b: SpecEnv) -> bool {
    &&& forall|n: Seq<char>| #[trigger] a.functions.contains(n) ==> b.functions.contains(n)
    &&& a.core == b.core
    &&& a.io == b.io
    &&& forall|n: Seq<char>| #[trigger] a.top.contains(n) ==> b.top.contains(n)
    &&& enums_covered(a.enums, b.enums)
    &&& a.ambiguous == b.ambiguous
}

proof fn lemma_enums_covered_append(
    ls: Seq<(Seq<char>, Seq<Seq<char>>)>,
    e: Seq<(Seq<char>, Seq<Seq<char>>)>,
    e2: Seq<(Seq<char>, Seq<Seq<char>>)>,
)
    requires
        enums_covered(e, e2),
    ensures
        enums_covered(ls + e, ls + e2),
{
    let a = ls + e;
    let b = ls + e2;
    assert forall|n: Seq<char>| #[trigger] has_enum(a, n) implies has_enum(b, n) by {
        let i = choose|i: int| 0 <= i < a.len() && a[i].0 == n;
        if i < ls.len() {
            assert(b[i] == a[i]);
        } else {
            assert(e[i - ls.len()].0 == n);
            assert(has_enum(e, n));
            let j = choose|j: int| 0 <= j < e2.len() && e2[j].0 == n;
            assert(b[ls.len() + j] == e2[j]);
        }
    }
    assert forall|n: Seq<char>, v: Seq<char>| #[trigger] has_variant(a, n, v) implies has_variant(b, n, v) by {
        let i = choose|i: int| 0 <= i < a.len() && a[i].0 == n && a[i].1.contains(v);
        if i < ls.len() {
            assert(b[i] == a[i]);
        } else {
            assert(e[i - ls.len()] == a[i]);
            assert(has_variant(e, n, v));
            let j = choose|j: int| 0 <= j < e2.len() && e2[j].0 == n && e2[j].1.contains(v);
            assert(b[ls.len() + j] == e2[j]);
        }
    }
}

proof fn lemma_variant_call_within(callee: Seq<char>, a: SpecEnv, b: SpecEnv)
    requires
        env_within(a, b),
        is_variant_call(callee, a.enums),
    ensures
        is_variant_call(callee, b.enums),
{
    let k = last_dot(callee);
    let n = callee.subrange(0, k);
    let v = callee.subrange(k + 1, callee.len() as int);
    assert(has_variant(a.enums, n, v));
    assert(has_variant(b.enums, n, v));
}

proof fn lemma_expr_within(e: Expr, locals: Seq<(Seq<char>, bool)>, a: SpecEnv, b: SpecEnv, f: Seq<char>)
    requires
        env_within(a, b),
        expr_diags(e, locals, a, f).len() == 0,
    ensures
        expr_diags(e, locals, b, f).len() == 0,
    decreases e,
{
    match e {
        Expr::Name { name, .. } => {
            if lookup(locals, name@) is None {
                assert(a.top.contains(name@));
            }
        },
        Expr::Binary { left, right, .. } => {
            lemma_expr_within(*left, locals, a, b, f);
            lemma_expr_within(*right, locals, a, b, f);
        },
        Expr::Call { callee, args, .. } => {
            if is_variant_call(callee@, a.enums) {
                lemma_variant_call_within(callee@, a, b);
            }
            if a.functions.contains(callee@) {
                assert(b.functions.contains(callee@));
            }
            lemma_exprs_within(args@, locals, a, b, f);
        },
        Expr::Unary { expr, .. } => {
            lemma_expr_within(*expr, locals, a, b, f);
        },
        Expr::FieldAccess { base, .. } => {
            lemma_expr_within(*base, locals, a, b, f);
        },
        Expr::Index { base, index, .. } => {
            lemma_expr_within(*base, locals, a, b, f);
            lemma_expr_within(*index, locals, a, b, f);
        },
        Expr::ArrayLiteral { elements, .. } => {
            lemma_exprs_within(elements@, locals, a, b, f);
        },
        _ => {},
    }
}

proof fn lemma_exprs_within(es: Seq<Expr>, locals: Seq<(Seq<char>, bool)>, a: SpecEnv, b: SpecEnv, f: Seq<char>)
    requires
        env_within(a, b),
        exprs_diags(es, locals, a, f).len() == 0,
    ensures
        exprs_diags(es, locals, b, f).len() == 0,
    decreases es,
{
    if es.len() > 0 {
        lemma_exprs_within(es.subrange(0, es.len() - 1), locals, a, b, f);
        lemma_expr_within(es[es.len() - 1], locals, a, b, f);
    }
}

proof fn lemma_stmt_within(s: Stmt, locals: Seq<(Seq<char>, bool)>, a: SpecEnv, b: SpecEnv, f: Seq<char>)
    requires
        env_within(a, b),
    ensures
        stmt_diags(s, locals, a, f).0.len() == 0 ==> stmt_diags(s, locals, b, f).0.len() == 0,
        stmt_diags(s, locals, a, f).1 == stmt_diags(s, locals, b, f).1,
    decreases s,
{
    match s {
        Stmt::Let { value, .. } => {
            if expr_diags(value, locals, a, f).len() == 0 {
                lemma_expr_within(value, locals, a, b, f);
            }
        },
        Stmt::Assign { value, .. } => {
            if expr_diags(value, locals, a, f).len() == 0 {
                lemma_expr_within(value, locals, a, b, f);
            }
        },
        Stmt::If { condition, then_body, else_body } => {
            if expr_diags(condition, locals, a, f).len() == 0 {
                lemma_expr_within(condition, locals, a, b, f);
            }
            lemma_stmts_within(then_body@, locals, a, b, f);
            lemma_stmts_within(else_body@, locals, a, b, f);
        },
        Stmt::While { condition, body } => {
            if expr_diags(condition, locals, a, f).len() == 0 {
                lemma_expr_within(condition, locals, a, b, f);
            }
            lemma_stmts_within(body@, locals, a, b, f);
        },
        Stmt::Match { value, arms } => {
            if expr_diags(value, locals, a, f).len() == 0 {
                lemma_expr_within(value, locals, a, b, f);
            }
            if arms_diags(arms@, locals, a, f).len() == 0 {
                lemma_arms_within(arms@, locals, a, b, f);
            }
        },
        Stmt::Return(Some(value)) => {
            if expr_diags(value, locals, a, f).len() == 0 {
                lemma_expr_within(value, locals, a, b, f);
            }
        },
        Stmt::Return(None) => {},
        Stmt::Expr(value) => {
            if expr_diags(value, locals, a, f).len() == 0 {
                lemma_expr_within(value, locals, a, b, f);
            }
        },
    }
}

proof fn lemma_stmts_within(ss: Seq<Stmt>, locals: Seq<(Seq<char>, bool)>, a: SpecEnv, b: SpecEnv, f: Seq<char>)
    requires
        env_within(a, b),
    ensures
        stmts_diags(ss, locals, a, f).0.len() == 0 ==> stmts_diags(ss, locals, b, f).0.len() == 0,
        stmts_diags(ss, locals, a, f).1 == stmts_diags(ss, locals, b, f).1,
    decreases ss,
{
    if ss.len() > 0 {
        let pre = ss.subrange(0, ss.len() - 1);
        lemma_stmts_within(pre, locals, a, b, f);
        let l = stmts_diags(pre, locals, a, f).1;
        lemma_stmt_within(ss[ss.len() - 1], l, a, b, f);
    }
}

proof fn lemma_arms_within(arms: Seq<MatchArm>, locals: Seq<(Seq<char>, bool)>, a: SpecEnv, b: SpecEnv, f: Seq<char>)
    requires
        env_within(a, b),
        arms_diags(arms, locals, a, f).len() == 0,
    ensures
        arms_diags(arms, locals, b, f).len() == 0,
    decreases arms,
{
    if arms.len() > 0 {
        let arm = arms[arms.len() - 1];
        lemma_arms_within(arms.subrange(0, arms.len() - 1), locals, a, b, f);
        lemma_stmts_within(arm.body@, pattern_locals(arm.pattern, locals), a, b, f);
    }
}

proof fn lemma_functions_within(items: Seq<Item>, a: SpecEnv, b: SpecEnv)
    requires
        env_within(a, b),
        functions_diags(items, a).len() == 0,
    ensures
        functions_diags(items, b).len() == 0,
    decreases items.len(),
{
    if items.len() > 0 {
        lemma_functions_within(items.drop_last(), a, b);
        if let Item::Function(fun) = items.last() {
            let l = params_diags(fun.params@, fun.name@).1;
            lemma_stmts_within(fun.body@, l, a, b, fun.name@);
        }
    }
}

proof fn lemma_top_level_within(items: Seq<Item>, i1: Seq<Seq<char>>, i2: Seq<Seq<char>>)
    requires
        forall|n: Seq<char>| #[trigger] i1.contains(n) ==> i2.contains(n),
    ensures
        top_level_diags(items, i1).0.len() == 0 ==> top_level_diags(items, i2).0.len() == 0,
        top_level_diags(items, i1).1 == top_level_diags(items, i2).1,
    decreases items.len(),
{
    if items.len() > 0 {
        lemma_top_level_within(items.drop_last(), i1, i2);
    }
}

/// Knowing more names never adds a diagnostic: a module that resolves with
/// some local imports, external functions and external enums also resolves
/// with more of each (each enum with at least its variants), for the same
/// ambiguous names.
pub proof fn law_more_known_names_add_no_diagnostic(
    m: Module,
    local_imports: Seq<Seq<char>>,
    more_imports: Seq<Seq<char>>,
    functions: Seq<Seq<char>>,
    more_functions: Seq<Seq<char>>,
    enums: Seq<(Seq<char>, Seq<Seq<char>>)>,
    more_enums: Seq<(Seq<char>, Seq<Seq<char>>)>,
    ambiguous: Seq<Seq<char>>,
)
    requires
        forall|n: Seq<char>| #[trigger] local_imports.contains(n) ==> more_imports.contains(n),
        forall|n: Seq<char>| #[trigger] functions.contains(n) ==> more_functions.contains(n),
        enums_covered(enums, more_enums),
        resolve_spec(m, local_imports, functions, enums, ambiguous).len() == 0,
    ensures
        resolve_spec(m, more_imports, more_functions, more_enums, ambiguous).len() == 0,
{
    let items = m.items@;
    let a = env_of(m, functions, enums, ambiguous);
    let b = env_of(m, more_functions, more_enums, ambiguous);
    let fs = function_names(items);
    let tops = item_names(items);
    let ls = module_enums(items);
    assert forall|n: Seq<char>| #[trigger] a.functions.contains(n) implies b.functions.contains(n) by {
        let i = choose|i: int| 0 <= i < a.functions.len() && a.functions[i] == n;
        if i < fs.len() {
            assert(b.functions[i] == n);
        } else {
            assert(functions[i - fs.len()] == n);
            assert(functions.contains(n));
            let j = choose|j: int| 0 <= j < more_functions.len() && more_functions[j] == n;
            assert(b.functions[fs.len() + j] == n);
        }
    }
    assert forall|n: Seq<char>| #[trigger] a.top.contains(n) implies b.top.contains(n) by {
        let i = choose|i: int| 0 <= i < a.top.len() && a.top[i] == n;
        if i < tops.len() {
            assert(b.top[i] == n);
        } else {
            let k = i - tops.len();
            assert(enum_list_names(enums)[k] == n);
            assert(has_enum(enums, n));
            let j = choose|j: int| 0 <= j < more_enums.len() && more_enums[j].0 == n;
            assert(enum_list_names(more_enums)[j] == n);
            assert(b.top[tops.len() + j] == n);
        }
    }
    lemma_enums_covered_append(ls, enums, more_enums);
    assert(a.enums == ls + enums);
    assert(b.enums == ls + more_enums);
    assert(enums_covered(a.enums, b.enums));
    assert(a.core == b.core && a.io == b.io && a.ambiguous == b.ambiguous);
    assert(env_within(a, b));
    lemma_top_level_within(items, local_imports, more_imports);
    lemma_functions_within(items, a, b);
}

} // verus!
