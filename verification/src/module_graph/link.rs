//! Linking the modules of a checked program into one lowered program: each
//! module is lowered on its own, its functions are renamed by its module name
//! (all but the `main` of the module that holds it), and its calls are
//! redirected to the functions they name in the linked program.
use vstd::prelude::*;
use crate::ast::{Item, Module};
use crate::mir::{
    copy_opt_string, copy_params, function_items, lower, lowered_program, MirEnum, MirExpr, MirFunction,
    MirMatchArm, MirPattern, MirPlace, MirStmt, Program,
};
use crate::mir::dump::{lemma_marms_size_elem, lemma_mexprs_size_elem, lemma_mstmts_size_elem, marms_size, mexpr_size, mexprs_size, mstmt_size, mstmts_size};
use crate::module_graph::{
    ambiguous_function_names, check_parsed_sources, graph_error_exec, imported_export_pairs, local_imports,
    module_decl_name, module_infos, pairs_view, parse_sources, push_source_diag, ExternalFunction,
    ambiguous_names, graph_error, graph_errors, imported_exports, imports_of, file_failures, module_decl,
    module_table, opt_view, parsed_from, parsed_view, source_diags_view, ParsedSource, SourceDiagnostics,
    SourceFile, SpecExport, SpecSourceDiagnostics,
};
use crate::text::{byte_len, chars_of, concat3, contains_str, copy_string, str_equal, strings_view};

verus! {

// ---------------------------------------------------------------------------
// Where calls go
// ---------------------------------------------------------------------------

/// The call targets a module gets from its imports: for each imported
/// export, its short name (unless two imports export it) and its name
/// qualified by the import path, each with the export's name in the linked
/// program. Of several entries for one name the first counts.
pub open spec fn call_targets(pairs: Seq<(Seq<char>, SpecExport)>, ambiguous: Seq<Seq<char>>) -> Seq<
    (Seq<char>, Seq<char>),
>
    decreases pairs.len(),
{
    if pairs.len() == 0 {
        Seq::empty()
    } else {
        let (p, e) = pairs.last();
        call_targets(pairs.drop_last(), ambiguous) + (if !ambiguous.contains(e.0) {
            seq![(e.0, e.1.2)]
        } else {
            Seq::empty()
        }) + seq![(p + "."@ + e.0, e.1.2)]
    }
}

/// The target of the first entry for `name`.
pub open spec fn first_target(ts: Seq<(Seq<char>, Seq<char>)>, name: Seq<char>) -> Option<Seq<char>>
    decreases ts.len(),
{
    if ts.len() == 0 {
        None
    } else if ts[0].0 == name {
        Some(ts[0].1)
    } else {
        first_target(ts.drop_first(), name)
    }
}

/// What linking needs to know of one module.
pub struct LinkContext {
    /// The name the module declares, if any.
    pub module: Option<Seq<char>>,
    /// Where imported names go.
    pub targets: Seq<(Seq<char>, Seq<char>)>,
    /// The names of the module's own functions.
    pub locals: Seq<Seq<char>>,
    /// Whether the module holds the program's `main`.
    pub is_main: bool,
}

/// A name qualified by a module name, if there is one.
pub open spec fn qualified(module: Option<Seq<char>>, name: Seq<char>) -> Seq<char> {
    match module {
        Some(m) => m + "."@ + name,
        None => name,
    }
}

/// Where a call goes: an imported name to its target; a dotted name stays; a
/// call of one of the module's own functions is qualified by the module name,
/// except in the module that holds `main`.
pub open spec fn linked_callee(callee: Seq<char>, c: LinkContext) -> Seq<char> {
    match first_target(c.targets, callee) {
        Some(t) => t,
        None => if callee.contains('.') {
            callee
        } else if !c.is_main && c.locals.contains(callee) {
            qualified(c.module, callee)
        } else {
            callee
        },
    }
}

/// The name a function has in the linked program: qualified by its module's
/// name, except the `main` of the module that holds it.
pub open spec fn linked_name(name: Seq<char>, c: LinkContext) -> Seq<char> {
    if name != "main"@ || !c.is_main {
        qualified(c.module, name)
    } else {
        name
    }
}

/// Whether `r` is `e` with its calls redirected.
pub open spec fn links_expr(e: MirExpr, r: MirExpr, c: LinkContext) -> bool
    decreases e,
{
    match e {
        MirExpr::Binary { op, left, right } => r matches MirExpr::Binary { op: o, left: l, right: rr } && o == op
            && links_expr(*left, *l, c) && links_expr(*right, *rr, c),
        MirExpr::Unary { op, expr } => r matches MirExpr::Unary { op: o, expr: x } && o == op && links_expr(
            *expr,
            *x,
            c,
        ),
        MirExpr::Call { callee, args } => r matches MirExpr::Call { callee: c2, args: a2 } && c2@ == linked_callee(
            callee@,
            c,
        ) && links_exprs(args@, a2@, c),
        MirExpr::EnumVariant { enum_name, variant, payload } => r matches MirExpr::EnumVariant {
            enum_name: n2,
            variant: v2,
            payload: p2,
        } && n2 == enum_name && v2 == variant && match payload {
            Some(p) => p2 matches Some(q) && links_expr(*p, *q, c),
            None => p2 is None,
        },
        MirExpr::FieldAccess { base, field } => r matches MirExpr::FieldAccess { base: b2, field: f2 } && f2 == field
            && links_expr(*base, *b2, c),
        MirExpr::ArrayLiteral { elements } => r matches MirExpr::ArrayLiteral { elements: e2 } && links_exprs(
            elements@,
            e2@,
            c,
        ),
        MirExpr::Index { base, index } => r matches MirExpr::Index { base: b2, index: i2 } && links_expr(
            *base,
            *b2,
            c,
        ) && links_expr(*index, *i2, c),
        _ => r == e,
    }
}

pub open spec fn links_exprs(es: Seq<MirExpr>, rs: Seq<MirExpr>, c: LinkContext) -> bool
    decreases es,
{
    if es.len() == 0 {
        rs.len() == 0
    } else {
        rs.len() == es.len() && links_exprs(es.drop_last(), rs.drop_last(), c) && links_expr(es.last(), rs.last(), c)
    }
}

/// Whether `r` is `s` with its calls redirected.
pub open spec fn links_stmt(s: MirStmt, r: MirStmt, c: LinkContext) -> bool
    decreases s,
{
    match s {
        MirStmt::Local { mutable, name, ty, value } => r matches MirStmt::Local {
            mutable: m2,
            name: n2,
            ty: t2,
            value: v2,
        } && m2 == mutable && n2 == name && t2 == ty && links_expr(value, v2, c),
        MirStmt::Store { place, value } => r matches MirStmt::Store { place: p2, value: v2 } && p2 == place
            && links_expr(value, v2, c),
        MirStmt::If { condition, then_body, else_body } => r matches MirStmt::If {
            condition: c2,
            then_body: t2,
            else_body: e2,
        } && links_expr(condition, c2, c) && links_stmts(then_body@, t2@, c) && links_stmts(else_body@, e2@, c),
        MirStmt::While { condition, body } => r matches MirStmt::While { condition: c2, body: b2 } && links_expr(
            condition,
            c2,
            c,
        ) && links_stmts(body@, b2@, c),
        MirStmt::Match { value, arms } => r matches MirStmt::Match { value: v2, arms: a2 } && links_expr(
            value,
            v2,
            c,
        ) && links_arms(arms@, a2@, c),
        MirStmt::Return(Some(e)) => r matches MirStmt::Return(Some(v)) && links_expr(e, v, c),
        MirStmt::Return(None) => r == MirStmt::Return(None),
        MirStmt::Drop(e) => r matches MirStmt::Drop(v) && links_expr(e, v, c),
    }
}

pub open spec fn links_stmts(ss: Seq<MirStmt>, rs: Seq<MirStmt>, c: LinkContext) -> bool
    decreases ss,
{
    if ss.len() == 0 {
        rs.len() == 0
    } else {
        rs.len() == ss.len() && links_stmts(ss.drop_last(), rs.drop_last(), c) && links_stmt(ss.last(), rs.last(), c)
    }
}

pub open spec fn links_arms(arms: Seq<MirMatchArm>, rs: Seq<MirMatchArm>, c: LinkContext) -> bool
    decreases arms,
{
    if arms.len() == 0 {
        rs.len() == 0
    } else {
        &&& rs.len() == arms.len()
        &&& links_arms(arms.drop_last(), rs.drop_last(), c)
        &&& rs.last().pattern == arms.last().pattern
        &&& links_stmts(arms.last().body@, rs.last().body@, c)
    }
}

/// Whether `g` is the function `f` renamed and with its calls redirected.
pub open spec fn links_function(f: MirFunction, g: MirFunction, c: LinkContext) -> bool {
    &&& g.name@ == linked_name(f.name@, c)
    &&& g.params@ == f.params@
    &&& g.return_type == f.return_type
    &&& links_stmts(f.body@, g.body@, c)
}

// ---------------------------------------------------------------------------
// The linked program
// ---------------------------------------------------------------------------

/// The names of functions.
pub open spec fn names_of(fs: Seq<crate::ast::Function>) -> Seq<Seq<char>> {
    fs.map_values(|f: crate::ast::Function| f.name@)
}

/// The names of a module's functions, in order.
pub open spec fn function_names(m: Module) -> Seq<Seq<char>> {
    names_of(function_items(m.items@))
}

/// Whether a module defines a function `main`.
pub open spec fn has_main(m: Module) -> bool {
    function_names(m).contains("main"@)
}

/// What linking knows of the module `m` at `path` in a program whose `main`
/// is in the file at `main_path`.
pub open spec fn module_context(
    m: Module,
    path: Seq<char>,
    t: Seq<(Seq<char>, Seq<char>, Seq<SpecExport>)>,
    main_path: Seq<char>,
) -> LinkContext {
    let pairs = imported_exports(imports_of(m.items@), t);
    LinkContext {
        module: module_decl(m.items@),
        targets: call_targets(pairs, ambiguous_names(pairs, pairs)),
        locals: function_names(m),
        is_main: path == main_path,
    }
}

/// Whether `fs` and `es` are the functions and enums of the modules linked:
/// module after module, each module's enums as lowering gave them and its
/// functions (lowered as `ls` holds them) linked.
pub open spec fn links_modules(
    mods: Seq<(Seq<char>, Seq<char>, Module)>,
    ls: Seq<Program>,
    t: Seq<(Seq<char>, Seq<char>, Seq<SpecExport>)>,
    main_path: Seq<char>,
    fs: Seq<MirFunction>,
    es: Seq<MirEnum>,
) -> bool
    decreases mods.len(),
{
    if mods.len() == 0 {
        fs.len() == 0 && es.len() == 0
    } else {
        let q = ls.last();
        let nf = q.functions@.len();
        let ne = q.enums@.len();
        let c = module_context(mods.last().2, mods.last().0, t, main_path);
        &&& ls.len() == mods.len()
        &&& nf <= fs.len()
        &&& ne <= es.len()
        &&& links_modules(
            mods.drop_last(),
            ls.drop_last(),
            t,
            main_path,
            fs.subrange(0, fs.len() - nf),
            es.subrange(0, es.len() - ne),
        )
        &&& es.subrange(es.len() - ne, es.len() as int) == q.enums@
        &&& forall|j: int|
            0 <= j < nf ==> links_function(q.functions@[j], #[trigger] fs[fs.len() - nf + j], c)
    }
}

/// The files holding a `main`, as (path, source) pairs, in order.
pub open spec fn main_files(mods: Seq<(Seq<char>, Seq<char>, Module)>) -> Seq<(Seq<char>, Seq<char>)>
    decreases mods.len(),
{
    if mods.len() == 0 {
        Seq::empty()
    } else {
        main_files(mods.drop_last()) + if has_main(mods.last().2) {
            seq![(mods.last().0, mods.last().1)]
        } else {
            Seq::empty()
        }
    }
}

/// One error per file holding a `main`.
pub open spec fn duplicate_main_errors(mains: Seq<(Seq<char>, Seq<char>)>) -> Seq<SpecSourceDiagnostics>
    decreases mains.len(),
{
    if mains.len() == 0 {
        Seq::empty()
    } else {
        duplicate_main_errors(mains.drop_last()).push(
            graph_error(
                mains.last().0,
                mains.last().1,
                "RUNTIME_DUPLICATE_MAIN"@,
                "directory run requires exactly one `main` function"@,
            ),
        )
    }
}

/// What linking reports when the program does not have exactly one `main`:
/// its absence, at the first file (or at the graph when there is none), or
/// each `main` there is.
pub open spec fn main_errors(mods: Seq<(Seq<char>, Seq<char>, Module)>) -> Seq<SpecSourceDiagnostics> {
    let mains = main_files(mods);
    if mains.len() == 0 {
        let (path, source) = if mods.len() > 0 {
            (mods[0].0, mods[0].1)
        } else {
            ("<module graph>"@, Seq::empty())
        };
        seq![graph_error(path, source, "RUNTIME_NO_MAIN"@, "expected a `main` function"@)]
    } else if mains.len() > 1 {
        duplicate_main_errors(mains)
    } else {
        Seq::empty()
    }
}

/// Whether `p` links the checked modules `mods`, whose one `main` is in the
/// file at `main_path`.
pub open spec fn linked_program(mods: Seq<(Seq<char>, Seq<char>, Module)>, main_path: Seq<char>, p: Program) -> bool {
    exists|ls: Seq<Program>|
        #![trigger links_modules(mods, ls, module_table(mods), main_path, p.functions@, p.enums@)]
        ls.len() == mods.len() && (forall|i: int|
            0 <= i < mods.len() ==> lowered_program(#[trigger] mods[i].2, Seq::empty(), ls[i])) && links_modules(
            mods,
            ls,
            module_table(mods),
            main_path,
            p.functions@,
            p.enums@,
        )
}


// ---------------------------------------------------------------------------
// Linking, step by step
// ---------------------------------------------------------------------------

pub open spec fn targets_view(v: Seq<(String, String)>) -> Seq<(Seq<char>, Seq<char>)> {
    v.map_values(|x: (String, String)| (x.0@, x.1@))
}

fn has_dot(s: &str) -> (b: bool)
    ensures
        b == s@.contains('.'),
{
    let chars = chars_of(s);
    let mut i: usize = 0;
    while i < chars.len()
        invariant
            i <= chars@.len(),
            chars@ == s@,
            forall|k: int| 0 <= k < i ==> chars@[k] != '.',
        decreases chars.len() - i,
    {
        if chars[i] == '.' {
            assert(s@[i as int] == '.');
            return true;
        }
        i = i + 1;
    }
    false
}

fn find_target(ts: &Vec<(String, String)>, name: &str) -> (r: Option<String>)
    ensures
        opt_view(r) == first_target(targets_view(ts@), name@),
{
    let ghost tv = targets_view(ts@);
    let mut i: usize = 0;
    assert(tv.skip(0) =~= tv);
    while i < ts.len()
        invariant
            i <= ts@.len(),
            tv == targets_view(ts@),
            first_target(tv, name@) == first_target(tv.skip(i as int), name@),
        decreases ts.len() - i,
    {
        assert(tv.skip(i as int).drop_first() =~= tv.skip(i as int + 1));
        assert(tv.skip(i as int)[0] == tv[i as int]);
        if str_equal(ts[i].0.as_str(), name) {
            return Some(ts[i].1.clone());
        }
        i = i + 1;
    }
    assert(tv.skip(i as int) =~= Seq::<(Seq<char>, Seq<char>)>::empty());
    None
}

fn copy_pattern(p: &MirPattern) -> (r: MirPattern)
    ensures
        r == *p,
{
    match p {
        MirPattern::Name(n) => MirPattern::Name(n.clone()),
        MirPattern::Variant { enum_name, variant, binding } => MirPattern::Variant {
            enum_name: enum_name.clone(),
            variant: variant.clone(),
            binding: copy_opt_string(binding),
        },
        MirPattern::Int(v) => MirPattern::Int(v.clone()),
        MirPattern::String(v) => MirPattern::String(v.clone()),
        MirPattern::Bool(b) => MirPattern::Bool(*b),
        MirPattern::Wildcard => MirPattern::Wildcard,
    }
}

/// What linking knows of the module being linked.
struct Linker {
    module: Option<String>,
    targets: Vec<(String, String)>,
    locals: Vec<String>,
    is_main: bool,
}

impl Linker {
    spec fn ctx(&self) -> LinkContext {
        LinkContext {
            module: opt_view(self.module),
            targets: targets_view(self.targets@),
            locals: strings_view(self.locals@),
            is_main: self.is_main,
        }
    }

    fn qualify(&self, name: &str) -> (r: String)
        ensures
            r@ == qualified(opt_view(self.module), name@),
    {
        match &self.module {
            Some(m) => concat3(m.as_str(), ".", name),
            None => copy_string(name),
        }
    }

    fn link_callee(&self, callee: &str) -> (r: String)
        ensures
            r@ == linked_callee(callee@, self.ctx()),
    {
        match find_target(&self.targets, callee) {
            Some(t) => t,
            None => if has_dot(callee) {
                copy_string(callee)
            } else if !self.is_main && contains_str(&self.locals, callee) {
                self.qualify(callee)
            } else {
                copy_string(callee)
            },
        }
    }

    fn link_expr(&self, e: &MirExpr) -> (r: MirExpr)
        ensures
            links_expr(*e, r, self.ctx()),
        decreases mexpr_size(*e), 0nat,
    {
        match e {
            MirExpr::Load(n) => MirExpr::Load(n.clone()),
            MirExpr::Int(v) => MirExpr::Int(v.clone()),
            MirExpr::String(v) => MirExpr::String(v.clone()),
            MirExpr::Bool(b) => MirExpr::Bool(*b),
            MirExpr::Binary { op, left, right } => {
                let l = self.link_expr(left);
                let r = self.link_expr(right);
                MirExpr::Binary { op: *op, left: Box::new(l), right: Box::new(r) }
            },
            MirExpr::Unary { op, expr: operand } => {
                let x = self.link_expr(operand);
                MirExpr::Unary { op: *op, expr: Box::new(x) }
            },
            MirExpr::Call { callee, args } => {
                MirExpr::Call { callee: self.link_callee(callee.as_str()), args: self.link_exprs(args) }
            },
            MirExpr::EnumVariant { enum_name, variant, payload } => {
                let p = match payload {
                    Some(p) => Some(Box::new(self.link_expr(p))),
                    None => None,
                };
                MirExpr::EnumVariant { enum_name: enum_name.clone(), variant: variant.clone(), payload: p }
            },
            MirExpr::FieldAccess { base, field } => {
                MirExpr::FieldAccess { base: Box::new(self.link_expr(base)), field: field.clone() }
            },
            MirExpr::ArrayLiteral { elements } => MirExpr::ArrayLiteral { elements: self.link_exprs(elements) },
            MirExpr::Index { base, index } => {
                let b = self.link_expr(base);
                let i = self.link_expr(index);
                MirExpr::Index { base: Box::new(b), index: Box::new(i) }
            },
        }
    }

    fn link_exprs(&self, es: &Vec<MirExpr>) -> (rs: Vec<MirExpr>)
        ensures
            links_exprs(es@, rs@, self.ctx()),
        decreases mexprs_size(es@), 1nat,
    {
        let mut rs: Vec<MirExpr> = Vec::new();
        let mut i: usize = 0;
        while i < es.len()
            invariant
                i <= es@.len(),
                links_exprs(es@.subrange(0, i as int), rs@, self.ctx()),
            decreases es.len() - i,
        {
            proof {
                lemma_mexprs_size_elem(es@, i as int);
            }
            let r = self.link_expr(&es[i]);
            let ghost r0 = rs@;
            rs.push(r);
            proof {
                let sub = es@.subrange(0, i as int + 1);
                assert(sub.drop_last() =~= es@.subrange(0, i as int));
                assert(rs@.drop_last() =~= r0);
            }
            i = i + 1;
        }
        assert(es@.subrange(0, es@.len() as int) =~= es@);
        rs
    }

    fn link_stmts(&self, ss: &Vec<MirStmt>) -> (rs: Vec<MirStmt>)
        ensures
            links_stmts(ss@, rs@, self.ctx()),
        decreases mstmts_size(ss@), 1nat,
    {
        let mut rs: Vec<MirStmt> = Vec::new();
        let mut i: usize = 0;
        while i < ss.len()
            invariant
                i <= ss@.len(),
                links_stmts(ss@.subrange(0, i as int), rs@, self.ctx()),
            decreases ss.len() - i,
        {
            proof {
                lemma_mstmts_size_elem(ss@, i as int);
            }
            let r = self.link_stmt(&ss[i]);
            let ghost r0 = rs@;
            rs.push(r);
            proof {
                let sub = ss@.subrange(0, i as int + 1);
                assert(sub.drop_last() =~= ss@.subrange(0, i as int));
                assert(rs@.drop_last() =~= r0);
            }
            i = i + 1;
        }
        assert(ss@.subrange(0, ss@.len() as int) =~= ss@);
        rs
    }

    fn link_stmt(&self, s: &MirStmt) -> (r: MirStmt)
        ensures
            links_stmt(*s, r, self.ctx()),
        decreases mstmt_size(*s), 0nat,
    {
        match s {
            MirStmt::Local { mutable, name, ty, value } => MirStmt::Local {
                mutable: *mutable,
                name: name.clone(),
                ty: copy_opt_string(ty),
                value: self.link_expr(value),
            },
            MirStmt::Store { place: MirPlace::Local(n), value } => MirStmt::Store {
                place: MirPlace::Local(n.clone()),
                value: self.link_expr(value),
            },
            MirStmt::If { condition, then_body, else_body } => MirStmt::If {
                condition: self.link_expr(condition),
                then_body: self.link_stmts(then_body),
                else_body: self.link_stmts(else_body),
            },
            MirStmt::While { condition, body } => MirStmt::While {
                condition: self.link_expr(condition),
                body: self.link_stmts(body),
            },
            MirStmt::Match { value, arms } => {
                let v = self.link_expr(value);
                let mut rs: Vec<MirMatchArm> = Vec::new();
                let mut i: usize = 0;
                while i < arms.len()
                    invariant
                        i <= arms@.len(),
                        marms_size(arms@) < mstmt_size(*s),
                        links_arms(arms@.subrange(0, i as int), rs@, self.ctx()),
                    decreases arms.len() - i,
                {
                    proof {
                        lemma_marms_size_elem(arms@, i as int);
                    }
                    let body = self.link_stmts(&arms[i].body);
                    let arm = MirMatchArm { pattern: copy_pattern(&arms[i].pattern), body };
                    let ghost r0 = rs@;
                    rs.push(arm);
                    proof {
                        let sub = arms@.subrange(0, i as int + 1);
                        assert(sub.drop_last() =~= arms@.subrange(0, i as int));
                        assert(rs@.drop_last() =~= r0);
                    }
                    i = i + 1;
                }
                assert(arms@.subrange(0, arms@.len() as int) =~= arms@);
                MirStmt::Match { value: v, arms: rs }
            },
            MirStmt::Return(Some(e)) => MirStmt::Return(Some(self.link_expr(e))),
            MirStmt::Return(None) => MirStmt::Return(None),
            MirStmt::Drop(e) => MirStmt::Drop(self.link_expr(e)),
        }
    }

    fn link_function(&self, f: &MirFunction) -> (g: MirFunction)
        ensures
            links_function(*f, g, self.ctx()),
    {
        let name = if !str_equal(f.name.as_str(), "main") || !self.is_main {
            self.qualify(f.name.as_str())
        } else {
            f.name.clone()
        };
        proof {
            reveal_strlit("main");
        }
        MirFunction {
            name,
            params: copy_params(&f.params),
            return_type: copy_opt_string(&f.return_type),
            body: self.link_stmts(&f.body),
        }
    }
}


fn call_target_table(pairs: &Vec<(String, ExternalFunction)>, ambiguous: &Vec<String>) -> (r: Vec<(String, String)>)
    ensures
        targets_view(r@) == call_targets(pairs_view(pairs@), strings_view(ambiguous@)),
{
    let ghost pv = pairs_view(pairs@);
    let ghost av = strings_view(ambiguous@);
    let mut r: Vec<(String, String)> = Vec::new();
    let mut i: usize = 0;
    while i < pairs.len()
        invariant
            i <= pairs@.len(),
            pv == pairs_view(pairs@),
            av == strings_view(ambiguous@),
            targets_view(r@) == call_targets(pv.subrange(0, i as int), av),
        decreases pairs.len() - i,
    {
        let ghost r0 = targets_view(r@);
        let (path, export) = (&pairs[i].0, &pairs[i].1);
        let name = export.name.as_str();
        if !contains_str(ambiguous, name) {
            r.push((copy_string(name), export.target.clone()));
        }
        r.push((concat3(path.as_str(), ".", name), export.target.clone()));
        proof {
            let sub = pv.subrange(0, i as int + 1);
            assert(sub.drop_last() =~= pv.subrange(0, i as int));
            assert(sub.last() == pv[i as int]);
            assert(targets_view(r@) =~= call_targets(sub, av));
        }
        i = i + 1;
    }
    assert(pv.subrange(0, pv.len() as int) =~= pv);
    r
}

pub proof fn lemma_function_items_prefix(items: Seq<Item>, i: int)
    requires
        0 <= i < items.len(),
    ensures
        function_items(items.subrange(0, i + 1)) == function_items(items.subrange(0, i)) + match items[i] {
            Item::Function(f) => seq![f],
            _ => Seq::empty(),
        },
{
    assert(items.subrange(0, i + 1).drop_last() =~= items.subrange(0, i));
}

pub proof fn lemma_function_items_append(a: Seq<Item>, b: Seq<Item>)
    ensures
        function_items(a + b) == function_items(a) + function_items(b),
    decreases b.len(),
{
    if b.len() == 0 {
        assert(a + b =~= a);
    } else {
        lemma_function_items_append(a, b.drop_last());
        assert((a + b).drop_last() =~= a + b.drop_last());
    }
}

fn has_main_function(m: &Module) -> (b: bool)
    ensures
        b == has_main(*m),
{
    let items = &m.items;
    let mut i: usize = 0;
    while i < items.len()
        invariant
            i <= items@.len(),
            items == &m.items,
            !names_of(function_items(items@.subrange(0, i as int))).contains("main"@),
        decreases items.len() - i,
    {
        let ghost before = function_items(items@.subrange(0, i as int));
        proof {
            lemma_function_items_prefix(items@, i as int);
        }
        match &items[i] {
            Item::Function(f) => {
                if str_equal(f.name.as_str(), "main") {
                    proof {
                        lemma_function_items_append(items@.subrange(0, i as int + 1), items@.subrange(i as int + 1, items@.len() as int));
                        assert(items@.subrange(0, i as int + 1) + items@.subrange(i as int + 1, items@.len() as int) =~= items@);
                        let all = function_items(items@);
                        assert(all[before.len() as int] == *f);
                        assert(function_names(*m)[before.len() as int] == "main"@);
                    }
                    return true;
                }
                proof {
                    let now = function_items(items@.subrange(0, i as int + 1));
                    assert(now =~= before.push(*f));
                    if names_of(now).contains("main"@) {
                        let k = choose|k: int| 0 <= k < names_of(now).len() && #[trigger] names_of(now)[k] == "main"@;
                        if k < before.len() {
                            assert(names_of(before)[k] == "main"@);
                        }
                    }
                }
            },
            _ => {
                proof {
                    assert(function_items(items@.subrange(0, i as int + 1)) =~= before);
                }
            },
        }
        i = i + 1;
    }
    assert(items@.subrange(0, items@.len() as int) =~= items@);
    false
}


fn main_file_list(mods: &Vec<ParsedSource>) -> (r: Vec<(String, String)>)
    ensures
        targets_view(r@) == main_files(parsed_view(mods@)),
{
    let ghost pv = parsed_view(mods@);
    let mut r: Vec<(String, String)> = Vec::new();
    let mut i: usize = 0;
    while i < mods.len()
        invariant
            i <= mods@.len(),
            pv == parsed_view(mods@),
            targets_view(r@) == main_files(pv.subrange(0, i as int)),
        decreases mods.len() - i,
    {
        if has_main_function(&mods[i].module) {
            r.push((mods[i].path.clone(), mods[i].source.clone()));
        }
        proof {
            let sub = pv.subrange(0, i as int + 1);
            assert(sub.drop_last() =~= pv.subrange(0, i as int));
            assert(sub.last() == pv[i as int]);
            assert(targets_view(r@) =~= main_files(sub));
        }
        i = i + 1;
    }
    assert(pv.subrange(0, pv.len() as int) =~= pv);
    r
}

fn main_errors_of(mods: &Vec<ParsedSource>, mains: &Vec<(String, String)>) -> (r: Vec<SourceDiagnostics>)
    requires
        targets_view(mains@) == main_files(parsed_view(mods@)),
        mains@.len() != 1,
    ensures
        source_diags_view(r@) == main_errors(parsed_view(mods@)),
        r@.len() > 0,
{
    let ghost pv = parsed_view(mods@);
    let mut r: Vec<SourceDiagnostics> = Vec::new();
    if mains.len() == 0 {
        let d = if mods.len() > 0 {
            graph_error_exec(&mods[0].path, &mods[0].source, "RUNTIME_NO_MAIN", "expected a `main` function")
        } else {
            graph_error_exec(&copy_string("<module graph>"), &String::new(), "RUNTIME_NO_MAIN", "expected a `main` function")
        };
        push_source_diag(&mut r, d);
        assert(source_diags_view(r@) =~= main_errors(pv));
        return r;
    }
    let ghost mv = targets_view(mains@);
    let mut i: usize = 0;
    while i < mains.len()
        invariant
            i <= mains@.len(),
            mv == targets_view(mains@),
            source_diags_view(r@) == duplicate_main_errors(mv.subrange(0, i as int)),
        decreases mains.len() - i,
    {
        let d = graph_error_exec(
            &mains[i].0,
            &mains[i].1,
            "RUNTIME_DUPLICATE_MAIN",
            "directory run requires exactly one `main` function",
        );
        push_source_diag(&mut r, d);
        proof {
            let sub = mv.subrange(0, i as int + 1);
            assert(sub.drop_last() =~= mv.subrange(0, i as int));
            assert(sub.last() == mv[i as int]);
        }
        i = i + 1;
    }
    assert(mv.subrange(0, mv.len() as int) =~= mv);
    r
}

/// Links the checked files into one program whose `main` is in the file at
/// `main_path`.
fn link_modules(mods: &Vec<ParsedSource>, main_path: &String) -> (p: Program)
    requires
        graph_errors(parsed_view(mods@)).len() == 0,
    ensures
        linked_program(parsed_view(mods@), main_path@, p),
{
    let ghost pv = parsed_view(mods@);
    let mut scratch: Vec<SourceDiagnostics> = Vec::new();
    let infos = module_infos(mods, &mut scratch);
    let ghost t = module_table(pv);
    let mut program = Program { enums: Vec::new(), functions: Vec::new() };
    let ghost mut ls: Seq<Program> = Seq::empty();
    let mut i: usize = 0;
    while i < mods.len()
        invariant
            i <= mods@.len(),
            pv == parsed_view(mods@),
            t == module_table(pv),
            crate::module_graph::infos_view(infos@) == t,
            ls.len() == i,
            forall|k: int| 0 <= k < i ==> lowered_program(#[trigger] pv[k].2, Seq::empty(), ls[k]),
            links_modules(pv.subrange(0, i as int), ls, t, main_path@, program.functions@, program.enums@),
        decreases mods.len() - i,
    {
        let ghost f0 = program.functions@;
        let ghost e0 = program.enums@;
        assert(links_modules(pv.subrange(0, i as int), ls, t, main_path@, f0, e0));
        let module = &mods[i].module;
        let imports = local_imports(module);
        let pairs = imported_export_pairs(&imports, &infos);
        let ambiguous = ambiguous_function_names(&pairs);
        let targets = call_target_table(&pairs, &ambiguous);
        let mut lowered = lower(module);
        let ghost q = lowered;
        let mut locals: Vec<String> = Vec::new();
        let mut j: usize = 0;
        while j < lowered.functions.len()
            invariant
                j <= lowered.functions@.len(),
                lowered == q,
                lowered_program(*module, Seq::empty(), q),
                strings_view(locals@) == names_of(function_items(module.items@).subrange(0, j as int)),
            decreases lowered.functions.len() - j,
        {
            let ghost l0 = strings_view(locals@);
            locals.push(lowered.functions[j].name.clone());
            proof {
                let fs = function_items(module.items@);
                assert(crate::mir::lowers_function(fs[j as int], q.functions@[j as int], crate::mir::SpecVariants {
                    local: crate::resolver::module_enums(module.items@),
                    external: crate::mir::external_names(Seq::empty()),
                }));
                assert(strings_view(locals@) =~= l0.push(q.functions@[j as int].name@));
                assert(names_of(fs.subrange(0, j as int + 1)) =~= names_of(fs.subrange(0, j as int)).push(
                    fs[j as int].name@,
                ));
                assert(strings_view(locals@) =~= names_of(fs.subrange(0, j as int + 1)));
            }
            j = j + 1;
        }
        proof {
            let fs = function_items(module.items@);
            assert(fs.subrange(0, fs.len() as int) =~= fs);
        }
        let linker = Linker {
            module: module_decl_name(module),
            targets,
            locals,
            is_main: str_equal(mods[i].path.as_str(), main_path.as_str()),
        };
        let ghost c = module_context(pv[i as int].2, pv[i as int].0, t, main_path@);
        assert(linker.ctx() == c);
        let mut j: usize = 0;
        while j < lowered.functions.len()
            invariant
                j <= lowered.functions@.len(),
                lowered == q,
                linker.ctx() == c,
                program.enums@ == e0,
                program.functions@.len() == f0.len() + j,
                program.functions@.subrange(0, f0.len() as int) == f0,
                forall|k: int|
                    0 <= k < j ==> links_function(q.functions@[k], #[trigger] program.functions@[f0.len() + k], c),
            decreases lowered.functions.len() - j,
        {
            let g = linker.link_function(&lowered.functions[j]);
            program.functions.push(g);
            assert(program.functions@.subrange(0, f0.len() as int) =~= f0);
            j = j + 1;
        }
        program.enums.append(&mut lowered.enums);
        proof {
            let sub = pv.subrange(0, i as int + 1);
            let ls2 = ls.push(q);
            assert(sub.drop_last() =~= pv.subrange(0, i as int));
            assert(ls2.drop_last() =~= ls);
            assert(sub.last() == pv[i as int]);
            let fs = program.functions@;
            let es = program.enums@;
            assert(fs.subrange(0, fs.len() - q.functions@.len()) =~= f0);
            assert(es.subrange(0, es.len() - q.enums@.len()) =~= e0);
            assert(es.subrange(es.len() - q.enums@.len(), es.len() as int) =~= q.enums@);
            let nf = q.functions@.len();
            assert forall|k: int| 0 <= k < nf implies links_function(
                q.functions@[k],
                #[trigger] fs[fs.len() - nf + k],
                c,
            ) by {
                assert(fs.len() - nf + k == f0.len() + k);
            }
            assert(module_context(sub.last().2, sub.last().0, t, main_path@) == c);
            assert(ls2.len() == sub.len());
            assert(ls2.last() == q);
            assert(nf <= fs.len());
            assert(q.enums@.len() <= es.len());
            assert(links_modules(
                sub.drop_last(),
                ls2.drop_last(),
                t,
                main_path@,
                fs.subrange(0, fs.len() - nf),
                es.subrange(0, es.len() - q.enums@.len()),
            ));
            assert(links_modules(sub, ls2, t, main_path@, fs, es));
            ls = ls2;
        }
        i = i + 1;
    }
    assert(pv.subrange(0, pv.len() as int) =~= pv);
    program
}


/// Links parsed files into one lowered program once they check: the
/// program must have exactly one `main`, which keeps its name; every other
/// function is named by its module, and calls go to the functions they name.
pub fn link_parsed_sources(mods: &Vec<ParsedSource>) -> (r: Result<Program, Vec<SourceDiagnostics>>)
    ensures
        r matches Err(es) ==> es@.len() > 0 && if graph_errors(parsed_view(mods@)).len() > 0 {
            source_diags_view(es@) == graph_errors(parsed_view(mods@))
        } else {
            main_files(parsed_view(mods@)).len() != 1 && source_diags_view(es@) == main_errors(parsed_view(mods@))
        },
        r is Ok <==> graph_errors(parsed_view(mods@)).len() == 0 && main_files(parsed_view(mods@)).len() == 1,
        r matches Ok(p) ==> linked_program(parsed_view(mods@), main_files(parsed_view(mods@))[0].0, p),
{
    let ghost pv = parsed_view(mods@);
    match check_parsed_sources(mods) {
        Ok(()) => {},
        Err(es) => {
            assert(source_diags_view(es@).len() == es@.len());
            return Err(es);
        },
    }
    let mains = main_file_list(mods);
    if mains.len() != 1 {
        return Err(main_errors_of(mods, &mains));
    }
    let main_path = mains[0].0.clone();
    let p = link_modules(mods, &main_path);
    assert(targets_view(mains@)[0].0 == main_path@);
    Ok(p)
}

/// Links the files of a program into one lowered program, after they lex,
/// parse and check as `check_sources` does.
pub fn link_sources(files: &Vec<SourceFile>) -> (r: Result<Program, Vec<SourceDiagnostics>>)
    requires
        forall|i: int| 0 <= i < files@.len() ==> byte_len((#[trigger] files@[i]).source@) < usize::MAX,
    ensures
        file_failures(files@).len() > 0 ==> (r matches Err(es) && source_diags_view(es@) == file_failures(
            files@,
        )),
        file_failures(files@).len() == 0 ==> exists|mods: Seq<(Seq<char>, Seq<char>, Module)>| {
            &&& #[trigger] parsed_from(files@, mods)
            &&& match r {
                Ok(p) => graph_errors(mods).len() == 0 && main_files(mods).len() == 1 && linked_program(
                    mods,
                    main_files(mods)[0].0,
                    p,
                ),
                Err(es) => if graph_errors(mods).len() > 0 {
                    source_diags_view(es@) == graph_errors(mods)
                } else {
                    main_files(mods).len() != 1 && source_diags_view(es@) == main_errors(mods)
                },
            }
        },
{
    let mods = parse_sources(files)?;
    assert(parsed_from(files@, parsed_view(mods@)));
    link_parsed_sources(&mods)
}

} // verus!
