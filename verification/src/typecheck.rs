//! The type-name check: every type an annotation names is known. A struct
//! field's type, a function's parameter and return types and a local's type
//! annotation may name only the built-in types, the structs and enums the
//! module declares, and the standard enums of the standard modules it imports
//! (`OptionInt` and `ResultInt` from `std.core`, `ResultString` from
//! `std.io`). Each annotation that names another type gets one
//! `TYPE_UNKNOWN_TYPE` diagnostic for the first such name.
use vstd::prelude::*;
use crate::ast::{
    arms_size, lemma_arms_size_elem, lemma_stmts_size_elem, stmt_size, stmts_size, Field, Item, MatchArm, Module,
    Param, Stmt,
};
use crate::diagnostic::{diags_view, Diagnostic, Span, SpecDiagnostic};
use crate::lexer::{ident_end, is_ident_continue, is_ident_start, spec_is_ident_continue, spec_is_ident_start};
use crate::grammar::{
    arms_model, fields_model, items_model, lemma_arms_model_len, lemma_push_injective, lemma_stmts_model_len,
    module_model, params_model, pattern_model, stmt_model, stmts_model,
};
use crate::resolver::{imports_core, imports_io, lemma_items_model_prefix, lemma_top_level_diags_model};
use crate::std_api::{is_std_core_import, is_std_io_import};
use crate::text::{chars_of, concat3, contains_str, copy_string, str_equal, string_from_range, strings_view};

verus! {

/// The type names every module knows.
pub open spec fn builtin_types() -> Seq<Seq<char>> {
    seq![
        "Int"@,
        "Float"@,
        "Bool"@,
        "String"@,
        "Unit"@,
        "IntArray"@,
        "StringArray"@,
        "BoolArray"@,
        "FloatArray"@,
        "Array"@,
        "Tuple"@,
        "Fn"@,
    ]
}

/// The names of the structs and enums among `items`.
pub open spec fn declared_types(items: Seq<Item>) -> Seq<Seq<char>>
    decreases items.len(),
{
    if items.len() == 0 {
        Seq::empty()
    } else {
        declared_types(items.drop_last()) + match items.last() {
            Item::Struct(d) => seq![d.name@],
            Item::Enum(d) => seq![d.name@],
            _ => Seq::empty(),
        }
    }
}

/// The type names known in a module with these items.
pub open spec fn known_types(items: Seq<Item>) -> Seq<Seq<char>> {
    builtin_types() + declared_types(items) + (if imports_core(items) {
        seq!["OptionInt"@, "ResultInt"@]
    } else {
        Seq::empty()
    }) + (if imports_io(items) {
        seq!["ResultString"@]
    } else {
        Seq::empty()
    })
}

proof fn lemma_ident_end_to_the_end(s: Seq<char>, j: int)
    requires
        0 <= j <= s.len(),
        forall|i: int| j <= i < s.len() ==> spec_is_ident_continue(#[trigger] s[i]),
    ensures
        ident_end(s, j) == s.len(),
    decreases s.len() - j,
{
    if j < s.len() {
        lemma_ident_end_to_the_end(s, j + 1);
    }
}

/// Every built-in type name (`Int`, `Float`, `Bool`, `String`, `Unit`, the
/// array types `IntArray`, `StringArray`, `BoolArray`, `FloatArray`, and
/// `Array`, `Tuple`, `Fn`) is known in every module, so an annotation that
/// names one of them gets no diagnostic, whatever the module declares or
/// imports.
pub proof fn law_builtin_type_names_are_known(items: Seq<Item>, name: Seq<char>, span: Span)
    requires
        name == "Int"@ || name == "Float"@ || name == "Bool"@ || name == "String"@ || name == "Unit"@
            || name == "IntArray"@ || name == "StringArray"@ || name == "BoolArray"@ || name == "FloatArray"@
            || name == "Array"@ || name == "Tuple"@ || name == "Fn"@,
    ensures
        known_types(items).contains(name),
        annotation_diags(name, span, known_types(items)) == Seq::<SpecDiagnostic>::empty(),
{
    reveal_strlit("Int");
    reveal_strlit("Float");
    reveal_strlit("Bool");
    reveal_strlit("String");
    reveal_strlit("Unit");
    reveal_strlit("IntArray");
    reveal_strlit("StringArray");
    reveal_strlit("BoolArray");
    reveal_strlit("FloatArray");
    reveal_strlit("Array");
    reveal_strlit("Tuple");
    reveal_strlit("Fn");
    reveal_strlit("fn");
    let known = known_types(items);
    let b = builtin_types();
    let k: int = if name == "Int"@ { 0 } else if name == "Float"@ { 1 } else if name == "Bool"@ { 2 } else if name
        == "String"@ { 3 } else if name == "Unit"@ { 4 } else if name == "IntArray"@ { 5 } else if name
        == "StringArray"@ { 6 } else if name == "BoolArray"@ { 7 } else if name == "FloatArray"@ { 8 } else if name
        == "Array"@ { 9 } else if name == "Tuple"@ { 10 } else { 11 };
    assert(b[k] == name);
    assert(known[k] == b[k]);
    assert(known.contains(name));
    assert forall|i: int| 1 <= i < name.len() implies spec_is_ident_continue(#[trigger] name[i]) by {}
    lemma_ident_end_to_the_end(name, 1);
    assert(spec_is_ident_start(name[0]));
    assert(name.subrange(0, name.len() as int) =~= name);
    assert(name != "fn"@);
    assert(unknown_from(name, name.len() as int, known) is None);
    assert(unknown_from(name, 0, known) is None);
}

/// The first name in the type text `s`, from index `i` on, that is not among
/// `known`: names are the maximal runs of identifier characters that start
/// with a letter or `_`; the `fn` of a function type is no name.
pub open spec fn unknown_from(s: Seq<char>, i: int, known: Seq<Seq<char>>) -> Option<Seq<char>>
    decreases s.len() - i,
{
    if i < 0 || i >= s.len() {
        None
    } else if spec_is_ident_start(s[i]) {
        let j = ident_end(s, i + 1);
        let n = s.subrange(i, j);
        if j <= i || j > s.len() {
            None
        } else if n != "fn"@ && !known.contains(n) {
            Some(n)
        } else {
            unknown_from(s, j, known)
        }
    } else {
        unknown_from(s, i + 1, known)
    }
}

/// The diagnostic of one annotation `ty`, reported at `span`.
pub open spec fn annotation_diags(ty: Seq<char>, span: Span, known: Seq<Seq<char>>) -> Seq<SpecDiagnostic> {
    match unknown_from(ty, 0, known) {
        Some(n) => seq![
            SpecDiagnostic { code: "TYPE_UNKNOWN_TYPE"@, message: "unknown type `"@ + n + "`"@, span },
        ],
        None => Seq::empty(),
    }
}

/// The diagnostics of the local annotations in a statement.
pub open spec fn stmt_type_diags(s: Stmt, known: Seq<Seq<char>>) -> Seq<SpecDiagnostic>
    decreases s,
{
    match s {
        Stmt::Let { name_span, ty: Some(t), .. } => annotation_diags(t@, name_span, known),
        Stmt::If { then_body, else_body, .. } => stmts_type_diags(then_body@, known) + stmts_type_diags(
            else_body@,
            known,
        ),
        Stmt::While { body, .. } => stmts_type_diags(body@, known),
        Stmt::Match { arms, .. } => arms_type_diags(arms@, known),
        _ => Seq::empty(),
    }
}

pub open spec fn stmts_type_diags(ss: Seq<Stmt>, known: Seq<Seq<char>>) -> Seq<SpecDiagnostic>
    decreases ss,
{
    if ss.len() == 0 {
        Seq::empty()
    } else {
        stmts_type_diags(ss.subrange(0, ss.len() - 1), known) + stmt_type_diags(ss[ss.len() - 1], known)
    }
}

pub open spec fn arms_type_diags(arms: Seq<MatchArm>, known: Seq<Seq<char>>) -> Seq<SpecDiagnostic>
    decreases arms,
{
    if arms.len() == 0 {
        Seq::empty()
    } else {
        arms_type_diags(arms.subrange(0, arms.len() - 1), known) + stmts_type_diags(
            arms[arms.len() - 1].body@,
            known,
        )
    }
}

/// The diagnostics of struct fields' types, each at the field's name.
pub open spec fn fields_type_diags(fs: Seq<Field>, known: Seq<Seq<char>>) -> Seq<SpecDiagnostic>
    decreases fs.len(),
{
    if fs.len() == 0 {
        Seq::empty()
    } else {
        fields_type_diags(fs.drop_last(), known) + annotation_diags(fs.last().ty@, fs.last().name_span, known)
    }
}

/// The diagnostics of parameters' types, each at the parameter's name.
pub open spec fn params_type_diags(ps: Seq<Param>, known: Seq<Seq<char>>) -> Seq<SpecDiagnostic>
    decreases ps.len(),
{
    if ps.len() == 0 {
        Seq::empty()
    } else {
        params_type_diags(ps.drop_last(), known) + annotation_diags(ps.last().ty@, ps.last().name_span, known)
    }
}

/// The diagnostics of an item: its fields' types; or its parameters' types,
/// its return type (at the function's name) and its locals' annotations.
pub open spec fn item_type_diags(item: Item, known: Seq<Seq<char>>) -> Seq<SpecDiagnostic> {
    match item {
        Item::Struct(d) => fields_type_diags(d.fields@, known),
        Item::Function(f) => params_type_diags(f.params@, known) + match f.return_type {
            Some(t) => annotation_diags(t@, f.name_span, known),
            None => Seq::empty(),
        } + stmts_type_diags(f.body@, known),
        _ => Seq::empty(),
    }
}

pub open spec fn items_type_diags(items: Seq<Item>, known: Seq<Seq<char>>) -> Seq<SpecDiagnostic>
    decreases items.len(),
{
    if items.len() == 0 {
        Seq::empty()
    } else {
        items_type_diags(items.drop_last(), known) + item_type_diags(items.last(), known)
    }
}

/// Every diagnostic of the type-name check of `m`, in order, when the types
/// `extra` (those imported from other modules) are known too.
pub open spec fn type_diags_with(m: Module, extra: Seq<Seq<char>>) -> Seq<SpecDiagnostic> {
    items_type_diags(m.items@, known_types(m.items@) + extra)
}

/// Every diagnostic of the type-name check of `m` on its own, in order.
pub open spec fn type_diags(m: Module) -> Seq<SpecDiagnostic> {
    type_diags_with(m, Seq::empty())
}

fn push_diag(diags: &mut Vec<Diagnostic>, d: Diagnostic)
    ensures
        diags_view(final(diags)@) == diags_view(old(diags)@).push(d@),
{
    diags.push(d);
    assert(diags_view(diags@) =~= diags_view(old(diags)@).push(d@));
}

fn push_name(v: &mut Vec<String>, s: &str)
    ensures
        strings_view(final(v)@) == strings_view(old(v)@).push(s@),
{
    v.push(copy_string(s));
    assert(strings_view(v@) =~= strings_view(old(v)@).push(s@));
}

/// The type names known in `module`.
fn known_type_list(module: &Module) -> (r: Vec<String>)
    ensures
        strings_view(r@) == known_types(module.items@),
{
    let mut r: Vec<String> = Vec::new();
    push_name(&mut r, "Int");
    push_name(&mut r, "Float");
    push_name(&mut r, "Bool");
    push_name(&mut r, "String");
    push_name(&mut r, "Unit");
    push_name(&mut r, "IntArray");
    push_name(&mut r, "StringArray");
    push_name(&mut r, "BoolArray");
    push_name(&mut r, "FloatArray");
    push_name(&mut r, "Array");
    push_name(&mut r, "Tuple");
    push_name(&mut r, "Fn");
    assert(strings_view(r@) =~= builtin_types());
    let items = &module.items;
    let mut core = false;
    let mut io = false;
    let mut i: usize = 0;
    while i < items.len()
        invariant
            i <= items@.len(),
            strings_view(r@) == builtin_types() + declared_types(items@.subrange(0, i as int)),
            core == imports_core(items@.subrange(0, i as int)),
            io == imports_io(items@.subrange(0, i as int)),
        decreases items.len() - i,
    {
        proof {
            let sub = items@.subrange(0, i as int + 1);
            assert(sub.drop_last() =~= items@.subrange(0, i as int));
        }
        match &items[i] {
            Item::Struct(d) => push_name(&mut r, d.name.as_str()),
            Item::Enum(d) => push_name(&mut r, d.name.as_str()),
            Item::Import { path } => {
                if is_std_core_import(path) {
                    core = true;
                }
                if is_std_io_import(path) {
                    io = true;
                }
            },
            _ => {},
        }
        assert(strings_view(r@) =~= builtin_types() + declared_types(items@.subrange(0, i as int + 1)));
        i = i + 1;
    }
    assert(items@.subrange(0, items@.len() as int) =~= items@);
    let ghost base = strings_view(r@);
    if core {
        push_name(&mut r, "OptionInt");
        push_name(&mut r, "ResultInt");
    }
    let ghost mid = strings_view(r@);
    assert(mid =~= base + (if core { seq!["OptionInt"@, "ResultInt"@] } else { Seq::empty() }));
    if io {
        push_name(&mut r, "ResultString");
    }
    assert(strings_view(r@) =~= mid + (if io { seq!["ResultString"@] } else { Seq::empty() }));
    r
}

/// The first name in the type text `ty` that is not among `known`.
pub fn first_unknown_type(ty: &str, known: &Vec<String>) -> (r: Option<String>)
    ensures
        match unknown_from(ty@, 0, strings_view(known@)) {
            Some(n) => r matches Some(s) && s@ == n,
            None => r is None,
        },
{
    let chars = chars_of(ty);
    let ghost s = chars@;
    let ghost k = strings_view(known@);
    let mut i: usize = 0;
    while i < chars.len()
        invariant
            i <= s.len(),
            s == chars@,
            s == ty@,
            k == strings_view(known@),
            unknown_from(s, 0, k) == unknown_from(s, i as int, k),
        decreases chars.len() - i,
    {
        if is_ident_start(chars[i]) {
            let mut j: usize = i + 1;
            while j < chars.len() && is_ident_continue(chars[j])
                invariant
                    i < j <= s.len(),
                    s == chars@,
                    ident_end(s, i + 1) == ident_end(s, j as int),
                decreases chars.len() - j,
            {
                j = j + 1;
            }
            let name = string_from_range(&chars, i, j);
            if !str_equal(name.as_str(), "fn") && !contains_str(known, name.as_str()) {
                return Some(name);
            }
            i = j;
        } else {
            i = i + 1;
        }
    }
    None
}

/// Checks one annotation.
fn check_annotation(ty: &str, span: Span, known: &Vec<String>, diags: &mut Vec<Diagnostic>)
    ensures
        diags_view(final(diags)@) == diags_view(old(diags)@) + annotation_diags(ty@, span, strings_view(known@)),
{
    match first_unknown_type(ty, known) {
        Some(n) => {
            let message = concat3("unknown type `", n.as_str(), "`");
            push_diag(diags, Diagnostic::new("TYPE_UNKNOWN_TYPE", message.as_str(), span));
            assert(diags_view(diags@) =~= diags_view(old(diags)@) + annotation_diags(
                ty@,
                span,
                strings_view(known@),
            ));
        },
        None => {
            assert(diags_view(diags@) =~= diags_view(old(diags)@) + annotation_diags(
                ty@,
                span,
                strings_view(known@),
            ));
        },
    }
}

fn check_stmts(stmts: &Vec<Stmt>, known: &Vec<String>, diags: &mut Vec<Diagnostic>)
    ensures
        diags_view(final(diags)@) == diags_view(old(diags)@) + stmts_type_diags(stmts@, strings_view(known@)),
    decreases stmts_size(stmts@), 1nat,
{
    let ghost k = strings_view(known@);
    let mut i: usize = 0;
    while i < stmts.len()
        invariant
            i <= stmts@.len(),
            k == strings_view(known@),
            diags_view(diags@) == diags_view(old(diags)@) + stmts_type_diags(stmts@.subrange(0, i as int), k),
        decreases stmts.len() - i,
    {
        proof {
            lemma_stmts_size_elem(stmts@, i as int);
        }
        check_stmt(&stmts[i], known, diags);
        proof {
            let sub = stmts@.subrange(0, i as int + 1);
            assert(sub.subrange(0, sub.len() - 1) =~= stmts@.subrange(0, i as int));
            assert(diags_view(diags@) =~= diags_view(old(diags)@) + stmts_type_diags(sub, k));
        }
        i = i + 1;
    }
    assert(stmts@.subrange(0, stmts@.len() as int) =~= stmts@);
}

fn check_stmt(stmt: &Stmt, known: &Vec<String>, diags: &mut Vec<Diagnostic>)
    ensures
        diags_view(final(diags)@) == diags_view(old(diags)@) + stmt_type_diags(*stmt, strings_view(known@)),
    decreases stmt_size(*stmt), 0nat,
{
    let ghost before = diags_view(diags@);
    match stmt {
        Stmt::Let { name_span, ty: Some(t), .. } => {
            check_annotation(t.as_str(), *name_span, known, diags);
        },
        Stmt::If { then_body, else_body, .. } => {
            check_stmts(then_body, known, diags);
            check_stmts(else_body, known, diags);
        },
        Stmt::While { body, .. } => {
            check_stmts(body, known, diags);
        },
        Stmt::Match { arms, .. } => {
            check_arms(arms, known, diags);
        },
        _ => {},
    }
    assert(diags_view(diags@) =~= before + stmt_type_diags(*stmt, strings_view(known@)));
}

fn check_arms(arms: &Vec<MatchArm>, known: &Vec<String>, diags: &mut Vec<Diagnostic>)
    ensures
        diags_view(final(diags)@) == diags_view(old(diags)@) + arms_type_diags(arms@, strings_view(known@)),
    decreases arms_size(arms@), 2nat,
{
    let ghost k = strings_view(known@);
    let mut i: usize = 0;
    while i < arms.len()
        invariant
            i <= arms@.len(),
            k == strings_view(known@),
            diags_view(diags@) == diags_view(old(diags)@) + arms_type_diags(arms@.subrange(0, i as int), k),
        decreases arms.len() - i,
    {
        proof {
            lemma_arms_size_elem(arms@, i as int);
        }
        check_stmts(&arms[i].body, known, diags);
        proof {
            let sub = arms@.subrange(0, i as int + 1);
            assert(sub.subrange(0, sub.len() - 1) =~= arms@.subrange(0, i as int));
            assert(diags_view(diags@) =~= diags_view(old(diags)@) + arms_type_diags(sub, k));
        }
        i = i + 1;
    }
    assert(arms@.subrange(0, arms@.len() as int) =~= arms@);
}

fn check_item(item: &Item, known: &Vec<String>, diags: &mut Vec<Diagnostic>)
    ensures
        diags_view(final(diags)@) == diags_view(old(diags)@) + item_type_diags(*item, strings_view(known@)),
{
    let ghost k = strings_view(known@);
    let ghost before = diags_view(diags@);
    match item {
        Item::Struct(d) => {
            let fs = &d.fields;
            let mut i: usize = 0;
            while i < fs.len()
                invariant
                    i <= fs@.len(),
                    k == strings_view(known@),
                    diags_view(diags@) == before + fields_type_diags(fs@.subrange(0, i as int), k),
                decreases fs.len() - i,
            {
                check_annotation(fs[i].ty.as_str(), fs[i].name_span, known, diags);
                proof {
                    let sub = fs@.subrange(0, i as int + 1);
                    assert(sub.drop_last() =~= fs@.subrange(0, i as int));
                    assert(diags_view(diags@) =~= before + fields_type_diags(sub, k));
                }
                i = i + 1;
            }
            assert(fs@.subrange(0, fs@.len() as int) =~= fs@);
        },
        Item::Function(f) => {
            let ps = &f.params;
            let mut i: usize = 0;
            while i < ps.len()
                invariant
                    i <= ps@.len(),
                    k == strings_view(known@),
                    diags_view(diags@) == before + params_type_diags(ps@.subrange(0, i as int), k),
                decreases ps.len() - i,
            {
                check_annotation(ps[i].ty.as_str(), ps[i].name_span, known, diags);
                proof {
                    let sub = ps@.subrange(0, i as int + 1);
                    assert(sub.drop_last() =~= ps@.subrange(0, i as int));
                    assert(diags_view(diags@) =~= before + params_type_diags(sub, k));
                }
                i = i + 1;
            }
            assert(ps@.subrange(0, ps@.len() as int) =~= ps@);
            let ghost mid = diags_view(diags@);
            match &f.return_type {
                Some(t) => check_annotation(t.as_str(), f.name_span, known, diags),
                None => {},
            }
            let ghost mid2 = diags_view(diags@);
            check_stmts(&f.body, known, diags);
            assert(diags_view(diags@) =~= before + item_type_diags(*item, k));
        },
        _ => {},
    }
    assert(diags_view(diags@) =~= before + item_type_diags(*item, k));
}

/// Checks that every type the annotations of `module` name is known.
pub fn check(module: &Module) -> (r: Result<(), Vec<Diagnostic>>)
    ensures
        match r {
            Ok(()) => type_diags(*module).len() == 0,
            Err(ds) => type_diags(*module).len() > 0 && diags_view(ds@) == type_diags(*module),
        },
{
    let none: Vec<String> = Vec::new();
    assert(strings_view(none@) =~= Seq::<Seq<char>>::empty());
    check_with_types(module, &none)
}

/// Checks that every type the annotations of `module` name is known, the
/// types `extra` among them.
pub fn check_with_types(module: &Module, extra: &Vec<String>) -> (r: Result<(), Vec<Diagnostic>>)
    ensures
        match r {
            Ok(()) => type_diags_with(*module, strings_view(extra@)).len() == 0,
            Err(ds) => type_diags_with(*module, strings_view(extra@)).len() > 0 && diags_view(ds@)
                == type_diags_with(*module, strings_view(extra@)),
        },
{
    let mut known = known_type_list(module);
    let mut j: usize = 0;
    let ghost k0 = strings_view(known@);
    while j < extra.len()
        invariant
            j <= extra@.len(),
            strings_view(known@) == k0 + strings_view(extra@).subrange(0, j as int),
        decreases extra.len() - j,
    {
        push_name(&mut known, extra[j].as_str());
        assert(strings_view(known@) =~= k0 + strings_view(extra@).subrange(0, j as int + 1));
        j = j + 1;
    }
    assert(strings_view(extra@).subrange(0, extra@.len() as int) =~= strings_view(extra@));
    let known = known;
    let ghost k = strings_view(known@);
    let items = &module.items;
    let mut diags: Vec<Diagnostic> = Vec::new();
    assert(diags_view(diags@) =~= Seq::<SpecDiagnostic>::empty());
    let mut i: usize = 0;
    while i < items.len()
        invariant
            i <= items@.len(),
            k == strings_view(known@),
            k == known_types(module.items@) + strings_view(extra@),
            items == &module.items,
            diags_view(diags@) == items_type_diags(items@.subrange(0, i as int), k),
        decreases items.len() - i,
    {
        let ghost d0 = diags_view(diags@);
        check_item(&items[i], &known, &mut diags);
        proof {
            let sub = items@.subrange(0, i as int + 1);
            assert(sub.drop_last() =~= items@.subrange(0, i as int));
            assert(diags_view(diags@) =~= items_type_diags(sub, k));
        }
        i = i + 1;
    }
    assert(items@.subrange(0, items@.len() as int) =~= items@);
    assert(diags_view(diags@).len() == diags@.len());
    if diags.len() == 0 {
        Ok(())
    } else {
        Err(diags)
    }
}

// ---------------------------------------------------------------------------
// The type-name check depends on the plain value of a module alone
// ---------------------------------------------------------------------------

proof fn lemma_stmt_type_model(s1: Stmt, s2: Stmt, known: Seq<Seq<char>>)
    requires
        stmt_model(s1) == stmt_model(s2),
    ensures
        stmt_type_diags(s1, known) == stmt_type_diags(s2, known),
    decreases s1,
{
    match s1 {
        Stmt::Let { ty, .. } => {
            if let Stmt::Let { ty: t2, .. } = s2 {
                match (ty, t2) {
                    (Some(a), Some(b)) => assert(a@ == b@),
                    _ => {},
                }
            }
        },
        Stmt::If { then_body, else_body, .. } => {
            if let Stmt::If { then_body: t2, else_body: e2, .. } = s2 {
                lemma_stmts_type_model(then_body@, t2@, known);
                lemma_stmts_type_model(else_body@, e2@, known);
            }
        },
        Stmt::While { body, .. } => {
            if let Stmt::While { body: b2, .. } = s2 {
                lemma_stmts_type_model(body@, b2@, known);
            }
        },
        Stmt::Match { arms, .. } => {
            if let Stmt::Match { arms: a2, .. } = s2 {
                lemma_arms_type_model(arms@, a2@, known);
            }
        },
        _ => {},
    }
}

proof fn lemma_stmts_type_model(ss1: Seq<Stmt>, ss2: Seq<Stmt>, known: Seq<Seq<char>>)
    requires
        stmts_model(ss1) == stmts_model(ss2),
    ensures
        stmts_type_diags(ss1, known) == stmts_type_diags(ss2, known),
    decreases ss1,
{
    lemma_stmts_model_len(ss1);
    lemma_stmts_model_len(ss2);
    if ss1.len() > 0 {
        assert(ss1.drop_last() =~= ss1.subrange(0, ss1.len() - 1));
        assert(ss2.drop_last() =~= ss2.subrange(0, ss2.len() - 1));
        lemma_push_injective(
            stmts_model(ss1.drop_last()),
            stmt_model(ss1.last()),
            stmts_model(ss2.drop_last()),
            stmt_model(ss2.last()),
        );
        lemma_stmts_type_model(ss1.drop_last(), ss2.drop_last(), known);
        lemma_stmt_type_model(ss1.last(), ss2.last(), known);
    }
}

proof fn lemma_arms_type_model(a1: Seq<MatchArm>, a2: Seq<MatchArm>, known: Seq<Seq<char>>)
    requires
        arms_model(a1) == arms_model(a2),
    ensures
        arms_type_diags(a1, known) == arms_type_diags(a2, known),
    decreases a1,
{
    lemma_arms_model_len(a1);
    lemma_arms_model_len(a2);
    if a1.len() > 0 {
        assert(a1.drop_last() =~= a1.subrange(0, a1.len() - 1));
        assert(a2.drop_last() =~= a2.subrange(0, a2.len() - 1));
        let x1 = a1.last();
        let x2 = a2.last();
        lemma_push_injective(
            arms_model(a1.drop_last()),
            (pattern_model(x1.pattern), stmts_model(x1.body@)),
            arms_model(a2.drop_last()),
            (pattern_model(x2.pattern), stmts_model(x2.body@)),
        );
        lemma_arms_type_model(a1.drop_last(), a2.drop_last(), known);
        lemma_stmts_type_model(x1.body@, x2.body@, known);
    }
}

proof fn lemma_fields_type_model(f1: Seq<Field>, f2: Seq<Field>, known: Seq<Seq<char>>)
    requires
        fields_model(f1) == fields_model(f2),
    ensures
        fields_type_diags(f1, known) == fields_type_diags(f2, known),
    decreases f1.len(),
{
    assert(f1.len() == fields_model(f1).len());
    if f1.len() > 0 {
        let n = f1.len() - 1;
        assert(fields_model(f1.drop_last()) =~= fields_model(f1).drop_last());
        assert(fields_model(f2.drop_last()) =~= fields_model(f2).drop_last());
        assert(fields_model(f1)[n] == fields_model(f2)[n]);
        lemma_fields_type_model(f1.drop_last(), f2.drop_last(), known);
    }
}

proof fn lemma_params_type_model(p1: Seq<Param>, p2: Seq<Param>, known: Seq<Seq<char>>)
    requires
        params_model(p1) == params_model(p2),
    ensures
        params_type_diags(p1, known) == params_type_diags(p2, known),
    decreases p1.len(),
{
    assert(p1.len() == params_model(p1).len());
    if p1.len() > 0 {
        let n = p1.len() - 1;
        assert(params_model(p1.drop_last()) =~= params_model(p1).drop_last());
        assert(params_model(p2.drop_last()) =~= params_model(p2).drop_last());
        assert(params_model(p1)[n] == params_model(p2)[n]);
        lemma_params_type_model(p1.drop_last(), p2.drop_last(), known);
    }
}

proof fn lemma_items_type_model(i1: Seq<Item>, i2: Seq<Item>, known: Seq<Seq<char>>)
    requires
        items_model(i1) == items_model(i2),
    ensures
        items_type_diags(i1, known) == items_type_diags(i2, known),
        declared_types(i1) == declared_types(i2),
    decreases i1.len(),
{
    assert(i1.len() == items_model(i1).len());
    if i1.len() > 0 {
        lemma_items_model_prefix(i1, i2);
        lemma_items_type_model(i1.drop_last(), i2.drop_last(), known);
        match i1.last() {
            Item::Struct(d) => {
                if let Item::Struct(d2) = i2.last() {
                    lemma_fields_type_model(d.fields@, d2.fields@, known);
                }
            },
            Item::Function(f) => {
                if let Item::Function(g) = i2.last() {
                    lemma_params_type_model(f.params@, g.params@, known);
                    lemma_stmts_type_model(f.body@, g.body@, known);
                    match (f.return_type, g.return_type) {
                        (Some(a), Some(b)) => assert(a@ == b@),
                        _ => {},
                    }
                }
            },
            _ => {},
        }
    }
}

/// The type-name check depends on a module's plain value alone: two modules
/// with the same items get the same diagnostics.
pub proof fn law_type_check_depends_on_the_parse(m1: Module, m2: Module, extra: Seq<Seq<char>>)
    requires
        module_model(m1) == module_model(m2),
    ensures
        type_diags_with(m1, extra) == type_diags_with(m2, extra),
{
    lemma_top_level_diags_model(m1.items@, m2.items@, Seq::empty());
    lemma_items_type_model(m1.items@, m2.items@, known_types(m1.items@) + extra);
    assert(known_types(m1.items@) == known_types(m2.items@));
}

} // verus!
