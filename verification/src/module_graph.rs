//! Checking a program made of several source files: each file is one module,
//! which may declare its name, export functions, and import other modules by
//! name. The graph check finds duplicate module names and ambiguous exports,
//! works out which functions and types each module may use from its imports,
//! and then resolves and type-name checks every module against them.
use vstd::prelude::*;
use crate::ast::{dotted, join_dotted, Function, Item, Module, Param};
use crate::diagnostic::{diags_view, Diagnostic, Span, SpecDiagnostic};
use crate::mir::{insert_by_key, lemma_insert_at_position, sort_by_key};
use crate::resolver::resolve_spec;
use crate::typecheck::type_diags_with;
use crate::{parses_to, source_items};
use crate::text::{byte_len, concat3, contains_str, copy_string, str_equal, strings_view, text_before, text_less};

pub mod link;

pub use self::link::link_sources;

verus! {

/// One source file of a program.
#[derive(Debug)]
pub struct SourceFile {
    pub path: String,
    pub source: String,
}

/// The diagnostics of one source file.
#[derive(Debug)]
pub struct SourceDiagnostics {
    pub path: String,
    pub source: String,
    pub diagnostics: Vec<Diagnostic>,
}

pub struct SpecSourceDiagnostics {
    pub path: Seq<char>,
    pub source: Seq<char>,
    pub diagnostics: Seq<SpecDiagnostic>,
}

impl View for SourceDiagnostics {
    type V = SpecSourceDiagnostics;

    open spec fn view(&self) -> SpecSourceDiagnostics {
        SpecSourceDiagnostics {
            path: self.path@,
            source: self.source@,
            diagnostics: diags_view(self.diagnostics@),
        }
    }
}

pub open spec fn source_diags_view(v: Seq<SourceDiagnostics>) -> Seq<SpecSourceDiagnostics> {
    v.map_values(|d: SourceDiagnostics| d@)
}

/// A parsed source file: its path, its text and its module.
pub struct ParsedSource {
    pub path: String,
    pub source: String,
    pub module: Module,
}

/// A function a module exports, as importers see it: its name, parameter
/// types, result type, and the name it has in the linked program.
pub type SpecExport = (Seq<char>, (Seq<Seq<char>>, Option<Seq<char>>, Seq<char>));

/// The name a module declares for itself, if any: that of its first
/// `module` item.
pub open spec fn module_decl(items: Seq<Item>) -> Option<Seq<char>>
    decreases items.len(),
{
    if items.len() == 0 {
        None
    } else {
        match items[0] {
            Item::ModuleDecl { name } => Some(name@),
            _ => module_decl(items.drop_first()),
        }
    }
}

pub open spec fn param_types(ps: Seq<Param>) -> Seq<Seq<char>> {
    ps.map_values(|p: Param| p.ty@)
}

pub open spec fn opt_view(o: Option<String>) -> Option<Seq<char>> {
    match o {
        Some(t) => Some(t@),
        None => None,
    }
}

/// The exported function `f` of the module `m`.
pub open spec fn export_of(f: Function, m: Seq<char>) -> SpecExport {
    (f.name@, (param_types(f.params@), opt_view(f.return_type), m + "."@ + f.name@))
}

/// The functions `items` export, in order, for the module `m`.
pub open spec fn exports_of(items: Seq<Item>, m: Seq<char>) -> Seq<SpecExport>
    decreases items.len(),
{
    if items.len() == 0 {
        Seq::empty()
    } else {
        exports_of(items.drop_last(), m) + match items.last() {
            Item::Function(f) => if f.exported {
                seq![export_of(f, m)]
            } else {
                Seq::empty()
            },
            _ => Seq::empty(),
        }
    }
}

/// `s` without entries equal to the one before them.
pub open spec fn dedup_adjacent<T>(s: Seq<T>) -> Seq<T>
    decreases s.len(),
{
    if s.len() == 0 {
        s
    } else if s.len() >= 2 && s[s.len() - 1] == s[s.len() - 2] {
        dedup_adjacent(s.drop_last())
    } else {
        dedup_adjacent(s.drop_last()).push(s.last())
    }
}

/// A module's exports as the graph keeps them: sorted by name, equal entries
/// once.
pub open spec fn tidy_exports(es: Seq<SpecExport>) -> Seq<SpecExport> {
    dedup_adjacent(sort_by_key(es))
}

/// The module table: for each module name, the path of the file that first
/// declared it and that module's exports.
pub open spec fn module_table(mods: Seq<(Seq<char>, Seq<char>, Module)>) -> Seq<
    (Seq<char>, Seq<char>, Seq<SpecExport>),
>
    decreases mods.len(),
{
    if mods.len() == 0 {
        Seq::empty()
    } else {
        let t = module_table(mods.drop_last());
        let (path, _, m) = mods.last();
        match module_decl(m.items@) {
            Some(n) => if table_names(t).contains(n) {
                t
            } else {
                t.push((n, path, tidy_exports(exports_of(m.items@, n))))
            },
            None => t,
        }
    }
}

pub open spec fn table_names(t: Seq<(Seq<char>, Seq<char>, Seq<SpecExport>)>) -> Seq<Seq<char>> {
    t.map_values(|e: (Seq<char>, Seq<char>, Seq<SpecExport>)| e.0)
}

/// The entry of the module `n`.
pub open spec fn table_entry(t: Seq<(Seq<char>, Seq<char>, Seq<SpecExport>)>, n: Seq<char>) -> Option<
    (Seq<char>, Seq<char>, Seq<SpecExport>),
>
    decreases t.len(),
{
    if t.len() == 0 {
        None
    } else if t[0].0 == n {
        Some(t[0])
    } else {
        table_entry(t.drop_first(), n)
    }
}

/// One source diagnostic with a single diagnostic that points at no text.
pub open spec fn graph_error(path: Seq<char>, source: Seq<char>, code: Seq<char>, message: Seq<char>) -> SpecSourceDiagnostics {
    SpecSourceDiagnostics {
        path,
        source,
        diagnostics: seq![SpecDiagnostic { code, message, span: Span { start: 0, end: 0 } }],
    }
}

/// The errors for modules that declare a name an earlier file declared.
pub open spec fn duplicate_module_errors(mods: Seq<(Seq<char>, Seq<char>, Module)>) -> Seq<
    SpecSourceDiagnostics,
>
    decreases mods.len(),
{
    if mods.len() == 0 {
        Seq::empty()
    } else {
        let t = module_table(mods.drop_last());
        let (path, source, m) = mods.last();
        duplicate_module_errors(mods.drop_last()) + match module_decl(m.items@) {
            Some(n) => match table_entry(t, n) {
                Some(e) => seq![
                    graph_error(
                        path,
                        source,
                        "RESOLVE_DUPLICATE_MODULE"@,
                        "duplicate module `"@ + n + "`; first declared in "@ + e.1,
                    ),
                ],
                None => Seq::empty(),
            },
            None => Seq::empty(),
        }
    }
}

/// The first export whose name an earlier export has too.
pub open spec fn repeated_name(es: Seq<SpecExport>, seen: Seq<Seq<char>>) -> Option<Seq<char>>
    decreases es.len(),
{
    if es.len() == 0 {
        None
    } else if seen.contains(es[0].0) {
        Some(es[0].0)
    } else {
        repeated_name(es.drop_first(), seen.push(es[0].0))
    }
}

/// The errors for modules that export two different functions of one name.
pub open spec fn ambiguous_export_errors(
    mods: Seq<(Seq<char>, Seq<char>, Module)>,
    t: Seq<(Seq<char>, Seq<char>, Seq<SpecExport>)>,
) -> Seq<SpecSourceDiagnostics>
    decreases mods.len(),
{
    if mods.len() == 0 {
        Seq::empty()
    } else {
        let (path, source, m) = mods.last();
        ambiguous_export_errors(mods.drop_last(), t) + match module_decl(m.items@) {
            Some(n) => match table_entry(t, n) {
                Some(e) => match repeated_name(e.2, Seq::empty()) {
                    Some(d) => seq![
                        graph_error(
                            path,
                            source,
                            "RESOLVE_AMBIGUOUS_REEXPORT"@,
                            "module `"@ + n + "` exports multiple functions named `"@ + d + "`"@,
                        ),
                    ],
                    None => Seq::empty(),
                },
                None => Seq::empty(),
            },
            None => Seq::empty(),
        }
    }
}

/// The modules `items` import, by dotted path, in order.
pub open spec fn imports_of(items: Seq<Item>) -> Seq<Seq<char>>
    decreases items.len(),
{
    if items.len() == 0 {
        Seq::empty()
    } else {
        imports_of(items.drop_last()) + match items.last() {
            Item::Import { path } => seq![dotted(path@)],
            _ => Seq::empty(),
        }
    }
}

/// Each imported module's path paired with each of its exports, in order.
pub open spec fn imported_exports(
    imports: Seq<Seq<char>>,
    t: Seq<(Seq<char>, Seq<char>, Seq<SpecExport>)>,
) -> Seq<(Seq<char>, SpecExport)>
    decreases imports.len(),
{
    if imports.len() == 0 {
        Seq::empty()
    } else {
        imported_exports(imports.drop_last(), t) + match table_entry(t, imports.last()) {
            Some(e) => e.2.map_values(|x: SpecExport| (imports.last(), x)),
            None => Seq::empty(),
        }
    }
}

/// Whether two different imported modules export a function called `name`.
pub open spec fn multiply_imported(pairs: Seq<(Seq<char>, SpecExport)>, name: Seq<char>) -> bool {
    exists|i: int, j: int|
        0 <= i < pairs.len() && 0 <= j < pairs.len() && pairs[i].1.0 == name && pairs[j].1.0 == name
            && pairs[i].0 != pairs[j].0
}

/// The names two different imported modules export, each once, in order of
/// first appearance.
pub open spec fn ambiguous_names(pairs: Seq<(Seq<char>, SpecExport)>, all: Seq<(Seq<char>, SpecExport)>) -> Seq<Seq<char>>
    decreases pairs.len(),
{
    if pairs.len() == 0 {
        Seq::empty()
    } else {
        let rest = ambiguous_names(pairs.drop_last(), all);
        let n = pairs.last().1.0;
        if multiply_imported(all, n) && !rest.contains(n) {
            rest.push(n)
        } else {
            rest
        }
    }
}

/// The function names a module may call from its imports: each export's short
/// name unless it is ambiguous, and its name qualified by the module path,
/// each once.
pub open spec fn imported_names(pairs: Seq<(Seq<char>, SpecExport)>, ambiguous: Seq<Seq<char>>) -> Seq<
    Seq<char>,
>
    decreases pairs.len(),
{
    if pairs.len() == 0 {
        Seq::empty()
    } else {
        let rest = imported_names(pairs.drop_last(), ambiguous);
        let (p, e) = pairs.last();
        let short = if !ambiguous.contains(e.0) && !rest.contains(e.0) {
            rest.push(e.0)
        } else {
            rest
        };
        let q = p + "."@ + e.0;
        if !short.contains(q) {
            short.push(q)
        } else {
            short
        }
    }
}

/// The resolution errors of one module given the module table.
pub open spec fn module_resolve_diags(m: Module, t: Seq<(Seq<char>, Seq<char>, Seq<SpecExport>)>) -> Seq<
    SpecDiagnostic,
> {
    let pairs = imported_exports(imports_of(m.items@), t);
    let amb = ambiguous_names(pairs, pairs);
    resolve_spec(m, table_names(t), imported_names(pairs, amb), Seq::empty(), amb)
}

/// The names of the structs and enums `items` export.
pub open spec fn exported_types(items: Seq<Item>) -> Seq<Seq<char>>
    decreases items.len(),
{
    if items.len() == 0 {
        Seq::empty()
    } else {
        exported_types(items.drop_last()) + match items.last() {
            Item::Struct(d) => if d.exported { seq![d.name@] } else { Seq::empty() },
            Item::Enum(d) => if d.exported { seq![d.name@] } else { Seq::empty() },
            _ => Seq::empty(),
        }
    }
}

/// The struct and enum names exported by the modules among `mods` whose
/// declared name is among `imports`, in the order of `mods`.
pub open spec fn imported_types(mods: Seq<(Seq<char>, Seq<char>, Module)>, imports: Seq<Seq<char>>) -> Seq<
    Seq<char>,
>
    decreases mods.len(),
{
    if mods.len() == 0 {
        Seq::empty()
    } else {
        imported_types(mods.drop_last(), imports) + match module_decl(mods.last().2.items@) {
            Some(n) => if imports.contains(n) { exported_types(mods.last().2.items@) } else { Seq::empty() },
            None => Seq::empty(),
        }
    }
}

/// The type-name errors of one module, the types its imports export known.
pub open spec fn module_type_diags(m: Module, all: Seq<(Seq<char>, Seq<char>, Module)>) -> Seq<SpecDiagnostic> {
    type_diags_with(m, imported_types(all, imports_of(m.items@)))
}

/// For each module in order: its resolution errors, if any, then its
/// type-name errors, if any.
pub open spec fn module_errors(
    mods: Seq<(Seq<char>, Seq<char>, Module)>,
    t: Seq<(Seq<char>, Seq<char>, Seq<SpecExport>)>,
    all: Seq<(Seq<char>, Seq<char>, Module)>,
) -> Seq<SpecSourceDiagnostics>
    decreases mods.len(),
{
    if mods.len() == 0 {
        Seq::empty()
    } else {
        let (path, source, m) = mods.last();
        let d = module_resolve_diags(m, t);
        let td = module_type_diags(m, all);
        module_errors(mods.drop_last(), t, all) + (if d.len() > 0 {
            seq![SpecSourceDiagnostics { path, source, diagnostics: d }]
        } else {
            Seq::empty()
        }) + (if td.len() > 0 {
            seq![SpecSourceDiagnostics { path, source, diagnostics: td }]
        } else {
            Seq::empty()
        })
    }
}

/// Every error the graph check reports for parsed files, in order.
pub open spec fn graph_errors(mods: Seq<(Seq<char>, Seq<char>, Module)>) -> Seq<SpecSourceDiagnostics> {
    let t = module_table(mods);
    duplicate_module_errors(mods) + ambiguous_export_errors(mods, t) + module_errors(mods, t, mods)
}

// ---------------------------------------------------------------------------

/// A function a module exports.
struct ExternalFunction {
    name: String,
    params: Vec<String>,
    return_type: Option<String>,
    target: String,
}

impl ExternalFunction {
    spec fn view(&self) -> SpecExport {
        (self.name@, (strings_view(self.params@), opt_view(self.return_type), self.target@))
    }
}

spec fn exports_view(v: Seq<ExternalFunction>) -> Seq<SpecExport> {
    v.map_values(|e: ExternalFunction| e.view())
}

/// What the graph knows of a declared module.
struct ModuleInfo {
    name: String,
    first_path: String,
    exports: Vec<ExternalFunction>,
}

spec fn infos_view(v: Seq<ModuleInfo>) -> Seq<(Seq<char>, Seq<char>, Seq<SpecExport>)> {
    v.map_values(|i: ModuleInfo| (i.name@, i.first_path@, exports_view(i.exports@)))
}

pub open spec fn parsed_view(v: Seq<ParsedSource>) -> Seq<(Seq<char>, Seq<char>, Module)> {
    v.map_values(|p: ParsedSource| (p.path@, p.source@, p.module))
}

fn copy_opt(o: &Option<String>) -> (r: Option<String>)
    ensures
        r == *o,
{
    match o {
        Some(t) => Some(t.clone()),
        None => None,
    }
}

/// The name the module declares for itself.
fn module_decl_name(module: &Module) -> (r: Option<String>)
    ensures
        opt_view(r) == module_decl(module.items@),
{
    let items = &module.items;
    let mut i: usize = 0;
    assert(items@.skip(0) =~= items@);
    while i < items.len()
        invariant
            i <= items@.len(),
            items == &module.items,
            module_decl(items@) == module_decl(items@.skip(i as int)),
        decreases items.len() - i,
    {
        assert(items@.skip(i as int).drop_first() =~= items@.skip(i as int + 1));
        assert(items@.skip(i as int)[0] == items@[i as int]);
        match &items[i] {
            Item::ModuleDecl { name } => {
                return Some(name.clone());
            },
            _ => {},
        }
        i = i + 1;
    }
    assert(items@.skip(i as int) =~= Seq::<Item>::empty());
    None
}

/// The exported functions of `module`, declared as module `name`.
fn exported_functions(module: &Module, name: &str) -> (r: Vec<ExternalFunction>)
    ensures
        exports_view(r@) == exports_of(module.items@, name@),
{
    let items = &module.items;
    let mut r: Vec<ExternalFunction> = Vec::new();
    let mut i: usize = 0;
    while i < items.len()
        invariant
            i <= items@.len(),
            items == &module.items,
            exports_view(r@) == exports_of(items@.subrange(0, i as int), name@),
        decreases items.len() - i,
    {
        let ghost sub = items@.subrange(0, i as int + 1);
        let ghost prev = r@;
        assert(sub.drop_last() =~= items@.subrange(0, i as int));
        match &items[i] {
            Item::Function(f) => {
                if f.exported {
                    let mut params: Vec<String> = Vec::new();
                    let mut k: usize = 0;
                    while k < f.params.len()
                        invariant
                            k <= f.params@.len(),
                            params@.len() == k,
                            forall|q: int| 0 <= q < k ==> (#[trigger] params@[q])@ == f.params@[q].ty@,
                        decreases f.params.len() - k,
                    {
                        params.push(f.params[k].ty.clone());
                        k = k + 1;
                    }
                    assert(strings_view(params@) =~= param_types(f.params@));
                    let e = ExternalFunction {
                        name: f.name.clone(),
                        params,
                        return_type: copy_opt(&f.return_type),
                        target: concat3(name, ".", f.name.as_str()),
                    };
                    r.push(e);
                    assert(e.view() == export_of(*f, name@));
                    assert(exports_view(r@) =~= exports_view(prev).push(e.view()));
                } else {
                    assert(exports_view(r@) =~= exports_view(prev) + Seq::<SpecExport>::empty());
                }
            },
            _ => {
                assert(exports_view(r@) =~= exports_view(prev) + Seq::<SpecExport>::empty());
            },
        }
        i = i + 1;
    }
    assert(items@.subrange(0, items@.len() as int) =~= items@);
    r
}

fn strings_equal(a: &Vec<String>, b: &Vec<String>) -> (r: bool)
    ensures
        r == (strings_view(a@) == strings_view(b@)),
{
    if a.len() != b.len() {
        assert(strings_view(a@).len() != strings_view(b@).len());
        return false;
    }
    let mut i: usize = 0;
    while i < a.len()
        invariant
            i <= a@.len(),
            a@.len() == b@.len(),
            forall|k: int| 0 <= k < i ==> a@[k]@ == b@[k]@,
        decreases a.len() - i,
    {
        if !str_equal(a[i].as_str(), b[i].as_str()) {
            assert(strings_view(a@)[i as int] != strings_view(b@)[i as int]);
            return false;
        }
        i = i + 1;
    }
    assert(strings_view(a@) =~= strings_view(b@));
    true
}

fn opt_equal(a: &Option<String>, b: &Option<String>) -> (r: bool)
    ensures
        r == (opt_view(*a) == opt_view(*b)),
{
    match (a, b) {
        (Some(x), Some(y)) => str_equal(x.as_str(), y.as_str()),
        (None, None) => true,
        _ => false,
    }
}

fn exports_equal(a: &ExternalFunction, b: &ExternalFunction) -> (r: bool)
    ensures
        r == (a.view() == b.view()),
{
    str_equal(a.name.as_str(), b.name.as_str()) && strings_equal(&a.params, &b.params) && opt_equal(
        &a.return_type,
        &b.return_type,
    ) && str_equal(a.target.as_str(), b.target.as_str())
}

/// The exports sorted by name (keeping the order of equal names), each run of
/// equal entries kept once.
fn tidy(exports: Vec<ExternalFunction>) -> (r: Vec<ExternalFunction>)
    ensures
        exports_view(r@) == tidy_exports(exports_view(exports@)),
{
    let ghost inp = exports_view(exports@);
    let mut sorted: Vec<ExternalFunction> = Vec::new();
    let mut rest = exports;
    let ghost total = rest@;
    assert(total.len() == rest.len());
    let mut i: usize = 0;
    while rest.len() > 0
        invariant
            i <= inp.len(),
            inp.len() == total.len(),
            total.len() <= usize::MAX,
            inp == exports_view(total),
            rest@.len() == inp.len() - i,
            forall|k: int| 0 <= k < rest@.len() ==> (#[trigger] rest@[k]).view() == inp[i + k],
            exports_view(sorted@) == sort_by_key(inp.subrange(0, i as int)),
        decreases rest@.len(),
    {
        let x = rest.remove(0);
        let ghost ov = exports_view(sorted@);
        let mut p: usize = 0;
        while p < sorted.len() && !text_before(x.name.as_str(), sorted[p].name.as_str())
            invariant
                p <= sorted@.len(),
                ov == exports_view(sorted@),
                forall|k: int| 0 <= k < p ==> !text_less(x.name@, #[trigger] ov[k].0),
            decreases sorted.len() - p,
        {
            p = p + 1;
        }
        proof {
            lemma_insert_at_position(ov, p as int, x.view());
            let sub = inp.subrange(0, i as int + 1);
            assert(sub.drop_last() =~= inp.subrange(0, i as int));
            assert(sub.last() == x.view());
        }
        let ghost xv = x.view();
        sorted.insert(p, x);
        assert(exports_view(sorted@) =~= ov.insert(p as int, xv));
        i = i + 1;
    }
    assert(inp.subrange(0, inp.len() as int) =~= inp);
    let ghost sv = exports_view(sorted@);
    let mut out: Vec<ExternalFunction> = Vec::new();
    let mut j: usize = 0;
    proof {
        crate::mir::lemma_sort_by_key_len(inp);
    }
    let mut src = sorted;
    while src.len() > 0
        invariant
            j <= sv.len(),
            sv.len() == inp.len(),
            inp.len() == total.len(),
            total.len() <= usize::MAX,
            src@.len() == sv.len() - j,
            forall|k: int| 0 <= k < src@.len() ==> (#[trigger] src@[k]).view() == sv[j + k],
            exports_view(out@) == dedup_adjacent(sv.subrange(0, j as int)),
            j > 0 ==> out@.len() > 0 && out@[out@.len() - 1].view() == sv[j - 1],
        decreases src@.len(),
    {
        let x = src.remove(0);
        let ghost sub = sv.subrange(0, j as int + 1);
        assert(sub.drop_last() =~= sv.subrange(0, j as int));
        let dup = out.len() > 0 && exports_equal(&out[out.len() - 1], &x);
        if dup {
            assert(sub[sub.len() - 1] == sub[sub.len() - 2]);
        } else {
            let ghost prev = out@;
            let ghost xv = x.view();
            out.push(x);
            proof {
                if j >= 1 {
                    assert(sub[sub.len() - 1] != sub[sub.len() - 2]);
                }
                assert(exports_view(out@) =~= exports_view(prev).push(xv));
            }
        }
        j = j + 1;
    }
    assert(sv.subrange(0, sv.len() as int) =~= sv);
    out
}

pub proof fn lemma_table_entry_names(t: Seq<(Seq<char>, Seq<char>, Seq<SpecExport>)>, n: Seq<char>)
    ensures
        table_entry(t, n) is Some <==> table_names(t).contains(n),
        table_entry(t, n) matches Some(e) ==> e.0 == n && t.contains(e),
    decreases t.len(),
{
    if t.len() > 0 {
        lemma_table_entry_names(t.drop_first(), n);
        assert(table_names(t.drop_first()) =~= table_names(t).drop_first());
        if table_names(t).contains(n) && t[0].0 != n {
            let k = choose|k: int| 0 <= k < table_names(t).len() && table_names(t)[k] == n;
            assert(table_names(t.drop_first())[k - 1] == n);
        }
        if t[0].0 == n {
            assert(table_names(t)[0] == n);
        }
        if let Some(e) = table_entry(t.drop_first(), n) {
            if t[0].0 != n {
                let k = choose|k: int| 0 <= k < t.drop_first().len() && t.drop_first()[k] == e;
                assert(t[k + 1] == e);
                let k2 = choose|k2: int| 0 <= k2 < table_names(t.drop_first()).len() && table_names(t.drop_first())[k2] == n;
                assert(table_names(t)[k2 + 1] == n);
            }
        }
    }
}

/// The position of the module called `name` in the table.
fn find_info(infos: &Vec<ModuleInfo>, name: &str) -> (r: Option<usize>)
    ensures
        match table_entry(infos_view(infos@), name@) {
            Some(e) => r matches Some(i) && i < infos@.len() && infos_view(infos@)[i as int] == e,
            None => r is None,
        },
{
    let ghost iv = infos_view(infos@);
    let mut i: usize = 0;
    assert(iv.skip(0) =~= iv);
    while i < infos.len()
        invariant
            i <= iv.len(),
            iv == infos_view(infos@),
            table_entry(iv, name@) == table_entry(iv.skip(i as int), name@),
        decreases infos.len() - i,
    {
        assert(iv.skip(i as int).drop_first() =~= iv.skip(i as int + 1));
        assert(iv.skip(i as int)[0] == iv[i as int]);
        if str_equal(infos[i].name.as_str(), name) {
            return Some(i);
        }
        i = i + 1;
    }
    assert(iv.skip(i as int) =~= Seq::<(Seq<char>, Seq<char>, Seq<SpecExport>)>::empty());
    None
}

/// The first export whose name an earlier one has.
fn first_repeated(exports: &Vec<ExternalFunction>) -> (r: Option<String>)
    ensures
        opt_view(r) == repeated_name(exports_view(exports@), Seq::empty()),
{
    let ghost ev = exports_view(exports@);
    let mut seen: Vec<String> = Vec::new();
    let mut i: usize = 0;
    assert(ev.skip(0) =~= ev);
    assert(strings_view(seen@) =~= Seq::<Seq<char>>::empty());
    while i < exports.len()
        invariant
            i <= ev.len(),
            ev == exports_view(exports@),
            repeated_name(ev, Seq::empty()) == repeated_name(ev.skip(i as int), strings_view(seen@)),
        decreases exports.len() - i,
    {
        assert(ev.skip(i as int).drop_first() =~= ev.skip(i as int + 1));
        assert(ev.skip(i as int)[0] == exports@[i as int].view());
        if contains_str(&seen, exports[i].name.as_str()) {
            return Some(exports[i].name.clone());
        }
        let ghost prev = strings_view(seen@);
        seen.push(exports[i].name.clone());
        assert(strings_view(seen@) =~= prev.push(exports@[i as int].name@));
        i = i + 1;
    }
    assert(ev.skip(i as int) =~= Seq::<SpecExport>::empty());
    None
}

fn graph_error_exec(path: &String, source: &String, code: &'static str, message: &str) -> (d: SourceDiagnostics)
    ensures
        d@ == graph_error(path@, source@, code@, message@),
{
    let mut diagnostics: Vec<Diagnostic> = Vec::new();
    diagnostics.push(Diagnostic::new(code, message, Span::new(0, 0)));
    let d = SourceDiagnostics { path: path.clone(), source: source.clone(), diagnostics };
    assert(diags_view(d.diagnostics@) =~= seq![
        SpecDiagnostic { code: code@, message: message@, span: Span { start: 0, end: 0 } },
    ]);
    d
}

fn push_source_diag(errors: &mut Vec<SourceDiagnostics>, d: SourceDiagnostics)
    ensures
        source_diags_view(final(errors)@) == source_diags_view(old(errors)@).push(d@),
{
    errors.push(d);
    assert(source_diags_view(errors@) =~= source_diags_view(old(errors)@).push(d@));
}

/// The module table, with the errors for duplicate module names and for
/// modules that export two different functions of one name.
fn module_infos(mods: &Vec<ParsedSource>, errors: &mut Vec<SourceDiagnostics>) -> (infos: Vec<ModuleInfo>)
    ensures
        infos_view(infos@) == module_table(parsed_view(mods@)),
        source_diags_view(final(errors)@) == source_diags_view(old(errors)@) + duplicate_module_errors(
            parsed_view(mods@),
        ) + ambiguous_export_errors(parsed_view(mods@), module_table(parsed_view(mods@))),
{
    let ghost pv = parsed_view(mods@);
    let mut infos: Vec<ModuleInfo> = Vec::new();
    let mut i: usize = 0;
    assert(source_diags_view(errors@) =~= source_diags_view(old(errors)@) + duplicate_module_errors(
        pv.subrange(0, 0),
    ));
    while i < mods.len()
        invariant
            i <= pv.len(),
            pv == parsed_view(mods@),
            infos_view(infos@) == module_table(pv.subrange(0, i as int)),
            source_diags_view(errors@) == source_diags_view(old(errors)@) + duplicate_module_errors(
                pv.subrange(0, i as int),
            ),
        decreases mods.len() - i,
    {
        let ghost sub = pv.subrange(0, i as int + 1);
        let ghost t0 = infos_view(infos@);
        let ghost e0 = source_diags_view(errors@);
        assert(sub.drop_last() =~= pv.subrange(0, i as int));
        assert(sub.last() == (mods@[i as int].path@, mods@[i as int].source@, mods@[i as int].module));
        let parsed = &mods[i];
        match module_decl_name(&parsed.module) {
            Some(name) => {
                proof {
                    lemma_table_entry_names(t0, name@);
                }
                match find_info(&infos, name.as_str()) {
                    Some(k) => {
                        let mut m = String::new();
                        crate::text::push_str(&mut m, "duplicate module `");
                        crate::text::push_str(&mut m, name.as_str());
                        crate::text::push_str(&mut m, "`; first declared in ");
                        crate::text::push_str(&mut m, infos[k].first_path.as_str());
                        assert(m@ =~= "duplicate module `"@ + name@ + "`; first declared in "@
                            + infos_view(infos@)[k as int].1);
                        let d = graph_error_exec(&parsed.path, &parsed.source, "RESOLVE_DUPLICATE_MODULE", m.as_str());
                        push_source_diag(errors, d);
                        assert(source_diags_view(errors@) =~= source_diags_view(old(errors)@)
                            + duplicate_module_errors(sub));
                    },
                    None => {
                        let exports = tidy(exported_functions(&parsed.module, name.as_str()));
                        let info = ModuleInfo { name: name.clone(), first_path: parsed.path.clone(), exports };
                        infos.push(info);
                        assert(infos_view(infos@) =~= t0.push(
                            (name@, parsed.path@, tidy_exports(exports_of(parsed.module.items@, name@))),
                        ));
                        assert(source_diags_view(errors@) =~= source_diags_view(old(errors)@)
                            + duplicate_module_errors(sub));
                    },
                }
            },
            None => {
                assert(source_diags_view(errors@) =~= source_diags_view(old(errors)@)
                    + duplicate_module_errors(sub));
            },
        }
        i = i + 1;
    }
    assert(pv.subrange(0, pv.len() as int) =~= pv);
    let ghost t = infos_view(infos@);
    let ghost before = source_diags_view(errors@);
    let mut j: usize = 0;
    assert(ambiguous_export_errors(pv.subrange(0, 0), t) =~= Seq::<SpecSourceDiagnostics>::empty());
    while j < mods.len()
        invariant
            j <= pv.len(),
            pv == parsed_view(mods@),
            t == infos_view(infos@),
            source_diags_view(errors@) == before + ambiguous_export_errors(pv.subrange(0, j as int), t),
        decreases mods.len() - j,
    {
        let ghost sub = pv.subrange(0, j as int + 1);
        assert(sub.drop_last() =~= pv.subrange(0, j as int));
        assert(sub.last() == (mods@[j as int].path@, mods@[j as int].source@, mods@[j as int].module));
        let parsed = &mods[j];
        match module_decl_name(&parsed.module) {
            Some(name) => match find_info(&infos, name.as_str()) {
                Some(k) => match first_repeated(&infos[k].exports) {
                    Some(dup) => {
                        let mut m = String::new();
                        crate::text::push_str(&mut m, "module `");
                        crate::text::push_str(&mut m, name.as_str());
                        crate::text::push_str(&mut m, "` exports multiple functions named `");
                        crate::text::push_str(&mut m, dup.as_str());
                        crate::text::push_str(&mut m, "`");
                        assert(m@ =~= "module `"@ + name@ + "` exports multiple functions named `"@ + dup@
                            + "`"@);
                        let d = graph_error_exec(&parsed.path, &parsed.source, "RESOLVE_AMBIGUOUS_REEXPORT", m.as_str());
                        push_source_diag(errors, d);
                        assert(source_diags_view(errors@) =~= before + ambiguous_export_errors(sub, t));
                    },
                    None => {
                        assert(source_diags_view(errors@) =~= before + ambiguous_export_errors(sub, t));
                    },
                },
                None => {
                    assert(source_diags_view(errors@) =~= before + ambiguous_export_errors(sub, t));
                },
            },
            None => {
                assert(source_diags_view(errors@) =~= before + ambiguous_export_errors(sub, t));
            },
        }
        j = j + 1;
    }
    infos
}

/// The dotted paths of the modules `module` imports, in order.
fn local_imports(module: &Module) -> (r: Vec<String>)
    ensures
        strings_view(r@) == imports_of(module.items@),
{
    let items = &module.items;
    let mut r: Vec<String> = Vec::new();
    let mut i: usize = 0;
    while i < items.len()
        invariant
            i <= items@.len(),
            items == &module.items,
            strings_view(r@) == imports_of(items@.subrange(0, i as int)),
        decreases items.len() - i,
    {
        let ghost sub = items@.subrange(0, i as int + 1);
        let ghost prev = strings_view(r@);
        assert(sub.drop_last() =~= items@.subrange(0, i as int));
        match &items[i] {
            Item::Import { path } => {
                let p = join_dotted(path);
                r.push(p);
                assert(strings_view(r@) =~= prev.push(dotted(path@)));
            },
            _ => {
                assert(strings_view(r@) =~= prev + Seq::<Seq<char>>::empty());
            },
        }
        i = i + 1;
    }
    assert(items@.subrange(0, items@.len() as int) =~= items@);
    r
}

fn copy_export(e: &ExternalFunction) -> (r: ExternalFunction)
    ensures
        r.view() == e.view(),
{
    ExternalFunction {
        name: e.name.clone(),
        params: crate::text::copy_strings(&e.params),
        return_type: copy_opt(&e.return_type),
        target: e.target.clone(),
    }
}

spec fn pairs_view(v: Seq<(String, ExternalFunction)>) -> Seq<(Seq<char>, SpecExport)> {
    v.map_values(|x: (String, ExternalFunction)| (x.0@, x.1.view()))
}

/// Each imported module's path paired with each of its exports.
fn imported_export_pairs(imports: &Vec<String>, infos: &Vec<ModuleInfo>) -> (r: Vec<(String, ExternalFunction)>)
    ensures
        pairs_view(r@) == imported_exports(strings_view(imports@), infos_view(infos@)),
{
    let ghost iv = strings_view(imports@);
    let ghost t = infos_view(infos@);
    let mut r: Vec<(String, ExternalFunction)> = Vec::new();
    let mut i: usize = 0;
    while i < imports.len()
        invariant
            i <= iv.len(),
            iv == strings_view(imports@),
            t == infos_view(infos@),
            pairs_view(r@) == imported_exports(iv.subrange(0, i as int), t),
        decreases imports.len() - i,
    {
        let ghost sub = iv.subrange(0, i as int + 1);
        assert(sub.drop_last() =~= iv.subrange(0, i as int));
        let ghost before = pairs_view(r@);
        match find_info(infos, imports[i].as_str()) {
            Some(k) => {
                let exports = &infos[k].exports;
                let ghost ev = exports_view(exports@);
                let mut j: usize = 0;
                while j < exports.len()
                    invariant
                        j <= ev.len(),
                        ev == exports_view(exports@),
                        pairs_view(r@) == before + ev.subrange(0, j as int).map_values(
                            |x: SpecExport| (iv[i as int], x),
                        ),
                        i < iv.len(),
                        iv == strings_view(imports@),
                    decreases exports.len() - j,
                {
                    let ghost prev = pairs_view(r@);
                    r.push((imports[i].clone(), copy_export(&exports[j])));
                    assert(pairs_view(r@) =~= prev.push((iv[i as int], ev[j as int])));
                    assert(ev.subrange(0, j as int + 1).map_values(|x: SpecExport| (iv[i as int], x))
                        =~= ev.subrange(0, j as int).map_values(|x: SpecExport| (iv[i as int], x)).push(
                        (iv[i as int], ev[j as int]),
                    ));
                    j = j + 1;
                }
                assert(ev.subrange(0, ev.len() as int) =~= ev);
                assert(pairs_view(r@) =~= imported_exports(sub, t));
            },
            None => {
                assert(pairs_view(r@) =~= imported_exports(sub, t));
            },
        }
        i = i + 1;
    }
    assert(iv.subrange(0, iv.len() as int) =~= iv);
    r
}

/// Whether a module other than that of the `k`-th pair exports its name.
fn is_multiply_imported(pairs: &Vec<(String, ExternalFunction)>, k: usize) -> (b: bool)
    requires
        k < pairs@.len(),
    ensures
        b == multiply_imported(pairs_view(pairs@), pairs@[k as int].1.name@),
{
    let ghost pv = pairs_view(pairs@);
    let ghost n = pairs@[k as int].1.name@;
    let mut j: usize = 0;
    while j < pairs.len()
        invariant
            j <= pv.len(),
            k < pv.len(),
            pv == pairs_view(pairs@),
            n == pairs@[k as int].1.name@,
            pv[k as int].1.0 == n,
            forall|q: int| 0 <= q < j ==> !(#[trigger] pv[q].1.0 == n && pv[q].0 != pv[k as int].0),
        decreases pairs.len() - j,
    {
        if str_equal(pairs[j].1.name.as_str(), pairs[k].1.name.as_str()) && !str_equal(
            pairs[j].0.as_str(),
            pairs[k].0.as_str(),
        ) {
            assert(pv[j as int].1.0 == n && pv[k as int].1.0 == n && pv[j as int].0 != pv[k as int].0);
            return true;
        }
        j = j + 1;
    }
    proof {
        if multiply_imported(pv, n) {
            let (a, b) = choose|a: int, b: int|
                0 <= a < pv.len() && 0 <= b < pv.len() && pv[a].1.0 == n && pv[b].1.0 == n && pv[a].0
                    != pv[b].0;
            if pv[a].0 != pv[k as int].0 {
                assert(!(pv[a].1.0 == n && pv[a].0 != pv[k as int].0));
            } else {
                assert(!(pv[b].1.0 == n && pv[b].0 != pv[k as int].0));
            }
        }
    }
    false
}

/// The names two different imported modules export.
fn ambiguous_function_names(pairs: &Vec<(String, ExternalFunction)>) -> (r: Vec<String>)
    ensures
        strings_view(r@) == ambiguous_names(pairs_view(pairs@), pairs_view(pairs@)),
{
    let ghost pv = pairs_view(pairs@);
    let mut r: Vec<String> = Vec::new();
    let mut i: usize = 0;
    while i < pairs.len()
        invariant
            i <= pv.len(),
            pv == pairs_view(pairs@),
            strings_view(r@) == ambiguous_names(pv.subrange(0, i as int), pv),
        decreases pairs.len() - i,
    {
        let ghost sub = pv.subrange(0, i as int + 1);
        assert(sub.drop_last() =~= pv.subrange(0, i as int));
        assert(sub.last().1.0 == pairs@[i as int].1.name@);
        let ghost prev = strings_view(r@);
        let name = pairs[i].1.name.as_str();
        if is_multiply_imported(pairs, i) && !contains_str(&r, name) {
            r.push(pairs[i].1.name.clone());
            assert(strings_view(r@) =~= prev.push(pairs@[i as int].1.name@));
        }
        i = i + 1;
    }
    assert(pv.subrange(0, pv.len() as int) =~= pv);
    r
}

/// The function names a module may call from its imports.
fn imported_function_names(pairs: &Vec<(String, ExternalFunction)>, ambiguous: &Vec<String>) -> (r: Vec<
    String,
>)
    ensures
        strings_view(r@) == imported_names(pairs_view(pairs@), strings_view(ambiguous@)),
{
    let ghost pv = pairs_view(pairs@);
    let ghost av = strings_view(ambiguous@);
    let mut r: Vec<String> = Vec::new();
    let mut i: usize = 0;
    while i < pairs.len()
        invariant
            i <= pv.len(),
            pv == pairs_view(pairs@),
            av == strings_view(ambiguous@),
            strings_view(r@) == imported_names(pv.subrange(0, i as int), av),
        decreases pairs.len() - i,
    {
        let ghost sub = pv.subrange(0, i as int + 1);
        assert(sub.drop_last() =~= pv.subrange(0, i as int));
        assert(sub.last() == (pairs@[i as int].0@, pairs@[i as int].1.view()));
        let ghost prev = strings_view(r@);
        let name = pairs[i].1.name.as_str();
        if !contains_str(ambiguous, name) && !contains_str(&r, name) {
            r.push(pairs[i].1.name.clone());
            assert(strings_view(r@) =~= prev.push(name@));
        }
        let ghost mid = strings_view(r@);
        let q = concat3(pairs[i].0.as_str(), ".", name);
        if !contains_str(&r, q.as_str()) {
            r.push(q);
            assert(strings_view(r@) =~= mid.push(pairs@[i as int].0@ + "."@ + name@));
        }
        i = i + 1;
    }
    assert(pv.subrange(0, pv.len() as int) =~= pv);
    r
}

/// The names of the modules in the table.
fn info_names(infos: &Vec<ModuleInfo>) -> (r: Vec<String>)
    ensures
        strings_view(r@) == table_names(infos_view(infos@)),
{
    let mut r: Vec<String> = Vec::new();
    let mut i: usize = 0;
    while i < infos.len()
        invariant
            i <= infos@.len(),
            r@.len() == i,
            forall|k: int| 0 <= k < i ==> (#[trigger] r@[k])@ == infos@[k].name@,
        decreases infos.len() - i,
    {
        r.push(infos[i].name.clone());
        i = i + 1;
    }
    assert(strings_view(r@) =~= table_names(infos_view(infos@)));
    r
}

/// Checks parsed files as one program.
/// Appends the names of the structs and enums `module` exports.
fn push_exported_types(module: &Module, out: &mut Vec<String>)
    ensures
        strings_view(final(out)@) == strings_view(old(out)@) + exported_types(module.items@),
{
    let items = &module.items;
    let mut i: usize = 0;
    while i < items.len()
        invariant
            i <= items@.len(),
            strings_view(out@) == strings_view(old(out)@) + exported_types(items@.subrange(0, i as int)),
        decreases items.len() - i,
    {
        let ghost before = strings_view(out@);
        proof {
            let sub = items@.subrange(0, i as int + 1);
            assert(sub.drop_last() =~= items@.subrange(0, i as int));
        }
        match &items[i] {
            Item::Struct(d) => {
                if d.exported {
                    out.push(copy_string(d.name.as_str()));
                    assert(strings_view(out@) =~= before.push(d.name@));
                }
            },
            Item::Enum(d) => {
                if d.exported {
                    out.push(copy_string(d.name.as_str()));
                    assert(strings_view(out@) =~= before.push(d.name@));
                }
            },
            _ => {},
        }
        assert(strings_view(out@) =~= strings_view(old(out)@) + exported_types(items@.subrange(0, i as int + 1)));
        i = i + 1;
    }
    assert(items@.subrange(0, items@.len() as int) =~= items@);
}

/// The struct and enum names exported by the modules `imports` names.
fn imported_type_names(mods: &Vec<ParsedSource>, imports: &Vec<String>) -> (r: Vec<String>)
    ensures
        strings_view(r@) == imported_types(parsed_view(mods@), strings_view(imports@)),
{
    let ghost pv = parsed_view(mods@);
    let mut r: Vec<String> = Vec::new();
    let mut i: usize = 0;
    assert(strings_view(r@) =~= Seq::<Seq<char>>::empty());
    while i < mods.len()
        invariant
            i <= mods@.len(),
            pv == parsed_view(mods@),
            strings_view(r@) == imported_types(pv.subrange(0, i as int), strings_view(imports@)),
        decreases mods.len() - i,
    {
        proof {
            let sub = pv.subrange(0, i as int + 1);
            assert(sub.drop_last() =~= pv.subrange(0, i as int));
            assert(sub.last().2 == mods@[i as int].module);
        }
        match module_decl_name(&mods[i].module) {
            Some(n) => {
                if contains_str(imports, n.as_str()) {
                    push_exported_types(&mods[i].module, &mut r);
                }
            },
            None => {},
        }
        assert(strings_view(r@) =~= imported_types(pv.subrange(0, i as int + 1), strings_view(imports@)));
        i = i + 1;
    }
    assert(pv.subrange(0, pv.len() as int) =~= pv);
    r
}

fn check_parsed_sources(mods: &Vec<ParsedSource>) -> (r: Result<(), Vec<SourceDiagnostics>>)
    ensures
        r is Ok <==> graph_errors(parsed_view(mods@)).len() == 0,
        r matches Err(es) ==> source_diags_view(es@) == graph_errors(parsed_view(mods@)),
{
    let ghost pv = parsed_view(mods@);
    let mut errors: Vec<SourceDiagnostics> = Vec::new();
    let infos = module_infos(mods, &mut errors);
    let ghost t = infos_view(infos@);
    let names = info_names(&infos);
    let ghost before = source_diags_view(errors@);
    let mut i: usize = 0;
    assert(module_errors(pv.subrange(0, 0), t, pv) =~= Seq::<SpecSourceDiagnostics>::empty());
    while i < mods.len()
        invariant
            i <= pv.len(),
            pv == parsed_view(mods@),
            t == infos_view(infos@),
            t == module_table(pv),
            strings_view(names@) == table_names(t),
            before == duplicate_module_errors(pv) + ambiguous_export_errors(pv, t),
            source_diags_view(errors@) == before + module_errors(pv.subrange(0, i as int), t, pv),
        decreases mods.len() - i,
    {
        let ghost sub = pv.subrange(0, i as int + 1);
        assert(sub.drop_last() =~= pv.subrange(0, i as int));
        assert(sub.last() == (mods@[i as int].path@, mods@[i as int].source@, mods@[i as int].module));
        let parsed = &mods[i];
        let imports = local_imports(&parsed.module);
        let pairs = imported_export_pairs(&imports, &infos);
        let ambiguous = ambiguous_function_names(&pairs);
        let external = imported_function_names(&pairs, &ambiguous);
        let ghost e0 = source_diags_view(errors@);
        match crate::resolver::resolve_with_imports_functions_and_ambiguous(
            &parsed.module,
            &names,
            &external,
            &ambiguous,
        ) {
            Ok(()) => {},
            Err(diagnostics) => {
                let d = SourceDiagnostics {
                    path: parsed.path.clone(),
                    source: parsed.source.clone(),
                    diagnostics,
                };
                push_source_diag(&mut errors, d);
            },
        }
        let ghost e1 = source_diags_view(errors@);
        let extra = imported_type_names(mods, &imports);
        match crate::typecheck::check_with_types(&parsed.module, &extra) {
            Ok(()) => {},
            Err(diagnostics) => {
                let d = SourceDiagnostics {
                    path: parsed.path.clone(),
                    source: parsed.source.clone(),
                    diagnostics,
                };
                push_source_diag(&mut errors, d);
            },
        }
        proof {
            let (path, source, m) = sub.last();
            let d = module_resolve_diags(m, t);
            let td = module_type_diags(m, pv);
            assert(e1 =~= e0 + (if d.len() > 0 {
                seq![SpecSourceDiagnostics { path, source, diagnostics: d }]
            } else {
                Seq::empty()
            }));
            assert(source_diags_view(errors@) =~= e1 + (if td.len() > 0 {
                seq![SpecSourceDiagnostics { path, source, diagnostics: td }]
            } else {
                Seq::empty()
            }));
            assert(source_diags_view(errors@) =~= before + module_errors(sub, t, pv));
        }
        i = i + 1;
    }
    assert(pv.subrange(0, pv.len() as int) =~= pv);
    if errors.len() == 0 {
        assert(graph_errors(pv) =~= source_diags_view(errors@));
        Ok(())
    } else {
        Err(errors)
    }
}

/// Whether `mods` are the files, each with the module parsed from it.
pub open spec fn parsed_from(files: Seq<SourceFile>, mods: Seq<(Seq<char>, Seq<char>, Module)>) -> bool {
    &&& mods.len() == files.len()
    &&& forall|i: int|
        0 <= i < files.len() ==> (#[trigger] mods[i]).0 == files[i].path@ && mods[i].1 == files[i].source@
            && parses_to(files[i].source@, mods[i].2)
}

/// The entry for a file that does not lex or parse: its diagnostics.
pub open spec fn file_failure(f: SourceFile) -> Option<SpecSourceDiagnostics> {
    match source_items(f.source@) {
        Err(d) => Some(SpecSourceDiagnostics { path: f.path@, source: f.source@, diagnostics: d }),
        Ok(_) => None,
    }
}

/// The entries of the files that do not lex or parse, in order.
pub open spec fn file_failures(files: Seq<SourceFile>) -> Seq<SpecSourceDiagnostics>
    decreases files.len(),
{
    if files.len() == 0 {
        Seq::empty()
    } else {
        let rest = file_failures(files.drop_last());
        match file_failure(files.last()) {
            Some(e) => rest.push(e),
            None => rest,
        }
    }
}

/// Parses each file: the modules if every file parses, else the diagnostics
/// of each file that does not.
fn parse_sources(files: &Vec<SourceFile>) -> (r: Result<Vec<ParsedSource>, Vec<SourceDiagnostics>>)
    requires
        forall|i: int| 0 <= i < files@.len() ==> byte_len((#[trigger] files@[i]).source@) < usize::MAX,
    ensures
        match r {
            Ok(mods) => file_failures(files@).len() == 0 && parsed_from(files@, parsed_view(mods@)),
            Err(es) => file_failures(files@).len() > 0 && source_diags_view(es@) == file_failures(files@),
        },
{
    let mut mods: Vec<ParsedSource> = Vec::new();
    let mut errors: Vec<SourceDiagnostics> = Vec::new();
    let mut i: usize = 0;
    assert(source_diags_view(errors@) =~= Seq::<SpecSourceDiagnostics>::empty());
    while i < files.len()
        invariant
            i <= files@.len(),
            forall|k: int| 0 <= k < files@.len() ==> byte_len((#[trigger] files@[k]).source@) < usize::MAX,
            source_diags_view(errors@) == file_failures(files@.subrange(0, i as int)),
            errors@.len() == 0 ==> parsed_from(files@.subrange(0, i as int), parsed_view(mods@)),
        decreases files.len() - i,
    {
        let file = &files[i];
        let ghost e0 = source_diags_view(errors@);
        proof {
            let fs = files@.subrange(0, i as int + 1);
            assert(fs.drop_last() =~= files@.subrange(0, i as int));
            assert(fs.last() == files@[i as int]);
        }
        match crate::parse_source(file.source.as_str()) {
            Ok(module) => {
                let ghost m0 = parsed_view(mods@);
                mods.push(ParsedSource { path: file.path.clone(), source: file.source.clone(), module });
                proof {
                    assert(parsed_view(mods@) =~= m0.push((file.path@, file.source@, module)));
                    if errors@.len() == 0 {
                        let fs = files@.subrange(0, i as int + 1);
                        let mv = parsed_view(mods@);
                        assert forall|k: int| 0 <= k < fs.len() implies (#[trigger] mv[k]).0 == fs[k].path@
                            && mv[k].1 == fs[k].source@ && parses_to(fs[k].source@, mv[k].2) by {
                            if k < i {
                                assert(m0[k] == mv[k]);
                                assert(files@.subrange(0, i as int)[k] == fs[k]);
                            }
                        }
                        assert(mv.len() == fs.len());
                        assert(parsed_from(fs, mv));
                    }
                }
            },
            Err(diagnostics) => {
                let d = SourceDiagnostics { path: file.path.clone(), source: file.source.clone(), diagnostics };
                push_source_diag(&mut errors, d);
                assert(source_diags_view(errors@).len() == errors@.len());
            },
        }
        i = i + 1;
    }
    assert(files@.subrange(0, files@.len() as int) =~= files@);
    assert(source_diags_view(errors@).len() == errors@.len());
    if errors.len() > 0 {
        Err(errors)
    } else {
        Ok(mods)
    }
}

/// Checks the files as one program: each must lex and parse, and then the
/// module graph and every module's names must check.
pub fn check_sources(files: &Vec<SourceFile>) -> (r: Result<(), Vec<SourceDiagnostics>>)
    requires
        forall|i: int| 0 <= i < files@.len() ==> byte_len((#[trigger] files@[i]).source@) < usize::MAX,
    ensures
        file_failures(files@).len() > 0 ==> (r matches Err(es) && source_diags_view(es@) == file_failures(
            files@,
        )),
        file_failures(files@).len() == 0 ==> exists|mods: Seq<(Seq<char>, Seq<char>, Module)>| {
            &&& #[trigger] parsed_from(files@, mods)
            &&& r is Ok <==> graph_errors(mods).len() == 0
            &&& r matches Err(es) ==> source_diags_view(es@) == graph_errors(mods)
        },
{
    let mods = parse_sources(files)?;
    assert(parsed_from(files@, parsed_view(mods@)));
    check_parsed_sources(&mods)
}

} // verus!
