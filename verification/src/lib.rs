//! A front end for the Zeta language: lexing, parsing, name resolution, the
//! type-name check, lowering to a mid-level IR and checking it, text dumps of each stage, and
//! the pieces of the interactive shell that decide what a typed line means.
use vstd::prelude::*;
use crate::ast::{module_text, Module};
use crate::diagnostic::{diags_view, Diagnostic, SpecDiagnostic};
use crate::grammar::{module_model, module_parsed, parse_tokens, ItemModel};
use crate::hir::hir_text;
use crate::lexer::{lemma_lex_ends_with_eof, spec_lex, tokens_view};
use crate::mir::check::program_diags;
use crate::mir::dump::program_text;
use crate::mir::{lowered_program, Program};
use crate::resolver::resolve_spec;
use crate::typecheck::type_diags;
use crate::text::{byte_len, chars_of, is_whitespace, push_str, range_equals, spec_is_whitespace, string_from_range};

pub mod ast;
pub mod desugar;
pub mod diagnostic;
pub mod grammar;
pub mod hir;
pub mod lexer;
pub mod line_editor;
pub mod mir;
pub mod module_graph;
pub mod move_analysis;
pub mod parser;
pub mod repl;
pub mod resolver;
pub mod std_api;
pub mod text;
pub mod typecheck;

verus! {

/// The diagnostics of resolving `m` on its own.
pub open spec fn resolve_diags(m: Module) -> Seq<SpecDiagnostic> {
    resolve_spec(m, Seq::empty(), Seq::empty(), Seq::empty(), Seq::empty())
}

/// Whether `m` resolves on its own without a diagnostic.
pub open spec fn resolves(m: Module) -> bool {
    resolve_diags(m).len() == 0
}

/// What lexing and parsing `source` gives: the items of its module, or the
/// diagnostics of the stage that failed.
pub open spec fn source_items(source: Seq<char>) -> Result<Seq<ItemModel>, Seq<SpecDiagnostic>> {
    match spec_lex(source) {
        Err(d) => Err(d),
        Ok(tokens) => parse_tokens(tokens),
    }
}

/// Whether `m` is the module parsed from `source`.
pub open spec fn parses_to(source: Seq<char>, m: Module) -> bool {
    source_items(source) == Ok::<_, Seq<SpecDiagnostic>>(module_model(m))
}

/// Lexes and parses `source` into a module.
pub fn parse_source(source: &str) -> (r: Result<Module, Vec<Diagnostic>>)
    requires
        byte_len(source@) < usize::MAX,
    ensures
        module_parsed(r) == source_items(source@),
        r matches Err(e) ==> e@.len() > 0,
{
    let tokens = match crate::lexer::lex(source) {
        Ok(tokens) => tokens,
        Err(d) => {
            return Err(d);
        },
    };
    proof {
        lemma_lex_ends_with_eof(source@);
        let tv = tokens_view(tokens@);
        assert(tv.last() == tokens@[tokens@.len() - 1]@);
    }
    let mut parser = crate::parser::Parser::new(tokens);
    let r = parser.parse_module();
    proof {
        reveal(parse_tokens);
    }
    r
}

/// The syntax-tree dump of `source`.
pub fn dump_ast(source: &str) -> (r: Result<String, Vec<Diagnostic>>)
    requires
        byte_len(source@) < usize::MAX,
    ensures
        match source_items(source@) {
            Ok(_) => r matches Ok(s) && exists|m: Module| #[trigger] parses_to(source@, m) && s@ == module_text(m),
            Err(ds) => r matches Err(e) && diags_view(e@) == ds,
        },
        r matches Err(e) ==> e@.len() > 0,
{
    let module = parse_source(source)?;
    assert(parses_to(source@, module));
    Ok(module.dump())
}

/// Whether `m` passes the checks before lowering: name resolution, then the
/// type-name check.
pub open spec fn checks(m: Module) -> bool {
    resolves(m) && type_diags(m).len() == 0
}

/// What the checks report for `m`: the resolution diagnostics, or, when it
/// resolves, those of the type-name check.
pub open spec fn check_diags(m: Module) -> Seq<SpecDiagnostic> {
    if !resolves(m) {
        resolve_diags(m)
    } else {
        type_diags(m)
    }
}

/// Whether `source` lexes and parses to a module that passes the checks.
pub open spec fn source_checks(source: Seq<char>) -> bool {
    exists|m: Module| #[trigger] parses_to(source, m) && checks(m)
}

/// The checks depend on a module's plain value alone.
pub proof fn law_checks_depend_on_the_parse(m1: Module, m2: Module)
    requires
        module_model(m1) == module_model(m2),
    ensures
        checks(m1) == checks(m2),
        check_diags(m1) == check_diags(m2),
{
    crate::resolver::law_resolution_depends_on_the_parse(
        m1,
        m2,
        Seq::empty(),
        Seq::empty(),
        Seq::empty(),
        Seq::empty(),
    );
    crate::typecheck::law_type_check_depends_on_the_parse(m1, m2, Seq::empty());
}

/// A source whose parse `m` fails the checks does not check.
proof fn lemma_not_source_checks(source: Seq<char>, m: Module)
    requires
        parses_to(source, m),
        !checks(m),
    ensures
        !source_checks(source),
{
    assert forall|m2: Module| #[trigger] parses_to(source, m2) implies !checks(m2) by {
        law_checks_depend_on_the_parse(m, m2);
    }
}

/// Runs the checks on the parsed `module`.
fn check_module(module: &Module) -> (r: Result<(), Vec<Diagnostic>>)
    ensures
        r is Ok <==> checks(*module),
        r matches Err(e) ==> e@.len() > 0 && diags_view(e@) == check_diags(*module),
{
    match crate::resolver::resolve(module) {
        Ok(()) => {},
        Err(e) => {
            return Err(e);
        },
    }
    let r = crate::typecheck::check(module);
    proof {
        if r is Err {
            assert(diags_view(r->Err_0@).len() == r->Err_0@.len());
        }
    }
    r
}

/// The HIR dump of `source`, once it passes the checks.
pub fn dump_hir(source: &str) -> (r: Result<String, Vec<Diagnostic>>)
    requires
        byte_len(source@) < usize::MAX,
    ensures
        match source_items(source@) {
            Ok(_) => exists|m: Module| {
                &&& #[trigger] parses_to(source@, m)
                &&& match r {
                    Ok(s) => checks(m) && s@ == hir_text(m),
                    Err(e) => !checks(m) && diags_view(e@) == check_diags(m),
                }
            },
            Err(ds) => r matches Err(e) && diags_view(e@) == ds,
        },
        r is Ok <==> source_checks(source@),
        r matches Err(e) ==> e@.len() > 0,
{
    let mut module = parse_source(source)?;
    let _ = crate::desugar::desugar_try(&mut module);
    assert(parses_to(source@, module));
    match check_module(&module) {
        Ok(()) => Ok(crate::hir::dump(&module)),
        Err(e) => {
            proof {
                lemma_not_source_checks(source@, module);
            }
            Err(e)
        },
    }
}

/// Parses, checks, lowers and verifies `source`; no function needs to be
/// called `main`.
pub fn lower_source(source: &str) -> (r: Result<Program, Vec<Diagnostic>>)
    requires
        byte_len(source@) < usize::MAX,
    ensures
        match source_items(source@) {
            Ok(_) => exists|m: Module| {
                &&& #[trigger] parses_to(source@, m)
                &&& if !checks(m) {
                    r matches Err(e) && diags_view(e@) == check_diags(m)
                } else {
                    match r {
                        Ok(p) => lowered_program(m, Seq::empty(), p) && program_diags(p).len() == 0,
                        Err(e) => exists|p: Program| {
                            &&& lowered_program(m, Seq::empty(), p)
                            &&& program_diags(p).len() > 0
                            &&& diags_view(e@) == program_diags(p)
                        },
                    }
                }
            },
            Err(ds) => r matches Err(e) && diags_view(e@) == ds,
        },
        r is Ok ==> source_checks(source@),
        r matches Err(e) ==> e@.len() > 0,
{
    let mut module = parse_source(source)?;
    let _ = crate::desugar::desugar_try(&mut module);
    assert(parses_to(source@, module));
    match check_module(&module) {
        Ok(()) => {},
        Err(e) => {
            return Err(e);
        },
    }
    let program = crate::mir::lower(&module);
    match crate::mir::verify(&program) {
        Ok(()) => Ok(program),
        Err(d) => Err(d),
    }
}

/// The MIR dump of `source`, once it lowers and verifies.
pub fn dump_mir(source: &str) -> (r: Result<String, Vec<Diagnostic>>)
    requires
        byte_len(source@) < usize::MAX,
    ensures
        match source_items(source@) {
            Ok(_) => exists|m: Module| {
                &&& #[trigger] parses_to(source@, m)
                &&& if !checks(m) {
                    r matches Err(e) && diags_view(e@) == check_diags(m)
                } else {
                    exists|p: Program| {
                        &&& lowered_program(m, Seq::empty(), p)
                        &&& match r {
                            Ok(s) => program_diags(p).len() == 0 && s@ == program_text(p),
                            Err(e) => program_diags(p).len() > 0 && diags_view(e@) == program_diags(p),
                        }
                    }
                }
            },
            Err(ds) => r matches Err(e) && diags_view(e@) == ds,
        },
        r is Ok ==> source_checks(source@),
        r matches Err(e) ==> e@.len() > 0,
{
    let program = lower_source(source)?;
    Ok(crate::mir::dump_program(&program))
}

/// Checks `source`: it must lex and parse, resolve, and name only known
/// types.
pub fn check_source(source: &str) -> (r: Result<(), Vec<Diagnostic>>)
    requires
        byte_len(source@) < usize::MAX,
    ensures
        match source_items(source@) {
            Ok(_) => exists|m: Module| {
                &&& #[trigger] parses_to(source@, m)
                &&& match r {
                    Ok(()) => checks(m),
                    Err(e) => !checks(m) && diags_view(e@) == check_diags(m),
                }
            },
            Err(ds) => r matches Err(e) && diags_view(e@) == ds,
        },
        r is Ok <==> source_checks(source@),
        r matches Err(e) ==> e@.len() > 0,
{
    let mut module = parse_source(source)?;
    let _ = crate::desugar::desugar_try(&mut module);
    assert(parses_to(source@, module));
    let r = check_module(&module);
    proof {
        if r is Err {
            lemma_not_source_checks(source@, module);
        }
    }
    r
}

// ---------------------------------------------------------------------------
// Lines typed into the interactive shell
// ---------------------------------------------------------------------------

/// The index of the first character of `s` at or after `i` that is not
/// whitespace, or the length.
pub open spec fn skip_space(s: Seq<char>, i: int) -> int
    decreases s.len() - i,
{
    if i >= s.len() || i < 0 {
        s.len() as int
    } else if spec_is_whitespace(s[i]) {
        skip_space(s, i + 1)
    } else {
        i
    }
}

/// The index just past the last character of `s` before `j` that is not
/// whitespace, or `0`.
pub open spec fn trim_end_index(s: Seq<char>, j: int) -> int
    decreases j,
{
    if j <= 0 || j > s.len() {
        0
    } else if spec_is_whitespace(s[j - 1]) {
        trim_end_index(s, j - 1)
    } else {
        j
    }
}

/// `s` without leading and trailing whitespace.
pub open spec fn trimmed(s: Seq<char>) -> Seq<char> {
    let a = skip_space(s, 0);
    let b = trim_end_index(s, s.len() as int);
    if a < b { s.subrange(a, b) } else { Seq::empty() }
}

/// The index of the first whitespace character at or after `i`, or the length.
pub open spec fn word_end(s: Seq<char>, i: int) -> int
    decreases s.len() - i,
{
    if i >= s.len() || i < 0 {
        s.len() as int
    } else if spec_is_whitespace(s[i]) {
        i
    } else {
        word_end(s, i + 1)
    }
}

/// The first whitespace-separated word of `s`, if there is one.
pub open spec fn first_word(s: Seq<char>) -> Option<Seq<char>> {
    let a = skip_space(s, 0);
    if a >= s.len() { None } else { Some(s.subrange(a, word_end(s, a))) }
}

/// The words that start a top-level item.
pub open spec fn is_item_keyword(w: Seq<char>) -> bool {
    ||| w == "module"@
    ||| w == "import"@
    ||| w == "as"@
    ||| w == "export"@
    ||| w == "fn"@
    ||| w == "struct"@
    ||| w == "enum"@
}

/// Whether the line's first word starts a top-level item.
pub open spec fn starts_item(s: Seq<char>) -> bool {
    first_word(s) matches Some(w) && is_item_keyword(w)
}

/// The source the shell evaluates for a line: an item as it is, anything
/// else as the body of a function `repl`.
pub open spec fn repl_source_text(line: Seq<char>) -> Seq<char> {
    let t = trimmed(line);
    if starts_item(t) { t } else { "fn repl() {\n  "@ + t + "\n}"@ }
}

/// The program the shell runs for a line: none for an empty line or an item;
/// a statement ending in `;` as the body of `main`, and anything else as the
/// value `main` returns.
pub open spec fn repl_run_text(line: Seq<char>) -> Option<Seq<char>> {
    let t = trimmed(line);
    if t.len() == 0 || starts_item(t) {
        None
    } else if t.last() == ';' {
        Some("fn main() {\n  "@ + t + "\n}"@)
    } else {
        Some("fn main() {\n  return "@ + t + ";\n}"@)
    }
}

/// A line whose first word is `module`, `import`, `as`, `export`, `fn`,
/// `struct` or `enum` is an item: the shell evaluates the trimmed line as it
/// is and has no program to run for it. A line with any other first word is
/// wrapped as the body of `fn repl`, and runs as the body of `main`.
pub proof fn law_item_lines_are_evaluated_as_they_are(line: Seq<char>)
    ensures
        ({
            let t = trimmed(line);
            first_word(t) matches Some(w) && (w == "module"@ || w == "import"@ || w == "as"@ || w == "export"@
                || w == "fn"@ || w == "struct"@ || w == "enum"@)
        }) ==> repl_source_text(line) == trimmed(line) && repl_run_text(line) is None,
        ({
            let t = trimmed(line);
            first_word(t) matches Some(w) && !(w == "module"@ || w == "import"@ || w == "as"@ || w == "export"@
                || w == "fn"@ || w == "struct"@ || w == "enum"@)
        }) ==> repl_source_text(line) == "fn repl() {\n  "@ + trimmed(line) + "\n}"@ && repl_run_text(line) is Some,
{
    let t = trimmed(line);
    if first_word(t) is Some {
        assert(skip_space(t, 0) < t.len());
        assert(t.len() > 0);
    }
}

/// `line` without leading and trailing whitespace.
pub(crate) fn trim(line: &str) -> (t: String)
    ensures
        t@ == trimmed(line@),
{
    let chars = chars_of(line);
    let ghost s = chars@;
    let mut a: usize = 0;
    while a < chars.len() && is_whitespace(chars[a])
        invariant
            a <= s.len(),
            s == chars@,
            skip_space(s, 0) == skip_space(s, a as int),
        decreases chars.len() - a,
    {
        a = a + 1;
    }
    let mut b: usize = chars.len();
    while b > 0 && is_whitespace(chars[b - 1])
        invariant
            b <= s.len(),
            s == chars@,
            trim_end_index(s, s.len() as int) == trim_end_index(s, b as int),
        decreases b,
    {
        b = b - 1;
    }
    if a < b {
        string_from_range(&chars, a, b)
    } else {
        String::new()
    }
}

/// Whether the first word of `line` starts a top-level item.
fn starts_with_top_level_item(line: &str) -> (b: bool)
    ensures
        b == starts_item(line@),
{
    let chars = chars_of(line);
    let ghost s = chars@;
    let mut a: usize = 0;
    while a < chars.len() && is_whitespace(chars[a])
        invariant
            a <= s.len(),
            s == chars@,
            skip_space(s, 0) == skip_space(s, a as int),
        decreases chars.len() - a,
    {
        a = a + 1;
    }
    if a >= chars.len() {
        return false;
    }
    let mut e: usize = a;
    while e < chars.len() && !is_whitespace(chars[e])
        invariant
            a <= e <= s.len(),
            s == chars@,
            word_end(s, a as int) == word_end(s, e as int),
        decreases chars.len() - e,
    {
        e = e + 1;
    }
    range_equals(&chars, a, e, "module") || range_equals(&chars, a, e, "import") || range_equals(
        &chars,
        a,
        e,
        "as",
    ) || range_equals(&chars, a, e, "export") || range_equals(&chars, a, e, "fn") || range_equals(
        &chars,
        a,
        e,
        "struct",
    ) || range_equals(&chars, a, e, "enum")
}

/// The source the shell evaluates for a typed line.
pub fn repl_source_for_line(line: &str) -> (s: String)
    ensures
        s@ == repl_source_text(line@),
{
    let t = trim(line);
    if starts_with_top_level_item(t.as_str()) {
        t
    } else {
        let mut s = String::new();
        push_str(&mut s, "fn repl() {\n  ");
        push_str(&mut s, t.as_str());
        push_str(&mut s, "\n}");
        s
    }
}

/// The program the shell runs for a typed line, if the line is a statement
/// or an expression.
pub fn repl_run_source_for_line(line: &str) -> (r: Option<String>)
    ensures
        match repl_run_text(line@) {
            Some(t) => r matches Some(s) && s@ == t,
            None => r is None,
        },
{
    let t = trim(line);
    let chars = chars_of(t.as_str());
    if chars.len() == 0 || starts_with_top_level_item(t.as_str()) {
        return None;
    }
    let mut s = String::new();
    if chars[chars.len() - 1] == ';' {
        push_str(&mut s, "fn main() {\n  ");
        push_str(&mut s, t.as_str());
        push_str(&mut s, "\n}");
    } else {
        push_str(&mut s, "fn main() {\n  return ");
        push_str(&mut s, t.as_str());
        push_str(&mut s, ";\n}");
    }
    Some(s)
}

} // verus!
