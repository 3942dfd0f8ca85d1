//! The texts of the interactive shell: its commands and documentation
//! topics, completion, syntax colouring with terminal escape codes, and the
//! help, topic, example and API pages in English and Chinese.
use vstd::prelude::*;
use crate::text::{
    chars_of, lemma_concat_assoc, lemma_text_less_total, push_char, push_repeat, push_str, repeat_char,
    spec_is_ascii_alphabetic, spec_is_ascii_digit, str_equal, string_from_range, text_before, text_less,
};
use crate::mir::{insert_by_key, lemma_insert_at_position, lemma_sort_by_key_len, sort_by_key};
use crate::module_graph::dedup_adjacent;

verus! {

/// A documentation topic.
#[derive(Clone, Copy)]
pub struct ReplTopic {
    pub name: &'static str,
    pub summary: &'static str,
    pub example: &'static str,
}

/// A shell command.
#[derive(Clone, Copy)]
pub struct ReplCommand {
    pub name: &'static str,
    pub summary: &'static str,
}

/// The language of the shell's texts.
#[derive(Clone, Copy, Debug, PartialEq, Eq, Structural)]
pub enum Language {
    Zh,
    En,
}

impl Language {
    /// The language's code.
    pub fn code(self) -> (c: &'static str)
        ensures
            c@ == (if self == Language::Zh { "zh"@ } else { "en"@ }),
    {
        match self {
            Language::Zh => "zh",
            Language::En => "en",
        }
    }
}

/// How a piece of shell text is coloured.
#[derive(Clone, Copy, PartialEq, Eq, Structural)]
pub enum Style {
    Bold,
    Command,
    Error,
    Keyword,
    Operator,
    Type,
    Value,
    Hint,
}

/// The terminal graphics code of a style.
pub open spec fn style_code(style: Style) -> Seq<char> {
    match style {
        Style::Bold => "1"@,
        Style::Command => "1;38;5;214"@,
        Style::Error => "1;38;5;196"@,
        Style::Keyword => "1;38;5;81"@,
        Style::Operator => "1;38;5;213"@,
        Style::Type => "1;38;5;141"@,
        Style::Value => "1;38;5;120"@,
        Style::Hint => "38;5;245"@,
    }
}

/// `text` wrapped in the escape codes that switch `style` on and off.
pub open spec fn colored(text: Seq<char>, style: Style) -> Seq<char> {
    "\x1b["@ + style_code(style) + "m"@ + text + "\x1b[0m"@
}

fn code_of(style: Style) -> (c: &'static str)
    ensures
        c@ == style_code(style),
{
    match style {
        Style::Bold => "1",
        Style::Command => "1;38;5;214",
        Style::Error => "1;38;5;196",
        Style::Keyword => "1;38;5;81",
        Style::Operator => "1;38;5;213",
        Style::Type => "1;38;5;141",
        Style::Value => "1;38;5;120",
        Style::Hint => "38;5;245",
    }
}

/// `text` in the colours of `style`.
pub fn color(text: &str, style: Style) -> (s: String)
    ensures
        s@ == colored(text@, style),
{
    let mut s = String::new();
    push_color(&mut s, text, style);
    assert(s@ =~= colored(text@, style));
    s
}

pub(crate) fn push_color(out: &mut String, text: &str, style: Style)
    ensures
        final(out)@ == old(out)@ + colored(text@, style),
{
    push_str(out, "\x1b[");
    push_str(out, code_of(style));
    push_str(out, "m");
    push_str(out, text);
    push_str(out, "\x1b[0m");
    assert(final(out)@ =~= old(out)@ + colored(text@, style));
}

// ---------------------------------------------------------------------------
// Syntax colouring
// ---------------------------------------------------------------------------

pub open spec fn is_keyword_word(t: Seq<char>) -> bool {
    ||| t == "module"@
    ||| t == "import"@
    ||| t == "as"@
    ||| t == "export"@
    ||| t == "fn"@
    ||| t == "let"@
    ||| t == "mut"@
    ||| t == "return"@
    ||| t == "break"@
    ||| t == "continue"@
    ||| t == "if"@
    ||| t == "else"@
    ||| t == "while"@
    ||| t == "match"@
    ||| t == "struct"@
    ||| t == "enum"@
}

pub open spec fn is_type_word(t: Seq<char>) -> bool {
    t == "Int"@ || t == "String"@ || t == "Bool"@
}

pub open spec fn is_bool_word(t: Seq<char>) -> bool {
    t == "true"@ || t == "false"@
}

pub open spec fn is_command_word(t: Seq<char>) -> bool {
    ||| t == ":help"@
    ||| t == ":api"@
    ||| t == ":topics"@
    ||| t == ":examples"@
    ||| t == ":doc"@
    ||| t == ":complete"@
    ||| t == ":lang"@
    ||| t == ":quit"@
    ||| t == ":exit"@
}

/// A word of source text as the shell colours it.
pub open spec fn token_text(t: Seq<char>) -> Seq<char> {
    if t.len() == 0 {
        Seq::empty()
    } else if is_keyword_word(t) {
        colored(t, Style::Keyword)
    } else if is_type_word(t) {
        colored(t, Style::Type)
    } else if is_bool_word(t) {
        colored(t, Style::Value)
    } else if is_command_word(t) {
        colored(t, Style::Command)
    } else {
        t
    }
}

pub open spec fn is_operator_char(c: char) -> bool {
    c == '=' || c == '!' || c == '<' || c == '>' || c == '+' || c == '-' || c == '*' || c == '/' || c
        == '&' || c == '|' || c == ':'
}

/// A character between words as the shell colours it.
pub open spec fn separator_text(c: char) -> Seq<char> {
    if is_operator_char(c) {
        colored(seq![c], Style::Operator)
    } else {
        seq![c]
    }
}

/// Whether `c` continues the current word (a `:` only starts one).
pub open spec fn is_word_char(c: char, word_empty: bool) -> bool {
    spec_is_ascii_digit(c) || spec_is_ascii_alphabetic(c) || c == '_' || (c == ':' && word_empty)
}

/// The coloured text of `s` from index `i`, with `word` read so far.
pub open spec fn highlight_from(s: Seq<char>, i: int, word: Seq<char>) -> Seq<char>
    decreases s.len() - i,
{
    if i >= s.len() || i < 0 {
        token_text(word)
    } else if is_word_char(s[i], word.len() == 0) {
        highlight_from(s, i + 1, word.push(s[i]))
    } else {
        token_text(word) + separator_text(s[i]) + highlight_from(s, i + 1, Seq::empty())
    }
}

/// Source text coloured for the terminal.
pub open spec fn highlighted(s: Seq<char>) -> Seq<char> {
    highlight_from(s, 0, Seq::empty())
}

fn push_token(out: &mut String, word: &String)
    ensures
        final(out)@ == old(out)@ + token_text(word@),
{
    let w = word.as_str();
    if w.is_empty() {
        assert(final(out)@ =~= old(out)@ + token_text(word@));
        return;
    }
    if str_equal(w, "module") || str_equal(w, "import") || str_equal(w, "as") || str_equal(w, "export")
        || str_equal(w, "fn") || str_equal(w, "let") || str_equal(w, "mut") || str_equal(w, "return")
        || str_equal(w, "break") || str_equal(w, "continue") || str_equal(w, "if") || str_equal(w, "else")
        || str_equal(w, "while") || str_equal(w, "match") || str_equal(w, "struct") || str_equal(
        w,
        "enum",
    ) {
        push_color(out, w, Style::Keyword);
    } else if str_equal(w, "Int") || str_equal(w, "String") || str_equal(w, "Bool") {
        push_color(out, w, Style::Type);
    } else if str_equal(w, "true") || str_equal(w, "false") {
        push_color(out, w, Style::Value);
    } else if str_equal(w, ":help") || str_equal(w, ":api") || str_equal(w, ":topics") || str_equal(
        w,
        ":examples",
    ) || str_equal(w, ":doc") || str_equal(w, ":complete") || str_equal(w, ":lang") || str_equal(
        w,
        ":quit",
    ) || str_equal(w, ":exit") {
        push_color(out, w, Style::Command);
    } else {
        push_str(out, w);
    }
}

fn push_separator(out: &mut String, c: char)
    ensures
        final(out)@ == old(out)@ + separator_text(c),
{
    if c == '=' || c == '!' || c == '<' || c == '>' || c == '+' || c == '-' || c == '*' || c == '/' || c
        == '&' || c == '|' || c == ':' {
        let mut one = String::new();
        push_char(&mut one, c);
        assert(one@ =~= seq![c]);
        push_color(out, one.as_str(), Style::Operator);
    } else {
        push_char(out, c);
    }
}

/// Source text coloured for the terminal: keywords, types, boolean values,
/// shell commands and operators each in their own colour.
pub fn highlight_zeta(source: &str) -> (s: String)
    ensures
        s@ == highlighted(source@),
{
    let chars = chars_of(source);
    let ghost text = chars@;
    let mut out = String::new();
    let mut word = String::new();
    let mut i: usize = 0;
    while i < chars.len()
        invariant
            i <= text.len(),
            text == chars@,
            text == source@,
            out@ + highlight_from(text, i as int, word@) == highlighted(text),
        decreases chars.len() - i,
    {
        let c = chars[i];
        let is_word = crate::text::is_ascii_digit(c) || crate::text::is_ascii_alphabetic(c) || c == '_'
            || (c == ':' && word.as_str().is_empty());
        if is_word {
            push_char(&mut word, c);
        } else {
            let ghost o0 = out@;
            let ghost w0 = word@;
            push_token(&mut out, &word);
            push_separator(&mut out, c);
            word = String::new();
            proof {
                lemma_concat_assoc(o0, token_text(w0), separator_text(c));
                assert(out@ + highlight_from(text, i + 1, word@) =~= o0 + highlight_from(
                    text,
                    i as int,
                    w0,
                ));
            }
        }
        i = i + 1;
    }
    let ghost o0 = out@;
    push_token(&mut out, &word);
    out
}

// ---------------------------------------------------------------------------
// Layout
// ---------------------------------------------------------------------------

/// The width of text in terminal columns: one for an ASCII character, two
/// for any other.
pub open spec fn display_width(s: Seq<char>) -> nat
    decreases s.len(),
{
    if s.len() == 0 {
        0
    } else {
        display_width(s.drop_last()) + if (s.last() as u32) < 128 { 1nat } else { 2nat }
    }
}

pub proof fn lemma_display_width_bound(s: Seq<char>)
    ensures
        display_width(s) <= 2 * s.len(),
    decreases s.len(),
{
    if s.len() > 0 {
        lemma_display_width_bound(s.drop_last());
    }
}

fn display_width_of(value: &str) -> (w: usize)
    requires
        2 * value@.len() <= usize::MAX,
    ensures
        w == display_width(value@),
{
    let chars = chars_of(value);
    let mut w: usize = 0;
    let mut i: usize = 0;
    while i < chars.len()
        invariant
            i <= chars@.len(),
            chars@ == value@,
            2 * value@.len() <= usize::MAX,
            w == display_width(chars@.subrange(0, i as int)),
        decreases chars.len() - i,
    {
        proof {
            let sub = chars@.subrange(0, i as int + 1);
            assert(sub.drop_last() =~= chars@.subrange(0, i as int));
            lemma_display_width_bound(chars@.subrange(0, i as int));
        }
        if (chars[i] as u32) < 128 {
            w = w + 1;
        } else {
            w = w + 2;
        }
        i = i + 1;
    }
    assert(chars@.subrange(0, chars@.len() as int) =~= chars@);
    w
}

/// `width - w`, or zero.
pub open spec fn gap(width: nat, w: nat) -> nat {
    if width > w { (width - w) as nat } else { 0 }
}

/// A row of a two-column table: the label, padding up to `width` columns of
/// the plain label plus two, and the summary.
pub open spec fn doc_row_text(label: Seq<char>, raw_label: Seq<char>, summary: Seq<char>, width: nat) -> Seq<
    char,
> {
    "  "@ + label + repeat_char(' ', gap(width, display_width(raw_label)) + 2) + summary + "\n"@
}

pub proof fn lemma_display_width_prefix(s: Seq<char>, i: int)
    requires
        0 <= i <= s.len(),
    ensures
        display_width(s.subrange(0, i)) <= display_width(s),
    decreases s.len() - i,
{
    if i < s.len() {
        lemma_display_width_prefix(s, i + 1);
        let sub = s.subrange(0, i + 1);
        assert(sub.drop_last() =~= s.subrange(0, i));
    } else {
        assert(s.subrange(0, i) =~= s);
    }
}

/// How many columns `raw` falls short of `width`.
fn gap_for(raw: &str, width: usize) -> (g: usize)
    requires
        width < usize::MAX - 2,
    ensures
        g == gap(width as nat, display_width(raw@)),
{
    let chars = chars_of(raw);
    let mut w: usize = 0;
    let mut i: usize = 0;
    while i < chars.len() && w < width
        invariant
            i <= chars@.len(),
            chars@ == raw@,
            width < usize::MAX - 2,
            w == display_width(chars@.subrange(0, i as int)),
        decreases chars.len() - i,
    {
        proof {
            let sub = chars@.subrange(0, i as int + 1);
            assert(sub.drop_last() =~= chars@.subrange(0, i as int));
        }
        if (chars[i] as u32) < 128 {
            w = w + 1;
        } else {
            w = w + 2;
        }
        i = i + 1;
    }
    proof {
        lemma_display_width_prefix(chars@, i as int);
        if i == chars@.len() {
            assert(chars@.subrange(0, i as int) =~= chars@);
        }
    }
    if width > w { width - w } else { 0 }
}

fn push_doc_row(out: &mut String, label: &str, raw_label: &str, summary: &str, width: usize)
    requires
        width < usize::MAX - 2,
    ensures
        final(out)@ == old(out)@ + doc_row_text(label@, raw_label@, summary@, width as nat),
{
    let padding = gap_for(raw_label, width);
    push_str(out, "  ");
    push_str(out, label);
    push_repeat(out, ' ', padding + 2);
    push_str(out, summary);
    push_str(out, "\n");
    assert(final(out)@ =~= old(out)@ + doc_row_text(label@, raw_label@, summary@, width as nat));
}

/// A section heading: a diamond and the title in bold.
pub open spec fn section_title_text(title: Seq<char>) -> Seq<char> {
    colored("◆ "@ + title, Style::Bold) + "\n"@
}

fn push_section_title(out: &mut String, title: &str)
    ensures
        final(out)@ == old(out)@ + section_title_text(title@),
{
    let mut t = String::new();
    push_str(&mut t, "◆ ");
    push_str(&mut t, title);
    push_color(out, t.as_str(), Style::Bold);
    push_str(out, "\n");
    assert(final(out)@ =~= old(out)@ + section_title_text(title@));
}

/// `s` padded with spaces on the right to `width` characters.
pub open spec fn padded_right(s: Seq<char>, width: nat) -> Seq<char> {
    s + repeat_char(' ', gap(width, s.len()))
}


// ---------------------------------------------------------------------------
// Commands and topics
// ---------------------------------------------------------------------------

/// The shell's commands, in the order the help lists them.
pub open spec fn command_list() -> Seq<ReplCommand> {
    seq![
        ReplCommand { name: ":help", summary: "Show commands, learning paths, and common topics." },
        ReplCommand { name: ":api", summary: "Show the Stage 0 API and standard namespace overview." },
        ReplCommand { name: ":topics", summary: "List all documentation topics available in the terminal." },
        ReplCommand { name: ":examples", summary: "Show runnable snippets for the current language stage." },
        ReplCommand { name: ":doc <topic>", summary: "Show short documentation for a language or API topic." },
        ReplCommand { name: ":complete <prefix>", summary: "List completion candidates for a prefix." },
        ReplCommand { name: ":quit", summary: "Exit the REPL." },
    ]
}

/// The documentation topics, in the order the shell lists them.
pub open spec fn topic_list() -> Seq<ReplTopic> {
    seq![
        ReplTopic {
            name: "getting-started",
            summary: "Start with expressions, let bindings, functions, run/check, and the online playground.",
            example: "40 + 2",
        },
        ReplTopic {
            name: "tutorial",
            summary: "Guided learning path: expressions, functions, control flow, data types, tooling.",
            example: ":doc tutorial",
        },
        ReplTopic {
            name: "api",
            summary: "Browse the Stage 0 built-in language and standard API surface from the terminal.",
            example: ":doc std",
        },
        ReplTopic {
            name: "std",
            summary: "Stage 0 standard API boundary. The resolver currently accepts std.core and std.io imports.",
            example: "import std.core;",
        },
        ReplTopic {
            name: "playground",
            summary: "The website playground runs the real Zeta compiler frontend compiled to WebAssembly.",
            example: "https://zeta.jennieapp.com/#playground",
        },
        ReplTopic {
            name: "module",
            summary: "Declare the current source module.",
            example: "module demo.core;",
        },
        ReplTopic {
            name: "import",
            summary: "Import another module path. Use `as` to create a local alias in module graph programs.",
            example: "import demo.math as math;",
        },
        ReplTopic {
            name: "as",
            summary: "Assign a local alias to an imported module path.",
            example: "import demo.math as math;",
        },
        ReplTopic {
            name: "fn",
            summary: "Declare a function. In the REPL, statements are wrapped in a temporary function.",
            example: "fn main(name: String) -> Int { return 0; }",
        },
        ReplTopic {
            name: "let",
            summary: "Declare a local binding with an optional type annotation. Use `let mut` when the binding must be reassigned.",
            example: "let mut answer: Int = 40; answer = answer + 2;",
        },
        ReplTopic {
            name: "mut",
            summary: "Mark a local binding as mutable so later assignment is allowed.",
            example: "let mut count: Int = 0;",
        },
        ReplTopic {
            name: "if",
            summary: "Branch on a Bool condition. Comparisons and boolean logic return Bool.",
            example: "if ready && !done { return 1; } else { return 0; }",
        },
        ReplTopic {
            name: "while",
            summary: "Loop while a Bool condition is true. Use break or continue for loop-local control flow.",
            example: "while count < 10 { count = count + 1; if count == 3 { continue; } }",
        },
        ReplTopic {
            name: "break",
            summary: "Exit the nearest enclosing while loop.",
            example: "while true { break; }",
        },
        ReplTopic {
            name: "continue",
            summary: "Skip the rest of the current while loop iteration.",
            example: "while count < 3 { count = count + 1; continue; }",
        },
        ReplTopic {
            name: "match",
            summary: "Match a value against simple patterns.",
            example: "match value { 0 -> { return 0; }, _ -> { return value; }, }",
        },
        ReplTopic {
            name: "struct",
            summary: "Declare a record type. Struct literals and field access are executable in full programs.",
            example: "let user: User = User { name: \"Ada\", age: 42 };",
        },
        ReplTopic {
            name: "enum",
            summary: "Declare a tagged set of variants. Use qualified variants such as ResultTag.Ok.",
            example: "let tag: ResultTag = ResultTag.Ok;",
        },
        ReplTopic {
            name: "Int",
            summary: "Integer scalar type currently supported by the Stage 0 checker.",
            example: "let value: Int = 1 + 2;",
        },
        ReplTopic {
            name: "String",
            summary: "String scalar type currently supported by the Stage 0 checker.",
            example: "let name: String = \"zeta\";",
        },
        ReplTopic {
            name: "Bool",
            summary: "Boolean scalar type used by if and while conditions. Use &&, ||, and ! to combine Bool values.",
            example: "let ready: Bool = true && !false;",
        },
        ReplTopic {
            name: "IntArray",
            summary: "Homogeneous Int array. Use [..] literals, integer indexing, and .len.",
            example: "let values: IntArray = [2, 4, 6];",
        },
        ReplTopic {
            name: "StringArray",
            summary: "Homogeneous String array. Use [..] literals, integer indexing, and .len.",
            example: "let names: StringArray = [\"Ada\", \"Zeta\"];",
        },
        ReplTopic {
            name: "BoolArray",
            summary: "Homogeneous Bool array. Use [..] literals, integer indexing, and .len.",
            example: "let flags: BoolArray = [true, false];",
        },
        ReplTopic {
            name: "string_len",
            summary: "std.core builtin returning UTF-8 byte length for a String.",
            example: "import std.core; fn main() -> Int { return string_len(\"zeta\"); }",
        },
        ReplTopic {
            name: "string_byte_at",
            summary: "std.core builtin returning the byte at an Int index as Int.",
            example: "import std.core; fn main() -> Int { return string_byte_at(\"A9\", 1); }",
        },
        ReplTopic {
            name: "string_byte_slice",
            summary: "std.core builtin returning a String slice by byte start and byte length.",
            example: "import std.core; fn main() -> String { return string_byte_slice(\"zeta\", 1, 2); }",
        },
        ReplTopic {
            name: "ascii_is_digit",
            summary: "std.core builtin that checks whether an Int byte is ASCII digit.",
            example: "import std.core; fn main() -> Bool { return ascii_is_digit(string_byte_at(\"9\", 0)); }",
        },
        ReplTopic {
            name: "ascii_is_alpha",
            summary: "std.core builtin that checks whether an Int byte is ASCII alphabetic.",
            example: "import std.core; fn main() -> Bool { return ascii_is_alpha(string_byte_at(\"A\", 0)); }",
        },
        ReplTopic {
            name: "ascii_is_alnum",
            summary: "std.core builtin that checks whether an Int byte is ASCII alphabetic or digit.",
            example: "import std.core; fn main() -> Bool { return ascii_is_alnum(string_byte_at(\"A9\", 1)); }",
        },
        ReplTopic {
            name: "ascii_is_whitespace",
            summary: "std.core builtin that checks whether an Int byte is ASCII whitespace.",
            example: "import std.core; fn main() -> Bool { return ascii_is_whitespace(string_byte_at(\" \", 0)); }",
        },
    ]
}

/// The shell's commands.
pub fn commands() -> (r: Vec<ReplCommand>)
    ensures
        r@ == command_list(),
{
    let r = vec![
        ReplCommand { name: ":help", summary: "Show commands, learning paths, and common topics." },
        ReplCommand { name: ":api", summary: "Show the Stage 0 API and standard namespace overview." },
        ReplCommand { name: ":topics", summary: "List all documentation topics available in the terminal." },
        ReplCommand { name: ":examples", summary: "Show runnable snippets for the current language stage." },
        ReplCommand { name: ":doc <topic>", summary: "Show short documentation for a language or API topic." },
        ReplCommand { name: ":complete <prefix>", summary: "List completion candidates for a prefix." },
        ReplCommand { name: ":quit", summary: "Exit the REPL." },
    ];
    assert(r@ =~= command_list());
    r
}

/// The documentation topics.
pub fn topics() -> (r: Vec<ReplTopic>)
    ensures
        r@ == topic_list(),
{
    let r = vec![
        ReplTopic {
            name: "getting-started",
            summary: "Start with expressions, let bindings, functions, run/check, and the online playground.",
            example: "40 + 2",
        },
        ReplTopic {
            name: "tutorial",
            summary: "Guided learning path: expressions, functions, control flow, data types, tooling.",
            example: ":doc tutorial",
        },
        ReplTopic {
            name: "api",
            summary: "Browse the Stage 0 built-in language and standard API surface from the terminal.",
            example: ":doc std",
        },
        ReplTopic {
            name: "std",
            summary: "Stage 0 standard API boundary. The resolver currently accepts std.core and std.io imports.",
            example: "import std.core;",
        },
        ReplTopic {
            name: "playground",
            summary: "The website playground runs the real Zeta compiler frontend compiled to WebAssembly.",
            example: "https://zeta.jennieapp.com/#playground",
        },
        ReplTopic {
            name: "module",
            summary: "Declare the current source module.",
            example: "module demo.core;",
        },
        ReplTopic {
            name: "import",
            summary: "Import another module path. Use `as` to create a local alias in module graph programs.",
            example: "import demo.math as math;",
        },
        ReplTopic {
            name: "as",
            summary: "Assign a local alias to an imported module path.",
            example: "import demo.math as math;",
        },
        ReplTopic {
            name: "fn",
            summary: "Declare a function. In the REPL, statements are wrapped in a temporary function.",
            example: "fn main(name: String) -> Int { return 0; }",
        },
        ReplTopic {
            name: "let",
            summary: "Declare a local binding with an optional type annotation. Use `let mut` when the binding must be reassigned.",
            example: "let mut answer: Int = 40; answer = answer + 2;",
        },
        ReplTopic {
            name: "mut",
            summary: "Mark a local binding as mutable so later assignment is allowed.",
            example: "let mut count: Int = 0;",
        },
        ReplTopic {
            name: "if",
            summary: "Branch on a Bool condition. Comparisons and boolean logic return Bool.",
            example: "if ready && !done { return 1; } else { return 0; }",
        },
        ReplTopic {
            name: "while",
            summary: "Loop while a Bool condition is true. Use break or continue for loop-local control flow.",
            example: "while count < 10 { count = count + 1; if count == 3 { continue; } }",
        },
        ReplTopic {
            name: "break",
            summary: "Exit the nearest enclosing while loop.",
            example: "while true { break; }",
        },
        ReplTopic {
            name: "continue",
            summary: "Skip the rest of the current while loop iteration.",
            example: "while count < 3 { count = count + 1; continue; }",
        },
        ReplTopic {
            name: "match",
            summary: "Match a value against simple patterns.",
            example: "match value { 0 -> { return 0; }, _ -> { return value; }, }",
        },
        ReplTopic {
            name: "struct",
            summary: "Declare a record type. Struct literals and field access are executable in full programs.",
            example: "let user: User = User { name: \"Ada\", age: 42 };",
        },
        ReplTopic {
            name: "enum",
            summary: "Declare a tagged set of variants. Use qualified variants such as ResultTag.Ok.",
            example: "let tag: ResultTag = ResultTag.Ok;",
        },
        ReplTopic {
            name: "Int",
            summary: "Integer scalar type currently supported by the Stage 0 checker.",
            example: "let value: Int = 1 + 2;",
        },
        ReplTopic {
            name: "String",
            summary: "String scalar type currently supported by the Stage 0 checker.",
            example: "let name: String = \"zeta\";",
        },
        ReplTopic {
            name: "Bool",
            summary: "Boolean scalar type used by if and while conditions. Use &&, ||, and ! to combine Bool values.",
            example: "let ready: Bool = true && !false;",
        },
        ReplTopic {
            name: "IntArray",
            summary: "Homogeneous Int array. Use [..] literals, integer indexing, and .len.",
            example: "let values: IntArray = [2, 4, 6];",
        },
        ReplTopic {
            name: "StringArray",
            summary: "Homogeneous String array. Use [..] literals, integer indexing, and .len.",
            example: "let names: StringArray = [\"Ada\", \"Zeta\"];",
        },
        ReplTopic {
            name: "BoolArray",
            summary: "Homogeneous Bool array. Use [..] literals, integer indexing, and .len.",
            example: "let flags: BoolArray = [true, false];",
        },
        ReplTopic {
            name: "string_len",
            summary: "std.core builtin returning UTF-8 byte length for a String.",
            example: "import std.core; fn main() -> Int { return string_len(\"zeta\"); }",
        },
        ReplTopic {
            name: "string_byte_at",
            summary: "std.core builtin returning the byte at an Int index as Int.",
            example: "import std.core; fn main() -> Int { return string_byte_at(\"A9\", 1); }",
        },
        ReplTopic {
            name: "string_byte_slice",
            summary: "std.core builtin returning a String slice by byte start and byte length.",
            example: "import std.core; fn main() -> String { return string_byte_slice(\"zeta\", 1, 2); }",
        },
        ReplTopic {
            name: "ascii_is_digit",
            summary: "std.core builtin that checks whether an Int byte is ASCII digit.",
            example: "import std.core; fn main() -> Bool { return ascii_is_digit(string_byte_at(\"9\", 0)); }",
        },
        ReplTopic {
            name: "ascii_is_alpha",
            summary: "std.core builtin that checks whether an Int byte is ASCII alphabetic.",
            example: "import std.core; fn main() -> Bool { return ascii_is_alpha(string_byte_at(\"A\", 0)); }",
        },
        ReplTopic {
            name: "ascii_is_alnum",
            summary: "std.core builtin that checks whether an Int byte is ASCII alphabetic or digit.",
            example: "import std.core; fn main() -> Bool { return ascii_is_alnum(string_byte_at(\"A9\", 1)); }",
        },
        ReplTopic {
            name: "ascii_is_whitespace",
            summary: "std.core builtin that checks whether an Int byte is ASCII whitespace.",
            example: "import std.core; fn main() -> Bool { return ascii_is_whitespace(string_byte_at(\" \", 0)); }",
        },
    ];
    assert(r@ =~= topic_list());
    r
}


pub open spec fn topic_names_seq() -> Seq<Seq<char>> {
    topic_list().map_values(|t: ReplTopic| t.name@)
}

/// The topic names separated by commas.
pub open spec fn topic_names_text() -> Seq<char> {
    crate::mir::dump::comma_joined(topic_names_seq())
}

/// Appends the topic names separated by commas.
fn push_topic_names(out: &mut String)
    ensures
        final(out)@ == old(out)@ + topic_names_text(),
{
    let ts = topics();
    let ghost names = topic_names_seq();
    let mut i: usize = 0;
    while i < ts.len()
        invariant
            i <= ts@.len(),
            ts@ == topic_list(),
            names == topic_names_seq(),
            out@ == old(out)@ + crate::mir::dump::comma_joined(names.subrange(0, i as int)),
        decreases ts.len() - i,
    {
        if i > 0 {
            push_str(out, ", ");
        }
        push_str(out, ts[i].name);
        proof {
            let sub = names.subrange(0, i as int + 1);
            assert(sub.drop_last() =~= names.subrange(0, i as int));
            assert(sub.last() == ts@[i as int].name@);
            assert(out@ =~= old(out)@ + crate::mir::dump::comma_joined(sub));
        }
        i = i + 1;
    }
    assert(names.subrange(0, names.len() as int) =~= names);
}

/// The topic names separated by commas.
pub fn topic_names() -> (s: String)
    ensures
        s@ == topic_names_text(),
{
    let mut s = String::new();
    push_topic_names(&mut s);
    assert(s@ =~= topic_names_text());
    s
}

/// The first topic called `name`, if any.
pub open spec fn find_topic(ts: Seq<ReplTopic>, name: Seq<char>) -> Option<ReplTopic>
    decreases ts.len(),
{
    if ts.len() == 0 {
        None
    } else if ts[0].name@ == name {
        Some(ts[0])
    } else {
        find_topic(ts.drop_first(), name)
    }
}

/// The documentation topic called `topic`.
pub fn doc(topic: &str) -> (r: Option<ReplTopic>)
    ensures
        r == find_topic(topic_list(), topic@),
{
    let ts = topics();
    let mut i: usize = 0;
    assert(ts@.skip(0) =~= ts@);
    while i < ts.len()
        invariant
            i <= ts@.len(),
            ts@ == topic_list(),
            find_topic(topic_list(), topic@) == find_topic(ts@.skip(i as int), topic@),
        decreases ts.len() - i,
    {
        assert(ts@.skip(i as int).drop_first() =~= ts@.skip(i as int + 1));
        assert(ts@.skip(i as int)[0] == ts@[i as int]);
        if str_equal(ts[i].name, topic) {
            return Some(ts[i]);
        }
        i = i + 1;
    }
    assert(ts@.skip(i as int) =~= Seq::<ReplTopic>::empty());
    None
}

// ---------------------------------------------------------------------------
// Completion
// ---------------------------------------------------------------------------

/// The word a command is completed by: its first word.
pub open spec fn command_word(c: ReplCommand) -> Seq<char> {
    match crate::first_word(c.name@) {
        Some(w) => w,
        None => c.name@,
    }
}

/// Everything a prefix may complete to, before filtering.
pub open spec fn completion_candidates() -> Seq<Seq<char>> {
    command_list().map_values(|c: ReplCommand| command_word(c)) + topic_names_seq() + seq![
        "std"@,
        "std.io"@,
        "std.core"@,
        "ResultTag.Ok"@,
        "ResultTag.Err"@,
    ]
}

/// The words of `ws` that start with `p`, in order.
pub open spec fn with_prefix(ws: Seq<Seq<char>>, p: Seq<char>) -> Seq<Seq<char>>
    decreases ws.len(),
{
    if ws.len() == 0 {
        Seq::empty()
    } else {
        with_prefix(ws.drop_last(), p) + if p.is_prefix_of(ws.last()) {
            seq![ws.last()]
        } else {
            Seq::empty()
        }
    }
}

pub open spec fn keyed(ws: Seq<Seq<char>>) -> Seq<(Seq<char>, ())> {
    ws.map_values(|w: Seq<char>| (w, ()))
}

pub open spec fn keys_of(ps: Seq<(Seq<char>, ())>) -> Seq<Seq<char>> {
    ps.map_values(|p: (Seq<char>, ())| p.0)
}

/// The completions of a prefix: the candidates that start with it, in text
/// order, each once.
pub open spec fn completions(prefix: Seq<char>) -> Seq<Seq<char>> {
    keys_of(dedup_adjacent(sort_by_key(keyed(with_prefix(completion_candidates(), prefix)))))
}

pub(crate) fn starts_with(s: &str, p: &str) -> (b: bool)
    ensures
        b == p@.is_prefix_of(s@),
{
    let a = chars_of(s);
    let q = chars_of(p);
    if q.len() > a.len() {
        return false;
    }
    let mut i: usize = 0;
    while i < q.len()
        invariant
            i <= q@.len(),
            q@.len() <= a@.len(),
            a@ == s@,
            q@ == p@,
            forall|k: int| 0 <= k < i ==> q@[k] == a@[k],
        decreases q.len() - i,
    {
        if q[i] != a[i] {
            return false;
        }
        i = i + 1;
    }
    true
}

/// The first word of `text`, or all of it when it has none.
fn first_word_or_all(text: &str) -> (w: String)
    ensures
        w@ == match crate::first_word(text@) {
            Some(x) => x,
            None => text@,
        },
{
    let chars = chars_of(text);
    let ghost s = chars@;
    let mut a: usize = 0;
    while a < chars.len() && crate::text::is_whitespace(chars[a])
        invariant
            a <= s.len(),
            s == chars@,
            crate::skip_space(s, 0) == crate::skip_space(s, a as int),
        decreases chars.len() - a,
    {
        a = a + 1;
    }
    if a >= chars.len() {
        return crate::text::copy_string(text);
    }
    let mut e: usize = a;
    while e < chars.len() && !crate::text::is_whitespace(chars[e])
        invariant
            a <= e <= s.len(),
            s == chars@,
            crate::word_end(s, a as int) == crate::word_end(s, e as int),
        decreases chars.len() - e,
    {
        e = e + 1;
    }
    crate::text::string_from_range(&chars, a, e)
}

/// The completions of `prefix`: commands, topics and standard names that
/// start with it, sorted and without repeats.
pub fn complete(prefix: &str) -> (r: Vec<String>)
    ensures
        crate::text::strings_view(r@) == completions(prefix@),
{
    let mut words: Vec<String> = Vec::new();
    let ghost cands = completion_candidates();
    let cs = commands();
    let ts = topics();
    let extras: Vec<&'static str> = vec!["std", "std.io", "std.core", "ResultTag.Ok", "ResultTag.Err"];
    let ghost cw = command_list().map_values(|c: ReplCommand| command_word(c));
    let ghost tw = topic_names_seq();
    let ghost xw = seq!["std"@, "std.io"@, "std.core"@, "ResultTag.Ok"@, "ResultTag.Err"@];
    assert(cands == cw + tw + xw);
    let mut all: Vec<String> = Vec::new();
    let mut i: usize = 0;
    while i < cs.len()
        invariant
            i <= cs@.len(),
            cs@ == command_list(),
            cw == command_list().map_values(|c: ReplCommand| command_word(c)),
            all@.len() == i,
            forall|q: int| 0 <= q < i ==> (#[trigger] all@[q])@ == cw[q],
        decreases cs.len() - i,
    {
        all.push(first_word_or_all(cs[i].name));
        i = i + 1;
    }
    let ghost nc = cw.len();
    let mut j: usize = 0;
    while j < ts.len()
        invariant
            j <= ts@.len(),
            ts@ == topic_list(),
            tw == topic_names_seq(),
            nc == cw.len(),
            all@.len() == nc + j,
            forall|q: int| 0 <= q < nc ==> (#[trigger] all@[q])@ == cw[q],
            forall|q: int| 0 <= q < j ==> (#[trigger] all@[nc + q])@ == tw[q],
        decreases ts.len() - j,
    {
        all.push(crate::text::copy_string(ts[j].name));
        j = j + 1;
    }
    let ghost nt = tw.len();
    let mut k: usize = 0;
    while k < extras.len()
        invariant
            k <= extras@.len(),
            extras@ == seq!["std", "std.io", "std.core", "ResultTag.Ok", "ResultTag.Err"],
            xw == seq!["std"@, "std.io"@, "std.core"@, "ResultTag.Ok"@, "ResultTag.Err"@],
            nc == cw.len(),
            nt == tw.len(),
            all@.len() == nc + nt + k,
            forall|q: int| 0 <= q < nc ==> (#[trigger] all@[q])@ == cw[q],
            forall|q: int| 0 <= q < nt ==> (#[trigger] all@[nc + q])@ == tw[q],
            forall|q: int| 0 <= q < k ==> (#[trigger] all@[nc + nt + q])@ == xw[q],
        decreases extras.len() - k,
    {
        all.push(crate::text::copy_string(extras[k]));
        k = k + 1;
    }
    proof {
        let want = cw + tw + xw;
        assert forall|q: int| 0 <= q < all@.len() implies crate::text::strings_view(all@)[q] == want[q] by {
            if q < nc {
                assert(all@[q]@ == cw[q]);
            } else if q < nc + nt {
                let r = q - nc;
                assert(all@[nc + r]@ == tw[r]);
            } else {
                let r = q - nc - nt;
                assert(all@[nc + nt + r]@ == xw[r]);
            }
        }
        assert(crate::text::strings_view(all@) =~= want);
    }
    // keep those with the prefix
    let ghost av = crate::text::strings_view(all@);
    let mut m: usize = 0;
    while m < all.len()
        invariant
            m <= all@.len(),
            av == crate::text::strings_view(all@),
            crate::text::strings_view(words@) == with_prefix(av.subrange(0, m as int), prefix@),
        decreases all.len() - m,
    {
        let ghost sub = av.subrange(0, m as int + 1);
        assert(sub.drop_last() =~= av.subrange(0, m as int));
        let ghost prev = crate::text::strings_view(words@);
        if starts_with(all[m].as_str(), prefix) {
            words.push(all[m].clone());
            assert(crate::text::strings_view(words@) =~= prev.push(av[m as int]));
        } else {
            assert(crate::text::strings_view(words@) =~= prev + Seq::<Seq<char>>::empty());
        }
        m = m + 1;
    }
    assert(av.subrange(0, av.len() as int) =~= av);
    let ghost wv = keyed(crate::text::strings_view(words@));
    // sort
    let mut sorted: Vec<String> = Vec::new();
    let mut n: usize = 0;
    while n < words.len()
        invariant
            n <= words@.len(),
            wv == keyed(crate::text::strings_view(words@)),
            keyed(crate::text::strings_view(sorted@)) == sort_by_key(wv.subrange(0, n as int)),
        decreases words.len() - n,
    {
        let x = words[n].clone();
        let ghost ov = keyed(crate::text::strings_view(sorted@));
        let mut p: usize = 0;
        while p < sorted.len() && !text_before(x.as_str(), sorted[p].as_str())
            invariant
                p <= sorted@.len(),
                ov == keyed(crate::text::strings_view(sorted@)),
                forall|q: int| 0 <= q < p ==> !text_less(x@, #[trigger] ov[q].0),
            decreases sorted.len() - p,
        {
            p = p + 1;
        }
        proof {
            lemma_insert_at_position(ov, p as int, (x@, ()));
            let sub = wv.subrange(0, n as int + 1);
            assert(sub.drop_last() =~= wv.subrange(0, n as int));
            assert(sub.last() == (x@, ()));
        }
        let ghost xv = x@;
        sorted.insert(p, x);
        assert(keyed(crate::text::strings_view(sorted@)) =~= ov.insert(p as int, (xv, ())));
        n = n + 1;
    }
    assert(wv.subrange(0, wv.len() as int) =~= wv);
    // drop repeats
    let ghost sv = keyed(crate::text::strings_view(sorted@));
    let mut out: Vec<String> = Vec::new();
    let mut q: usize = 0;
    while q < sorted.len()
        invariant
            q <= sorted@.len(),
            sv == keyed(crate::text::strings_view(sorted@)),
            keyed(crate::text::strings_view(out@)) == dedup_adjacent(sv.subrange(0, q as int)),
            q > 0 ==> out@.len() > 0 && out@[out@.len() - 1]@ == sv[q - 1].0,
        decreases sorted.len() - q,
    {
        let ghost sub = sv.subrange(0, q as int + 1);
        assert(sub.drop_last() =~= sv.subrange(0, q as int));
        let dup = out.len() > 0 && str_equal(out[out.len() - 1].as_str(), sorted[q].as_str());
        if dup {
            assert(sub[sub.len() - 1] == sub[sub.len() - 2]);
        } else {
            let ghost prev = keyed(crate::text::strings_view(out@));
            out.push(sorted[q].clone());
            proof {
                if q >= 1 {
                    assert(sub[sub.len() - 1] != sub[sub.len() - 2]);
                }
                assert(keyed(crate::text::strings_view(out@)) =~= prev.push(sv[q as int]));
            }
        }
        q = q + 1;
    }
    assert(sv.subrange(0, sv.len() as int) =~= sv);
    assert(crate::text::strings_view(out@) =~= keys_of(keyed(crate::text::strings_view(out@))));
    out
}


// ---------------------------------------------------------------------------
// Pages of text
// ---------------------------------------------------------------------------

/// Rows of a two-column table.
pub type TextPairs = Seq<(&'static str, &'static str)>;

/// The Chinese help's command rows.
pub open spec fn zh_command_rows() -> TextPairs {
    seq![
        (":help", "查看命令、学习入口和常用主题"),
        (":api", "浏览 Stage 0 API 和标准库边界"),
        (":topics", "列出终端内置文档主题"),
        (":examples", "显示当前阶段可运行示例"),
        (":doc <topic>", "查看某个语言或 API 主题"),
        (":complete <prefix>", "按前缀列出补全候选"),
        (":lang zh|en", "切换本次 REPL 会话语言"),
        (":quit", "退出 REPL"),
    ]
}

/// The Chinese help's learning-path rows.
pub open spec fn zh_path_rows() -> TextPairs {
    seq![
        (":doc getting-started", "从表达式、绑定、函数和运行命令开始"),
        (":doc tutorial", "按阶段学习控制流、数据类型和工具链"),
        (":api", "查看当前可用语言表面和标准库占位"),
    ]
}

/// The Chinese summaries of the topics.
pub open spec fn zh_summaries() -> TextPairs {
    seq![
        ("getting-started", "从表达式、let/let mut 绑定、函数、run/check 和在线 Playground 开始。"),
        ("tutorial", "推荐学习路径：表达式、函数、控制流、数据类型和工具链。"),
        ("api", "在终端里浏览 Stage 0 内置语言能力和标准 API 表面。"),
        ("std", "Stage 0 标准 API 边界；resolver 当前接受 import std.core; 和 import std.io;，未知标准库路径会报错。"),
        ("playground", "官网 Playground 运行编译为 WebAssembly 的真实 Zeta 编译器前端。"),
        ("module", "声明当前源码模块。"),
        ("import", "引入另一个模块路径；module graph 程序中可用 as 创建本地别名。"),
        ("as", "为 import 创建本地别名，例如 import demo.math as math;。"),
        ("fn", "声明函数。REPL 中语句会被包进临时函数执行。"),
        ("let", "声明局部绑定，可以带类型注解；需要重新赋值时使用 let mut。"),
        ("mut", "标记局部绑定可变，允许后续赋值语句更新它。"),
        ("if", "基于 Bool 条件分支；条件可以使用比较、&&、|| 和 !。"),
        ("while", "当 Bool 条件为 true 时循环；条件可以使用比较、&&、|| 和 !，循环内可用 break 或 continue。"),
        ("break", "跳出最近一层 while 循环。"),
        ("continue", "跳过当前 while 迭代剩余语句，进入下一轮条件检查。"),
        ("match", "对标量、枚举变体和通配模式进行分支。"),
        ("struct", "声明记录类型；完整程序中可以使用结构体字面量和字段访问。"),
        ("enum", "声明标签集合；完整程序中可以使用 ResultTag.Ok 这类限定变体值。"),
        ("Int", "当前 Stage 0 checker 支持的整数标量类型。"),
        ("String", "当前 Stage 0 checker 支持的字符串标量类型。"),
        ("Bool", "if 和 while 条件使用的布尔类型；&&、|| 和 ! 用于组合或取反 Bool。"),
        ("IntArray", "同质 Int 数组；支持 [1, 2] 字面量、Int 下标访问和 .len 长度字段。"),
        ("StringArray", "同质 String 数组；支持字符串数组字面量、Int 下标访问和 .len 长度字段。"),
        ("BoolArray", "同质 Bool 数组；支持布尔数组字面量、Int 下标访问和 .len 长度字段。"),
        ("string_len", "std.core 内建函数，返回 String 的 UTF-8 byte 长度。"),
        ("string_byte_at", "std.core 内建函数，用 Int 下标读取 String 的单个 byte，并以 Int 返回。"),
        ("string_byte_slice", "std.core 内建函数，用 byte 起点和 byte 长度截取 String；切分 UTF-8 字符边界会报运行时错误。"),
        ("ascii_is_digit", "std.core 内建函数，判断 Int byte 是否是 ASCII 数字。"),
        ("ascii_is_alpha", "std.core 内建函数，判断 Int byte 是否是 ASCII 字母。"),
        ("ascii_is_alnum", "std.core 内建函数，判断 Int byte 是否是 ASCII 字母或数字。"),
        ("ascii_is_whitespace", "std.core 内建函数，判断 Int byte 是否是 ASCII 空白字符。"),
    ]
}

/// The examples page's rows, Chinese.
pub open spec fn zh_examples() -> TextPairs {
    seq![
        ("表达式", "40 + 2"),
        ("绑定", "let answer: Int = 40 + 2;"),
        ("可变绑定", "let mut answer: Int = 40;"),
        ("布尔逻辑", "true && !false"),
        ("数组", "fn main() -> Int { let values: IntArray = [2, 4, 6]; return values[0] + values.len; }"),
        ("字符串扫描", "import std.core; fn main() -> Int { return string_len(\"zeta\") + string_byte_at(\"A9\", 1); }"),
        ("函数", "fn main() -> Int { return 42; }"),
        ("模块", "module demo.core;"),
        ("文档", ":doc let"),
        ("补全", ":complete st"),
    ]
}

/// The examples page's rows, English.
pub open spec fn en_examples() -> TextPairs {
    seq![
        ("Expression", "40 + 2"),
        ("Binding", "let answer: Int = 40 + 2;"),
        ("Mutable", "let mut answer: Int = 40;"),
        ("Boolean", "true && !false"),
        ("Array", "fn main() -> Int { let values: IntArray = [2, 4, 6]; return values[0] + values.len; }"),
        ("String scan", "import std.core; fn main() -> Int { return string_len(\"zeta\") + string_byte_at(\"A9\", 1); }"),
        ("Function", "fn main() -> Int { return 42; }"),
        ("Module", "module demo.core;"),
        ("Doc", ":doc let"),
        ("Completion", ":complete st"),
    ]
}

fn zh_command_rows_vec() -> (r: Vec<(&'static str, &'static str)>)
    ensures
        r@ == zh_command_rows(),
{
    let r = vec![
        (":help", "查看命令、学习入口和常用主题"),
        (":api", "浏览 Stage 0 API 和标准库边界"),
        (":topics", "列出终端内置文档主题"),
        (":examples", "显示当前阶段可运行示例"),
        (":doc <topic>", "查看某个语言或 API 主题"),
        (":complete <prefix>", "按前缀列出补全候选"),
        (":lang zh|en", "切换本次 REPL 会话语言"),
        (":quit", "退出 REPL"),
    ];
    assert(r@ =~= zh_command_rows());
    r
}

fn zh_path_rows_vec() -> (r: Vec<(&'static str, &'static str)>)
    ensures
        r@ == zh_path_rows(),
{
    let r = vec![
        (":doc getting-started", "从表达式、绑定、函数和运行命令开始"),
        (":doc tutorial", "按阶段学习控制流、数据类型和工具链"),
        (":api", "查看当前可用语言表面和标准库占位"),
    ];
    assert(r@ =~= zh_path_rows());
    r
}

fn zh_summaries_vec() -> (r: Vec<(&'static str, &'static str)>)
    ensures
        r@ == zh_summaries(),
{
    let r = vec![
        ("getting-started", "从表达式、let/let mut 绑定、函数、run/check 和在线 Playground 开始。"),
        ("tutorial", "推荐学习路径：表达式、函数、控制流、数据类型和工具链。"),
        ("api", "在终端里浏览 Stage 0 内置语言能力和标准 API 表面。"),
        ("std", "Stage 0 标准 API 边界；resolver 当前接受 import std.core; 和 import std.io;，未知标准库路径会报错。"),
        ("playground", "官网 Playground 运行编译为 WebAssembly 的真实 Zeta 编译器前端。"),
        ("module", "声明当前源码模块。"),
        ("import", "引入另一个模块路径；module graph 程序中可用 as 创建本地别名。"),
        ("as", "为 import 创建本地别名，例如 import demo.math as math;。"),
        ("fn", "声明函数。REPL 中语句会被包进临时函数执行。"),
        ("let", "声明局部绑定，可以带类型注解；需要重新赋值时使用 let mut。"),
        ("mut", "标记局部绑定可变，允许后续赋值语句更新它。"),
        ("if", "基于 Bool 条件分支；条件可以使用比较、&&、|| 和 !。"),
        ("while", "当 Bool 条件为 true 时循环；条件可以使用比较、&&、|| 和 !，循环内可用 break 或 continue。"),
        ("break", "跳出最近一层 while 循环。"),
        ("continue", "跳过当前 while 迭代剩余语句，进入下一轮条件检查。"),
        ("match", "对标量、枚举变体和通配模式进行分支。"),
        ("struct", "声明记录类型；完整程序中可以使用结构体字面量和字段访问。"),
        ("enum", "声明标签集合；完整程序中可以使用 ResultTag.Ok 这类限定变体值。"),
        ("Int", "当前 Stage 0 checker 支持的整数标量类型。"),
        ("String", "当前 Stage 0 checker 支持的字符串标量类型。"),
        ("Bool", "if 和 while 条件使用的布尔类型；&&、|| 和 ! 用于组合或取反 Bool。"),
        ("IntArray", "同质 Int 数组；支持 [1, 2] 字面量、Int 下标访问和 .len 长度字段。"),
        ("StringArray", "同质 String 数组；支持字符串数组字面量、Int 下标访问和 .len 长度字段。"),
        ("BoolArray", "同质 Bool 数组；支持布尔数组字面量、Int 下标访问和 .len 长度字段。"),
        ("string_len", "std.core 内建函数，返回 String 的 UTF-8 byte 长度。"),
        ("string_byte_at", "std.core 内建函数，用 Int 下标读取 String 的单个 byte，并以 Int 返回。"),
        ("string_byte_slice", "std.core 内建函数，用 byte 起点和 byte 长度截取 String；切分 UTF-8 字符边界会报运行时错误。"),
        ("ascii_is_digit", "std.core 内建函数，判断 Int byte 是否是 ASCII 数字。"),
        ("ascii_is_alpha", "std.core 内建函数，判断 Int byte 是否是 ASCII 字母。"),
        ("ascii_is_alnum", "std.core 内建函数，判断 Int byte 是否是 ASCII 字母或数字。"),
        ("ascii_is_whitespace", "std.core 内建函数，判断 Int byte 是否是 ASCII 空白字符。"),
    ];
    assert(r@ =~= zh_summaries());
    r
}

fn examples_vec(language: Language) -> (r: Vec<(&'static str, &'static str)>)
    ensures
        r@ == (if language == Language::Zh { zh_examples() } else { en_examples() }),
{
    if language == Language::Zh {
        let r = vec![
            ("表达式", "40 + 2"),
            ("绑定", "let answer: Int = 40 + 2;"),
            ("可变绑定", "let mut answer: Int = 40;"),
            ("布尔逻辑", "true && !false"),
            ("数组", "fn main() -> Int { let values: IntArray = [2, 4, 6]; return values[0] + values.len; }"),
            ("字符串扫描", "import std.core; fn main() -> Int { return string_len(\"zeta\") + string_byte_at(\"A9\", 1); }"),
            ("函数", "fn main() -> Int { return 42; }"),
            ("模块", "module demo.core;"),
            ("文档", ":doc let"),
            ("补全", ":complete st"),
        ];
        assert(r@ =~= zh_examples());
        r
    } else {
        let r = vec![
            ("Expression", "40 + 2"),
            ("Binding", "let answer: Int = 40 + 2;"),
            ("Mutable", "let mut answer: Int = 40;"),
            ("Boolean", "true && !false"),
            ("Array", "fn main() -> Int { let values: IntArray = [2, 4, 6]; return values[0] + values.len; }"),
            ("String scan", "import std.core; fn main() -> Int { return string_len(\"zeta\") + string_byte_at(\"A9\", 1); }"),
            ("Function", "fn main() -> Int { return 42; }"),
            ("Module", "module demo.core;"),
            ("Doc", ":doc let"),
            ("Completion", ":complete st"),
        ];
        assert(r@ =~= en_examples());
        r
    }
}


/// Rows whose labels and summaries are coloured in the given styles.
pub open spec fn rows_text(ps: TextPairs, width: nat, label_style: Style, summary_style: Style) -> Seq<char>
    decreases ps.len(),
{
    if ps.len() == 0 {
        Seq::empty()
    } else {
        rows_text(ps.drop_last(), width, label_style, summary_style) + doc_row_text(
            colored(ps.last().0@, label_style),
            ps.last().0@,
            colored(ps.last().1@, summary_style),
            width,
        )
    }
}

fn push_rows(
    out: &mut String,
    ps: &Vec<(&'static str, &'static str)>,
    width: usize,
    label_style: Style,
    summary_style: Style,
)
    requires
        width < usize::MAX - 2,
    ensures
        final(out)@ == old(out)@ + rows_text(ps@, width as nat, label_style, summary_style),
{
    let mut i: usize = 0;
    while i < ps.len()
        invariant
            i <= ps@.len(),
            width < usize::MAX - 2,
            out@ == old(out)@ + rows_text(ps@.subrange(0, i as int), width as nat, label_style, summary_style),
        decreases ps.len() - i,
    {
        let (name, summary) = ps[i];
        let label = color(name, label_style);
        let text = color(summary, summary_style);
        push_doc_row(out, label.as_str(), name, text.as_str(), width);
        proof {
            let sub = ps@.subrange(0, i as int + 1);
            assert(sub.drop_last() =~= ps@.subrange(0, i as int));
            assert(out@ =~= old(out)@ + rows_text(sub, width as nat, label_style, summary_style));
        }
        i = i + 1;
    }
    assert(ps@.subrange(0, ps@.len() as int) =~= ps@);
}

/// The plain help text.
pub open spec fn help_plain_text() -> Seq<char> {
    "Commands:\n  :help                 Show this help\n  :api                  Show API overview\n  :topics               List documentation topics\n  :examples             Show runnable examples\n  :doc <topic>          Show short documentation\n  :complete <prefix>    List completions\n  :quit                 Exit\n\nTopics:\n  "@
        + topic_names_text() + "\n"@
}

/// The help text without colours.
pub fn help_text() -> (s: String)
    ensures
        s@ == help_plain_text(),
{
    let mut s = String::new();
    push_str(
        &mut s,
        "Commands:\n  :help                 Show this help\n  :api                  Show API overview\n  :topics               List documentation topics\n  :examples             Show runnable examples\n  :doc <topic>          Show short documentation\n  :complete <prefix>    List completions\n  :quit                 Exit\n\nTopics:\n  ",
    );
    push_topic_names(&mut s);
    push_str(&mut s, "\n");
    assert(s@ =~= help_plain_text());
    s
}

/// One row of the topic grid: each name coloured and padded to `width`.
pub open spec fn grid_cells(ts: Seq<ReplTopic>, width: nat) -> Seq<char>
    decreases ts.len(),
{
    if ts.len() == 0 {
        Seq::empty()
    } else {
        grid_cells(ts.drop_last(), width) + colored(ts.last().name@, Style::Command) + repeat_char(
            ' ',
            gap(width, display_width(ts.last().name@)),
        )
    }
}

/// The topics laid out `columns` to a row.
pub open spec fn grid_text(ts: Seq<ReplTopic>, columns: nat, width: nat) -> Seq<char>
    decreases ts.len(),
{
    if ts.len() == 0 || columns == 0 {
        Seq::empty()
    } else {
        let n = if columns < ts.len() { columns as int } else { ts.len() as int };
        "  "@ + grid_cells(ts.take(n), width) + "\n"@ + grid_text(ts.skip(n), columns, width)
    }
}

fn push_grid(out: &mut String, columns: usize, width: usize)
    requires
        columns > 0,
        width < usize::MAX - 2,
    ensures
        final(out)@ == old(out)@ + grid_text(topic_list(), columns as nat, width as nat),
{
    let ts = topics();
    let mut start: usize = 0;
    assert(ts@.skip(0) =~= ts@);
    while start < ts.len()
        invariant
            start <= ts@.len(),
            columns > 0,
            width < usize::MAX - 2,
            ts@ == topic_list(),
            out@ + grid_text(ts@.skip(start as int), columns as nat, width as nat) == old(out)@ + grid_text(
                topic_list(),
                columns as nat,
                width as nat,
            ),
        decreases ts.len() - start,
    {
        let end = if ts.len() - start > columns { start + columns } else { ts.len() };
        let ghost rest = ts@.skip(start as int);
        let ghost o0 = out@;
        push_str(out, "  ");
        let ghost o1 = out@;
        let mut k: usize = start;
        while k < end
            invariant
                start <= k <= end,
                end <= ts@.len(),
                width < usize::MAX - 2,
                out@ == o1 + grid_cells(ts@.subrange(start as int, k as int), width as nat),
            decreases end - k,
        {
            push_color(out, ts[k].name, Style::Command);
            let g = gap_for(ts[k].name, width);
            push_repeat(out, ' ', g);
            proof {
                let sub = ts@.subrange(start as int, k as int + 1);
                assert(sub.drop_last() =~= ts@.subrange(start as int, k as int));
                assert(out@ =~= o1 + grid_cells(sub, width as nat));
            }
            k = k + 1;
        }
        push_str(out, "\n");
        proof {
            let n = (end - start) as int;
            assert(rest.take(n) =~= ts@.subrange(start as int, end as int));
            assert(rest.skip(n) =~= ts@.skip(end as int));
            assert(grid_text(rest, columns as nat, width as nat) == "  "@ + grid_cells(rest.take(n), width as nat)
                + "\n"@ + grid_text(rest.skip(n), columns as nat, width as nat));
            assert(out@ =~= o0 + ("  "@ + grid_cells(rest.take(n), width as nat) + "\n"@));
            assert(out@ + grid_text(ts@.skip(end as int), columns as nat, width as nat) =~= o0 + grid_text(
                rest,
                columns as nat,
                width as nat,
            ));
        }
        start = end;
    }
    assert(ts@.skip(start as int) =~= Seq::<ReplTopic>::empty());
    assert(out@ =~= old(out)@ + grid_text(topic_list(), columns as nat, width as nat));
}


fn push_padded_right(out: &mut String, text: &str, width: usize)
    ensures
        final(out)@ == old(out)@ + padded_right(text@, width as nat),
{
    let n = chars_of(text).len();
    push_str(out, text);
    let g: usize = if width > n { width - n } else { 0 };
    push_repeat(out, ' ', g);
    assert(final(out)@ =~= old(out)@ + padded_right(text@, width as nat));
}

/// The English help's command rows: each name coloured and padded to twenty
/// characters, then the summary.
pub open spec fn command_rows_text(cs: Seq<ReplCommand>) -> Seq<char>
    decreases cs.len(),
{
    if cs.len() == 0 {
        Seq::empty()
    } else {
        command_rows_text(cs.drop_last()) + "  "@ + padded_right(colored(cs.last().name@, Style::Command), 20)
            + " "@ + cs.last().summary@ + "\n"@
    }
}

/// The coloured help page.
pub open spec fn help_colored_text(language: Language) -> Seq<char> {
    if language == Language::Zh {
        section_title_text("命令"@) + rows_text(zh_command_rows(), 22, Style::Command, Style::Hint) + "\n"@
            + section_title_text("学习入口"@) + rows_text(zh_path_rows(), 22, Style::Command, Style::Hint)
            + "\n"@ + section_title_text("主题索引"@) + grid_text(topic_list(), 4, 18)
    } else {
        "Commands\n"@ + command_rows_text(command_list()) + "\nLearning paths\n"@ + "  "@ + colored(
            ":doc getting-started"@,
            Style::Command,
        ) + "\n"@ + "  "@ + colored(":doc tutorial"@, Style::Command) + "\n"@ + "  "@ + colored(
            ":api"@,
            Style::Command,
        ) + "\n"@ + "\nTopics\n  "@ + topic_names_text() + "\n"@
    }
}

fn push_command_rows(out: &mut String)
    ensures
        final(out)@ == old(out)@ + command_rows_text(command_list()),
{
    let cs = commands();
    let mut i: usize = 0;
    while i < cs.len()
        invariant
            i <= cs@.len(),
            cs@ == command_list(),
            out@ == old(out)@ + command_rows_text(cs@.subrange(0, i as int)),
        decreases cs.len() - i,
    {
        let name = color(cs[i].name, Style::Command);
        push_str(out, "  ");
        push_padded_right(out, name.as_str(), 20);
        push_str(out, " ");
        push_str(out, cs[i].summary);
        push_str(out, "\n");
        proof {
            let sub = cs@.subrange(0, i as int + 1);
            assert(sub.drop_last() =~= cs@.subrange(0, i as int));
            assert(out@ =~= old(out)@ + command_rows_text(sub));
        }
        i = i + 1;
    }
    assert(cs@.subrange(0, cs@.len() as int) =~= cs@);
}

fn push_help_zh(out: &mut String)
    ensures
        final(out)@ == old(out)@ + help_colored_text(Language::Zh),
{
    let ghost o0 = out@;
    push_section_title(out, "命令");
    push_rows(out, &zh_command_rows_vec(), 22, Style::Command, Style::Hint);
    push_str(out, "\n");
    push_section_title(out, "学习入口");
    push_rows(out, &zh_path_rows_vec(), 22, Style::Command, Style::Hint);
    push_str(out, "\n");
    push_section_title(out, "主题索引");
    push_grid(out, 4, 18);
    assert(out@ =~= o0 + help_colored_text(Language::Zh));
}

fn push_help_en(out: &mut String)
    ensures
        final(out)@ == old(out)@ + help_colored_text(Language::En),
{
    let ghost o0 = out@;
    push_str(out, "Commands\n");
    push_command_rows(out);
    push_str(out, "\nLearning paths\n");
    push_str(out, "  ");
    push_color(out, ":doc getting-started", Style::Command);
    push_str(out, "\n");
    push_str(out, "  ");
    push_color(out, ":doc tutorial", Style::Command);
    push_str(out, "\n");
    push_str(out, "  ");
    push_color(out, ":api", Style::Command);
    push_str(out, "\n");
    push_str(out, "\nTopics\n  ");
    push_topic_names(out);
    push_str(out, "\n");
    assert(out@ =~= o0 + help_colored_text(Language::En));
}

/// The coloured help page in `language`.
pub fn help_text_colored_lang(language: Language) -> (s: String)
    ensures
        s@ == help_colored_text(language),
{
    let mut s = String::new();
    if language == Language::Zh {
        push_help_zh(&mut s);
    } else {
        push_help_en(&mut s);
    }
    assert(s@ =~= help_colored_text(language));
    s
}

/// The coloured help page in English.
pub fn help_text_colored() -> (s: String)
    ensures
        s@ == help_colored_text(Language::En),
{
    help_text_colored_lang(Language::En)
}


/// The text paired with `key` first in `ps`, if any.
pub open spec fn lookup_pair(ps: TextPairs, key: Seq<char>) -> Option<Seq<char>>
    decreases ps.len(),
{
    if ps.len() == 0 {
        None
    } else if ps[0].0@ == key {
        Some(ps[0].1@)
    } else {
        lookup_pair(ps.drop_first(), key)
    }
}

/// A topic's summary in `language`; a topic without a Chinese summary keeps
/// its English one.
pub open spec fn topic_summary_text(topic: ReplTopic, language: Language) -> Seq<char> {
    if language == Language::En {
        topic.summary@
    } else {
        match lookup_pair(zh_summaries(), topic.name@) {
            Some(t) => t,
            None => topic.summary@,
        }
    }
}

fn topic_summary(topic: &ReplTopic, language: Language) -> (s: &'static str)
    ensures
        s@ == topic_summary_text(*topic, language),
{
    if language == Language::En {
        return topic.summary;
    }
    let ps = zh_summaries_vec();
    let mut i: usize = 0;
    assert(ps@.skip(0) =~= ps@);
    while i < ps.len()
        invariant
            i <= ps@.len(),
            ps@ == zh_summaries(),
            language != Language::En,
            lookup_pair(zh_summaries(), topic.name@) == lookup_pair(ps@.skip(i as int), topic.name@),
        decreases ps.len() - i,
    {
        assert(ps@.skip(i as int).drop_first() =~= ps@.skip(i as int + 1));
        assert(ps@.skip(i as int)[0] == ps@[i as int]);
        let (name, summary) = ps[i];
        if str_equal(name, topic.name) {
            assert(lookup_pair(ps@.skip(i as int), topic.name@) == Some(summary@));
            return summary;
        }
        i = i + 1;
    }
    assert(ps@.skip(i as int) =~= Seq::<(&'static str, &'static str)>::empty());
    topic.summary
}

/// One row per topic: the name and its summary in `language`.
pub open spec fn topic_rows_text(ts: Seq<ReplTopic>, language: Language) -> Seq<char>
    decreases ts.len(),
{
    if ts.len() == 0 {
        Seq::empty()
    } else {
        topic_rows_text(ts.drop_last(), language) + doc_row_text(
            colored(ts.last().name@, Style::Command),
            ts.last().name@,
            colored(topic_summary_text(ts.last(), language), Style::Hint),
            18,
        )
    }
}

/// The coloured list of documentation topics.
pub open spec fn topics_colored_text(language: Language) -> Seq<char> {
    (if language == Language::Zh {
        section_title_text("文档主题"@)
    } else {
        "Documentation topics\n"@
    }) + topic_rows_text(topic_list(), language)
}

/// The coloured list of documentation topics in `language`.
pub fn topics_text_colored_lang(language: Language) -> (s: String)
    ensures
        s@ == topics_colored_text(language),
{
    let mut out = String::new();
    if language == Language::Zh {
        push_section_title(&mut out, "文档主题");
    } else {
        push_str(&mut out, "Documentation topics\n");
    }
    let ghost head = out@;
    let ts = topics();
    let mut i: usize = 0;
    while i < ts.len()
        invariant
            i <= ts@.len(),
            ts@ == topic_list(),
            out@ == head + topic_rows_text(ts@.subrange(0, i as int), language),
        decreases ts.len() - i,
    {
        let t = ts[i];
        let label = color(t.name, Style::Command);
        let summary = color(topic_summary(&t, language), Style::Hint);
        push_doc_row(&mut out, label.as_str(), t.name, summary.as_str(), 18);
        proof {
            let sub = ts@.subrange(0, i as int + 1);
            assert(sub.drop_last() =~= ts@.subrange(0, i as int));
            assert(out@ =~= head + topic_rows_text(sub, language));
        }
        i = i + 1;
    }
    assert(ts@.subrange(0, ts@.len() as int) =~= ts@);
    assert(out@ =~= topics_colored_text(language));
    out
}

/// The coloured list of documentation topics in English.
pub fn topics_text_colored() -> (s: String)
    ensures
        s@ == topics_colored_text(Language::En),
{
    topics_text_colored_lang(Language::En)
}

/// One row per example: the label in bold and the example coloured.
pub open spec fn example_rows_text(ps: TextPairs) -> Seq<char>
    decreases ps.len(),
{
    if ps.len() == 0 {
        Seq::empty()
    } else {
        example_rows_text(ps.drop_last()) + doc_row_text(
            colored(ps.last().0@, Style::Bold),
            ps.last().0@,
            highlighted(ps.last().1@),
            12,
        )
    }
}

/// The coloured page of runnable examples.
pub open spec fn examples_colored_text(language: Language) -> Seq<char> {
    if language == Language::Zh {
        section_title_text("可运行示例"@) + example_rows_text(zh_examples())
    } else {
        "Runnable examples\n"@ + example_rows_text(en_examples())
    }
}

/// The coloured page of runnable examples in `language`.
pub fn examples_text_colored_lang(language: Language) -> (s: String)
    ensures
        s@ == examples_colored_text(language),
{
    let ps = examples_vec(language);
    let mut out = String::new();
    if language == Language::Zh {
        push_section_title(&mut out, "可运行示例");
    } else {
        push_str(&mut out, "Runnable examples\n");
    }
    let ghost head = out@;
    let mut i: usize = 0;
    while i < ps.len()
        invariant
            i <= ps@.len(),
            ps@ == (if language == Language::Zh { zh_examples() } else { en_examples() }),
            out@ == head + example_rows_text(ps@.subrange(0, i as int)),
        decreases ps.len() - i,
    {
        let (label, example) = ps[i];
        let bold = color(label, Style::Bold);
        let code = highlight_zeta(example);
        push_doc_row(&mut out, bold.as_str(), label, code.as_str(), 12);
        proof {
            let sub = ps@.subrange(0, i as int + 1);
            assert(sub.drop_last() =~= ps@.subrange(0, i as int));
            assert(out@ =~= head + example_rows_text(sub));
        }
        i = i + 1;
    }
    assert(ps@.subrange(0, ps@.len() as int) =~= ps@);
    assert(out@ =~= examples_colored_text(language));
    out
}

/// The coloured page of runnable examples in English.
pub fn examples_text_colored() -> (s: String)
    ensures
        s@ == examples_colored_text(Language::En),
{
    examples_text_colored_lang(Language::En)
}

/// The line that shows a value the shell computed.
pub open spec fn result_line_text(value: Seq<char>) -> Seq<char> {
    "  "@ + colored("=>"@, Style::Hint) + " "@ + colored(value, Style::Value) + "\n"@
}

/// The line that shows `value`.
pub fn result_line(value: &str) -> (s: String)
    ensures
        s@ == result_line_text(value@),
{
    let mut s = String::new();
    push_str(&mut s, "  ");
    push_color(&mut s, "=>", Style::Hint);
    push_str(&mut s, " ");
    push_color(&mut s, value, Style::Value);
    push_str(&mut s, "\n");
    assert(s@ =~= result_line_text(value@));
    s
}

/// A topic's documentation: its name, its summary and its example.
pub open spec fn doc_colored_text(topic: ReplTopic, language: Language) -> Seq<char> {
    colored(topic.name@, Style::Command) + "\n  "@ + topic_summary_text(topic, language) + "\n  "@ + (if language
        == Language::Zh {
        "示例"@
    } else {
        "example"@
    }) + ": "@ + highlighted(topic.example@) + "\n"@
}

/// The coloured documentation of `topic` in `language`.
pub fn doc_text_colored(topic: &ReplTopic, language: Language) -> (s: String)
    ensures
        s@ == doc_colored_text(*topic, language),
{
    let mut s = String::new();
    push_color(&mut s, topic.name, Style::Command);
    push_str(&mut s, "\n  ");
    push_str(&mut s, topic_summary(topic, language));
    push_str(&mut s, "\n  ");
    if language == Language::Zh {
        push_str(&mut s, "示例");
    } else {
        push_str(&mut s, "example");
    }
    push_str(&mut s, ": ");
    let code = highlight_zeta(topic.example);
    push_str(&mut s, code.as_str());
    push_str(&mut s, "\n");
    assert(s@ =~= doc_colored_text(*topic, language));
    s
}


/// The API overview in Chinese.
pub open spec fn api_zh_text() -> Seq<char> {
    "Zeta Stage 0 API\n  "@
        + colored("Int"@, Style::Type)
        + "  整数标量和整数算术\n  "@
        + colored("String"@, Style::Type)
        + "  字符串标量\n  "@
        + colored("Bool"@, Style::Type)
        + "  用于 if/while 条件的布尔标量\n  "@
        + colored("IntArray/StringArray/BoolArray"@, Style::Type)
        + "  同质数组，支持字面量、Int 下标和 .len\n  "@
        + colored("std"@, Style::Command)
        + "  标准 API 边界：当前可导入 std.core 和 std.io；std.core 提供字符串 byte 扫描函数\n\n语言表面\n  模块/导入、std.core/std.io、函数、绑定/可变绑定、赋值、比较、布尔逻辑、数组字面量/下标/.len、字符串 byte 扫描、返回、if/while、struct、enum 变体、match\n\n试试\n  "@
        + colored(":doc Int"@, Style::Command)
        + "\n  "@
        + colored(":doc IntArray"@, Style::Command)
        + "\n  "@
        + colored(":doc std"@, Style::Command)
        + "\n"@
}

fn push_api_zh(out: &mut String)
    ensures
        final(out)@ == old(out)@ + api_zh_text(),
{
    let ghost o0 = out@;
    push_str(out, "Zeta Stage 0 API\n  ");
    push_color(out, "Int", Style::Type);
    push_str(out, "  整数标量和整数算术\n  ");
    push_color(out, "String", Style::Type);
    push_str(out, "  字符串标量\n  ");
    push_color(out, "Bool", Style::Type);
    push_str(out, "  用于 if/while 条件的布尔标量\n  ");
    push_color(out, "IntArray/StringArray/BoolArray", Style::Type);
    push_str(out, "  同质数组，支持字面量、Int 下标和 .len\n  ");
    push_color(out, "std", Style::Command);
    push_str(out, "  标准 API 边界：当前可导入 std.core 和 std.io；std.core 提供字符串 byte 扫描函数\n\n语言表面\n  模块/导入、std.core/std.io、函数、绑定/可变绑定、赋值、比较、布尔逻辑、数组字面量/下标/.len、字符串 byte 扫描、返回、if/while、struct、enum 变体、match\n\n试试\n  ");
    push_color(out, ":doc Int", Style::Command);
    push_str(out, "\n  ");
    push_color(out, ":doc IntArray", Style::Command);
    push_str(out, "\n  ");
    push_color(out, ":doc std", Style::Command);
    push_str(out, "\n");
    assert(out@ =~= o0 + api_zh_text());
}

/// The API overview in English.
pub open spec fn api_en_text() -> Seq<char> {
    "Zeta Stage 0 API\n  "@
        + colored("Int"@, Style::Type)
        + "  scalar integer values and arithmetic\n  "@
        + colored("String"@, Style::Type)
        + "  scalar string values\n  "@
        + colored("Bool"@, Style::Type)
        + "  scalar boolean values for control flow\n  "@
        + colored("IntArray/StringArray/BoolArray"@, Style::Type)
        + "  homogeneous arrays with literals, Int indexing, and .len\n  "@
        + colored("std"@, Style::Command)
        + "  standard API boundary: std.core and std.io imports are accepted; std.core includes string byte scan builtins\n\nLanguage surface\n  module/import, std.core/std.io, fn, let/let mut, assignment, comparison, boolean logic, array literals/index/.len, string byte scan, return, if/else, while, struct, enum variants, match\n\nTry\n  "@
        + colored(":doc Int"@, Style::Command)
        + "\n  "@
        + colored(":doc IntArray"@, Style::Command)
        + "\n  "@
        + colored(":doc std"@, Style::Command)
        + "\n"@
}

fn push_api_en(out: &mut String)
    ensures
        final(out)@ == old(out)@ + api_en_text(),
{
    let ghost o0 = out@;
    push_str(out, "Zeta Stage 0 API\n  ");
    push_color(out, "Int", Style::Type);
    push_str(out, "  scalar integer values and arithmetic\n  ");
    push_color(out, "String", Style::Type);
    push_str(out, "  scalar string values\n  ");
    push_color(out, "Bool", Style::Type);
    push_str(out, "  scalar boolean values for control flow\n  ");
    push_color(out, "IntArray/StringArray/BoolArray", Style::Type);
    push_str(out, "  homogeneous arrays with literals, Int indexing, and .len\n  ");
    push_color(out, "std", Style::Command);
    push_str(out, "  standard API boundary: std.core and std.io imports are accepted; std.core includes string byte scan builtins\n\nLanguage surface\n  module/import, std.core/std.io, fn, let/let mut, assignment, comparison, boolean logic, array literals/index/.len, string byte scan, return, if/else, while, struct, enum variants, match\n\nTry\n  ");
    push_color(out, ":doc Int", Style::Command);
    push_str(out, "\n  ");
    push_color(out, ":doc IntArray", Style::Command);
    push_str(out, "\n  ");
    push_color(out, ":doc std", Style::Command);
    push_str(out, "\n");
    assert(out@ =~= o0 + api_en_text());
}

/// The greeting in Chinese.
pub open spec fn welcome_zh_text() -> Seq<char> {
    "\x1b[1mZETA\x1b[0m  \x1b[2mStage 0 语言交互终端 | 真实编译器执行 | 终端内置文档\x1b[0m\n"@
        + colored(":help"@, Style::Command)
        + "  查看命令  "@
        + colored(":api"@, Style::Command)
        + "  API 概览  "@
        + colored(":examples"@, Style::Command)
        + "  示例  "@
        + colored(":lang en"@, Style::Command)
        + "  切换英文\n试试: "@
        + highlighted("40 + 2"@)
        + "    "@
        + highlighted("true && !false"@)
        + "\n"@
}

fn push_welcome_zh(out: &mut String)
    ensures
        final(out)@ == old(out)@ + welcome_zh_text(),
{
    let ghost o0 = out@;
    push_str(out, "\x1b[1mZETA\x1b[0m  \x1b[2mStage 0 语言交互终端 | 真实编译器执行 | 终端内置文档\x1b[0m\n");
    push_color(out, ":help", Style::Command);
    push_str(out, "  查看命令  ");
    push_color(out, ":api", Style::Command);
    push_str(out, "  API 概览  ");
    push_color(out, ":examples", Style::Command);
    push_str(out, "  示例  ");
    push_color(out, ":lang en", Style::Command);
    push_str(out, "  切换英文\n试试: ");
    let code = highlight_zeta("40 + 2");
    push_str(out, code.as_str());
    push_str(out, "    ");
    let code = highlight_zeta("true && !false");
    push_str(out, code.as_str());
    push_str(out, "\n");
    assert(out@ =~= o0 + welcome_zh_text());
}

/// The greeting in English.
pub open spec fn welcome_en_text() -> Seq<char> {
    "\x1b[1mZETA\x1b[0m  \x1b[2mStage 0 language shell | compiler-backed execution | docs in terminal\x1b[0m\n"@
        + colored(":help"@, Style::Command)
        + "  help  "@
        + colored(":api"@, Style::Command)
        + "  API  "@
        + colored(":examples"@, Style::Command)
        + "  examples  "@
        + colored(":lang zh"@, Style::Command)
        + "  switch Chinese\nTry: "@
        + highlighted("40 + 2"@)
        + "    "@
        + highlighted("true && !false"@)
        + "\n"@
}

fn push_welcome_en(out: &mut String)
    ensures
        final(out)@ == old(out)@ + welcome_en_text(),
{
    let ghost o0 = out@;
    push_str(out, "\x1b[1mZETA\x1b[0m  \x1b[2mStage 0 language shell | compiler-backed execution | docs in terminal\x1b[0m\n");
    push_color(out, ":help", Style::Command);
    push_str(out, "  help  ");
    push_color(out, ":api", Style::Command);
    push_str(out, "  API  ");
    push_color(out, ":examples", Style::Command);
    push_str(out, "  examples  ");
    push_color(out, ":lang zh", Style::Command);
    push_str(out, "  switch Chinese\nTry: ");
    let code = highlight_zeta("40 + 2");
    push_str(out, code.as_str());
    push_str(out, "    ");
    let code = highlight_zeta("true && !false");
    push_str(out, code.as_str());
    push_str(out, "\n");
    assert(out@ =~= o0 + welcome_en_text());
}

/// The API overview in `language`.
pub open spec fn api_colored_text(language: Language) -> Seq<char> {
    if language == Language::Zh { api_zh_text() } else { api_en_text() }
}

/// The coloured API overview in `language`.
pub fn api_text_colored_lang(language: Language) -> (s: String)
    ensures
        s@ == api_colored_text(language),
{
    let mut s = String::new();
    if language == Language::Zh {
        push_api_zh(&mut s);
    } else {
        push_api_en(&mut s);
    }
    assert(s@ =~= api_colored_text(language));
    s
}

/// The coloured API overview in English.
pub fn api_text_colored() -> (s: String)
    ensures
        s@ == api_en_text(),
{
    api_text_colored_lang(Language::En)
}

/// The greeting in `language`.
pub open spec fn welcome_text(language: Language) -> Seq<char> {
    if language == Language::Zh { welcome_zh_text() } else { welcome_en_text() }
}

/// The greeting the shell prints when it starts, in `language`.
pub fn welcome_banner_lang(language: Language) -> (s: String)
    ensures
        s@ == welcome_text(language),
{
    let mut s = String::new();
    if language == Language::Zh {
        push_welcome_zh(&mut s);
    } else {
        push_welcome_en(&mut s);
    }
    assert(s@ =~= welcome_text(language));
    s
}

/// The greeting in English.
pub fn welcome_banner() -> (s: String)
    ensures
        s@ == welcome_en_text(),
{
    welcome_banner_lang(Language::En)
}


// ---------------------------------------------------------------------------
// Choosing the language
// ---------------------------------------------------------------------------

/// `s` without its leading copies of `c`.
pub open spec fn strip_front(s: Seq<char>, c: char) -> Seq<char>
    decreases s.len(),
{
    if s.len() > 0 && s[0] == c {
        strip_front(s.drop_first(), c)
    } else {
        s
    }
}

/// `s` without its trailing copies of `c`.
pub open spec fn strip_back(s: Seq<char>, c: char) -> Seq<char>
    decreases s.len(),
{
    if s.len() > 0 && s.last() == c {
        strip_back(s.drop_last(), c)
    } else {
        s
    }
}

/// `s` without leading and trailing copies of `c`.
pub open spec fn strip_char(s: Seq<char>, c: char) -> Seq<char> {
    strip_back(strip_front(s, c), c)
}

/// `c` in lower case if it is an ASCII capital letter.
pub open spec fn ascii_lower(c: char) -> char {
    if 'A' <= c <= 'Z' {
        ((c as u32) + 32) as char
    } else {
        c
    }
}

/// `s` with its ASCII capitals in lower case.
pub open spec fn lowered(s: Seq<char>) -> Seq<char> {
    s.map_values(|c: char| ascii_lower(c))
}

/// A language setting with surrounding whitespace and quotes removed, in
/// lower case.
pub open spec fn normalized_setting(value: Seq<char>) -> Seq<char> {
    lowered(strip_char(strip_char(crate::trimmed(value), '"'), '\''))
}

/// The language a normalized setting names, if any.
pub open spec fn language_named(n: Seq<char>) -> Option<Language> {
    if n == "zh"@ || n == "zh-cn"@ || n == "zh_hans"@ || n == "zh-hans"@ || n == "cn"@ || n == "中文"@ || n
        == "简体中文"@ {
        Some(Language::Zh)
    } else if n == "en"@ || n == "en-us"@ || n == "english"@ {
        Some(Language::En)
    } else {
        None
    }
}

fn strip_matches(s: &str, c: char) -> (r: String)
    ensures
        r@ == strip_char(s@, c),
{
    let chars = chars_of(s);
    let ghost t = chars@;
    let mut a: usize = 0;
    assert(t.subrange(0, t.len() as int) =~= t);
    while a < chars.len() && chars[a] == c
        invariant
            a <= t.len(),
            t == chars@,
            strip_front(s@, c) == strip_front(t.subrange(a as int, t.len() as int), c),
            t == s@,
        decreases chars.len() - a,
    {
        assert(t.subrange(a as int, t.len() as int).drop_first() =~= t.subrange(a as int + 1, t.len() as int));
        a = a + 1;
    }
    let mut b: usize = chars.len();
    while b > a && chars[b - 1] == c
        invariant
            a <= b <= t.len(),
            t == chars@,
            strip_char(s@, c) == strip_back(t.subrange(a as int, b as int), c),
        decreases b,
    {
        assert(t.subrange(a as int, b as int).drop_last() =~= t.subrange(a as int, b as int - 1));
        b = b - 1;
    }
    if a < b {
        assert(!(t.subrange(a as int, b as int).len() > 0 && t.subrange(a as int, b as int).last() == c));
    } else {
        assert(t.subrange(a as int, b as int) =~= Seq::<char>::empty());
    }
    string_from_range(&chars, a, b)
}

fn lower_ascii_char(c: char) -> (l: char)
    ensures
        l == ascii_lower(c),
{
    if 'A' <= c && c <= 'Z' {
        let b: u8 = (c as u32) as u8;
        (b + 32) as char
    } else {
        c
    }
}

fn lower_ascii(s: &str) -> (r: String)
    ensures
        r@ == lowered(s@),
{
    let chars = chars_of(s);
    let mut r = String::new();
    let mut i: usize = 0;
    while i < chars.len()
        invariant
            i <= chars@.len(),
            chars@ == s@,
            r@ == lowered(s@).subrange(0, i as int),
        decreases chars.len() - i,
    {
        push_char(&mut r, lower_ascii_char(chars[i]));
        i = i + 1;
        assert(r@ =~= lowered(s@).subrange(0, i as int));
    }
    assert(lowered(s@).subrange(0, i as int) =~= lowered(s@));
    r
}

/// The language a setting such as `zh-CN` or `"english"` names, if any.
pub fn parse_language(value: &str) -> (r: Option<Language>)
    ensures
        r == language_named(normalized_setting(value@)),
{
    let t = crate::trim(value);
    let t = strip_matches(t.as_str(), '"');
    let t = strip_matches(t.as_str(), '\'');
    let n = lower_ascii(t.as_str());
    let n = n.as_str();
    if str_equal(n, "zh") || str_equal(n, "zh-cn") || str_equal(n, "zh_hans") || str_equal(n, "zh-hans")
        || str_equal(n, "cn") || str_equal(n, "中文") || str_equal(n, "简体中文") {
        Some(Language::Zh)
    } else if str_equal(n, "en") || str_equal(n, "en-us") || str_equal(n, "english") {
        Some(Language::En)
    } else {
        None
    }
}


/// The index of the first `c` in `s` at or after `i`, or the length of `s`.
pub open spec fn index_from(s: Seq<char>, i: int, c: char) -> int
    decreases s.len() - i,
{
    if i >= s.len() || i < 0 {
        s.len() as int
    } else if s[i] == c {
        i
    } else {
        index_from(s, i + 1, c)
    }
}

pub proof fn lemma_index_from_bounds(s: Seq<char>, i: int, c: char)
    requires
        0 <= i,
    ensures
        i <= index_from(s, i, c) || i > s.len(),
        index_from(s, i, c) <= s.len(),
        index_from(s, i, c) < s.len() ==> s[index_from(s, i, c)] == c,
        forall|k: int| i <= k < index_from(s, i, c) ==> s[k] != c,
    decreases s.len() - i,
{
    if i < s.len() && s[i] != c {
        lemma_index_from_bounds(s, i + 1, c);
    }
}

/// Whether a trimmed line of the settings file sets the language: it starts
/// with `language` or `lang` and holds a `=`.
pub open spec fn is_setting_line(t: Seq<char>) -> bool {
    ("language"@.is_prefix_of(t) || "lang"@.is_prefix_of(t)) && index_from(t, 0, '=') < t.len()
}

/// What follows the first `=` of a line.
pub open spec fn setting_value(t: Seq<char>) -> Seq<char> {
    t.skip(index_from(t, 0, '=') + 1)
}

/// The language the first language line of the settings text `s` at or after
/// index `i` names; none if that line names none or there is no such line.
pub open spec fn config_language_from(s: Seq<char>, i: int) -> Option<Language>
    decreases s.len() + 1 - i,
    via config_language_from_decreases
{
    if i < 0 || i >= s.len() {
        None
    } else {
        let e = index_from(s, i, '\n');
        let t = crate::trimmed(s.subrange(i, e));
        if is_setting_line(t) {
            language_named(normalized_setting(setting_value(t)))
        } else {
            config_language_from(s, e + 1)
        }
    }
}

#[via_fn]
proof fn config_language_from_decreases(s: Seq<char>, i: int) {
    if 0 <= i {
        lemma_index_from_bounds(s, i, '\n');
    }
}

/// The language the settings text `config` names.
pub open spec fn config_language_text(config: Seq<char>) -> Option<Language> {
    config_language_from(config, 0)
}

fn find_char(chars: &Vec<char>, from: usize, c: char) -> (e: usize)
    requires
        from <= chars@.len(),
    ensures
        e == index_from(chars@, from as int, c),
{
    let mut e: usize = from;
    while e < chars.len() && chars[e] != c
        invariant
            from <= e <= chars@.len(),
            index_from(chars@, from as int, c) == index_from(chars@, e as int, c),
        decreases chars.len() - e,
    {
        e = e + 1;
    }
    e
}

/// The language the settings text `config` names: the first line that
/// starts with `language` or `lang` and holds a `=` decides, by what
/// follows the `=`.
pub fn config_language(config: &str) -> (r: Option<Language>)
    ensures
        r == config_language_text(config@),
{
    let chars = chars_of(config);
    let ghost s = chars@;
    let mut i: usize = 0;
    while i < chars.len()
        invariant
            s == chars@,
            s == config@,
            config_language_text(config@) == config_language_from(s, i as int),
        decreases chars.len() - i,
    {
        let e = find_char(&chars, i, '\n');
        proof {
            lemma_index_from_bounds(s, i as int, '\n');
        }
        let line = string_from_range(&chars, i, e);
        let t = crate::trim(line.as_str());
        if starts_with(t.as_str(), "language") || starts_with(t.as_str(), "lang") {
            let tc = chars_of(t.as_str());
            let q = find_char(&tc, 0, '=');
            if q < tc.len() {
                let value = string_from_range(&tc, q + 1, tc.len());
                proof {
                    assert(value@ =~= setting_value(t@));
                }
                return parse_language(value.as_str());
            }
        }
        assert(config_language_from(s, i as int) == config_language_from(s, e as int + 1));
        if e == chars.len() {
            assert(config_language_from(s, e as int + 1) == None::<Language>);
            return None;
        }
        i = e + 1;
    }
    None
}

/// Whether `v`, in lower case, contains `zh`.
pub open spec fn mentions_zh(v: Seq<char>) -> bool {
    exists|k: int| 0 <= k && k + 1 < v.len() && #[trigger] lowered(v)[k] == 'z' && lowered(v)[k + 1] == 'h'
}

fn contains_zh(v: &str) -> (b: bool)
    ensures
        b == mentions_zh(v@),
{
    let l = chars_of(lower_ascii(v).as_str());
    let ghost lv = lowered(v@);
    let mut k: usize = 0;
    while l.len() > 0 && k < l.len() - 1
        invariant
            l@ == lv,
            lv == lowered(v@),
            lv.len() == v@.len(),
            forall|j: int| 0 <= j < k ==> !(#[trigger] lv[j] == 'z' && lv[j + 1] == 'h'),
        decreases l.len() - k,
    {
        if l[k] == 'z' && l[k + 1] == 'h' {
            return true;
        }
        k = k + 1;
    }
    false
}

/// The shell's language, chosen from the `ZETA_LANG` setting, then the
/// settings file, then the locale settings.
pub open spec fn chosen_language(
    zeta_lang: Option<Seq<char>>,
    config: Option<Seq<char>>,
    locales: Seq<Seq<char>>,
) -> Language {
    let from_setting = match zeta_lang {
        Some(v) => language_named(normalized_setting(v)),
        None => None,
    };
    let from_config = match config {
        Some(c) => config_language_text(c),
        None => None,
    };
    if from_setting is Some {
        from_setting->0
    } else if from_config is Some {
        from_config->0
    } else if exists|j: int| 0 <= j < locales.len() && mentions_zh(#[trigger] locales[j]) {
        Language::Zh
    } else {
        Language::En
    }
}

/// The shell's language from the values of its settings: `zeta_lang` (the
/// `ZETA_LANG` variable, if set), `config` (the settings file, if it could be
/// read) and `locales` (the locale variables that are set, most specific
/// first). The first that names a language decides; a locale decides by
/// mentioning `zh`; English otherwise.
pub fn choose_language(zeta_lang: Option<&str>, config: Option<&str>, locales: &Vec<String>) -> (l: Language)
    ensures
        l == chosen_language(
            match zeta_lang {
                Some(v) => Some(v@),
                None => None,
            },
            match config {
                Some(c) => Some(c@),
                None => None,
            },
            crate::text::strings_view(locales@),
        ),
{
    if let Some(v) = zeta_lang {
        if let Some(l) = parse_language(v) {
            return l;
        }
    }
    if let Some(c) = config {
        if let Some(l) = config_language(c) {
            return l;
        }
    }
    if any_mentions_zh(locales) {
        Language::Zh
    } else {
        Language::En
    }
}

fn any_mentions_zh(locales: &Vec<String>) -> (b: bool)
    ensures
        b == exists|j: int|
            0 <= j < locales@.len() && mentions_zh(#[trigger] crate::text::strings_view(locales@)[j]),
{
    let ghost ls = crate::text::strings_view(locales@);
    let mut j: usize = 0;
    while j < locales.len()
        invariant
            j <= locales@.len(),
            ls == crate::text::strings_view(locales@),
            forall|q: int| 0 <= q < j ==> !mentions_zh(#[trigger] ls[q]),
        decreases locales.len() - j,
    {
        if contains_zh(locales[j].as_str()) {
            assert(mentions_zh(ls[j as int]));
            return true;
        }
        j = j + 1;
    }
    false
}


// ---------------------------------------------------------------------------
// What completion gives back
// ---------------------------------------------------------------------------

pub proof fn lemma_with_prefix_elems(ws: Seq<Seq<char>>, p: Seq<char>)
    ensures
        forall|k: int|
            0 <= k < with_prefix(ws, p).len() ==> p.is_prefix_of(#[trigger] with_prefix(ws, p)[k])
                && ws.contains(with_prefix(ws, p)[k]),
    decreases ws.len(),
{
    if ws.len() > 0 {
        lemma_with_prefix_elems(ws.drop_last(), p);
        let r = with_prefix(ws, p);
        let q = with_prefix(ws.drop_last(), p);
        assert forall|k: int| 0 <= k < r.len() implies p.is_prefix_of(#[trigger] r[k]) && ws.contains(r[k]) by {
            if k < q.len() {
                assert(r[k] == q[k]);
                let j = choose|j: int| 0 <= j < ws.drop_last().len() && ws.drop_last()[j] == q[k];
                assert(ws[j] == q[k]);
            } else {
                assert(r[k] == ws.last());
                assert(ws[ws.len() - 1] == ws.last());
            }
        }
    }
}

pub proof fn lemma_insert_by_key_elems<T>(t: Seq<(Seq<char>, T)>, x: (Seq<char>, T))
    ensures
        forall|k: int|
            0 <= k < insert_by_key(t, x).len() ==> #[trigger] insert_by_key(t, x)[k] == x || t.contains(
                insert_by_key(t, x)[k],
            ),
    decreases t.len(),
{
    crate::mir::lemma_insert_by_key_len(t, x);
    if t.len() > 0 && !text_less(x.0, t[0].0) {
        let rest = t.drop_first();
        lemma_insert_by_key_elems(rest, x);
        crate::mir::lemma_insert_by_key_len(rest, x);
        let r = insert_by_key(t, x);
        assert forall|k: int| 0 <= k < r.len() implies #[trigger] r[k] == x || t.contains(r[k]) by {
            if k == 0 {
                assert(r[0] == t[0]);
            } else {
                assert(r[k] == insert_by_key(rest, x)[k - 1]);
                if insert_by_key(rest, x)[k - 1] != x {
                    let j = choose|j: int| 0 <= j < rest.len() && rest[j] == insert_by_key(rest, x)[k - 1];
                    assert(t[j + 1] == rest[j]);
                }
            }
        }
    } else if t.len() > 0 {
        let r = insert_by_key(t, x);
        assert forall|k: int| 0 <= k < r.len() implies #[trigger] r[k] == x || t.contains(r[k]) by {
            if k > 0 {
                assert(r[k] == t[k - 1]);
            }
        }
    }
}

pub proof fn lemma_sort_by_key_elems<T>(s: Seq<(Seq<char>, T)>)
    ensures
        forall|k: int| 0 <= k < sort_by_key(s).len() ==> s.contains(#[trigger] sort_by_key(s)[k]),
    decreases s.len(),
{
    if s.len() > 0 {
        let t = sort_by_key(s.drop_last());
        lemma_sort_by_key_elems(s.drop_last());
        lemma_insert_by_key_elems(t, s.last());
        let r = sort_by_key(s);
        assert forall|k: int| 0 <= k < r.len() implies s.contains(#[trigger] r[k]) by {
            if r[k] == s.last() {
                assert(s[s.len() - 1] == s.last());
            } else {
                let j = choose|j: int| 0 <= j < t.len() && t[j] == r[k];
                let i = choose|i: int| 0 <= i < s.drop_last().len() && s.drop_last()[i] == t[j];
                assert(s[i] == r[k]);
            }
        }
    }
}

pub proof fn lemma_dedup_adjacent_elems<T>(s: Seq<T>)
    ensures
        forall|k: int| 0 <= k < dedup_adjacent(s).len() ==> s.contains(#[trigger] dedup_adjacent(s)[k]),
    decreases s.len(),
{
    if s.len() > 0 {
        lemma_dedup_adjacent_elems(s.drop_last());
        let d = dedup_adjacent(s.drop_last());
        let r = dedup_adjacent(s);
        assert forall|k: int| 0 <= k < r.len() implies s.contains(#[trigger] r[k]) by {
            if k < d.len() {
                assert(r[k] == d[k]);
                let i = choose|i: int| 0 <= i < s.drop_last().len() && s.drop_last()[i] == d[k];
                assert(s[i] == r[k]);
            } else {
                assert(r[k] == s.last());
                assert(s[s.len() - 1] == s.last());
            }
        }
    }
}

/// Every completion of a prefix starts with that prefix and is one of the
/// shell's commands, topics or standard names.
pub proof fn law_completions_extend_prefix(prefix: Seq<char>)
    ensures
        forall|k: int|
            0 <= k < completions(prefix).len() ==> prefix.is_prefix_of(#[trigger] completions(prefix)[k])
                && completion_candidates().contains(completions(prefix)[k]),
{
    let w = with_prefix(completion_candidates(), prefix);
    let sorted = sort_by_key(keyed(w));
    let d = dedup_adjacent(sorted);
    lemma_with_prefix_elems(completion_candidates(), prefix);
    lemma_sort_by_key_elems(keyed(w));
    lemma_dedup_adjacent_elems(sorted);
    assert forall|k: int| 0 <= k < completions(prefix).len() implies prefix.is_prefix_of(
        #[trigger] completions(prefix)[k],
    ) && completion_candidates().contains(completions(prefix)[k]) by {
        assert(completions(prefix)[k] == d[k].0);
        let i = choose|i: int| 0 <= i < sorted.len() && sorted[i] == d[k];
        let j = choose|j: int| 0 <= j < keyed(w).len() && keyed(w)[j] == sorted[i];
        assert(keyed(w)[j].0 == w[j]);
    }
}


proof fn lemma_with_prefix_keeps(ws: Seq<Seq<char>>, p: Seq<char>)
    ensures
        forall|k: int| 0 <= k < ws.len() && p.is_prefix_of(ws[k]) ==> #[trigger] with_prefix(ws, p).contains(ws[k]),
    decreases ws.len(),
{
    if ws.len() > 0 {
        lemma_with_prefix_keeps(ws.drop_last(), p);
        let r = with_prefix(ws, p);
        let q = with_prefix(ws.drop_last(), p);
        assert forall|k: int| 0 <= k < ws.len() && p.is_prefix_of(ws[k]) implies #[trigger] r.contains(ws[k]) by {
            if k < ws.len() - 1 {
                assert(ws.drop_last()[k] == ws[k]);
                assert(q.contains(ws.drop_last()[k]));
                let j = choose|j: int| 0 <= j < q.len() && q[j] == ws[k];
                assert(r[j] == q[j]);
            } else {
                assert(r[r.len() - 1] == ws.last());
            }
        }
    }
}

proof fn lemma_insert_by_key_keeps<T>(t: Seq<(Seq<char>, T)>, x: (Seq<char>, T))
    ensures
        insert_by_key(t, x).contains(x),
        forall|k: int| 0 <= k < t.len() ==> #[trigger] insert_by_key(t, x).contains(t[k]),
    decreases t.len(),
{
    let r = insert_by_key(t, x);
    if t.len() == 0 {
        assert(r[0] == x);
    } else if text_less(x.0, t[0].0) {
        assert(r[0] == x);
        assert forall|k: int| 0 <= k < t.len() implies #[trigger] r.contains(t[k]) by {
            assert(r[k + 1] == t[k]);
        }
    } else {
        let rest = t.drop_first();
        lemma_insert_by_key_keeps(rest, x);
        let rr = insert_by_key(rest, x);
        let j = choose|j: int| 0 <= j < rr.len() && rr[j] == x;
        assert(r[j + 1] == x);
        assert forall|k: int| 0 <= k < t.len() implies #[trigger] r.contains(t[k]) by {
            if k == 0 {
                assert(r[0] == t[0]);
            } else {
                assert(rest[k - 1] == t[k]);
                assert(rr.contains(rest[k - 1]));
                let i = choose|i: int| 0 <= i < rr.len() && rr[i] == t[k];
                assert(r[i + 1] == t[k]);
            }
        }
    }
}

proof fn lemma_sort_by_key_keeps<T>(s: Seq<(Seq<char>, T)>)
    ensures
        forall|k: int| 0 <= k < s.len() ==> #[trigger] sort_by_key(s).contains(s[k]),
    decreases s.len(),
{
    if s.len() > 0 {
        let t = sort_by_key(s.drop_last());
        lemma_sort_by_key_keeps(s.drop_last());
        lemma_insert_by_key_keeps(t, s.last());
        assert forall|k: int| 0 <= k < s.len() implies #[trigger] sort_by_key(s).contains(s[k]) by {
            if k < s.len() - 1 {
                assert(s.drop_last()[k] == s[k]);
                assert(t.contains(s.drop_last()[k]));
                let j = choose|j: int| 0 <= j < t.len() && t[j] == s[k];
                assert(insert_by_key(t, s.last()).contains(t[j]));
            }
        }
    }
}

proof fn lemma_dedup_adjacent_keeps<T>(s: Seq<T>)
    ensures
        forall|k: int| 0 <= k < s.len() ==> #[trigger] dedup_adjacent(s).contains(s[k]),
    decreases s.len(),
{
    if s.len() > 0 {
        let d = dedup_adjacent(s.drop_last());
        lemma_dedup_adjacent_keeps(s.drop_last());
        let r = dedup_adjacent(s);
        assert forall|k: int| 0 <= k < s.len() implies #[trigger] r.contains(s[k]) by {
            if s.len() >= 2 && s[s.len() - 1] == s[s.len() - 2] {
                let k2 = if k == s.len() - 1 { s.len() - 2 } else { k };
                assert(s.drop_last()[k2] == s[k]);
                assert(d.contains(s.drop_last()[k2]));
            } else if k < s.len() - 1 {
                assert(s.drop_last()[k] == s[k]);
                assert(d.contains(s.drop_last()[k]));
                let j = choose|j: int| 0 <= j < d.len() && d[j] == s[k];
                assert(r[j] == d[j]);
            } else {
                assert(r[r.len() - 1] == s.last());
            }
        }
    }
}

/// Every command, topic or standard name that starts with a prefix is among
/// the completions of that prefix.
pub proof fn law_completions_cover_prefix(prefix: Seq<char>, c: Seq<char>)
    requires
        completion_candidates().contains(c),
        prefix.is_prefix_of(c),
    ensures
        completions(prefix).contains(c),
{
    let cands = completion_candidates();
    let w = with_prefix(cands, prefix);
    let kw = keyed(w);
    let sorted = sort_by_key(kw);
    let d = dedup_adjacent(sorted);
    lemma_with_prefix_keeps(cands, prefix);
    let i = choose|i: int| 0 <= i < cands.len() && cands[i] == c;
    assert(w.contains(cands[i]));
    let j = choose|j: int| 0 <= j < w.len() && w[j] == c;
    assert(kw[j] == (c, ()));
    lemma_sort_by_key_keeps(kw);
    assert(sorted.contains(kw[j]));
    let m = choose|m: int| 0 <= m < sorted.len() && sorted[m] == kw[j];
    lemma_dedup_adjacent_keeps(sorted);
    assert(d.contains(sorted[m]));
    let q = choose|q: int| 0 <= q < d.len() && d[q] == sorted[m];
    assert(completions(prefix)[q] == c);
}

/// Whether the keys of `s` never decrease.
pub open spec fn keys_ordered<T>(s: Seq<(Seq<char>, T)>) -> bool {
    forall|i: int, j: int| 0 <= i < j < s.len() ==> !text_less(#[trigger] s[j].0, #[trigger] s[i].0)
}

/// Whether the keys of `s` strictly increase.
pub open spec fn keys_increasing<T>(s: Seq<(Seq<char>, T)>) -> bool {
    forall|i: int, j: int| 0 <= i < j < s.len() ==> text_less(#[trigger] s[i].0, #[trigger] s[j].0)
}

pub proof fn lemma_insert_by_key_ordered<T>(t: Seq<(Seq<char>, T)>, x: (Seq<char>, T))
    requires
        keys_ordered(t),
    ensures
        keys_ordered(insert_by_key(t, x)),
    decreases t.len(),
{
    crate::mir::lemma_insert_by_key_len(t, x);
    let r = insert_by_key(t, x);
    if t.len() == 0 {
    } else if text_less(x.0, t[0].0) {
        assert forall|i: int, j: int| 0 <= i < j < r.len() implies !text_less(#[trigger] r[j].0, #[trigger] r[i].0) by {
            if i == 0 {
                assert(r[j] == t[j - 1]);
                if text_less(t[j - 1].0, x.0) {
                    crate::text::lemma_text_less_transitive(t[j - 1].0, x.0, t[0].0);
                    if j - 1 == 0 {
                        crate::text::lemma_text_less_irreflexive(t[0].0);
                    }
                }
            } else {
                assert(r[i] == t[i - 1] && r[j] == t[j - 1]);
            }
        }
    } else {
        let rest = t.drop_first();
        lemma_insert_by_key_ordered(rest, x);
        lemma_insert_by_key_elems(rest, x);
        crate::mir::lemma_insert_by_key_len(rest, x);
        let q = insert_by_key(rest, x);
        assert forall|i: int, j: int| 0 <= i < j < r.len() implies !text_less(#[trigger] r[j].0, #[trigger] r[i].0) by {
            assert(r[j] == q[j - 1]);
            if i == 0 {
                assert(r[0] == t[0]);
                if q[j - 1] != x {
                    let m = choose|m: int| 0 <= m < rest.len() && rest[m] == q[j - 1];
                    assert(t[m + 1] == rest[m]);
                }
            } else {
                assert(r[i] == q[i - 1]);
            }
        }
    }
}

pub proof fn lemma_sort_by_key_ordered<T>(s: Seq<(Seq<char>, T)>)
    ensures
        keys_ordered(sort_by_key(s)),
    decreases s.len(),
{
    if s.len() > 0 {
        lemma_sort_by_key_ordered(s.drop_last());
        lemma_insert_by_key_ordered(sort_by_key(s.drop_last()), s.last());
    }
}

pub proof fn lemma_dedup_increasing(s: Seq<(Seq<char>, ())>)
    requires
        keys_ordered(s),
    ensures
        keys_increasing(dedup_adjacent(s)),
        s.len() > 0 ==> dedup_adjacent(s).len() > 0 && dedup_adjacent(s).last() == s.last(),
    decreases s.len(),
{
    if s.len() > 0 {
        let p = s.drop_last();
        assert(keys_ordered(p)) by {
            assert forall|i: int, j: int| 0 <= i < j < p.len() implies !text_less(#[trigger] p[j].0, #[trigger] p[i].0) by {
                assert(p[i] == s[i] && p[j] == s[j]);
            }
        }
        lemma_dedup_increasing(p);
        let d = dedup_adjacent(p);
        if s.len() >= 2 && s[s.len() - 1] == s[s.len() - 2] {
            assert(p.last() == s[s.len() - 2]);
        } else if s.len() >= 2 {
            let r = dedup_adjacent(s);
            let a = s[s.len() - 2];
            let b = s.last();
            assert(a.0 != b.0) by {
                if a.0 == b.0 {
                    assert(a.1 == b.1);
                    assert(a == b);
                }
            }
            assert(!text_less(b.0, a.0));
            crate::text::lemma_text_less_total(a.0, b.0);
            assert(text_less(a.0, b.0));
            assert(d.last() == a);
            assert forall|i: int, j: int| 0 <= i < j < r.len() implies text_less(#[trigger] r[i].0, #[trigger] r[j].0) by {
                assert(r[i] == d[i]);
                if j < d.len() {
                    assert(r[j] == d[j]);
                } else {
                    assert(r[j] == b);
                    if i < d.len() - 1 {
                        crate::text::lemma_text_less_transitive(d[i].0, d[d.len() - 1].0, b.0);
                    }
                }
            }
        }
    }
}

/// The completions of a prefix come in strictly increasing text order, so
/// none occurs twice.
pub proof fn law_completions_sorted_without_repeats(prefix: Seq<char>)
    ensures
        forall|i: int, j: int|
            0 <= i < j < completions(prefix).len() ==> text_less(
                #[trigger] completions(prefix)[i],
                #[trigger] completions(prefix)[j],
            ) && completions(prefix)[i] != completions(prefix)[j],
{
    let w = with_prefix(completion_candidates(), prefix);
    let sorted = sort_by_key(keyed(w));
    let d = dedup_adjacent(sorted);
    lemma_sort_by_key_ordered(keyed(w));
    lemma_dedup_increasing(sorted);
    let c = completions(prefix);
    assert forall|i: int, j: int| 0 <= i < j < c.len() implies text_less(#[trigger] c[i], #[trigger] c[j])
        && c[i] != c[j] by {
        assert(c[i] == d[i].0 && c[j] == d[j].0);
        if c[i] == c[j] {
            crate::text::lemma_text_less_irreflexive(c[i]);
        }
    }
}


// ---------------------------------------------------------------------------
// What a line typed into the shell asks for
// ---------------------------------------------------------------------------

/// What the shell does with a line.
pub enum ReplAction {
    /// Nothing: the line is blank.
    Skip,
    /// Leave the shell.
    Quit,
    Help,
    Api,
    Topics,
    Examples,
    /// `:lang` without an argument: show its usage.
    LangUsage,
    /// Switch to this language.
    SetLanguage(Language),
    /// `:lang` with a setting that names no language.
    UnknownLanguage(String),
    /// `:doc` without an argument: show its usage and the topics.
    DocUsage,
    /// Show this topic.
    Doc(ReplTopic),
    /// `:doc` with a name that no topic has.
    UnknownTopic(String),
    /// `:complete` without an argument: show its usage.
    CompleteUsage,
    /// Show these completions.
    Complete(Vec<String>),
    /// Evaluate this program.
    Evaluate(String),
}

/// What the shell does with a line, as plain values.
pub enum ActionModel {
    Skip,
    Quit,
    Help,
    Api,
    Topics,
    Examples,
    LangUsage,
    SetLanguage(Language),
    UnknownLanguage(Seq<char>),
    DocUsage,
    Doc(ReplTopic),
    UnknownTopic(Seq<char>),
    CompleteUsage,
    Complete(Seq<Seq<char>>),
    Evaluate(Seq<char>),
}

/// The action as plain values.
pub open spec fn action_model(a: ReplAction) -> ActionModel {
    match a {
        ReplAction::Skip => ActionModel::Skip,
        ReplAction::Quit => ActionModel::Quit,
        ReplAction::Help => ActionModel::Help,
        ReplAction::Api => ActionModel::Api,
        ReplAction::Topics => ActionModel::Topics,
        ReplAction::Examples => ActionModel::Examples,
        ReplAction::LangUsage => ActionModel::LangUsage,
        ReplAction::SetLanguage(l) => ActionModel::SetLanguage(l),
        ReplAction::UnknownLanguage(v) => ActionModel::UnknownLanguage(v@),
        ReplAction::DocUsage => ActionModel::DocUsage,
        ReplAction::Doc(t) => ActionModel::Doc(t),
        ReplAction::UnknownTopic(t) => ActionModel::UnknownTopic(t@),
        ReplAction::CompleteUsage => ActionModel::CompleteUsage,
        ReplAction::Complete(ws) => ActionModel::Complete(crate::text::strings_view(ws@)),
        ReplAction::Evaluate(src) => ActionModel::Evaluate(src@),
    }
}

/// What the shell does with `line`: the commands, each by its exact text or
/// its prefix and argument; anything else is evaluated as the program the
/// line stands for.
pub open spec fn action_for(line: Seq<char>) -> ActionModel {
    let t = crate::trimmed(line);
    if t.len() == 0 {
        ActionModel::Skip
    } else if t == ":quit"@ || t == ":exit"@ {
        ActionModel::Quit
    } else if t == ":help"@ {
        ActionModel::Help
    } else if t == ":api"@ {
        ActionModel::Api
    } else if t == ":topics"@ {
        ActionModel::Topics
    } else if t == ":examples"@ {
        ActionModel::Examples
    } else if t == ":lang"@ {
        ActionModel::LangUsage
    } else if ":lang "@.is_prefix_of(t) {
        let v = t.skip(6);
        match language_named(normalized_setting(v)) {
            Some(l) => ActionModel::SetLanguage(l),
            None => ActionModel::UnknownLanguage(crate::trimmed(v)),
        }
    } else if t == ":doc"@ {
        ActionModel::DocUsage
    } else if ":doc "@.is_prefix_of(t) {
        let name = crate::trimmed(t.skip(5));
        match find_topic(topic_list(), name) {
            Some(topic) => ActionModel::Doc(topic),
            None => ActionModel::UnknownTopic(name),
        }
    } else if t == ":complete"@ {
        ActionModel::CompleteUsage
    } else if ":complete "@.is_prefix_of(t) {
        ActionModel::Complete(completions(crate::trimmed(t.skip(10))))
    } else {
        ActionModel::Evaluate(
            match crate::repl_run_text(t) {
                Some(src) => src,
                None => crate::repl_source_text(t),
            },
        )
    }
}

fn rest_after(t: &str, n: usize) -> (r: String)
    requires
        n <= t@.len(),
    ensures
        r@ == t@.skip(n as int),
{
    let chars = chars_of(t);
    let r = string_from_range(&chars, n, chars.len());
    assert(r@ =~= t@.skip(n as int));
    r
}

/// What the shell does with the line `line`.
pub fn repl_action(line: &str) -> (a: ReplAction)
    ensures
        action_model(a) == action_for(line@),
{
    let t = crate::trim(line);
    let t = t.as_str();
    proof {
        reveal_strlit(":lang ");
        reveal_strlit(":doc ");
        reveal_strlit(":complete ");
    }
    if t.is_empty() {
        assert(t@.len() == 0);
        return ReplAction::Skip;
    }
    assert(t@.len() > 0);
    if str_equal(t, ":quit") || str_equal(t, ":exit") {
        ReplAction::Quit
    } else if str_equal(t, ":help") {
        ReplAction::Help
    } else if str_equal(t, ":api") {
        ReplAction::Api
    } else if str_equal(t, ":topics") {
        ReplAction::Topics
    } else if str_equal(t, ":examples") {
        ReplAction::Examples
    } else if str_equal(t, ":lang") {
        ReplAction::LangUsage
    } else if starts_with(t, ":lang ") {
        let v = rest_after(t, 6);
        match parse_language(v.as_str()) {
            Some(l) => ReplAction::SetLanguage(l),
            None => ReplAction::UnknownLanguage(crate::trim(v.as_str())),
        }
    } else if str_equal(t, ":doc") {
        ReplAction::DocUsage
    } else if starts_with(t, ":doc ") {
        let name = crate::trim(rest_after(t, 5).as_str());
        match doc(name.as_str()) {
            Some(topic) => ReplAction::Doc(topic),
            None => ReplAction::UnknownTopic(name),
        }
    } else if str_equal(t, ":complete") {
        ReplAction::CompleteUsage
    } else if starts_with(t, ":complete ") {
        let prefix = crate::trim(rest_after(t, 10).as_str());
        ReplAction::Complete(complete(prefix.as_str()))
    } else {
        match crate::repl_run_source_for_line(t) {
            Some(src) => ReplAction::Evaluate(src),
            None => ReplAction::Evaluate(crate::repl_source_for_line(t)),
        }
    }
}

/// The line the shell prints after switching to `language`.
pub open spec fn switched_text(language: Language) -> Seq<char> {
    if language == Language::Zh { "已切换到中文。"@ } else { "Switched to English."@ }
}

/// The message the shell prints after switching to `language`, coloured.
pub fn language_switched(language: Language) -> (s: String)
    ensures
        s@ == colored(switched_text(language), Style::Value),
{
    if language == Language::Zh {
        color("已切换到中文。", Style::Value)
    } else {
        color("Switched to English.", Style::Value)
    }
}

} // verus!
