//! The lexer: source text to tokens. Every token carries the byte span it was
//! read from; lexical errors are collected and reported together.
//!
//! The token language is stated as a step function over the characters of the
//! source (`lex_step`): from a position it says how far the next lexeme reaches
//! and what it is. `spec_lex` folds that step over the whole source; `lex`
//! computes exactly `spec_lex`.
use vstd::prelude::*;
use crate::diagnostic::{Diagnostic, Span, SpecDiagnostic};
use crate::text::{
    byte_len, byte_offset, is_ascii_alphabetic, is_ascii_digit, is_whitespace,
    lemma_byte_offset_monotonic, lemma_len_le_byte_len, len_utf8, push_char, range_equals, spec_is_ascii_alphabetic,
    spec_is_ascii_digit, spec_is_whitespace, string_from_range, chars_of,
};

verus! {

#[derive(Debug, Clone, PartialEq, Eq)]
pub struct Token {
    pub kind: TokenKind,
    pub span: Span,
}

#[derive(Debug, Clone, PartialEq, Eq)]
pub enum TokenKind {
    Ident(String),
    Int(String),
    String(String),
    Keyword(Keyword),
    Symbol(Symbol),
    Eof,
}

#[derive(Debug, Clone, Copy, PartialEq, Eq, Structural)]
pub enum Keyword {
    Module,
    Import,
    Export,
    Fn,
    Let,
    Mut,
    Return,
    If,
    Else,
    While,
    Match,
    Struct,
    Enum,
    True,
    False,
}

#[derive(Debug, Clone, Copy, PartialEq, Eq, Structural)]
pub enum Symbol {
    LParen,
    RParen,
    LBrace,
    RBrace,
    LBracket,
    RBracket,
    Colon,
    Semicolon,
    Comma,
    Dot,
    Arrow,
    Eq,
    EqEq,
    BangEq,
    Lt,
    Lte,
    Gt,
    Gte,
    Plus,
    Minus,
    Star,
    Slash,
    Bang,
    AndAnd,
    OrOr,
    PlusEq,
    MinusEq,
    StarEq,
    SlashEq,
}

/// The content of a token kind, with text as character sequences.
pub enum SpecTokenKind {
    Ident(Seq<char>),
    Int(Seq<char>),
    Str(Seq<char>),
    Keyword(Keyword),
    Symbol(Symbol),
    Eof,
}

pub struct SpecToken {
    pub kind: SpecTokenKind,
    pub span: Span,
}

impl View for TokenKind {
    type V = SpecTokenKind;

    open spec fn view(&self) -> SpecTokenKind {
        match self {
            TokenKind::Ident(t) => SpecTokenKind::Ident(t@),
            TokenKind::Int(t) => SpecTokenKind::Int(t@),
            TokenKind::String(t) => SpecTokenKind::Str(t@),
            TokenKind::Keyword(k) => SpecTokenKind::Keyword(*k),
            TokenKind::Symbol(s) => SpecTokenKind::Symbol(*s),
            TokenKind::Eof => SpecTokenKind::Eof,
        }
    }
}

impl View for Token {
    type V = SpecToken;

    open spec fn view(&self) -> SpecToken {
        SpecToken { kind: self.kind@, span: self.span }
    }
}

/// The views of a sequence of tokens.
pub open spec fn tokens_view(ts: Seq<Token>) -> Seq<SpecToken> {
    ts.map_values(|t: Token| t@)
}

/// What one step of the lexer finds: nothing (whitespace or a comment), a
/// token, or a lexical error with its code and message.
pub enum Lexeme {
    Skip,
    Tok(SpecTokenKind),
    Error(Seq<char>, Seq<char>),
}

pub open spec fn spec_is_ident_start(c: char) -> bool {
    c == '_' || spec_is_ascii_alphabetic(c)
}

pub open spec fn spec_is_ident_continue(c: char) -> bool {
    spec_is_ident_start(c) || spec_is_ascii_digit(c)
}

/// First index at or after `j` whose character cannot continue an identifier.
pub open spec fn ident_end(s: Seq<char>, j: int) -> int
    decreases s.len() - j,
{
    if j >= s.len() || !spec_is_ident_continue(s[j]) {
        j
    } else {
        ident_end(s, j + 1)
    }
}

/// First index at or after `j` that is not an ASCII digit.
pub open spec fn digits_end(s: Seq<char>, j: int) -> int
    decreases s.len() - j,
{
    if j >= s.len() || !spec_is_ascii_digit(s[j]) {
        j
    } else {
        digits_end(s, j + 1)
    }
}

/// One past the first newline at or after `j`, or the end of the text.
pub open spec fn comment_end(s: Seq<char>, j: int) -> int
    decreases s.len() - j,
{
    if j >= s.len() {
        s.len() as int
    } else if s[j] == '\n' {
        j + 1
    } else {
        comment_end(s, j + 1)
    }
}

/// The character an escape `\c` in a string literal stands for.
pub open spec fn escaped(c: char) -> char {
    if c == 'n' { '\n' } else { c }
}

/// Scans the body of a string literal from `j` with `acc` read so far: where
/// the scan stops, and the value if the closing quote was found.
pub open spec fn string_scan(s: Seq<char>, j: int, acc: Seq<char>) -> (int, Option<Seq<char>>)
    decreases s.len() - j,
{
    if j >= s.len() || j < 0 {
        (s.len() as int, None)
    } else if s[j] == '"' {
        (j + 1, Some(acc))
    } else if s[j] == '\\' {
        if j + 1 >= s.len() {
            (s.len() as int, None)
        } else {
            string_scan(s, j + 2, acc.push(escaped(s[j + 1])))
        }
    } else {
        string_scan(s, j + 1, acc.push(s[j]))
    }
}

/// The keyword spelled by `text`, if any.
pub open spec fn keyword_of(text: Seq<char>) -> Option<Keyword> {
    if text == "module"@ {
        Some(Keyword::Module)
    } else if text == "import"@ {
        Some(Keyword::Import)
    } else if text == "export"@ {
        Some(Keyword::Export)
    } else if text == "fn"@ {
        Some(Keyword::Fn)
    } else if text == "let"@ {
        Some(Keyword::Let)
    } else if text == "mut"@ {
        Some(Keyword::Mut)
    } else if text == "return"@ {
        Some(Keyword::Return)
    } else if text == "if"@ {
        Some(Keyword::If)
    } else if text == "else"@ {
        Some(Keyword::Else)
    } else if text == "while"@ {
        Some(Keyword::While)
    } else if text == "match"@ {
        Some(Keyword::Match)
    } else if text == "struct"@ {
        Some(Keyword::Struct)
    } else if text == "enum"@ {
        Some(Keyword::Enum)
    } else if text == "true"@ {
        Some(Keyword::True)
    } else if text == "false"@ {
        Some(Keyword::False)
    } else {
        None
    }
}

/// The symbol starting at `i` and where it ends; `None` for a character that
/// starts no symbol (which then spans one character).
pub open spec fn symbol_at(s: Seq<char>, i: int) -> (int, Option<Symbol>) {
    let c = s[i];
    let next_is = |d: char| i + 1 < s.len() && s[i + 1] == d;
    if c == '(' {
        (i + 1, Some(Symbol::LParen))
    } else if c == ')' {
        (i + 1, Some(Symbol::RParen))
    } else if c == '{' {
        (i + 1, Some(Symbol::LBrace))
    } else if c == '}' {
        (i + 1, Some(Symbol::RBrace))
    } else if c == '[' {
        (i + 1, Some(Symbol::LBracket))
    } else if c == ']' {
        (i + 1, Some(Symbol::RBracket))
    } else if c == ':' {
        (i + 1, Some(Symbol::Colon))
    } else if c == ';' {
        (i + 1, Some(Symbol::Semicolon))
    } else if c == ',' {
        (i + 1, Some(Symbol::Comma))
    } else if c == '.' {
        (i + 1, Some(Symbol::Dot))
    } else if c == '=' {
        if next_is('=') { (i + 2, Some(Symbol::EqEq)) } else { (i + 1, Some(Symbol::Eq)) }
    } else if c == '!' {
        if next_is('=') { (i + 2, Some(Symbol::BangEq)) } else { (i + 1, Some(Symbol::Bang)) }
    } else if c == '&' {
        if next_is('&') { (i + 2, Some(Symbol::AndAnd)) } else { (i + 1, None) }
    } else if c == '|' {
        if next_is('|') { (i + 2, Some(Symbol::OrOr)) } else { (i + 1, None) }
    } else if c == '<' {
        if next_is('=') { (i + 2, Some(Symbol::Lte)) } else { (i + 1, Some(Symbol::Lt)) }
    } else if c == '>' {
        if next_is('=') { (i + 2, Some(Symbol::Gte)) } else { (i + 1, Some(Symbol::Gt)) }
    } else if c == '+' {
        if next_is('=') { (i + 2, Some(Symbol::PlusEq)) } else { (i + 1, Some(Symbol::Plus)) }
    } else if c == '*' {
        if next_is('=') { (i + 2, Some(Symbol::StarEq)) } else { (i + 1, Some(Symbol::Star)) }
    } else if c == '/' {
        if next_is('=') { (i + 2, Some(Symbol::SlashEq)) } else { (i + 1, Some(Symbol::Slash)) }
    } else if c == '-' {
        if next_is('>') {
            (i + 2, Some(Symbol::Arrow))
        } else if next_is('=') {
            (i + 2, Some(Symbol::MinusEq))
        } else {
            (i + 1, Some(Symbol::Minus))
        }
    } else {
        (i + 1, None)
    }
}

pub open spec fn float_message() -> Seq<char> {
    "floating-point literals are not supported in Stage 0; use Int arithmetic for now"@
}

pub open spec fn unknown_char_message(c: char) -> Seq<char> {
    "unknown character `"@ + seq![c] + "`"@
}

/// One lexer step at character index `i < s.len()`: where the lexeme ends and
/// what it is.
pub open spec fn lex_step(s: Seq<char>, i: int) -> (int, Lexeme) {
    let c = s[i];
    if spec_is_whitespace(c) {
        (i + 1, Lexeme::Skip)
    } else if c == '/' && i + 1 < s.len() && s[i + 1] == '/' {
        (comment_end(s, i), Lexeme::Skip)
    } else if spec_is_ident_start(c) {
        let j = ident_end(s, i + 1);
        let text = s.subrange(i, j);
        match keyword_of(text) {
            Some(k) => (j, Lexeme::Tok(SpecTokenKind::Keyword(k))),
            None => (j, Lexeme::Tok(SpecTokenKind::Ident(text))),
        }
    } else if spec_is_ascii_digit(c) {
        let j = digits_end(s, i + 1);
        if j < s.len() && s[j] == '.' {
            (digits_end(s, j + 1), Lexeme::Error("LEX_FLOAT_UNSUPPORTED"@, float_message()))
        } else {
            (j, Lexeme::Tok(SpecTokenKind::Int(s.subrange(i, j))))
        }
    } else if c == '"' {
        let (j, value) = string_scan(s, i + 1, Seq::empty());
        match value {
            Some(v) => (j, Lexeme::Tok(SpecTokenKind::Str(v))),
            None => (j, Lexeme::Error("LEX_UNTERMINATED_STRING"@, "unterminated string literal"@)),
        }
    } else {
        let (j, sym) = symbol_at(s, i);
        match sym {
            Some(k) => (j, Lexeme::Tok(SpecTokenKind::Symbol(k))),
            None => (j, Lexeme::Error("LEX_UNKNOWN_CHAR"@, unknown_char_message(c))),
        }
    }
}

/// The span from character index `i` to `j`, in bytes.
pub open spec fn byte_span(s: Seq<char>, i: int, j: int) -> Span {
    Span { start: byte_offset(s, i) as usize, end: byte_offset(s, j) as usize }
}

/// Lexes from character index `i`, with tokens `toks` and errors `diags`
/// already found; ends with the `Eof` token at the end of the text.
pub open spec fn lex_from(
    s: Seq<char>,
    i: int,
    toks: Seq<SpecToken>,
    diags: Seq<SpecDiagnostic>,
) -> (Seq<SpecToken>, Seq<SpecDiagnostic>)
    decreases s.len() - i,
{
    if i < 0 || i >= s.len() {
        (toks.push(SpecToken { kind: SpecTokenKind::Eof, span: byte_span(s, s.len() as int, s.len() as int) }), diags)
    } else {
        let (j, lexeme) = lex_step(s, i);
        if j <= i || j > s.len() {
            (toks, diags)
        } else {
            match lexeme {
                Lexeme::Skip => lex_from(s, j, toks, diags),
                Lexeme::Tok(kind) => lex_from(
                    s,
                    j,
                    toks.push(SpecToken { kind, span: byte_span(s, i, j) }),
                    diags,
                ),
                Lexeme::Error(code, message) => lex_from(
                    s,
                    j,
                    toks,
                    diags.push(SpecDiagnostic { code, message, span: byte_span(s, i, j) }),
                ),
            }
        }
    }
}

/// The tokens of `s`, or every lexical error in it.
pub open spec fn spec_lex(s: Seq<char>) -> Result<Seq<SpecToken>, Seq<SpecDiagnostic>> {
    let (toks, diags) = lex_from(s, 0, Seq::empty(), Seq::empty());
    if diags.len() == 0 {
        Ok(toks)
    } else {
        Err(diags)
    }
}

proof fn lemma_ident_end(s: Seq<char>, j: int)
    requires
        0 <= j <= s.len(),
    ensures
        j <= ident_end(s, j) <= s.len(),
    decreases s.len() - j,
{
    if j < s.len() && spec_is_ident_continue(s[j]) {
        lemma_ident_end(s, j + 1);
    }
}

proof fn lemma_digits_end(s: Seq<char>, j: int)
    requires
        0 <= j <= s.len(),
    ensures
        j <= digits_end(s, j) <= s.len(),
    decreases s.len() - j,
{
    if j < s.len() && spec_is_ascii_digit(s[j]) {
        lemma_digits_end(s, j + 1);
    }
}

proof fn lemma_comment_end(s: Seq<char>, j: int)
    requires
        0 <= j <= s.len(),
    ensures
        j <= comment_end(s, j) <= s.len(),
    decreases s.len() - j,
{
    if j < s.len() && s[j] != '\n' {
        lemma_comment_end(s, j + 1);
    }
}

proof fn lemma_string_scan(s: Seq<char>, j: int, acc: Seq<char>)
    requires
        0 <= j <= s.len(),
    ensures
        j <= string_scan(s, j, acc).0 <= s.len(),
    decreases s.len() - j,
{
    if j < s.len() && s[j] != '"' {
        if s[j] == '\\' {
            if j + 1 < s.len() {
                lemma_string_scan(s, j + 2, acc.push(escaped(s[j + 1])));
            }
        } else {
            lemma_string_scan(s, j + 1, acc.push(s[j]));
        }
    }
}

/// Every lexer step consumes at least one character and stays in the text.
pub proof fn lemma_lex_step_progress(s: Seq<char>, i: int)
    requires
        0 <= i < s.len(),
    ensures
        i < lex_step(s, i).0 <= s.len(),
{
    let c = s[i];
    if spec_is_whitespace(c) {
    } else if c == '/' && i + 1 < s.len() && s[i + 1] == '/' {
        lemma_comment_end(s, i + 1);
        assert(comment_end(s, i) == comment_end(s, i + 1));
    } else if spec_is_ident_start(c) {
        lemma_ident_end(s, i + 1);
    } else if spec_is_ascii_digit(c) {
        lemma_digits_end(s, i + 1);
        let j = digits_end(s, i + 1);
        if j < s.len() && s[j] == '.' {
            lemma_digits_end(s, j + 1);
        }
    } else if c == '"' {
        lemma_string_scan(s, i + 1, Seq::empty());
    }
}

proof fn lemma_lex_from_ends_with_eof(
    s: Seq<char>,
    i: int,
    toks: Seq<SpecToken>,
    diags: Seq<SpecDiagnostic>,
)
    requires
        0 <= i,
    ensures
        ({
            let ts = lex_from(s, i, toks, diags).0;
            &&& ts.len() > 0
            &&& ts.last() == (SpecToken {
                kind: SpecTokenKind::Eof,
                span: byte_span(s, s.len() as int, s.len() as int),
            })
        }),
    decreases s.len() - i,
{
    if i < s.len() {
        lemma_lex_step_progress(s, i);
        let (j, lexeme) = lex_step(s, i);
        match lexeme {
            Lexeme::Skip => lemma_lex_from_ends_with_eof(s, j, toks, diags),
            Lexeme::Tok(kind) => lemma_lex_from_ends_with_eof(
                s,
                j,
                toks.push(SpecToken { kind, span: byte_span(s, i, j) }),
                diags,
            ),
            Lexeme::Error(code, message) => lemma_lex_from_ends_with_eof(
                s,
                j,
                toks,
                diags.push(SpecDiagnostic { code, message, span: byte_span(s, i, j) }),
            ),
        }
    }
}

/// A text that lexes gives tokens ending with the `Eof` token, which spans
/// the empty range at the end of the text.
pub proof fn lemma_lex_ends_with_eof(s: Seq<char>)
    ensures
        spec_lex(s) matches Ok(ts) ==> ts.len() > 0 && ts.last() == (SpecToken {
            kind: SpecTokenKind::Eof,
            span: (Span { start: byte_len(s) as usize, end: byte_len(s) as usize }),
        }),
{
    lemma_lex_from_ends_with_eof(s, 0, Seq::empty(), Seq::empty());
}

/// Whether the byte offset `b` of `s` falls between two characters.
pub open spec fn on_char_boundary(s: Seq<char>, b: int) -> bool {
    exists|i: int| 0 <= i <= s.len() && byte_offset(s, i) == b
}

/// Whether the spans of `ts` run from one character boundary of `s` to a
/// later one, in source order and without overlap.
pub open spec fn spans_in_order(s: Seq<char>, ts: Seq<SpecToken>) -> bool {
    &&& forall|a: int|
        0 <= a < ts.len() ==> on_char_boundary(s, #[trigger] ts[a].span.start as int) && on_char_boundary(
            s,
            ts[a].span.end as int,
        ) && ts[a].span.start <= ts[a].span.end
    &&& forall|a: int, b: int| 0 <= a < b < ts.len() ==> #[trigger] ts[a].span.end <= #[trigger] ts[b].span.start
}

proof fn lemma_push_span(s: Seq<char>, toks: Seq<SpecToken>, t: SpecToken, i: int, j: int)
    requires
        0 <= i <= j <= s.len(),
        byte_len(s) < usize::MAX,
        t.span == byte_span(s, i, j),
        spans_in_order(s, toks),
        forall|a: int| 0 <= a < toks.len() ==> #[trigger] toks[a].span.end <= byte_offset(s, i),
    ensures
        spans_in_order(s, toks.push(t)),
        forall|a: int| 0 <= a < toks.len() + 1 ==> #[trigger] toks.push(t)[a].span.end <= byte_offset(s, j),
{
    let r = toks.push(t);
    lemma_byte_offset_monotonic(s, i, j);
    lemma_byte_offset_monotonic(s, j, s.len() as int);
    assert(t.span.start == byte_offset(s, i));
    assert(t.span.end == byte_offset(s, j));
    assert forall|a: int| 0 <= a < r.len() implies on_char_boundary(s, #[trigger] r[a].span.start as int)
        && on_char_boundary(s, r[a].span.end as int) && r[a].span.start <= r[a].span.end by {
        if a < toks.len() {
            assert(r[a] == toks[a]);
        } else {
            assert(r[a] == t);
            assert(byte_offset(s, i) == t.span.start as int);
            assert(byte_offset(s, j) == t.span.end as int);
        }
    }
    assert forall|a: int, b: int| 0 <= a < b < r.len() implies #[trigger] r[a].span.end <= #[trigger] r[b].span.start by {
        assert(r[a] == toks[a]);
        if b < toks.len() {
            assert(r[b] == toks[b]);
        }
    }
    assert forall|a: int| 0 <= a < toks.len() + 1 implies #[trigger] r[a].span.end <= byte_offset(s, j) by {
        if a < toks.len() {
            assert(r[a] == toks[a]);
        }
    }
}

proof fn lemma_lex_from_spans(s: Seq<char>, i: int, toks: Seq<SpecToken>, diags: Seq<SpecDiagnostic>)
    requires
        0 <= i <= s.len(),
        byte_len(s) < usize::MAX,
        spans_in_order(s, toks),
        forall|a: int| 0 <= a < toks.len() ==> #[trigger] toks[a].span.end <= byte_offset(s, i),
    ensures
        spans_in_order(s, lex_from(s, i, toks, diags).0),
    decreases s.len() - i,
{
    if i >= s.len() {
        let e = SpecToken { kind: SpecTokenKind::Eof, span: byte_span(s, s.len() as int, s.len() as int) };
        lemma_push_span(s, toks, e, i, s.len() as int);
    } else {
        lemma_lex_step_progress(s, i);
        let (j, lexeme) = lex_step(s, i);
        lemma_byte_offset_monotonic(s, i, j);
        match lexeme {
            Lexeme::Skip => lemma_lex_from_spans(s, j, toks, diags),
            Lexeme::Tok(kind) => {
                let t = SpecToken { kind, span: byte_span(s, i, j) };
                lemma_push_span(s, toks, t, i, j);
                lemma_lex_from_spans(s, j, toks.push(t), diags);
            },
            Lexeme::Error(code, message) => lemma_lex_from_spans(
                s,
                j,
                toks,
                diags.push(SpecDiagnostic { code, message, span: byte_span(s, i, j) }),
            ),
        }
    }
}

/// The tokens of a text that lexes lie in source order without overlapping,
/// and each begins and ends between two characters.
pub proof fn law_token_spans_in_order(s: Seq<char>)
    requires
        byte_len(s) < usize::MAX,
    ensures
        spec_lex(s) matches Ok(ts) ==> spans_in_order(s, ts),
{
    lemma_lex_from_spans(s, 0, Seq::empty(), Seq::empty());
}

/// Whether `w` holds no quote and no backslash.
pub open spec fn free_of_quotes(w: Seq<char>) -> bool {
    forall|i: int| 0 <= i < w.len() ==> w[i] != '"' && w[i] != '\\'
}

proof fn lemma_scan_plain(s: Seq<char>, j: int, w: Seq<char>, acc: Seq<char>)
    requires
        0 <= j,
        j + w.len() <= s.len(),
        s.subrange(j, j + w.len()) == w,
        free_of_quotes(w),
    ensures
        string_scan(s, j, acc) == string_scan(s, j + w.len(), acc + w),
    decreases w.len(),
{
    if w.len() == 0 {
        assert(acc + w =~= acc);
    } else {
        assert(s[j] == s.subrange(j, j + w.len())[0]);
        assert(s.subrange(j + 1, j + w.len()) =~= w.drop_first());
        lemma_scan_plain(s, j + 1, w.drop_first(), acc.push(w[0]));
        assert(acc.push(w[0]) + w.drop_first() =~= acc + w);
    }
}

/// A string literal reads the escape `\n` as a newline and `\"` as a quote:
/// the text `"a\nb"`, with `a` and `b` free of quotes and backslashes, lexes
/// to one string token whose value is `a`, a newline, then `b` (and `"a\"b"`
/// to one whose value is `a`, a quote, then `b`; `\\` gives one backslash),
/// followed by `Eof`.
pub proof fn law_string_escapes(a: Seq<char>, b: Seq<char>, e: char)
    requires
        free_of_quotes(a),
        free_of_quotes(b),
        e == 'n' || e == '"' || e == '\\',
    ensures
        ({
            let s = seq!['"'] + a + seq!['\\', e] + b + seq!['"'];
            let value = if e == 'n' {
                a + seq!['\n'] + b
            } else if e == '"' {
                a + seq!['"'] + b
            } else {
                a + seq!['\\'] + b
            };
            spec_lex(s) == Ok::<Seq<SpecToken>, Seq<SpecDiagnostic>>(
                seq![
                    SpecToken { kind: SpecTokenKind::Str(value), span: byte_span(s, 0, s.len() as int) },
                    SpecToken { kind: SpecTokenKind::Eof, span: byte_span(s, s.len() as int, s.len() as int) },
                ],
            )
        }),
{
    let s = seq!['"'] + a + seq!['\\', e] + b + seq!['"'];
    let value = if e == 'n' {
                a + seq!['\n'] + b
            } else if e == '"' {
                a + seq!['"'] + b
            } else {
                a + seq!['\\'] + b
            };
    let n = s.len() as int;
    let k: int = 1 + a.len() as int;
    let bl: int = b.len() as int;
    assert(s[0] == '"');
    assert(s.subrange(1, k) =~= a);
    assert(s[k] == '\\');
    assert(s[k + 1] == e);
    assert(s.subrange(k + 2, k + 2 + bl) =~= b);
    assert(s[k + 2 + bl] == '"');
    assert(n == k + 3 + bl);
    lemma_scan_plain(s, 1, a, Seq::empty());
    assert(Seq::<char>::empty() + a =~= a);
    assert(escaped(e) == if e == 'n' { '\n' } else if e == '"' { '"' } else { '\\' });
    let mid = a.push(escaped(e));
    assert(string_scan(s, k, a) == string_scan(s, k + 2, mid));
    lemma_scan_plain(s, k + 2, b, mid);
    assert(mid + b =~= value);
    assert(string_scan(s, k + 2 + bl, mid + b) == (n, Some(mid + b)));
    assert(string_scan(s, 1, Seq::empty()) == (n, Some(value)));
    assert(!spec_is_whitespace('"'));
    assert(!spec_is_ident_start('"'));
    assert(!spec_is_ascii_digit('"'));
    assert(lex_step(s, 0) == (n, Lexeme::Tok(SpecTokenKind::Str(value))));
    let tok = SpecToken { kind: SpecTokenKind::Str(value), span: byte_span(s, 0, n) };
    assert(lex_from(s, 0, Seq::empty(), Seq::empty()) == lex_from(s, n, seq![tok], Seq::empty()));
    let eof = SpecToken { kind: SpecTokenKind::Eof, span: byte_span(s, n, n) };
    assert(lex_from(s, n, seq![tok], Seq::empty()) == (seq![tok].push(eof), Seq::<SpecDiagnostic>::empty()));
    assert(seq![tok].push(eof) =~= seq![tok, eof]);
}

/// Lexes `source` into tokens ending with `Eof`, or returns every lexical error.
pub fn lex(source: &str) -> (r: Result<Vec<Token>, Vec<Diagnostic>>)
    requires
        byte_len(source@) < usize::MAX,
    ensures
        match r {
            Ok(tokens) => spec_lex(source@) == Ok::<_, Seq<SpecDiagnostic>>(tokens_view(tokens@)),
            Err(diags) => spec_lex(source@) == Err::<Seq<SpecToken>, _>(
                crate::diagnostic::diags_view(diags@),
            ),
        },
{
    Lexer::new(source).lex()
}

struct Lexer {
    chars: Vec<char>,
    pos: usize,
    idx: usize,
    diagnostics: Vec<Diagnostic>,
    tokens: Vec<Token>,
}

impl Lexer {
    spec fn wf(&self) -> bool {
        &&& self.idx <= self.chars@.len()
        &&& self.chars@.len() < usize::MAX
        &&& self.pos == byte_offset(self.chars@, self.idx as int)
        &&& byte_len(self.chars@) < usize::MAX
    }

    /// The fold so far: what lexing from the current position still yields,
    /// given the tokens and errors already found.
    spec fn rest(&self) -> (Seq<SpecToken>, Seq<SpecDiagnostic>) {
        lex_from(
            self.chars@,
            self.idx as int,
            tokens_view(self.tokens@),
            crate::diagnostic::diags_view(self.diagnostics@),
        )
    }

    fn new(source: &str) -> (l: Self)
        requires
            byte_len(source@) < usize::MAX,
        ensures
            l.wf(),
            l.chars@ == source@,
            l.idx == 0,
            l.rest() == lex_from(source@, 0, Seq::empty(), Seq::empty()),
    {
        let l = Lexer {
            chars: chars_of(source),
            pos: 0,
            idx: 0,
            diagnostics: Vec::new(),
            tokens: Vec::new(),
        };
        proof {
            lemma_len_le_byte_len(source@, source@.len() as int);
            assert(tokens_view(l.tokens@) =~= Seq::empty());
            assert(crate::diagnostic::diags_view(l.diagnostics@) =~= Seq::empty());
        }
        l
    }

    fn lex(self) -> (r: Result<Vec<Token>, Vec<Diagnostic>>)
        requires
            self.wf(),
        ensures
            match r {
                Ok(tokens) => {
                    let (t, d) = self.rest();
                    d.len() == 0 && t == tokens_view(tokens@)
                },
                Err(diags) => {
                    let (t, d) = self.rest();
                    d.len() > 0 && d == crate::diagnostic::diags_view(diags@)
                },
            },
    {
        let mut lx = self;
        let ghost goal = lx.rest();
        loop
            invariant_except_break
                lx.wf(),
                lx.rest() == goal,
            ensures
                lx.wf(),
                lx.rest() == goal,
                lx.idx >= lx.chars@.len(),
            decreases lx.chars@.len() - lx.idx,
        {
            let ch = match lx.peek_char() {
                Some(c) => c,
                None => break,
            };
            let ghost before = lx;
            if is_whitespace(ch) {
                lx.bump_char();
                proof {
                    let s = lx.chars@;
                    let i = before.idx as int;
                    assert(lex_step(s, i) == (i + 1, Lexeme::Skip));
                }
            } else if ch == '/' && lx.peek_next_char() == Some('/') {
                lx.skip_line_comment();
            } else if is_ident_start(ch) {
                lx.lex_ident_or_keyword();
            } else if is_ascii_digit(ch) {
                lx.lex_int();
            } else if ch == '"' {
                lx.lex_string();
            } else {
                lx.lex_symbol();
            }
        }
        let ghost before = lx;
        let eof = Token { kind: TokenKind::Eof, span: Span::new(lx.pos, lx.pos) };
        lx.tokens.push(eof);
        proof {
            let s = lx.chars@;
            assert(tokens_view(lx.tokens@) =~= tokens_view(before.tokens@).push(eof@));
            assert(lx.pos == byte_offset(s, s.len() as int));
        }
        if lx.diagnostics.len() == 0 {
            Ok(lx.tokens)
        } else {
            Err(lx.diagnostics)
        }
    }

    proof fn lemma_tok_step(&self, old_self: Self, kind: SpecTokenKind, j: int)
        requires
            old_self.wf(),
            self.wf(),
            old_self.idx < old_self.chars@.len(),
            self.chars@ == old_self.chars@,
            lex_step(old_self.chars@, old_self.idx as int) == (j, Lexeme::Tok(kind)),
            self.idx == j,
            j > old_self.idx,
            self.diagnostics@ == old_self.diagnostics@,
            tokens_view(self.tokens@) == tokens_view(old_self.tokens@).push(
                SpecToken { kind, span: byte_span(old_self.chars@, old_self.idx as int, j) },
            ),
        ensures
            self.rest() == old_self.rest(),
    {
    }

    /// Lexes an identifier or keyword starting at the current character.
    fn lex_ident_or_keyword(&mut self)
        requires
            old(self).wf(),
            old(self).idx < old(self).chars@.len(),
            spec_is_ident_start(old(self).chars@[old(self).idx as int]),
            !spec_is_whitespace(old(self).chars@[old(self).idx as int]),
            !(old(self).chars@[old(self).idx as int] == '/'),
        ensures
            final(self).wf(),
            final(self).chars@ == old(self).chars@,
            final(self).idx > old(self).idx,
            final(self).rest() == old(self).rest(),
    {
        let ghost s = self.chars@;
        let ghost before = *self;
        let start = self.pos;
        let start_idx = self.idx;
        self.bump_char();
        while self.idx < self.chars.len() && is_ident_continue(self.chars[self.idx])
            invariant
                self.wf(),
                self.chars@ == s,
                start_idx < self.idx,
                ident_end(s, start_idx + 1) == ident_end(s, self.idx as int),
                self.tokens@ == before.tokens@,
                self.diagnostics@ == before.diagnostics@,
            decreases self.chars@.len() - self.idx,
        {
            self.bump_char();
        }
        let end_idx = self.idx;
        let kind = match keyword_text(&self.chars, start_idx, end_idx) {
            Some(k) => TokenKind::Keyword(k),
            None => TokenKind::Ident(string_from_range(&self.chars, start_idx, end_idx)),
        };
        let tok = Token { kind, span: Span::new(start, self.pos) };
        self.tokens.push(tok);
        proof {
            assert(tokens_view(self.tokens@) =~= tokens_view(before.tokens@).push(tok@));
            self.lemma_tok_step(before, tok@.kind, end_idx as int);
        }
    }

    /// Lexes an integer literal starting at the current digit; a fractional
    /// part makes it a float literal, which is reported as an error.
    fn lex_int(&mut self)
        requires
            old(self).wf(),
            old(self).idx < old(self).chars@.len(),
            spec_is_ascii_digit(old(self).chars@[old(self).idx as int]),
        ensures
            final(self).wf(),
            final(self).chars@ == old(self).chars@,
            final(self).idx > old(self).idx,
            final(self).rest() == old(self).rest(),
    {
        let ghost s = self.chars@;
        let ghost before = *self;
        let start = self.pos;
        let start_idx = self.idx;
        self.bump_char();
        while self.idx < self.chars.len() && is_ascii_digit(self.chars[self.idx])
            invariant
                self.wf(),
                self.chars@ == s,
                start_idx < self.idx,
                digits_end(s, start_idx + 1) == digits_end(s, self.idx as int),
                self.tokens@ == before.tokens@,
                self.diagnostics@ == before.diagnostics@,
            decreases self.chars@.len() - self.idx,
        {
            self.bump_char();
        }
        if self.peek_char() == Some('.') {
            let ghost dot = self.idx as int;
            self.bump_char();
            while self.idx < self.chars.len() && is_ascii_digit(self.chars[self.idx])
                invariant
                    self.wf(),
                    self.chars@ == s,
                    start_idx < self.idx,
                    digits_end(s, dot + 1) == digits_end(s, self.idx as int),
                    self.tokens@ == before.tokens@,
                    self.diagnostics@ == before.diagnostics@,
                decreases self.chars@.len() - self.idx,
            {
                self.bump_char();
            }
            let d = Diagnostic::new(
                "LEX_FLOAT_UNSUPPORTED",
                "floating-point literals are not supported in Stage 0; use Int arithmetic for now",
                Span::new(start, self.pos),
            );
            self.diagnostics.push(d);
            proof {
                assert(crate::diagnostic::diags_view(self.diagnostics@) =~= crate::diagnostic::diags_view(
                    before.diagnostics@,
                ).push(d@));
            }
            return;
        }
        let tok = Token {
            kind: TokenKind::Int(string_from_range(&self.chars, start_idx, self.idx)),
            span: Span::new(start, self.pos),
        };
        self.tokens.push(tok);
        proof {
            assert(tokens_view(self.tokens@) =~= tokens_view(before.tokens@).push(tok@));
            self.lemma_tok_step(before, tok@.kind, self.idx as int);
        }
    }

    /// Lexes a string literal starting at the opening quote, decoding `\"`,
    /// `\n` and `\c` (any other character stands for itself).
    fn lex_string(&mut self)
        requires
            old(self).wf(),
            old(self).idx < old(self).chars@.len(),
            old(self).chars@[old(self).idx as int] == '"',
        ensures
            final(self).wf(),
            final(self).chars@ == old(self).chars@,
            final(self).idx > old(self).idx,
            final(self).rest() == old(self).rest(),
    {
        let ghost s = self.chars@;
        let ghost before = *self;
        let start = self.pos;
        let start_idx = self.idx;
        self.bump_char();
        let mut value = String::new();
        loop
            invariant_except_break
                self.wf(),
                self.chars@ == s,
                start_idx < self.idx,
                string_scan(s, start_idx + 1, Seq::empty()) == string_scan(s, self.idx as int, value@),
                before.wf(),
                before.chars@ == s,
                before.idx == start_idx,
                before.idx < s.len(),
                s == old(self).chars@,
                before == *old(self),
                start_idx == old(self).idx,
                start == before.pos,
                s[start_idx as int] == '"',
                self.tokens@ == before.tokens@,
                self.diagnostics@ == before.diagnostics@,
            ensures
                self.wf(),
                self.chars@ == s,
                before.chars@ == s,
                start_idx < self.idx,
                self.idx == s.len(),
                string_scan(s, start_idx + 1, Seq::empty()) == (s.len() as int, None::<Seq<char>>),
                self.tokens@ == before.tokens@,
                self.diagnostics@ == before.diagnostics@,
            decreases self.chars@.len() - self.idx,
        {
            let ch = match self.peek_char() {
                Some(c) => c,
                None => break,
            };
            if ch == '"' {
                let ghost quote = self.idx as int;
                self.bump_char();
                proof {
                    assert(string_scan(s, quote, value@) == (quote + 1, Some(value@)));
                }
                let tok = Token { kind: TokenKind::String(value), span: Span::new(start, self.pos) };
                self.tokens.push(tok);
                proof {
                    assert(tokens_view(self.tokens@) =~= tokens_view(before.tokens@).push(tok@));
                    self.lemma_tok_step(before, tok@.kind, self.idx as int);
                }
                return;
            } else if ch == '\\' {
                self.bump_char();
                match self.peek_char() {
                    Some(other) => {
                        if other == 'n' {
                            push_char(&mut value, '\n');
                        } else {
                            push_char(&mut value, other);
                        }
                        self.bump_char();
                    },
                    None => break,
                }
            } else {
                push_char(&mut value, ch);
                self.bump_char();
            }
        }
        let d = Diagnostic::new(
            "LEX_UNTERMINATED_STRING",
            "unterminated string literal",
            Span::new(start, self.pos),
        );
        self.diagnostics.push(d);
        proof {
            assert(crate::diagnostic::diags_view(self.diagnostics@) =~= crate::diagnostic::diags_view(
                before.diagnostics@,
            ).push(d@));
        }
    }

    /// Lexes a one- or two-character symbol; any other character is reported as
    /// unknown.
    fn lex_symbol(&mut self)
        requires
            old(self).wf(),
            old(self).idx < old(self).chars@.len(),
            ({
                let s = old(self).chars@;
                let i = old(self).idx as int;
                &&& !spec_is_whitespace(s[i])
                &&& !(s[i] == '/' && i + 1 < s.len() && s[i + 1] == '/')
                &&& !spec_is_ident_start(s[i])
                &&& !spec_is_ascii_digit(s[i])
                &&& s[i] != '"'
            }),
        ensures
            final(self).wf(),
            final(self).chars@ == old(self).chars@,
            final(self).idx > old(self).idx,
            final(self).rest() == old(self).rest(),
    {
        let ghost before = *self;
        let start = self.pos;
        let ch = match self.bump_char() {
            Some(c) => c,
            None => {
                return;
            },
        };
        let next = self.peek_char();
        let kind = if ch == '(' {
            Some(Symbol::LParen)
        } else if ch == ')' {
            Some(Symbol::RParen)
        } else if ch == '{' {
            Some(Symbol::LBrace)
        } else if ch == '}' {
            Some(Symbol::RBrace)
        } else if ch == '[' {
            Some(Symbol::LBracket)
        } else if ch == ']' {
            Some(Symbol::RBracket)
        } else if ch == ':' {
            Some(Symbol::Colon)
        } else if ch == ';' {
            Some(Symbol::Semicolon)
        } else if ch == ',' {
            Some(Symbol::Comma)
        } else if ch == '.' {
            Some(Symbol::Dot)
        } else if ch == '=' {
            if next == Some('=') {
                self.bump_char();
                Some(Symbol::EqEq)
            } else {
                Some(Symbol::Eq)
            }
        } else if ch == '!' {
            if next == Some('=') {
                self.bump_char();
                Some(Symbol::BangEq)
            } else {
                Some(Symbol::Bang)
            }
        } else if ch == '&' {
            if next == Some('&') {
                self.bump_char();
                Some(Symbol::AndAnd)
            } else {
                None
            }
        } else if ch == '|' {
            if next == Some('|') {
                self.bump_char();
                Some(Symbol::OrOr)
            } else {
                None
            }
        } else if ch == '<' {
            if next == Some('=') {
                self.bump_char();
                Some(Symbol::Lte)
            } else {
                Some(Symbol::Lt)
            }
        } else if ch == '>' {
            if next == Some('=') {
                self.bump_char();
                Some(Symbol::Gte)
            } else {
                Some(Symbol::Gt)
            }
        } else if ch == '+' {
            if next == Some('=') {
                self.bump_char();
                Some(Symbol::PlusEq)
            } else {
                Some(Symbol::Plus)
            }
        } else if ch == '*' {
            if next == Some('=') {
                self.bump_char();
                Some(Symbol::StarEq)
            } else {
                Some(Symbol::Star)
            }
        } else if ch == '/' {
            if next == Some('=') {
                self.bump_char();
                Some(Symbol::SlashEq)
            } else {
                Some(Symbol::Slash)
            }
        } else if ch == '-' {
            if next == Some('>') {
                self.bump_char();
                Some(Symbol::Arrow)
            } else if next == Some('=') {
                self.bump_char();
                Some(Symbol::MinusEq)
            } else {
                Some(Symbol::Minus)
            }
        } else {
            None
        };
        match kind {
            Some(k) => {
                let tok = Token { kind: TokenKind::Symbol(k), span: Span::new(start, self.pos) };
                self.tokens.push(tok);
                proof {
                    assert(tokens_view(self.tokens@) =~= tokens_view(before.tokens@).push(tok@));
                    self.lemma_tok_step(before, tok@.kind, self.idx as int);
                }
            },
            None => {
                let mut message = String::new();
                crate::text::push_str(&mut message, "unknown character `");
                push_char(&mut message, ch);
                crate::text::push_str(&mut message, "`");
                let d = Diagnostic::new("LEX_UNKNOWN_CHAR", message.as_str(), Span::new(start, self.pos));
                self.diagnostics.push(d);
                proof {
                    assert(message@ =~= unknown_char_message(ch));
                    assert(crate::diagnostic::diags_view(self.diagnostics@) =~= crate::diagnostic::diags_view(
                        before.diagnostics@,
                    ).push(d@));
                }
            },
        }
    }

    /// Skips a `//` comment through the end of its line.
    fn skip_line_comment(&mut self)
        requires
            old(self).wf(),
            old(self).idx + 1 < old(self).chars@.len(),
            old(self).chars@[old(self).idx as int] == '/',
            old(self).chars@[old(self).idx + 1] == '/',
            !spec_is_whitespace(old(self).chars@[old(self).idx as int]),
        ensures
            final(self).wf(),
            final(self).chars@ == old(self).chars@,
            final(self).idx > old(self).idx,
            final(self).rest() == old(self).rest(),
    {
        let ghost s = self.chars@;
        let ghost before = *self;
        loop
            invariant_except_break
                self.wf(),
                self.chars@ == s,
                before.idx <= self.idx,
                before.idx + 1 < s.len(),
                before.chars@ == s,
                comment_end(s, before.idx as int) == comment_end(s, self.idx as int),
                self.tokens@ == before.tokens@,
                self.diagnostics@ == before.diagnostics@,
            ensures
                self.wf(),
                self.chars@ == s,
                before.chars@ == s,
                before.idx < self.idx,
                comment_end(s, before.idx as int) == self.idx,
                self.tokens@ == before.tokens@,
                self.diagnostics@ == before.diagnostics@,
            decreases self.chars@.len() - self.idx,
        {
            let ch = match self.peek_char() {
                Some(c) => c,
                None => break,
            };
            self.bump_char();
            if ch == '\n' {
                break;
            }
        }
    }

    fn peek_char(&self) -> (c: Option<char>)
        requires
            self.wf(),
        ensures
            c == if self.idx < self.chars@.len() {
                Some(self.chars@[self.idx as int])
            } else {
                None::<char>
            },
    {
        if self.idx < self.chars.len() {
            Some(self.chars[self.idx])
        } else {
            None
        }
    }

    fn peek_next_char(&self) -> (c: Option<char>)
        requires
            self.wf(),
        ensures
            c == if self.idx + 1 < self.chars@.len() {
                Some(self.chars@[self.idx + 1])
            } else {
                None::<char>
            },
    {
        if self.idx < self.chars.len() && self.idx + 1 < self.chars.len() {
            Some(self.chars[self.idx + 1])
        } else {
            None
        }
    }

    fn bump_char(&mut self) -> (c: Option<char>)
        requires
            old(self).wf(),
        ensures
            final(self).wf(),
            final(self).chars@ == old(self).chars@,
            final(self).tokens@ == old(self).tokens@,
            final(self).diagnostics@ == old(self).diagnostics@,
            c == if old(self).idx < old(self).chars@.len() {
                Some(old(self).chars@[old(self).idx as int])
            } else {
                None::<char>
            },
            final(self).idx == if old(self).idx < old(self).chars@.len() {
                old(self).idx + 1
            } else {
                old(self).idx as int
            },
    {
        let ch = match self.peek_char() {
            Some(c) => c,
            None => {
                return None;
            },
        };
        proof {
            lemma_byte_offset_monotonic(self.chars@, self.idx as int + 1, self.chars@.len() as int);
        }
        self.pos = self.pos + len_utf8(ch);
        self.idx = self.idx + 1;
        Some(ch)
    }
}

/// The keyword spelled by `chars[from..to]`, if any.
fn keyword_text(chars: &Vec<char>, from: usize, to: usize) -> (k: Option<Keyword>)
    requires
        from <= to <= chars@.len(),
    ensures
        k == keyword_of(chars@.subrange(from as int, to as int)),
{
    if range_equals(chars, from, to, "module") {
        Some(Keyword::Module)
    } else if range_equals(chars, from, to, "import") {
        Some(Keyword::Import)
    } else if range_equals(chars, from, to, "export") {
        Some(Keyword::Export)
    } else if range_equals(chars, from, to, "fn") {
        Some(Keyword::Fn)
    } else if range_equals(chars, from, to, "let") {
        Some(Keyword::Let)
    } else if range_equals(chars, from, to, "mut") {
        Some(Keyword::Mut)
    } else if range_equals(chars, from, to, "return") {
        Some(Keyword::Return)
    } else if range_equals(chars, from, to, "if") {
        Some(Keyword::If)
    } else if range_equals(chars, from, to, "else") {
        Some(Keyword::Else)
    } else if range_equals(chars, from, to, "while") {
        Some(Keyword::While)
    } else if range_equals(chars, from, to, "match") {
        Some(Keyword::Match)
    } else if range_equals(chars, from, to, "struct") {
        Some(Keyword::Struct)
    } else if range_equals(chars, from, to, "enum") {
        Some(Keyword::Enum)
    } else if range_equals(chars, from, to, "true") {
        Some(Keyword::True)
    } else if range_equals(chars, from, to, "false") {
        Some(Keyword::False)
    } else {
        None
    }
}

pub(crate) fn is_ident_start(ch: char) -> (b: bool)
    ensures
        b == spec_is_ident_start(ch),
{
    ch == '_' || is_ascii_alphabetic(ch)
}

pub(crate) fn is_ident_continue(ch: char) -> (b: bool)
    ensures
        b == spec_is_ident_continue(ch),
{
    is_ident_start(ch) || is_ascii_digit(ch)
}

} // verus!
