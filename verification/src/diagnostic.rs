//! Source spans and diagnostics, and the human-readable rendering of a
//! diagnostic against the source text it points into.
use vstd::prelude::*;
use crate::text::{
    byte_len, byte_offset, chars_of, decimal, lemma_byte_offset_monotonic, lemma_byte_offset_strict,
    len_utf8, lemma_len_le_byte_len, push_char, push_decimal, push_repeat, push_str, repeat_char, string_from_range,
};

verus! {

/// A half-open byte range `start..end` of the source text.
#[derive(Debug, Clone, Copy, PartialEq, Eq, Structural)]
pub struct Span {
    pub start: usize,
    pub end: usize,
}

impl Span {
    pub fn new(start: usize, end: usize) -> (s: Self)
        ensures
            s.start == start,
            s.end == end,
    {
        Span { start, end }
    }
}

/// A compiler diagnostic: a stable code, a message, and the span it refers to.
#[derive(Debug, Clone, PartialEq, Eq)]
pub struct Diagnostic {
    pub code: &'static str,
    pub message: String,
    pub span: Span,
}

/// The mathematical content of a diagnostic.
pub struct SpecDiagnostic {
    pub code: Seq<char>,
    pub message: Seq<char>,
    pub span: Span,
}

impl View for Diagnostic {
    type V = SpecDiagnostic;

    open spec fn view(&self) -> SpecDiagnostic {
        SpecDiagnostic { code: self.code@, message: self.message@, span: self.span }
    }
}

/// The views of a sequence of diagnostics.
pub open spec fn diags_view(ds: Seq<Diagnostic>) -> Seq<SpecDiagnostic> {
    ds.map_values(|d: Diagnostic| d@)
}

impl Diagnostic {
    pub fn new(code: &'static str, message: &str, span: Span) -> (d: Self)
        ensures
            d.code == code,
            d.message@ == message@,
            d.span == span,
    {
        let mut m = String::new();
        push_str(&mut m, message);
        assert(m@ =~= message@);
        Diagnostic { code, message: m, span }
    }

    /// Renders the diagnostic with the line of `source` it points at and a caret
    /// marker under the spanned characters.
    pub fn render(&self, source: &str, path: &str) -> (r: String)
        requires
            byte_len(source@) < usize::MAX,
            on_boundary(source@, clamp(self.span.start as nat, byte_len(source@))),
            on_boundary(source@, clamp(self.span.end as nat, byte_len(source@))),
        ensures
            r@ == rendered(self.code@, self.message@, source@, path@, self.span),
    {
        let location = SourceLocation::new(source, self.span);
        let mut out = String::new();
        push_str(&mut out, self.code);
        push_str(&mut out, " at ");
        push_str(&mut out, path);
        push_str(&mut out, ":");
        push_decimal(&mut out, location.line);
        push_str(&mut out, ":");
        push_decimal(&mut out, location.column);
        push_str(&mut out, ": ");
        push_str(&mut out, self.message.as_str());
        push_str(&mut out, "\n  |\n");
        if location.line < 10 {
            push_char(&mut out, ' ');
        }
        push_decimal(&mut out, location.line);
        push_str(&mut out, " | ");
        push_str(&mut out, location.line_text.as_str());
        push_str(&mut out, "\n  | ");
        push_str(&mut out, location.marker.as_str());
        proof {
            let s = source@;
            let cs = location_start(s, self.span);
            let ls = line_start(s, cs);
            let line = count_newlines(s, ls) + 1;
            lemma_decimal_short(line);
            assert(out@ =~= rendered(self.code@, self.message@, source@, path@, self.span));
        }
        out
    }
}

/// `b` clamped to at most `total`.
pub open spec fn clamp(b: nat, total: nat) -> nat {
    if b < total { b } else { total }
}

/// Whether byte offset `b` falls between two characters of `s`.
pub open spec fn on_boundary(s: Seq<char>, b: nat) -> bool {
    exists|i: int| 0 <= i <= s.len() && byte_offset(s, i) == b
}

/// The character index at byte offset `b` (meaningful when `on_boundary(s, b)`).
pub open spec fn char_index_at(s: Seq<char>, b: nat) -> int {
    choose|i: int| 0 <= i <= s.len() && byte_offset(s, i) == b
}

/// Index of the last newline before character index `k`, or -1.
pub open spec fn last_newline_before(s: Seq<char>, k: int) -> int
    decreases k,
{
    if k <= 0 {
        -1
    } else if s[k - 1] == '\n' {
        k - 1
    } else {
        last_newline_before(s, k - 1)
    }
}

/// Index of the first newline at or after character index `k`, or the length.
pub open spec fn first_newline_from(s: Seq<char>, k: int) -> int
    decreases s.len() - k,
{
    if k >= s.len() {
        s.len() as int
    } else if s[k] == '\n' {
        k
    } else {
        first_newline_from(s, k + 1)
    }
}

/// Number of newlines among the first `k` characters.
pub open spec fn count_newlines(s: Seq<char>, k: int) -> nat
    decreases k,
{
    if k <= 0 {
        0
    } else {
        count_newlines(s, k - 1) + if s[k - 1] == '\n' { 1nat } else { 0nat }
    }
}

/// First character index of the line holding character index `k`.
pub open spec fn line_start(s: Seq<char>, k: int) -> int {
    last_newline_before(s, k) + 1
}

/// Character index where a span's (clamped) start falls.
pub open spec fn location_start(s: Seq<char>, span: Span) -> int {
    char_index_at(s, clamp(span.start as nat, byte_len(s)))
}

/// Character index where a span's (clamped) end falls; never before the start.
pub open spec fn location_end(s: Seq<char>, span: Span) -> int {
    let start = clamp(span.start as nat, byte_len(s));
    let end = clamp(span.end as nat, byte_len(s));
    char_index_at(s, if end < start { start } else { end })
}

/// `{n:>2}`: the decimal of `n`, right-aligned in two columns.
pub open spec fn right_aligned2(d: Seq<char>) -> Seq<char> {
    if d.len() < 2 { seq![' '] + d } else { d }
}

/// The rendered text of a diagnostic with the given code and message.
pub open spec fn rendered(
    code: Seq<char>,
    message: Seq<char>,
    s: Seq<char>,
    path: Seq<char>,
    span: Span,
) -> Seq<char> {
    let cs = location_start(s, span);
    let ce = location_end(s, span);
    let ls = line_start(s, cs);
    let le = first_newline_from(s, cs);
    let line = count_newlines(s, ls) + 1;
    let column = (cs - ls + 1) as nat;
    let width = if ce - cs > 1 { (ce - cs) as nat } else { 1nat };
    code + " at "@ + path + ":"@ + decimal(line) + ":"@ + decimal(column) + ": "@ + message
        + "\n  |\n"@ + right_aligned2(decimal(line)) + " | "@ + s.subrange(ls, le) + "\n  | "@
        + repeat_char(' ', (column - 1) as nat) + repeat_char('^', width)
}

proof fn lemma_decimal_short(n: nat)
    ensures
        decimal(n).len() >= 1,
        (decimal(n).len() < 2) == (n < 10),
    decreases n,
{
    if n >= 10 {
        lemma_decimal_short(n / 10);
    }
}

proof fn lemma_offset_unique(s: Seq<char>, i: int, j: int)
    requires
        0 <= i <= s.len(),
        0 <= j <= s.len(),
        byte_offset(s, i) == byte_offset(s, j),
    ensures
        i == j,
{
    if i < j {
        lemma_byte_offset_strict(s, i, j);
    } else if j < i {
        lemma_byte_offset_strict(s, j, i);
    }
}

/// The character index whose byte offset is `b`.
fn char_index_of_byte(chars: &Vec<char>, b: usize) -> (i: usize)
    requires
        byte_len(chars@) <= usize::MAX,
        on_boundary(chars@, b as nat),
    ensures
        i <= chars@.len(),
        byte_offset(chars@, i as int) == b,
        i == char_index_at(chars@, b as nat),
{
    let ghost s = chars@;
    let ghost j = choose|j: int| 0 <= j <= s.len() && byte_offset(s, j) == b;
    let mut i: usize = 0;
    let mut off: usize = 0;
    while off < b
        invariant
            s == chars@,
            0 <= j <= chars.len(),
            byte_offset(s, j) == b,
            i <= j,
            off == byte_offset(s, i as int),
        decreases j - i,
    {
        proof {
            if j <= i {
                lemma_byte_offset_monotonic(s, j, i as int);
            }
            assert(i < j);
            lemma_byte_offset_monotonic(s, i as int + 1, j);
        }
        off = off + len_utf8(chars[i]);
        i = i + 1;
    }
    proof {
        if i < j {
            lemma_byte_offset_strict(s, i as int, j);
        }
        let k = char_index_at(s, b as nat);
        lemma_offset_unique(s, k, i as int);
    }
    i
}

/// Byte length of the whole text.
fn total_bytes(chars: &Vec<char>) -> (n: usize)
    requires
        byte_len(chars@) <= usize::MAX,
    ensures
        n == byte_len(chars@),
{
    let mut i: usize = 0;
    let mut off: usize = 0;
    while i < chars.len()
        invariant
            i <= chars@.len(),
            off == byte_offset(chars@, i as int),
            byte_len(chars@) <= usize::MAX,
        decreases chars.len() - i,
    {
        proof {
            lemma_byte_offset_monotonic(chars@, i as int + 1, chars@.len() as int);
        }
        off = off + len_utf8(chars[i]);
        i = i + 1;
    }
    off
}

/// Where a span lands in the source: its line and column (both 1-based, the
/// column counted in characters), the text of that line, and a caret marker.
struct SourceLocation {
    line: usize,
    column: usize,
    line_text: String,
    marker: String,
}

impl SourceLocation {
    fn new(source: &str, span: Span) -> (loc: Self)
        requires
            byte_len(source@) < usize::MAX,
            on_boundary(source@, clamp(span.start as nat, byte_len(source@))),
            on_boundary(source@, clamp(span.end as nat, byte_len(source@))),
        ensures
            ({
                let s = source@;
                let cs = location_start(s, span);
                let ce = location_end(s, span);
                let ls = line_start(s, cs);
                &&& loc.line == count_newlines(s, ls) + 1
                &&& loc.column == cs - ls + 1
                &&& loc.line_text@ == s.subrange(ls, first_newline_from(s, cs))
                &&& loc.marker@ == repeat_char(' ', (cs - ls) as nat) + repeat_char(
                    '^',
                    if ce - cs > 1 { (ce - cs) as nat } else { 1nat },
                )
            }),
    {
        let chars = chars_of(source);
        let ghost s = chars@;
        let total = total_bytes(&chars);
        proof {
            lemma_len_le_byte_len(s, s.len() as int);
        }
        let start_b = if span.start < total { span.start } else { total };
        let end_clamped = if span.end < total { span.end } else { total };
        let end_b = if end_clamped < start_b { start_b } else { end_clamped };
        proof {
            assert(on_boundary(s, total as nat)) by {
                assert(byte_offset(s, s.len() as int) == total);
            }
        }
        let cs = char_index_of_byte(&chars, start_b);
        let ce = char_index_of_byte(&chars, end_b);
        proof {
            if ce < cs {
                lemma_byte_offset_strict(s, ce as int, cs as int);
            }
        }
        // Start of the line: one past the last newline before `cs`.
        let mut k = cs;
        while k > 0 && chars[k - 1] != '\n'
            invariant
                k <= cs <= s.len(),
                s == chars@,
                last_newline_before(s, cs as int) == last_newline_before(s, k as int),
            decreases k,
        {
            k = k - 1;
        }
        let ls = k;
        // End of the line: the first newline at or after `cs`.
        let mut e = cs;
        while e < chars.len() && chars[e] != '\n'
            invariant
                cs <= e <= s.len(),
                s == chars@,
                first_newline_from(s, cs as int) == first_newline_from(s, e as int),
            decreases chars.len() - e,
        {
            e = e + 1;
        }
        proof {
            lemma_first_newline_bounds(s, e as int);
        }
        let le = e;
        // Count the newlines before the line start.
        let mut n: usize = 0;
        let mut i: usize = 0;
        while i < ls
            invariant
                i <= ls <= s.len(),
                s == chars@,
                n == count_newlines(s, i as int),
                n <= i,
            decreases ls - i,
        {
            if chars[i] == '\n' {
                n = n + 1;
            }
            i = i + 1;
        }
        let column = cs - ls + 1;
        let line_text = string_from_range(&chars, ls, le);
        let width = if ce - cs > 1 { ce - cs } else { 1 };
        let mut marker = String::new();
        push_repeat(&mut marker, ' ', column - 1);
        push_repeat(&mut marker, '^', width);
        proof {
            assert(marker@ =~= repeat_char(' ', (cs - ls) as nat) + repeat_char('^', width as nat));
        }
        SourceLocation { line: n + 1, column, line_text, marker }
    }
}

proof fn lemma_first_newline_bounds(s: Seq<char>, k: int)
    requires
        0 <= k <= s.len(),
    ensures
        k <= first_newline_from(s, k) <= s.len(),
    decreases s.len() - k,
{
    if k < s.len() && s[k] != '\n' {
        lemma_first_newline_bounds(s, k + 1);
    }
}

} // verus!
