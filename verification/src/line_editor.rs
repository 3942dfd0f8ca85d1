//! The shell's line editor, as a state machine: each key read from the
//! terminal moves the edited line, the cursor and the position in the history,
//! and tells the caller whether the line is done. Reading keys, switching the
//! terminal to raw mode and printing are left to the caller; this module also
//! computes what a redraw prints.
//!
//! The line holds characters and the cursor counts characters. Keys insert
//! only printable ASCII, so on the lines the editor builds a character is a
//! byte.
use vstd::prelude::*;
use crate::repl::{colored, completions, highlighted, highlight_zeta, index_from, law_completions_extend_prefix, push_color, Style};
use crate::text::{chars_of, copy_string, decimal, push_char, push_decimal, push_str, spec_is_ascii_alphabetic, spec_is_ascii_digit, strings_view};

verus! {

/// The prompt in front of the edited line.
pub open spec fn prompt_text() -> Seq<char> {
    "zeta> "@
}

/// The prompt in front of the edited line.
pub fn prompt() -> (s: &'static str)
    ensures
        s@ == prompt_text(),
{
    "zeta> "
}

// ---------------------------------------------------------------------------
// Hints
// ---------------------------------------------------------------------------

/// `s` without its leading whitespace.
pub open spec fn trimmed_start(s: Seq<char>) -> Seq<char> {
    s.skip(crate::skip_space(s, 0))
}

/// The hint shown after a command that expects an argument.
pub open spec fn plain_hint(line: Seq<char>) -> Seq<char> {
    let t = trimmed_start(line);
    if t == ":doc"@ || t == ":doc "@ {
        " <topic>"@
    } else if t == ":complete"@ || t == ":complete "@ {
        " <prefix>"@
    } else {
        ""@
    }
}

/// The hint shown after `line`: what argument the command expects, if any.
pub fn plain_hint_for(line: &str) -> (h: &'static str)
    ensures
        h@ == plain_hint(line@),
{
    let chars = chars_of(line);
    let ghost s = chars@;
    let mut a: usize = 0;
    while a < chars.len() && crate::text::is_whitespace(chars[a])
        invariant
            a <= s.len(),
            s == chars@,
            crate::skip_space(s, 0) == crate::skip_space(s, a as int),
        decreases chars.len() - a,
    {
        a = a + 1;
    }
    let t = crate::text::string_from_range(&chars, a, chars.len());
    assert(t@ =~= trimmed_start(line@));
    let t = t.as_str();
    if crate::text::str_equal(t, ":doc") || crate::text::str_equal(t, ":doc ") {
        " <topic>"
    } else if crate::text::str_equal(t, ":complete") || crate::text::str_equal(t, ":complete ") {
        " <prefix>"
    } else {
        ""
    }
}

/// The hint shown after `line`, coloured; empty when there is none.
pub open spec fn hint_text(line: Seq<char>) -> Seq<char> {
    if plain_hint(line).len() == 0 {
        Seq::empty()
    } else {
        colored(plain_hint(line), Style::Hint)
    }
}

/// The coloured hint shown after `line`.
pub fn hint_for(line: &str) -> (s: String)
    ensures
        s@ == hint_text(line@),
{
    let hint = plain_hint_for(line);
    let mut s = String::new();
    if !hint.is_empty() {
        push_color(&mut s, hint, Style::Hint);
    }
    assert(s@ =~= hint_text(line@));
    s
}

// ---------------------------------------------------------------------------
// Escape codes
// ---------------------------------------------------------------------------

/// `s` from index `i` on with its escape sequences removed: an escape
/// character and everything up to the next `m`, or to the end.
pub open spec fn strip_escapes_from(s: Seq<char>, i: int) -> Seq<char>
    decreases s.len() + 1 - i,
    via strip_escapes_from_decreases
{
    if i < 0 || i >= s.len() {
        Seq::empty()
    } else if s[i] == '\x1b' {
        strip_escapes_from(s, index_from(s, i + 1, 'm') + 1)
    } else {
        seq![s[i]] + strip_escapes_from(s, i + 1)
    }
}

#[via_fn]
proof fn strip_escapes_from_decreases(s: Seq<char>, i: int) {
    if 0 <= i < s.len() && s[i] == '\x1b' {
        crate::repl::lemma_index_from_bounds(s, i + 1, 'm');
    }
}

/// `s` with its escape sequences removed.
pub open spec fn strip_escapes(s: Seq<char>) -> Seq<char> {
    strip_escapes_from(s, 0)
}

/// `value` without its terminal escape sequences.
pub fn strip_ansi(value: &str) -> (r: String)
    ensures
        r@ == strip_escapes(value@),
{
    let chars = chars_of(value);
    let ghost s = chars@;
    let mut out = String::new();
    let mut i: usize = 0;
    while i < chars.len()
        invariant
            i <= s.len(),
            s == chars@,
            s == value@,
            out@ + strip_escapes_from(s, i as int) == strip_escapes(s),
        decreases chars.len() - i,
    {
        if chars[i] == '\x1b' {
            let mut j: usize = i + 1;
            while j < chars.len() && chars[j] != 'm'
                invariant
                    i < j <= s.len(),
                    s == chars@,
                    index_from(s, i as int + 1, 'm') == index_from(s, j as int, 'm'),
                decreases chars.len() - j,
            {
                j = j + 1;
            }
            if j == chars.len() {
                assert(strip_escapes_from(s, j as int + 1) == Seq::<char>::empty());
                assert(out@ + strip_escapes_from(s, i as int) =~= out@);
                return out;
            }
            i = j + 1;
        } else {
            let ghost o0 = out@;
            push_char(&mut out, chars[i]);
            assert(out@ + strip_escapes_from(s, i as int + 1) =~= o0 + strip_escapes_from(s, i as int));
            i = i + 1;
        }
    }
    assert(out@ + strip_escapes_from(s, i as int) =~= out@);
    out
}

// ---------------------------------------------------------------------------
// Redrawing
// ---------------------------------------------------------------------------

/// How many columns to move back from the end of the drawn line to the
/// cursor.
pub open spec fn back_columns(line: Seq<char>, cursor: nat) -> nat {
    let visual = line.len() + strip_escapes(hint_text(line)).len();
    if visual > cursor { (visual - cursor) as nat } else { 0 }
}

/// What a redraw prints: a carriage return, the code that clears the line,
/// the prompt, the coloured line, its hint, and the code that moves the
/// cursor back into place.
pub open spec fn redraw_text(line: Seq<char>, cursor: nat) -> Seq<char> {
    "\r\x1b[2K"@ + prompt_text() + highlighted(line) + hint_text(line) + if back_columns(line, cursor) > 0 {
        "\x1b["@ + decimal(back_columns(line, cursor)) + "D"@
    } else {
        Seq::empty()
    }
}

/// The text that redraws `line` with the cursor at character `cursor`.
pub fn redraw(line: &str, cursor: usize) -> (s: String)
    requires
        line@.len() + 32 <= usize::MAX,
    ensures
        s@ == redraw_text(line@, cursor as nat),
{
    let hint = hint_for(line);
    let mut s = String::new();
    push_str(&mut s, "\r\x1b[2K");
    push_str(&mut s, prompt());
    let code = highlight_zeta(line);
    push_str(&mut s, code.as_str());
    push_str(&mut s, hint.as_str());
    let n = chars_of(line).len();
    let h = chars_of(strip_ansi(hint.as_str()).as_str()).len();
    proof {
        lemma_strip_escapes_len(hint_text(line@), 0);
        reveal_strlit("\x1b[");
        reveal_strlit("38;5;245");
        reveal_strlit("m");
        reveal_strlit("\x1b[0m");
        reveal_strlit(" <topic>");
        reveal_strlit(" <prefix>");
        reveal_strlit("");
        assert(hint_text(line@).len() <= 32);
    }
    if n + h > cursor {
        let back = n + h - cursor;
        push_str(&mut s, "\x1b[");
        push_decimal(&mut s, back);
        push_str(&mut s, "D");
    }
    assert(s@ =~= redraw_text(line@, cursor as nat));
    s
}

pub proof fn lemma_strip_escapes_len(s: Seq<char>, i: int)
    requires
        0 <= i,
    ensures
        strip_escapes_from(s, i).len() <= if i < s.len() { s.len() - i } else { 0 },
    decreases s.len() + 1 - i,
{
    if i < s.len() {
        if s[i] == '\x1b' {
            crate::repl::lemma_index_from_bounds(s, i + 1, 'm');
            lemma_strip_escapes_len(s, index_from(s, i + 1, 'm') + 1);
        } else {
            lemma_strip_escapes_len(s, i + 1);
        }
    }
}


// ---------------------------------------------------------------------------
// Completion in the editor
// ---------------------------------------------------------------------------

/// Whether `c` can belong to the word that completion extends.
pub open spec fn is_completion_char(c: char) -> bool {
    spec_is_ascii_digit(c) || spec_is_ascii_alphabetic(c) || c == '_' || c == ':' || c == '.'
}

/// Where the word that ends at `j` starts: just after the last character
/// before `j` that cannot belong to it, or at zero.
pub open spec fn completion_start(s: Seq<char>, j: int) -> int
    decreases j,
{
    if j <= 0 || j > s.len() {
        0
    } else if !is_completion_char(s[j - 1]) {
        j
    } else {
        completion_start(s, j - 1)
    }
}

pub proof fn lemma_completion_start_bounds(s: Seq<char>, j: int)
    requires
        0 <= j <= s.len(),
    ensures
        0 <= completion_start(s, j) <= j,
    decreases j,
{
    if j > 0 && is_completion_char(s[j - 1]) {
        lemma_completion_start_bounds(s, j - 1);
    }
}

/// Where the word before the cursor starts.
pub fn completion_prefix_start(line: &Vec<char>, cursor: usize) -> (r: usize)
    requires
        cursor <= line@.len(),
    ensures
        r == completion_start(line@, cursor as int),
{
    let mut j: usize = cursor;
    while j > 0 && (crate::text::is_ascii_digit(line[j - 1]) || crate::text::is_ascii_alphabetic(line[j - 1])
        || line[j - 1] == '_' || line[j - 1] == ':' || line[j - 1] == '.')
        invariant
            j <= cursor <= line@.len(),
            completion_start(line@, cursor as int) == completion_start(line@, j as int),
        decreases j,
    {
        j = j - 1;
    }
    j
}

/// The words joined by single spaces.
pub open spec fn space_joined(ws: Seq<Seq<char>>) -> Seq<char>
    decreases ws.len(),
{
    if ws.len() == 0 {
        Seq::empty()
    } else if ws.len() == 1 {
        ws[0]
    } else {
        space_joined(ws.drop_last()) + " "@ + ws.last()
    }
}

/// Each word coloured as a command.
pub open spec fn colored_commands(ws: Seq<Seq<char>>) -> Seq<Seq<char>> {
    ws.map_values(|w: Seq<char>| colored(w, Style::Command))
}

/// What an ambiguous completion prints: the candidates on a line of their own.
pub open spec fn candidates_text(ws: Seq<Seq<char>>) -> Seq<char> {
    "\n"@ + space_joined(colored_commands(ws)) + "\n"@
}

/// The words coloured as commands and joined by single spaces.
pub fn completion_line(ws: &Vec<String>) -> (s: String)
    ensures
        s@ == space_joined(colored_commands(strings_view(ws@))),
{
    let ghost cs = colored_commands(strings_view(ws@));
    let mut s = String::new();
    let mut i: usize = 0;
    while i < ws.len()
        invariant
            i <= ws@.len(),
            cs == colored_commands(strings_view(ws@)),
            s@ == space_joined(cs.subrange(0, i as int)),
        decreases ws.len() - i,
    {
        if i > 0 {
            push_str(&mut s, " ");
        }
        push_color(&mut s, ws[i].as_str(), Style::Command);
        proof {
            let sub = cs.subrange(0, i as int + 1);
            assert(sub.drop_last() =~= cs.subrange(0, i as int));
            assert(sub.last() == colored(ws@[i as int]@, Style::Command));
            assert(s@ =~= space_joined(sub));
        }
        i = i + 1;
    }
    assert(cs.subrange(0, cs.len() as int) =~= cs);
    s
}

fn candidates_listing(ws: &Vec<String>) -> (s: String)
    ensures
        s@ == candidates_text(strings_view(ws@)),
{
    let mut s = String::new();
    push_str(&mut s, "\n");
    let line = completion_line(ws);
    push_str(&mut s, line.as_str());
    push_str(&mut s, "\n");
    assert(s@ =~= candidates_text(strings_view(ws@)));
    s
}

// ---------------------------------------------------------------------------
// Keys
// ---------------------------------------------------------------------------

/// A key as the terminal delivers it.
#[derive(Clone, Copy)]
pub enum Key {
    /// A byte other than the escape byte.
    Byte(u8),
    /// The escape byte, with the two bytes that followed it, or `None` when
    /// fewer followed.
    Escape(Option<(u8, u8)>),
}

/// What the caller does after a key.
pub enum KeyOutcome {
    /// Redraw and read the next key.
    Continue,
    /// The line is done.
    Submit(String),
    /// Editing was abandoned.
    Cancel,
    /// Print this text, then redraw and read the next key.
    Show(String),
}

/// What the caller does after a key, as plain values.
pub enum OutcomeModel {
    Continue,
    Submit(Seq<char>),
    Cancel,
    Show(Seq<char>),
}

/// The outcome as plain values.
pub open spec fn outcome_model(o: KeyOutcome) -> OutcomeModel {
    match o {
        KeyOutcome::Continue => OutcomeModel::Continue,
        KeyOutcome::Submit(s) => OutcomeModel::Submit(s@),
        KeyOutcome::Cancel => OutcomeModel::Cancel,
        KeyOutcome::Show(s) => OutcomeModel::Show(s@),
    }
}

/// The editor's state while a line is edited.
pub struct LineState {
    pub line: Vec<char>,
    pub cursor: usize,
    pub history_index: usize,
}

/// The editor's state and its history, as plain values.
pub struct EditModel {
    pub line: Seq<char>,
    pub cursor: int,
    pub index: int,
    pub history: Seq<Seq<char>>,
}

/// The state and history as plain values.
pub open spec fn model_of(st: LineState, history: Seq<String>) -> EditModel {
    EditModel { line: st.line@, cursor: st.cursor as int, index: st.history_index as int, history: strings_view(history) }
}

/// Whether a state fits its history: the cursor lies within the line and the
/// history position within the history (one past its end meaning the new
/// line).
pub open spec fn fits(m: EditModel) -> bool {
    0 <= m.cursor <= m.line.len() && 0 <= m.index <= m.history.len()
}

/// Whether a byte is typed into the line: printable ASCII or a space.
pub open spec fn is_typed(b: u8) -> bool {
    0x20 <= b <= 0x7e
}

/// Tab: complete the word before the cursor. A single candidate is inserted
/// at the cursor; several are listed; none changes nothing.
pub open spec fn after_tab(m: EditModel) -> (EditModel, OutcomeModel) {
    let st = completion_start(m.line, m.cursor);
    let p = m.line.subrange(st, m.cursor);
    let ms = completions(p);
    if ms.len() == 0 {
        (m, OutcomeModel::Continue)
    } else if ms.len() == 1 {
        let suffix = ms[0].skip(p.len() as int);
        (
            EditModel {
                line: m.line.subrange(0, m.cursor) + suffix + m.line.skip(m.cursor),
                cursor: m.cursor + suffix.len(),
                index: m.index,
                history: m.history,
            },
            OutcomeModel::Continue,
        )
    } else {
        (m, OutcomeModel::Show(candidates_text(ms)))
    }
}

/// An escape sequence: `[D` and `[C` move the cursor left and right, `[A`
/// and `[B` step back and forth through the history; anything else changes
/// nothing.
pub open spec fn after_escape(m: EditModel, a: u8, b: u8) -> EditModel {
    if a != 91 {
        m
    } else if b == 68 {
        EditModel { cursor: if m.cursor > 0 { m.cursor - 1 } else { 0 }, ..m }
    } else if b == 67 {
        EditModel { cursor: if m.cursor < m.line.len() { m.cursor + 1 } else { m.cursor }, ..m }
    } else if b == 65 {
        if m.history.len() > 0 && m.index > 0 {
            EditModel {
                line: m.history[m.index - 1],
                cursor: m.history[m.index - 1].len() as int,
                index: m.index - 1,
                history: m.history,
            }
        } else {
            m
        }
    } else if b == 66 {
        if m.index + 1 < m.history.len() {
            EditModel {
                line: m.history[m.index + 1],
                cursor: m.history[m.index + 1].len() as int,
                index: m.index + 1,
                history: m.history,
            }
        } else {
            EditModel { line: Seq::empty(), cursor: 0, index: m.history.len() as int, history: m.history }
        }
    } else {
        m
    }
}

/// The state after a key, and what the caller does next. Enter ends the
/// line (keeping it in the history unless it is blank); Ctrl-C, and Ctrl-D on
/// an empty line, abandon it; Tab completes; Backspace deletes before the
/// cursor; printable characters are inserted at the cursor; other bytes are
/// ignored.
pub open spec fn after_key(m: EditModel, key: Key) -> (EditModel, OutcomeModel) {
    match key {
        Key::Byte(b) => if b == 13 || b == 10 {
            (
                EditModel {
                    history: if crate::trimmed(m.line).len() > 0 { m.history.push(m.line) } else { m.history },
                    ..m
                },
                OutcomeModel::Submit(m.line),
            )
        } else if b == 3 {
            (m, OutcomeModel::Cancel)
        } else if b == 4 && m.line.len() == 0 {
            (m, OutcomeModel::Cancel)
        } else if b == 9 {
            after_tab(m)
        } else if b == 8 || b == 127 {
            if m.cursor > 0 {
                (EditModel { line: m.line.remove(m.cursor - 1), cursor: m.cursor - 1, ..m }, OutcomeModel::Continue)
            } else {
                (m, OutcomeModel::Continue)
            }
        } else if b != 27 && is_typed(b) {
            (
                EditModel { line: m.line.insert(m.cursor, ((b as u32) as char)), cursor: m.cursor + 1, ..m },
                OutcomeModel::Continue,
            )
        } else {
            (m, OutcomeModel::Continue)
        },
        Key::Escape(Some((a, b))) => (after_escape(m, a, b), OutcomeModel::Continue),
        Key::Escape(None) => (m, OutcomeModel::Continue),
    }
}


/// The up and down arrows bring a line from the history with the cursor at
/// its end: whenever `[A` or `[B` changes the state, the new line is the
/// history entry at the new position (or empty, past the last entry), and
/// the cursor is at the end of that line. The history itself is unchanged.
pub proof fn law_history_keys_leave_the_cursor_at_the_end(m: EditModel, b: u8)
    requires
        fits(m),
        b == 65 || b == 66,
    ensures
        ({
            let r = after_key(m, Key::Escape(Some((91u8, b)))).0;
            &&& r.history == m.history
            &&& r != m ==> r.cursor == r.line.len()
            &&& r != m ==> (0 <= r.index < r.history.len() && r.line == r.history[r.index]) || (r.index
                == r.history.len() && r.line.len() == 0)
        }),
{
}

impl LineState {
    /// A fresh state: an empty line, and the history position past its end.
    pub fn new(history_len: usize) -> (st: LineState)
        ensures
            st.line@ == Seq::<char>::empty(),
            st.cursor == 0,
            st.history_index == history_len,
    {
        LineState { line: Vec::new(), cursor: 0, history_index: history_len }
    }

    /// The edited line.
    pub fn text(&self) -> (s: String)
        ensures
            s@ == self.line@,
    {
        crate::text::string_from_range(&self.line, 0, self.line.len())
    }
}

fn complete_at_cursor(st: &mut LineState, history: &Vec<String>) -> (o: KeyOutcome)
    requires
        fits(model_of(*old(st), history@)),
    ensures
        (model_of(*final(st), history@), outcome_model(o)) == after_tab(model_of(*old(st), history@)),
{
    let ghost m = model_of(*st, history@);
    let start = completion_prefix_start(&st.line, st.cursor);
    proof {
        lemma_completion_start_bounds(st.line@, st.cursor as int);
    }
    let prefix = crate::text::string_from_range(&st.line, start, st.cursor);
    let ms = crate::repl::complete(prefix.as_str());
    proof {
        law_completions_extend_prefix(prefix@);
    }
    if ms.len() == 0 {
        return KeyOutcome::Continue;
    }
    if ms.len() > 1 {
        return KeyOutcome::Show(candidates_listing(&ms));
    }
    let word = chars_of(ms[0].as_str());
    let plen = chars_of(prefix.as_str()).len();
    assert(prefix@.is_prefix_of(strings_view(ms@)[0]));
    let ghost c0 = st.cursor as int;
    let ghost l0 = st.line@;
    let ghost suffix = word@.skip(plen as int);
    let mut k: usize = plen;
    while k < word.len()
        invariant
            plen <= k <= word@.len(),
            0 <= c0 <= l0.len(),
            st.history_index == old(st).history_index,
            st.line@ == l0.subrange(0, c0) + word@.subrange(plen as int, k as int) + l0.skip(c0),
            st.cursor == c0 + (k - plen),
        decreases word.len() - k,
    {
        st.line.insert(st.cursor, word[k]);
        if st.cursor < st.line.len() {
            st.cursor = st.cursor + 1;
        }
        assert(st.line@ =~= l0.subrange(0, c0) + word@.subrange(plen as int, k as int + 1) + l0.skip(c0));
        k = k + 1;
    }
    assert(word@.subrange(plen as int, word@.len() as int) =~= suffix);
    KeyOutcome::Continue
}

fn escape(st: &mut LineState, history: &Vec<String>, a: u8, b: u8)
    requires
        fits(model_of(*old(st), history@)),
    ensures
        model_of(*final(st), history@) == after_escape(model_of(*old(st), history@), a, b),
{
    if a != 91 {
        return;
    }
    if b == 68 {
        if st.cursor > 0 {
            st.cursor = st.cursor - 1;
        }
    } else if b == 67 {
        if st.cursor < st.line.len() {
            st.cursor = st.cursor + 1;
        }
    } else if b == 65 {
        if history.len() > 0 && st.history_index > 0 {
            st.history_index = st.history_index - 1;
            st.line = chars_of(history[st.history_index].as_str());
            st.cursor = st.line.len();
        }
    } else if b == 66 {
        if st.history_index < history.len() && st.history_index + 1 < history.len() {
            st.history_index = st.history_index + 1;
            st.line = chars_of(history[st.history_index].as_str());
        } else {
            st.history_index = history.len();
            st.line = Vec::new();
        }
        st.cursor = st.line.len();
    }
}

/// Applies a key to the edited line: the new state, and what the caller does
/// next.
pub fn press(st: &mut LineState, history: &mut Vec<String>, key: Key) -> (o: KeyOutcome)
    requires
        fits(model_of(*old(st), old(history)@)),
    ensures
        (model_of(*final(st), final(history)@), outcome_model(o)) == after_key(
            model_of(*old(st), old(history)@),
            key,
        ),
        fits(model_of(*final(st), final(history)@)),
{
    let ghost m = model_of(*st, history@);
    match key {
        Key::Byte(b) => {
            if b == 13 || b == 10 {
                let line = st.text();
                let t = crate::trim(line.as_str());
                if !t.as_str().is_empty() {
                    history.push(copy_string(line.as_str()));
                    assert(strings_view(history@) =~= m.history.push(m.line));
                }
                assert(t@.len() == 0 ==> t@ == Seq::<char>::empty());
                KeyOutcome::Submit(line)
            } else if b == 3 {
                KeyOutcome::Cancel
            } else if b == 4 && st.line.len() == 0 {
                KeyOutcome::Cancel
            } else if b == 9 {
                complete_at_cursor(st, history)
            } else if b == 8 || b == 127 {
                if st.cursor > 0 {
                    st.cursor = st.cursor - 1;
                    st.line.remove(st.cursor);
                }
                KeyOutcome::Continue
            } else if b != 27 && 0x20 <= b && b <= 0x7e {
                st.line.insert(st.cursor, b as char);
                if st.cursor < st.line.len() {
                    st.cursor = st.cursor + 1;
                }
                KeyOutcome::Continue
            } else {
                KeyOutcome::Continue
            }
        },
        Key::Escape(Some((a, b))) => {
            escape(st, history, a, b);
            KeyOutcome::Continue
        },
        Key::Escape(None) => KeyOutcome::Continue,
    }
}


// ---------------------------------------------------------------------------
// Words for a richer editor: tokens, their styles, completion and hints
// ---------------------------------------------------------------------------

/// A piece of an edited line: a run of non-whitespace or a single
/// whitespace character, and the word inside it.
pub struct TokenPart {
    pub text: String,
    pub trim: String,
}

/// Whether `c` belongs to a word inside a token.
pub open spec fn is_word_char(c: char) -> bool {
    spec_is_ascii_digit(c) || spec_is_ascii_alphabetic(c) || c == '_' || c == ':'
}

/// `s` without its leading characters that do not belong to a word.
pub open spec fn strip_front_nonword(s: Seq<char>) -> Seq<char>
    decreases s.len(),
{
    if s.len() > 0 && !is_word_char(s[0]) {
        strip_front_nonword(s.drop_first())
    } else {
        s
    }
}

/// `s` without its trailing characters that do not belong to a word.
pub open spec fn strip_back_nonword(s: Seq<char>) -> Seq<char>
    decreases s.len(),
{
    if s.len() > 0 && !is_word_char(s.last()) {
        strip_back_nonword(s.drop_last())
    } else {
        s
    }
}

/// The word inside a token.
pub open spec fn token_word(s: Seq<char>) -> Seq<char> {
    strip_back_nonword(strip_front_nonword(s))
}

/// The pieces of `s` from index `i` on, with `cur` the run read so far.
pub open spec fn tokens_from(s: Seq<char>, i: int, cur: Seq<char>) -> Seq<Seq<char>>
    decreases s.len() - i,
{
    let done = if cur.len() > 0 { seq![cur] } else { Seq::empty() };
    if i < 0 || i >= s.len() {
        done
    } else if crate::text::spec_is_whitespace(s[i]) {
        done + seq![seq![s[i]]] + tokens_from(s, i + 1, Seq::empty())
    } else {
        tokens_from(s, i + 1, cur.push(s[i]))
    }
}

/// The pieces of a line: its runs of non-whitespace and its single
/// whitespace characters, in order.
pub open spec fn line_tokens(s: Seq<char>) -> Seq<Seq<char>> {
    tokens_from(s, 0, Seq::empty())
}

fn token_part(text: String) -> (p: TokenPart)
    ensures
        p.text@ == text@,
        p.trim@ == token_word(text@),
{
    let chars = chars_of(text.as_str());
    let ghost t = chars@;
    let mut a: usize = 0;
    assert(t.subrange(0, t.len() as int) =~= t);
    while a < chars.len() && !(crate::text::is_ascii_digit(chars[a]) || crate::text::is_ascii_alphabetic(chars[a])
        || chars[a] == '_' || chars[a] == ':')
        invariant
            a <= t.len(),
            t == chars@,
            t == text@,
            strip_front_nonword(t) == strip_front_nonword(t.subrange(a as int, t.len() as int)),
        decreases chars.len() - a,
    {
        assert(t.subrange(a as int, t.len() as int).drop_first() =~= t.subrange(a as int + 1, t.len() as int));
        a = a + 1;
    }
    let mut b: usize = chars.len();
    while b > a && !(crate::text::is_ascii_digit(chars[b - 1]) || crate::text::is_ascii_alphabetic(chars[b - 1])
        || chars[b - 1] == '_' || chars[b - 1] == ':')
        invariant
            a <= b <= t.len(),
            t == chars@,
            token_word(t) == strip_back_nonword(t.subrange(a as int, b as int)),
        decreases b,
    {
        assert(t.subrange(a as int, b as int).drop_last() =~= t.subrange(a as int, b as int - 1));
        b = b - 1;
    }
    if a == b {
        assert(t.subrange(a as int, b as int) =~= Seq::<char>::empty());
    }
    let trim = crate::text::string_from_range(&chars, a, b);
    TokenPart { text, trim }
}

/// The pieces of `line`, each with the word inside it.
pub fn zeta_tokens(line: &str) -> (parts: Vec<TokenPart>)
    ensures
        parts@.len() == line_tokens(line@).len(),
        forall|k: int|
            0 <= k < parts@.len() ==> (#[trigger] parts@[k]).text@ == line_tokens(line@)[k] && parts@[k].trim@
                == token_word(line_tokens(line@)[k]),
{
    let chars = chars_of(line);
    let ghost s = chars@;
    let mut parts: Vec<TokenPart> = Vec::new();
    let mut cur = String::new();
    let mut i: usize = 0;
    while i < chars.len()
        invariant
            i <= s.len(),
            s == chars@,
            s == line@,
            ({
                let done = parts@.map_values(|p: TokenPart| p.text@);
                done + tokens_from(s, i as int, cur@) == line_tokens(s)
            }),
            forall|k: int| 0 <= k < parts@.len() ==> (#[trigger] parts@[k]).trim@ == token_word(parts@[k].text@),
        decreases chars.len() - i,
    {
        let c = chars[i];
        let ghost before = parts@.map_values(|p: TokenPart| p.text@);
        let ghost c0 = cur@;
        if crate::text::is_whitespace(c) {
            if !cur.as_str().is_empty() {
                let piece = cur;
                parts.push(token_part(piece));
                cur = String::new();
            }
            let mut one = String::new();
            push_char(&mut one, c);
            parts.push(token_part(one));
            cur = String::new();
            proof {
                let done = if c0.len() > 0 { seq![c0] } else { Seq::<Seq<char>>::empty() };
                assert(parts@.map_values(|p: TokenPart| p.text@) =~= before + done + seq![seq![c]]);
            }
        } else {
            push_char(&mut cur, c);
        }
        i = i + 1;
    }
    if !cur.as_str().is_empty() {
        let ghost before = parts@.map_values(|p: TokenPart| p.text@);
        let ghost c0 = cur@;
        parts.push(token_part(cur));
        assert(parts@.map_values(|p: TokenPart| p.text@) =~= before + seq![c0]);
    }
    proof {
        let done = parts@.map_values(|p: TokenPart| p.text@);
        assert(done =~= line_tokens(s));
        assert forall|k: int| 0 <= k < parts@.len() implies (#[trigger] parts@[k]).text@ == line_tokens(line@)[k]
            by {
            assert(done[k] == parts@[k].text@);
        }
    }
    parts
}

/// Whether a word is a keyword the richer editor colours.
pub open spec fn is_keyword_text(w: Seq<char>) -> bool {
    ||| w == "module"@
    ||| w == "import"@
    ||| w == "as"@
    ||| w == "export"@
    ||| w == "fn"@
    ||| w == "let"@
    ||| w == "mut"@
    ||| w == "return"@
    ||| w == "if"@
    ||| w == "else"@
    ||| w == "while"@
    ||| w == "match"@
    ||| w == "struct"@
    ||| w == "enum"@
}

/// Whether `value` is a keyword.
pub fn is_keyword(value: &str) -> (b: bool)
    ensures
        b == is_keyword_text(value@),
{
    crate::text::str_equal(value, "module") || crate::text::str_equal(value, "import") || crate::text::str_equal(
        value,
        "as",
    ) || crate::text::str_equal(value, "export") || crate::text::str_equal(value, "fn") || crate::text::str_equal(
        value,
        "let",
    ) || crate::text::str_equal(value, "mut") || crate::text::str_equal(value, "return") || crate::text::str_equal(
        value,
        "if",
    ) || crate::text::str_equal(value, "else") || crate::text::str_equal(value, "while") || crate::text::str_equal(
        value,
        "match",
    ) || crate::text::str_equal(value, "struct") || crate::text::str_equal(value, "enum")
}

/// Whether `value` names a scalar type.
pub fn is_type(value: &str) -> (b: bool)
    ensures
        b == (value@ == "Int"@ || value@ == "String"@ || value@ == "Bool"@),
{
    crate::text::str_equal(value, "Int") || crate::text::str_equal(value, "String") || crate::text::str_equal(
        value,
        "Bool",
    )
}

/// Whether `value` is a boolean literal.
pub fn is_bool_literal(value: &str) -> (b: bool)
    ensures
        b == (value@ == "true"@ || value@ == "false"@),
{
    crate::text::str_equal(value, "true") || crate::text::str_equal(value, "false")
}

/// Whether a word is an operator the richer editor colours.
pub open spec fn is_operator_text(w: Seq<char>) -> bool {
    ||| w == "&&"@
    ||| w == "||"@
    ||| w == "!"@
    ||| w == "=="@
    ||| w == "!="@
    ||| w == "<"@
    ||| w == "<="@
    ||| w == ">"@
    ||| w == ">="@
    ||| w == "="@
    ||| w == "+"@
    ||| w == "-"@
    ||| w == "*"@
    ||| w == "/"@
}

/// Whether `value` is an operator.
pub fn is_operator_part(value: &str) -> (b: bool)
    ensures
        b == is_operator_text(value@),
{
    crate::text::str_equal(value, "&&") || crate::text::str_equal(value, "||") || crate::text::str_equal(value, "!")
        || crate::text::str_equal(value, "==") || crate::text::str_equal(value, "!=") || crate::text::str_equal(
        value,
        "<",
    ) || crate::text::str_equal(value, "<=") || crate::text::str_equal(value, ">") || crate::text::str_equal(
        value,
        ">=",
    ) || crate::text::str_equal(value, "=") || crate::text::str_equal(value, "+") || crate::text::str_equal(
        value,
        "-",
    ) || crate::text::str_equal(value, "*") || crate::text::str_equal(value, "/")
}

/// Whether a word is a shell command the richer editor colours.
pub open spec fn is_command_text(w: Seq<char>) -> bool {
    w == ":help"@ || w == ":doc"@ || w == ":complete"@ || w == ":quit"@ || w == ":exit"@
}

/// Whether `value` is a shell command.
pub fn is_command(value: &str) -> (b: bool)
    ensures
        b == is_command_text(value@),
{
    crate::text::str_equal(value, ":help") || crate::text::str_equal(value, ":doc") || crate::text::str_equal(
        value,
        ":complete",
    ) || crate::text::str_equal(value, ":quit") || crate::text::str_equal(value, ":exit")
}

/// How the richer editor colours a piece of the line.
#[derive(Clone, Copy, PartialEq, Eq, Structural)]
pub enum TokenStyle {
    Keyword,
    Type,
    Command,
    Bool,
    Operator,
    Plain,
}

/// The style of a piece: by its word, or, for an operator, by the piece
/// without surrounding whitespace.
pub open spec fn style_of(text: Seq<char>, word: Seq<char>) -> TokenStyle {
    if is_keyword_text(word) {
        TokenStyle::Keyword
    } else if word == "Int"@ || word == "String"@ || word == "Bool"@ {
        TokenStyle::Type
    } else if is_command_text(word) {
        TokenStyle::Command
    } else if word == "true"@ || word == "false"@ {
        TokenStyle::Bool
    } else if is_operator_text(crate::trimmed(text)) {
        TokenStyle::Operator
    } else {
        TokenStyle::Plain
    }
}

/// The style of a piece of the line.
pub fn token_style(part: &TokenPart) -> (t: TokenStyle)
    ensures
        t == style_of(part.text@, part.trim@),
{
    let w = part.trim.as_str();
    if is_keyword(w) {
        TokenStyle::Keyword
    } else if is_type(w) {
        TokenStyle::Type
    } else if is_command(w) {
        TokenStyle::Command
    } else if is_bool_literal(w) {
        TokenStyle::Bool
    } else if is_operator_part(crate::trim(part.text.as_str()).as_str()) {
        TokenStyle::Operator
    } else {
        TokenStyle::Plain
    }
}

/// The words the richer editor completes: commands, the standard modules and
/// the documentation topics.
pub open spec fn completion_word_list() -> Seq<Seq<char>> {
    seq![":help"@, ":doc"@, ":complete"@, ":quit"@, ":exit"@, "std.io"@, "std.core"@]
        + crate::repl::topic_names_seq()
}

/// The words the richer editor completes.
pub fn completion_words() -> (ws: Vec<String>)
    ensures
        strings_view(ws@) == completion_word_list(),
{
    let mut ws: Vec<String> = Vec::new();
    ws.push(copy_string(":help"));
    ws.push(copy_string(":doc"));
    ws.push(copy_string(":complete"));
    ws.push(copy_string(":quit"));
    ws.push(copy_string(":exit"));
    ws.push(copy_string("std.io"));
    ws.push(copy_string("std.core"));
    let ghost head = strings_view(ws@);
    assert(head =~= seq![":help"@, ":doc"@, ":complete"@, ":quit"@, ":exit"@, "std.io"@, "std.core"@]);
    let ts = crate::repl::topics();
    let mut i: usize = 0;
    while i < ts.len()
        invariant
            i <= ts@.len(),
            ts@ == crate::repl::topic_list(),
            strings_view(ws@) == head + crate::repl::topic_names_seq().subrange(0, i as int),
        decreases ts.len() - i,
    {
        let ghost w0 = strings_view(ws@);
        ws.push(copy_string(ts[i].name));
        assert(crate::repl::topic_names_seq()[i as int] == ts@[i as int].name@);
        assert(strings_view(ws@) =~= w0.push(ts@[i as int].name@));
        assert(strings_view(ws@) =~= head + crate::repl::topic_names_seq().subrange(0, i as int + 1));
        i = i + 1;
    }
    assert(crate::repl::topic_names_seq().subrange(0, ts@.len() as int) =~= crate::repl::topic_names_seq());
    ws
}

/// Where the word that ends at `pos` starts: just after the last whitespace
/// character before `pos`, or at zero.
pub open spec fn word_start(s: Seq<char>, pos: int) -> int
    decreases pos,
{
    if pos <= 0 || pos > s.len() {
        0
    } else if crate::text::spec_is_whitespace(s[pos - 1]) {
        pos
    } else {
        word_start(s, pos - 1)
    }
}

/// Where the word that ends at character `pos` of `line` starts.
pub fn token_start(line: &Vec<char>, pos: usize) -> (r: usize)
    requires
        pos <= line@.len(),
    ensures
        r == word_start(line@, pos as int),
{
    let mut j: usize = pos;
    while j > 0 && !crate::text::is_whitespace(line[j - 1])
        invariant
            j <= pos <= line@.len(),
            word_start(line@, pos as int) == word_start(line@, j as int),
        decreases j,
    {
        j = j - 1;
    }
    j
}

/// The words of `ws` that start with `p`, in order.
pub open spec fn starting_with(ws: Seq<Seq<char>>, p: Seq<char>) -> Seq<Seq<char>>
    decreases ws.len(),
{
    if ws.len() == 0 {
        Seq::empty()
    } else {
        starting_with(ws.drop_last(), p) + if p.is_prefix_of(ws.last()) {
            seq![ws.last()]
        } else {
            Seq::empty()
        }
    }
}

/// The richer editor's completions at character `pos`: where the word there
/// starts, and the completion words that start with it.
pub fn word_completions(line: &Vec<char>, pos: usize) -> (r: (usize, Vec<String>))
    requires
        pos <= line@.len(),
    ensures
        r.0 == word_start(line@, pos as int),
        strings_view(r.1@) == starting_with(
            completion_word_list(),
            line@.subrange(word_start(line@, pos as int), pos as int),
        ),
{
    let start = token_start(line, pos);
    proof {
        lemma_word_start_bounds(line@, pos as int);
    }
    let prefix = crate::text::string_from_range(line, start, pos);
    let words = completion_words();
    let mut out: Vec<String> = Vec::new();
    let mut i: usize = 0;
    while i < words.len()
        invariant
            i <= words@.len(),
            strings_view(words@) == completion_word_list(),
            strings_view(out@) == starting_with(strings_view(words@).subrange(0, i as int), prefix@),
        decreases words.len() - i,
    {
        let ghost o0 = strings_view(out@);
        if crate::repl::starts_with(words[i].as_str(), prefix.as_str()) {
            out.push(copy_string(words[i].as_str()));
        }
        proof {
            let sub = strings_view(words@).subrange(0, i as int + 1);
            assert(sub.drop_last() =~= strings_view(words@).subrange(0, i as int));
            assert(strings_view(out@) =~= starting_with(sub, prefix@));
        }
        i = i + 1;
    }
    assert(strings_view(words@).subrange(0, words@.len() as int) =~= strings_view(words@));
    (start, out)
}

pub proof fn lemma_word_start_bounds(s: Seq<char>, pos: int)
    requires
        0 <= pos <= s.len(),
    ensures
        0 <= word_start(s, pos) <= pos,
    decreases pos,
{
    if pos > 0 && !crate::text::spec_is_whitespace(s[pos - 1]) {
        lemma_word_start_bounds(s, pos - 1);
    }
}

/// The first word of a hint, or nothing.
pub open spec fn hint_first_word(hint: Seq<char>) -> Seq<char> {
    match crate::first_word(hint) {
        Some(w) => w,
        None => Seq::empty(),
    }
}

/// The first whitespace-separated word of `hint`, or an empty string.
pub fn next_hint_token(hint: &str) -> (w: String)
    ensures
        w@ == hint_first_word(hint@),
{
    let chars = chars_of(hint);
    let ghost s = chars@;
    let mut a: usize = 0;
    while a < chars.len() && crate::text::is_whitespace(chars[a])
        invariant
            a <= s.len(),
            s == chars@,
            crate::skip_space(s, 0) == crate::skip_space(s, a as int),
        decreases chars.len() - a,
    {
        a = a + 1;
    }
    if a >= chars.len() {
        return String::new();
    }
    let mut e: usize = a;
    while e < chars.len() && !crate::text::is_whitespace(chars[e])
        invariant
            a <= e <= s.len(),
            s == chars@,
            crate::word_end(s, a as int) == crate::word_end(s, e as int),
        decreases chars.len() - e,
    {
        e = e + 1;
    }
    crate::text::string_from_range(&chars, a, e)
}


// ---------------------------------------------------------------------------
// Colouring leaves the text as it was
// ---------------------------------------------------------------------------

/// Whether `s` holds no escape character.
pub open spec fn escape_free(s: Seq<char>) -> bool {
    !s.contains('\x1b')
}

pub proof fn lemma_index_from_shift(a: Seq<char>, b: Seq<char>, j: int, c: char)
    requires
        0 <= j,
    ensures
        index_from(a + b, a.len() + j, c) == a.len() + index_from(b, j, c),
    decreases b.len() - j,
{
    if j < b.len() && b[j] != c {
        lemma_index_from_shift(a, b, j + 1, c);
    }
}

pub proof fn lemma_index_from_at(s: Seq<char>, i: int, j: int, c: char)
    requires
        0 <= i <= j < s.len(),
        s[j] == c,
        forall|k: int| i <= k < j ==> s[k] != c,
    ensures
        index_from(s, i, c) == j,
    decreases j - i,
{
    if i < j {
        lemma_index_from_at(s, i + 1, j, c);
    }
}

pub proof fn lemma_strip_shift(a: Seq<char>, b: Seq<char>, j: int)
    requires
        0 <= j,
    ensures
        strip_escapes_from(a + b, a.len() + j) == strip_escapes_from(b, j),
    decreases b.len() + 1 - j,
{
    let s = a + b;
    if j < b.len() {
        assert(s[a.len() + j] == b[j]);
        if b[j] == '\x1b' {
            lemma_index_from_shift(a, b, j + 1, 'm');
            crate::repl::lemma_index_from_bounds(b, j + 1, 'm');
            lemma_strip_shift(a, b, index_from(b, j + 1, 'm') + 1);
        } else {
            lemma_strip_shift(a, b, j + 1);
        }
    }
}

proof fn lemma_strip_clean_from(x: Seq<char>, y: Seq<char>, i: int)
    requires
        escape_free(x),
        0 <= i <= x.len(),
    ensures
        strip_escapes_from(x + y, i) == x.skip(i) + strip_escapes(y),
    decreases x.len() - i,
{
    if i == x.len() {
        lemma_strip_shift(x, y, 0);
        assert(x.skip(i) =~= Seq::<char>::empty());
        assert(x.skip(i) + strip_escapes(y) =~= strip_escapes(y));
    } else {
        lemma_strip_clean_from(x, y, i + 1);
        assert((x + y)[i] == x[i]);
        if x[i] == '\x1b' {
            assert(x.contains('\x1b'));
        }
        assert(x.skip(i) =~= seq![x[i]] + x.skip(i + 1));
        assert(seq![x[i]] + (x.skip(i + 1) + strip_escapes(y)) =~= x.skip(i) + strip_escapes(y));
    }
}

/// Stripping passes text without escapes through unchanged.
pub proof fn lemma_strip_clean_prefix(x: Seq<char>, y: Seq<char>)
    requires
        escape_free(x),
    ensures
        strip_escapes(x + y) == x + strip_escapes(y),
{
    lemma_strip_clean_from(x, y, 0);
    assert(x.skip(0) =~= x);
}

proof fn lemma_style_code_plain(style: Style)
    ensures
        escape_free(crate::repl::style_code(style)),
        forall|k: int| 0 <= k < crate::repl::style_code(style).len() ==> crate::repl::style_code(style)[k] != 'm',
{
    reveal_strlit("1");
    reveal_strlit("1;38;5;214");
    reveal_strlit("1;38;5;196");
    reveal_strlit("1;38;5;81");
    reveal_strlit("1;38;5;213");
    reveal_strlit("1;38;5;141");
    reveal_strlit("1;38;5;120");
    reveal_strlit("38;5;245");
    let code = crate::repl::style_code(style);
    assert(!code.contains('\x1b'));
}

/// Stripping removes the codes around coloured text.
pub proof fn lemma_strip_colored(t: Seq<char>, style: Style, y: Seq<char>)
    requires
        escape_free(t),
    ensures
        strip_escapes(colored(t, style) + y) == t + strip_escapes(y),
{
    reveal_strlit("\x1b[");
    reveal_strlit("m");
    reveal_strlit("\x1b[0m");
    lemma_style_code_plain(style);
    let code = crate::repl::style_code(style);
    let p = "\x1b["@ + code + "m"@;
    let q = "\x1b[0m"@;
    let s = colored(t, style) + y;
    assert(s =~= p + (t + (q + y)));
    assert(s[0] == '\x1b');
    assert forall|k: int| 1 <= k < p.len() - 1 implies s[k] != 'm' by {
        if k >= 2 {
            assert(s[k] == code[k - 2]);
        }
    }
    lemma_index_from_at(s, 1, p.len() - 1, 'm');
    lemma_strip_shift(p, t + (q + y), 0);
    lemma_strip_clean_prefix(t, q + y);
    let r = q + y;
    assert(r[0] == '\x1b');
    lemma_index_from_at(r, 1, 3, 'm');
    lemma_strip_shift(q, y, 0);
}

/// Stripping the colouring of a word or a separator gives it back.
proof fn lemma_strip_token(w: Seq<char>, y: Seq<char>)
    requires
        escape_free(w),
    ensures
        strip_escapes(crate::repl::token_text(w) + y) == w + strip_escapes(y),
{
    let t = crate::repl::token_text(w);
    if w.len() == 0 {
        assert(t + y =~= y);
        assert(w + strip_escapes(y) =~= strip_escapes(y));
    } else if t == w {
        lemma_strip_clean_prefix(w, y);
    } else {
        if crate::repl::is_keyword_word(w) {
            lemma_strip_colored(w, Style::Keyword, y);
        } else if crate::repl::is_type_word(w) {
            lemma_strip_colored(w, Style::Type, y);
        } else if crate::repl::is_bool_word(w) {
            lemma_strip_colored(w, Style::Value, y);
        } else {
            lemma_strip_colored(w, Style::Command, y);
        }
    }
}

proof fn lemma_strip_separator(c: char, y: Seq<char>)
    requires
        c != '\x1b',
    ensures
        strip_escapes(crate::repl::separator_text(c) + y) == seq![c] + strip_escapes(y),
{
    assert(escape_free(seq![c])) by {
        if seq![c].contains('\x1b') {
            let k = choose|k: int| 0 <= k < 1 && seq![c][k] == '\x1b';
        }
    }
    if crate::repl::is_operator_char(c) {
        lemma_strip_colored(seq![c], Style::Operator, y);
    } else {
        lemma_strip_clean_prefix(seq![c], y);
    }
}

proof fn lemma_strip_highlight_from(s: Seq<char>, i: int, w: Seq<char>)
    requires
        escape_free(s),
        escape_free(w),
        0 <= i <= s.len(),
    ensures
        strip_escapes(crate::repl::highlight_from(s, i, w)) == w + s.skip(i),
    decreases s.len() - i,
{
    if i == s.len() {
        lemma_strip_token(w, Seq::empty());
        assert(crate::repl::token_text(w) + Seq::<char>::empty() =~= crate::repl::token_text(w));
        assert(strip_escapes(Seq::<char>::empty()) =~= Seq::<char>::empty());
        assert(w + s.skip(i) =~= w + Seq::<char>::empty());
        assert(w + Seq::<char>::empty() =~= w);
    } else {
        let c = s[i];
        if c == '\x1b' {
            assert(s.contains('\x1b'));
        }
        if crate::repl::is_word_char(c, w.len() == 0) {
            assert(escape_free(w.push(c))) by {
                if w.push(c).contains('\x1b') {
                    let k = choose|k: int| 0 <= k < w.push(c).len() && w.push(c)[k] == '\x1b';
                    if k < w.len() {
                        assert(w[k] == '\x1b');
                        assert(w.contains('\x1b'));
                    }
                }
            }
            lemma_strip_highlight_from(s, i + 1, w.push(c));
            assert(w.push(c) + s.skip(i + 1) =~= w + s.skip(i));
        } else {
            let rest = crate::repl::highlight_from(s, i + 1, Seq::empty());
            lemma_strip_highlight_from(s, i + 1, Seq::empty());
            lemma_strip_separator(c, rest);
            let sep_rest = crate::repl::separator_text(c) + rest;
            lemma_strip_token(w, sep_rest);
            assert(crate::repl::highlight_from(s, i, w) =~= crate::repl::token_text(w) + sep_rest);
            assert(Seq::<char>::empty() + s.skip(i + 1) =~= s.skip(i + 1));
            assert(w + (seq![c] + s.skip(i + 1)) =~= w + s.skip(i));
        }
    }
}

/// Colouring source text for the terminal only adds escape codes: removing
/// them gives the text back, for any text without escape characters of its
/// own.
pub proof fn law_highlighting_keeps_the_text(s: Seq<char>)
    requires
        escape_free(s),
    ensures
        strip_escapes(highlighted(s)) == s,
{
    lemma_strip_highlight_from(s, 0, Seq::empty());
    assert(Seq::<char>::empty() + s.skip(0) =~= s);
}

} // verus!
