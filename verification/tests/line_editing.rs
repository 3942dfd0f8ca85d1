use zeta::line_editor::{
    completion_prefix_start, completion_words, hint_for, is_bool_literal, is_command, is_keyword, is_operator_part,
    is_type, next_hint_token, plain_hint_for, press, prompt, redraw, strip_ansi, token_start, token_style,
    word_completions, zeta_tokens, Key, KeyOutcome, LineState, TokenStyle,
};

fn chars(s: &str) -> Vec<char> {
    s.chars().collect()
}

fn type_text(st: &mut LineState, history: &mut Vec<String>, text: &str) {
    for b in text.bytes() {
        match press(st, history, Key::Byte(b)) {
            KeyOutcome::Continue => {}
            _ => panic!("typing should continue"),
        }
    }
}

#[test]
fn prompt_text() {
    assert_eq!(prompt(), "zeta> ");
}

#[test]
fn typing_inserts_at_the_cursor() {
    let mut history: Vec<String> = Vec::new();
    let mut st = LineState::new(0);
    type_text(&mut st, &mut history, "ab");
    press(&mut st, &mut history, Key::Escape(Some((b'[', b'D'))));
    type_text(&mut st, &mut history, "c");
    assert_eq!(st.text(), "acb");
    assert_eq!(st.cursor, 2);
}

#[test]
fn backspace_deletes_before_the_cursor() {
    let mut history: Vec<String> = Vec::new();
    let mut st = LineState::new(0);
    type_text(&mut st, &mut history, "abc");
    press(&mut st, &mut history, Key::Byte(127));
    assert_eq!(st.text(), "ab");
    press(&mut st, &mut history, Key::Escape(Some((b'[', b'D'))));
    press(&mut st, &mut history, Key::Escape(Some((b'[', b'D'))));
    press(&mut st, &mut history, Key::Byte(8));
    assert_eq!(st.text(), "ab");
    assert_eq!(st.cursor, 0);
}

#[test]
fn cursor_stays_within_the_line() {
    let mut history: Vec<String> = Vec::new();
    let mut st = LineState::new(0);
    press(&mut st, &mut history, Key::Escape(Some((b'[', b'D'))));
    assert_eq!(st.cursor, 0);
    type_text(&mut st, &mut history, "x");
    press(&mut st, &mut history, Key::Escape(Some((b'[', b'C'))));
    assert_eq!(st.cursor, 1);
}

#[test]
fn enter_submits_and_keeps_nonblank_lines_in_history() {
    let mut history: Vec<String> = Vec::new();
    let mut st = LineState::new(0);
    type_text(&mut st, &mut history, "40 + 2");
    match press(&mut st, &mut history, Key::Byte(b'\r')) {
        KeyOutcome::Submit(line) => assert_eq!(line, "40 + 2"),
        _ => panic!("enter should submit"),
    }
    assert_eq!(history, vec!["40 + 2".to_string()]);
    let mut st = LineState::new(history.len());
    type_text(&mut st, &mut history, "   ");
    match press(&mut st, &mut history, Key::Byte(b'\n')) {
        KeyOutcome::Submit(line) => assert_eq!(line, "   "),
        _ => panic!("enter should submit"),
    }
    assert_eq!(history.len(), 1);
}

#[test]
fn arrows_walk_the_history() {
    let mut history = vec!["first".to_string(), "second".to_string()];
    let mut st = LineState::new(2);
    press(&mut st, &mut history, Key::Escape(Some((b'[', b'A'))));
    assert_eq!(st.text(), "second");
    assert_eq!(st.cursor, 6);
    press(&mut st, &mut history, Key::Escape(Some((b'[', b'A'))));
    assert_eq!(st.text(), "first");
    press(&mut st, &mut history, Key::Escape(Some((b'[', b'A'))));
    assert_eq!(st.text(), "first");
    press(&mut st, &mut history, Key::Escape(Some((b'[', b'B'))));
    assert_eq!(st.text(), "second");
    press(&mut st, &mut history, Key::Escape(Some((b'[', b'B'))));
    assert_eq!(st.text(), "");
    assert_eq!(st.history_index, 2);
}

#[test]
fn control_keys_cancel() {
    let mut history: Vec<String> = Vec::new();
    let mut st = LineState::new(0);
    assert!(matches!(press(&mut st, &mut history, Key::Byte(4)), KeyOutcome::Cancel));
    type_text(&mut st, &mut history, "x");
    assert!(matches!(press(&mut st, &mut history, Key::Byte(4)), KeyOutcome::Continue));
    assert_eq!(st.text(), "x");
    assert!(matches!(press(&mut st, &mut history, Key::Byte(3)), KeyOutcome::Cancel));
}

#[test]
fn other_keys_change_nothing() {
    let mut history: Vec<String> = Vec::new();
    let mut st = LineState::new(0);
    type_text(&mut st, &mut history, "ab");
    press(&mut st, &mut history, Key::Byte(1));
    press(&mut st, &mut history, Key::Escape(None));
    press(&mut st, &mut history, Key::Escape(Some((b'O', b'D'))));
    assert_eq!(st.text(), "ab");
    assert_eq!(st.cursor, 2);
}

#[test]
fn tab_completes_a_unique_word() {
    let mut history: Vec<String> = Vec::new();
    let mut st = LineState::new(0);
    type_text(&mut st, &mut history, ":he");
    assert!(matches!(press(&mut st, &mut history, Key::Byte(9)), KeyOutcome::Continue));
    assert_eq!(st.text(), ":help");
    assert_eq!(st.cursor, 5);
}

#[test]
fn tab_lists_several_candidates() {
    let mut history: Vec<String> = Vec::new();
    let mut st = LineState::new(0);
    type_text(&mut st, &mut history, "x std.");
    match press(&mut st, &mut history, Key::Byte(9)) {
        KeyOutcome::Show(text) => {
            assert_eq!(text, "\n\x1b[1;38;5;214mstd.core\x1b[0m \x1b[1;38;5;214mstd.io\x1b[0m\n")
        }
        _ => panic!("several candidates should be listed"),
    }
    assert_eq!(st.text(), "x std.");
}

#[test]
fn completion_prefix_starts_after_a_separator() {
    assert_eq!(completion_prefix_start(&chars("foo(std.c"), 9), 4);
    assert_eq!(completion_prefix_start(&chars(":doc"), 4), 0);
    assert_eq!(completion_prefix_start(&chars("a b"), 1), 0);
}

#[test]
fn hints_for_commands_that_take_an_argument() {
    assert_eq!(plain_hint_for("  :doc"), " <topic>");
    assert_eq!(plain_hint_for(":doc "), " <topic>");
    assert_eq!(plain_hint_for(":complete"), " <prefix>");
    assert_eq!(plain_hint_for(":doc let"), "");
    assert_eq!(hint_for(":doc"), "\x1b[38;5;245m <topic>\x1b[0m");
    assert_eq!(hint_for("x"), "");
}

#[test]
fn strips_escape_sequences() {
    assert_eq!(strip_ansi("\x1b[1mbold\x1b[0m!"), "bold!");
    assert_eq!(strip_ansi("plain"), "plain");
    assert_eq!(strip_ansi("cut\x1b[31"), "cut");
    assert_eq!(strip_ansi(&zeta::repl::highlight_zeta("let x = 1")), "let x = 1");
}

#[test]
fn redraw_moves_the_cursor_back() {
    assert_eq!(redraw("ab", 1), "\r\x1b[2Kzeta> ab\x1b[1D");
    assert_eq!(redraw("ab", 2), "\r\x1b[2Kzeta> ab");
    assert_eq!(
        redraw(":doc", 4),
        "\r\x1b[2Kzeta> \x1b[1;38;5;214m:doc\x1b[0m\x1b[38;5;245m <topic>\x1b[0m\x1b[8D"
    );
}

#[test]
fn splits_a_line_into_tokens() {
    let parts = zeta_tokens("let x=(1);");
    let texts: Vec<&str> = parts.iter().map(|p| p.text.as_str()).collect();
    assert_eq!(texts, vec!["let", " ", "x=(1);"]);
    assert_eq!(parts[2].trim, "x=(1");
    assert_eq!(zeta_tokens("").len(), 0);
}

#[test]
fn styles_tokens() {
    let parts = zeta_tokens("fn Int :doc true && y");
    let styles: Vec<TokenStyle> = parts.iter().map(token_style).collect();
    assert!(styles == vec![
        TokenStyle::Keyword,
        TokenStyle::Plain,
        TokenStyle::Type,
        TokenStyle::Plain,
        TokenStyle::Command,
        TokenStyle::Plain,
        TokenStyle::Bool,
        TokenStyle::Plain,
        TokenStyle::Operator,
        TokenStyle::Plain,
        TokenStyle::Plain,
    ]);
}

#[test]
fn word_classes() {
    assert!(is_keyword("while") && !is_keyword("break"));
    assert!(is_type("Bool") && !is_type("IntArray"));
    assert!(is_bool_literal("false") && !is_bool_literal("True"));
    assert!(is_operator_part(">=") && !is_operator_part("=>"));
    assert!(is_command(":exit") && !is_command(":api"));
}

#[test]
fn word_completions_filter_the_word_list() {
    let words = completion_words();
    assert_eq!(&words[..7], &[":help", ":doc", ":complete", ":quit", ":exit", "std.io", "std.core"]);
    assert_eq!(words.len(), 7 + zeta::repl::topics().len());
    let (start, found) = word_completions(&chars("import std.c"), 12);
    assert_eq!(start, 7);
    assert_eq!(found, vec!["std.core"]);
    assert_eq!(token_start(&chars("a bc"), 4), 2);
}

#[test]
fn next_hint_token_is_the_first_word() {
    assert_eq!(next_hint_token(" <topic>"), "<topic>");
    assert_eq!(next_hint_token("   "), "");
}
