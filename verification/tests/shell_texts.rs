use zeta::repl::{
    api_text_colored, api_text_colored_lang, choose_language, color, complete, config_language, doc,
    doc_text_colored, examples_text_colored_lang, help_text, help_text_colored, help_text_colored_lang,
    highlight_zeta, parse_language, result_line, topic_names, topics, topics_text_colored,
    topics_text_colored_lang, welcome_banner, welcome_banner_lang, Language, Style,
};

#[test]
fn colors_text_with_the_style_code() {
    assert_eq!(color("x", Style::Command), "\x1b[1;38;5;214mx\x1b[0m");
    assert_eq!(color("", Style::Hint), "\x1b[38;5;245m\x1b[0m");
    assert_eq!(color("e", Style::Error), "\x1b[1;38;5;196me\x1b[0m");
}

#[test]
fn highlights_keywords_operators_and_values() {
    assert_eq!(
        highlight_zeta("let x = 1"),
        "\x1b[1;38;5;81mlet\x1b[0m x \x1b[1;38;5;213m=\x1b[0m 1"
    );
    assert_eq!(
        highlight_zeta("true && Int"),
        "\x1b[1;38;5;120mtrue\x1b[0m \x1b[1;38;5;213m&\x1b[0m\x1b[1;38;5;213m&\x1b[0m \x1b[1;38;5;141mInt\x1b[0m"
    );
    assert_eq!(highlight_zeta(":help"), "\x1b[1;38;5;214m:help\x1b[0m");
    assert_eq!(highlight_zeta(""), "");
}

#[test]
fn completes_a_prefix_in_sorted_order_without_repeats() {
    assert_eq!(
        complete("st"),
        vec!["std", "std.core", "std.io", "string_byte_at", "string_byte_slice", "string_len", "struct"]
    );
}

#[test]
fn completes_commands_by_their_first_word() {
    assert_eq!(complete(":d"), vec![":doc"]);
    assert_eq!(complete(":c"), vec![":complete"]);
    assert!(complete("zzz").is_empty());
}

#[test]
fn every_completion_extends_the_prefix_and_is_sorted() {
    for prefix in ["", ":", "s", "a", "Int", "ResultTag."] {
        let words = complete(prefix);
        for w in &words {
            assert!(w.starts_with(prefix));
        }
        for pair in words.windows(2) {
            assert!(pair[0] < pair[1]);
        }
    }
}

#[test]
fn lists_topic_names_separated_by_commas() {
    let names = topic_names();
    assert!(names.starts_with("getting-started, tutorial, api, std, "));
    assert!(names.ends_with("ascii_is_alnum, ascii_is_whitespace"));
    assert_eq!(names.split(", ").count(), topics().len());
}

#[test]
fn finds_a_topic_by_name() {
    let t = doc("let").unwrap();
    assert_eq!(t.name, "let");
    assert!(doc("nothing").is_none());
}

#[test]
fn plain_help_lists_commands_and_topics() {
    let text = help_text();
    assert!(text.starts_with("Commands:\n  :help                 Show this help\n"));
    assert!(text.ends_with(&format!("Topics:\n  {}\n", topic_names())));
}

#[test]
fn english_help_pads_coloured_command_names() {
    let text = help_text_colored();
    assert!(text.starts_with("Commands\n  \x1b[1;38;5;214m:help\x1b[0m Show commands, learning paths, and common topics.\n"));
    assert!(text.contains("\nLearning paths\n  \x1b[1;38;5;214m:doc getting-started\x1b[0m\n"));
    assert_eq!(help_text_colored_lang(Language::En), text);
}

#[test]
fn chinese_help_has_sections_and_a_topic_grid() {
    let text = help_text_colored_lang(Language::Zh);
    assert!(text.starts_with("\x1b[1m◆ 命令\x1b[0m\n  \x1b[1;38;5;214m:help\x1b[0m"));
    assert!(text.contains("\x1b[1m◆ 主题索引\x1b[0m\n  \x1b[1;38;5;214mgetting-started\x1b[0m   "));
}

#[test]
fn topics_page_uses_chinese_summaries_in_chinese() {
    let zh = topics_text_colored_lang(Language::Zh);
    assert!(zh.contains("声明当前源码模块。"));
    let en = topics_text_colored();
    assert!(en.starts_with("Documentation topics\n"));
    assert!(en.contains("Declare the current source module."));
}

#[test]
fn examples_page_highlights_each_example() {
    let text = examples_text_colored_lang(Language::En);
    assert!(text.starts_with("Runnable examples\n  \x1b[1mExpression\x1b[0m  "));
    assert!(text.contains(&highlight_zeta("true && !false")));
}

#[test]
fn api_overview_in_both_languages() {
    assert!(api_text_colored().starts_with("Zeta Stage 0 API\n  \x1b[1;38;5;141mInt\x1b[0m  scalar integer values"));
    assert!(api_text_colored_lang(Language::Zh).contains("整数标量和整数算术"));
}

#[test]
fn result_line_shows_a_value() {
    assert_eq!(result_line("42"), "  \x1b[38;5;245m=>\x1b[0m \x1b[1;38;5;120m42\x1b[0m\n");
}

#[test]
fn doc_text_shows_summary_and_example() {
    let t = doc("let").unwrap();
    let en = doc_text_colored(&t, Language::En);
    assert!(en.starts_with("\x1b[1;38;5;214mlet\x1b[0m\n  "));
    assert!(en.contains("\n  example: "));
    let zh = doc_text_colored(&t, Language::Zh);
    assert!(zh.contains("声明局部绑定"));
    assert!(zh.contains("\n  示例: "));
}

#[test]
fn welcome_banner_in_each_language() {
    let en = welcome_banner();
    assert!(en.starts_with("\x1b[1mZETA\x1b[0m  \x1b[2mStage 0 language shell"));
    assert!(en.ends_with(&format!("Try: {}    {}\n", highlight_zeta("40 + 2"), highlight_zeta("true && !false"))));
    assert!(welcome_banner_lang(Language::Zh).contains("切换英文"));
}

#[test]
fn language_codes() {
    assert_eq!(Language::Zh.code(), "zh");
    assert_eq!(Language::En.code(), "en");
}

#[test]
fn parses_language_settings() {
    assert_eq!(parse_language(" \"ZH-CN\" "), Some(Language::Zh));
    assert_eq!(parse_language("'en'"), Some(Language::En));
    assert_eq!(parse_language("English"), Some(Language::En));
    assert_eq!(parse_language("简体中文"), Some(Language::Zh));
    assert_eq!(parse_language("fr"), None);
    assert_eq!(parse_language(""), None);
}

#[test]
fn reads_the_language_from_settings_text() {
    assert_eq!(config_language("# settings\nlanguage = \"zh\"\n"), Some(Language::Zh));
    assert_eq!(config_language("lang=en"), Some(Language::En));
    assert_eq!(config_language("language\nlang = fr\nlang = en"), None);
    assert_eq!(config_language(""), None);
    assert_eq!(config_language("theme = dark\r\nlang = en\r\n"), Some(Language::En));
}

#[test]
fn chooses_the_language_in_order_of_precedence() {
    let none: Vec<String> = Vec::new();
    assert_eq!(choose_language(Some("en"), Some("lang = zh"), &vec!["zh_CN.UTF-8".to_string()]), Language::En);
    assert_eq!(choose_language(Some("fr"), Some("lang = zh"), &none), Language::Zh);
    assert_eq!(choose_language(None, None, &vec!["en_US.UTF-8".to_string(), "ZH_cn".to_string()]), Language::Zh);
    assert_eq!(choose_language(None, Some("lang = fr"), &vec!["C".to_string()]), Language::En);
    assert_eq!(choose_language(None, None, &none), Language::En);
}

use zeta::repl::{language_switched, repl_action, ReplAction};

#[test]
fn a_line_asks_for_a_command_or_an_evaluation() {
    assert!(matches!(repl_action("   "), ReplAction::Skip));
    assert!(matches!(repl_action(" :exit "), ReplAction::Quit));
    assert!(matches!(repl_action(":help"), ReplAction::Help));
    assert!(matches!(repl_action(":lang"), ReplAction::LangUsage));
    assert!(matches!(repl_action(":lang zh"), ReplAction::SetLanguage(Language::Zh)));
    match repl_action(":lang klingon ") {
        ReplAction::UnknownLanguage(v) => assert_eq!(v, "klingon"),
        _ => panic!("expected an unknown language"),
    }
    match repl_action(":doc  while") {
        ReplAction::Doc(t) => assert_eq!(t.name, "while"),
        _ => panic!("expected a topic"),
    }
    match repl_action(":doc nothing") {
        ReplAction::UnknownTopic(t) => assert_eq!(t, "nothing"),
        _ => panic!("expected an unknown topic"),
    }
    match repl_action(":complete :q") {
        ReplAction::Complete(ws) => assert_eq!(ws, vec![":quit"]),
        _ => panic!("expected completions"),
    }
    match repl_action("40 + 2") {
        ReplAction::Evaluate(src) => assert_eq!(src, "fn main() {\n  return 40 + 2;\n}"),
        _ => panic!("expected an evaluation"),
    }
    match repl_action("fn f() {}") {
        ReplAction::Evaluate(src) => assert_eq!(src, "fn f() {}"),
        _ => panic!("expected an evaluation"),
    }
}

#[test]
fn switching_language_is_confirmed_in_the_new_language() {
    assert_eq!(language_switched(Language::En), "\x1b[1;38;5;120mSwitched to English.\x1b[0m");
    assert_eq!(language_switched(Language::Zh), "\x1b[1;38;5;120m已切换到中文。\x1b[0m");
}

#[test]
fn a_completion_line_colours_each_word() {
    let words = vec!["a".to_string(), "b".to_string()];
    assert_eq!(
        zeta::line_editor::completion_line(&words),
        "\x1b[1;38;5;214ma\x1b[0m \x1b[1;38;5;214mb\x1b[0m"
    );
}

#[test]
fn every_candidate_with_the_prefix_is_completed() {
    let all = complete("");
    for prefix in [":", "s", "std.", "ResultTag.", ":h"] {
        let words = complete(prefix);
        for w in &all {
            if w.starts_with(prefix) {
                assert!(words.contains(w));
            }
        }
    }
    assert!(complete("ResultTag.").contains(&"ResultTag.Ok".to_string()));
    assert!(complete("ResultTag.").contains(&"ResultTag.Err".to_string()));
}
