use flag_rs::completion::CompletionResult;
use flag_rs::completion_format::CompletionFormat;
use flag_rs::context::Context;

#[test]
fn completion_format_test_zsh_format_with_empty_description() {
    let result = CompletionResult::new()
        .add("value-without-desc")
        .add_with_description("value-with-desc", "This has a description");

    let formatted = CompletionFormat::Zsh.format(&result, None, false);

    // Empty descriptions should still produce proper zsh format
    assert_eq!(formatted.len(), 2);
    assert!(formatted[0].starts_with("value-without-desc:"));
    assert!(formatted[0].contains(" - "));
    assert!(formatted[1].starts_with("value-with-desc:"));
}

#[test]
fn completion_format_test_zsh_format_uuid_without_description() {
    let result = CompletionResult::new().add("28cbc1d1-7750-4253-9f55-ae21b9156b9d");

    let formatted = CompletionFormat::Zsh.format(&result, None, false);

    assert_eq!(formatted.len(), 1);
    assert!(formatted[0].contains(':'));
    assert!(formatted[0].contains(" - "));
    assert_eq!(
        formatted[0],
        "28cbc1d1-7750-4253-9f55-ae21b9156b9d:28cbc1d1-7750-4253-9f55-ae21b9156b9d    - "
    );
}

#[test]
fn completion_format_test_empty_value_handling() {
    let result = CompletionResult::new()
        .add("")
        .add_with_description("", "Empty value with description");

    let formatted = CompletionFormat::Zsh.format(&result, None, false);

    assert_eq!(formatted.len(), 2);
    for line in &formatted {
        assert!(line.contains(':'));
    }
}

#[test]
fn completion_format_test_special_characters_in_value() {
    let result = CompletionResult::new()
        .add("value:with:colons")
        .add("value'with'quotes")
        .add("value with spaces");

    let formatted = CompletionFormat::Zsh.format(&result, None, false);

    assert!(formatted[0].starts_with("value\\:with\\:colons:"));
    assert_eq!(formatted.len(), 3);
    for line in &formatted {
        assert!(line.contains(" - "));
    }
}

#[test]
fn completion_format_test_fish_format_empty_description() {
    let result = CompletionResult::new()
        .add("no-desc-value")
        .add_with_description("with-desc", "Description");

    let formatted = CompletionFormat::Fish.format(&result, None, false);

    assert_eq!(formatted[0], "no-desc-value");
    assert!(formatted[1].contains('\t'));
}

#[test]
fn completion_format_test_bash_format() {
    let result = CompletionResult::new()
        .add("value1")
        .add_with_description("value2", "Description ignored for bash");

    let formatted = CompletionFormat::Bash.format(&result, None, false);

    assert_eq!(formatted, vec!["value1", "value2"]);
}

#[test]
fn completion_format_test_line_length_limits() {
    let long_value = "a".repeat(50);
    let long_desc = "b".repeat(50);

    let result = CompletionResult::new().add_with_description(&long_value, &long_desc);

    let formatted = CompletionFormat::Zsh.format(&result, None, false);

    for line in formatted {
        assert!(line.len() <= 80, "Line too long: {} chars", line.len());
        if line.len() == 80 {
            assert!(
                line.ends_with("..."),
                "Long lines should be truncated with ..."
            );
        }
    }
}

#[test]
fn test_active_help_formatting() {
    let result = CompletionResult::new()
        .add("option1")
        .add_help_text("This is a help message")
        .add_conditional_help("Conditional help", |_| true)
        .add_conditional_help("Hidden help", |_| false);

    let ctx = Context::new(vec![]);

    let bash_formatted = CompletionFormat::Bash.format(&result, Some(&ctx), false);
    assert!(bash_formatted.contains(&"option1".to_string()));
    assert!(bash_formatted.contains(&"_activehelp_ This is a help message".to_string()));
    assert!(bash_formatted.contains(&"_activehelp_ Conditional help".to_string()));
    assert!(!bash_formatted.iter().any(|s| s.contains("Hidden help")));

    let zsh_formatted = CompletionFormat::Zsh.format(&result, Some(&ctx), false);
    assert!(zsh_formatted
        .iter()
        .any(|s| s.contains("_activehelp_::This is a help message")));
    assert!(zsh_formatted
        .iter()
        .any(|s| s.contains("_activehelp_::Conditional help")));

    let fish_formatted = CompletionFormat::Fish.format(&result, Some(&ctx), false);
    assert!(fish_formatted.contains(&"option1".to_string()));
    assert!(fish_formatted.contains(&"_activehelp_\tThis is a help message".to_string()));
    assert!(fish_formatted.contains(&"_activehelp_\tConditional help".to_string()));

    let no_ctx_formatted = CompletionFormat::Bash.format(&result, None, false);
    assert!(!no_ctx_formatted.iter().any(|s| s.contains("_activehelp_")));
}

#[test]
fn completion_format_tests_test_zsh_format_with_empty_description() {
    let result = CompletionResult::new()
        .add("value-without-desc")
        .add_with_description("value-with-desc", "This has a description");

    let formatted = CompletionFormat::Zsh.format(&result, None, false);

    assert_eq!(formatted.len(), 2);
    assert!(formatted[0].starts_with("value-without-desc:"));
    assert!(formatted[0].contains(" - "));
    assert!(formatted[1].starts_with("value-with-desc:"));
}

#[test]
fn completion_format_tests_test_zsh_format_uuid_without_description() {
    let result = CompletionResult::new().add("28cbc1d1-7750-4253-9f55-ae21b9156b9d");

    let formatted = CompletionFormat::Zsh.format(&result, None, false);

    assert_eq!(formatted.len(), 1);
    assert!(formatted[0].contains(":"));
    assert!(formatted[0].contains(" - "));
}

#[test]
fn completion_format_tests_test_empty_value_handling() {
    let result = CompletionResult::new()
        .add("")
        .add_with_description("", "Empty value with description");

    let formatted = CompletionFormat::Zsh.format(&result, None, false);

    assert_eq!(formatted.len(), 2);
    for line in &formatted {
        assert!(line.contains(":"));
    }
}

#[test]
fn completion_format_tests_test_special_characters_in_value() {
    let result = CompletionResult::new()
        .add("value:with:colons")
        .add("value'with'quotes")
        .add("value with spaces");

    let formatted = CompletionFormat::Zsh.format(&result, None, false);

    assert!(formatted[0].starts_with("value\\:with\\:colons:"));
    assert_eq!(formatted.len(), 3);
}

#[test]
fn completion_format_tests_test_fish_format_empty_description() {
    let result = CompletionResult::new()
        .add("no-desc-value")
        .add_with_description("with-desc", "Description");

    let formatted = CompletionFormat::Fish.format(&result, None, false);

    assert_eq!(formatted[0], "no-desc-value");
    assert!(formatted[1].contains("\t"));
}

#[test]
fn completion_format_tests_test_bash_format() {
    let result = CompletionResult::new()
        .add("value1")
        .add_with_description("value2", "Description ignored for bash");

    let formatted = CompletionFormat::Bash.format(&result, None, false);

    assert_eq!(formatted, vec!["value1", "value2"]);
}

#[test]
fn completion_format_tests_test_line_length_limits() {
    let long_value = "a".repeat(100);
    let long_desc = "b".repeat(100);

    let result = CompletionResult::new()
        .add(&long_value)
        .add_with_description(&long_value, &long_desc);

    let formatted = CompletionFormat::Zsh.format(&result, None, false);

    for line in formatted {
        assert!(line.len() <= 80, "Line too long: {} chars", line.len());
        if line.len() == 80 {
            assert!(
                line.ends_with("..."),
                "Long lines should be truncated with ..."
            );
        }
    }
}

#[test]
fn shell_names_choose_formats() {
    assert!(matches!(CompletionFormat::from_shell_type(Some("zsh")), CompletionFormat::Zsh));
    assert!(matches!(CompletionFormat::from_shell_type(Some("fish")), CompletionFormat::Fish));
    assert!(matches!(CompletionFormat::from_shell_type(Some("bash")), CompletionFormat::Bash));
    assert!(matches!(
        CompletionFormat::from_shell_type(Some("display")),
        CompletionFormat::Display
    ));
    assert!(matches!(CompletionFormat::from_shell_type(Some("tcsh")), CompletionFormat::Simple));
    assert!(matches!(CompletionFormat::from_shell_type(None), CompletionFormat::Simple));
}

#[test]
fn zsh_lines_are_padded_to_a_shared_column() {
    let result = CompletionResult::new()
        .add_with_description("ab", "first")
        .add_with_description("abcd", "second");
    let formatted = CompletionFormat::Zsh.format(&result, None, false);
    assert_eq!(formatted[0], "ab:ab      - first");
    assert_eq!(formatted[1], "abcd:abcd    - second");
}

#[test]
fn long_zsh_line_is_cut_to_eighty_bytes() {
    let value = "v".repeat(40);
    let desc = "d".repeat(60);
    let result = CompletionResult::new().add_with_description(&value, &desc);
    let formatted = CompletionFormat::Zsh.format(&result, None, false);
    let full = format!("{value}:{value} - {desc}");
    assert_eq!(formatted[0], format!("{}...", &full[..77]));
    assert_eq!(formatted[0].len(), 80);
}

#[test]
fn fish_lines_put_description_after_tab() {
    let result = CompletionResult::new().add_with_description("run", "Run it");
    let formatted = CompletionFormat::Fish.format(&result, None, false);
    assert_eq!(formatted[0], "run\tRun it");
    let long_desc = "x".repeat(100);
    let result = CompletionResult::new().add_with_description("go", &long_desc);
    let formatted = CompletionFormat::Fish.format(&result, None, false);
    let tail = formatted[0].split('\t').nth(1).unwrap().to_string();
    assert_eq!(tail.len(), 80);
    assert!(tail.ends_with("..."));
    assert_eq!(tail, format!("{}...", "x".repeat(77)));
}

#[test]
fn long_non_ascii_zsh_lines_are_cut_between_characters() {
    let value = "é".repeat(50);
    let result = CompletionResult::new().add(value.as_str());
    let formatted = CompletionFormat::Zsh.format(&result, None, false);
    assert_eq!(formatted.len(), 1);
    assert!(formatted[0].len() <= 80);
    assert!(formatted[0].ends_with("..."));
}

#[test]
fn display_format_aligns_and_dims() {
    let result = CompletionResult::new()
        .add_with_description("one", "first")
        .add("three");
    let plain = CompletionFormat::Display.format(&result, None, false);
    assert_eq!(plain, vec!["one      first", "three"]);
    let colored = CompletionFormat::Display.format(&result, None, true);
    assert_eq!(colored[0], "one      \x1b[2mfirst\x1b[0m");
    let no_desc = CompletionResult::new().add("a").add("b");
    assert_eq!(CompletionFormat::Display.format(&no_desc, None, false), vec!["a", "b"]);
}

#[test]
fn simple_format_lists_values_and_help() {
    let result = CompletionResult::new().add("x").add_help_text("hint");
    let ctx = Context::new(vec![]);
    let out = CompletionFormat::Simple.format(&result, Some(&ctx), false);
    assert_eq!(out, vec!["x", "[HELP] hint"]);
    let decided = CompletionFormat::Bash.format_with_decisions(&result, &[false], false);
    assert_eq!(decided, vec!["x"]);
}
