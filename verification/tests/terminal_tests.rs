use flag_rs::terminal::{
    clamp_width, format_help_entry, terminal_width_from, wrap_text, wrap_text_to_terminal,
    DEFAULT_TERMINAL_WIDTH, MAXIMUM_TERMINAL_WIDTH, MINIMUM_TERMINAL_WIDTH,
};

#[test]
fn test_clamp_width() {
    assert_eq!(clamp_width(10), MINIMUM_TERMINAL_WIDTH);
    assert_eq!(clamp_width(80), 80);
    assert_eq!(clamp_width(200), MAXIMUM_TERMINAL_WIDTH);
}

#[test]
fn test_wrap_text_simple() {
    let text = "This is a test";
    let wrapped = wrap_text(text, 20, None);
    assert_eq!(wrapped, "This is a test");
}

#[test]
fn test_wrap_text_long_line() {
    let text = "This is a very long line that needs to be wrapped";
    let wrapped = wrap_text(text, 20, None);

    assert!(wrapped.contains('\n'));
    for line in wrapped.lines() {
        assert!(line.len() <= 20);
    }
}

#[test]
fn test_wrap_text_with_indent() {
    let text = "This is a very long line that needs to be wrapped with indentation";
    let wrapped = wrap_text(text, 20, Some(4));

    let lines: Vec<&str> = wrapped.lines().collect();
    assert!(lines.len() > 1);

    assert!(!lines[0].starts_with("    "));

    for line in &lines[1..] {
        assert!(line.starts_with("    "));
    }
}

#[test]
fn test_format_help_entry_normal() {
    let result = format_help_entry("  -v, --verbose", "Enable verbose output", 20, 60);
    assert!(result.contains("  -v, --verbose"));
    assert!(result.contains("Enable verbose output"));
}

#[test]
fn test_format_help_entry_long_left() {
    let result = format_help_entry("  --very-long-flag-name", "Description", 15, 60);
    assert!(result.contains('\n'));
}

#[test]
fn test_wrap_text_preserves_empty_lines() {
    let text = "First paragraph\n\nSecond paragraph";
    let wrapped = wrap_text(text, 50, None);
    assert_eq!(wrapped, "First paragraph\n\nSecond paragraph");
}

#[test]
fn test_terminal_width_respects_columns_env() {
    let test_cases = vec![
        ("50", 50),
        ("80", 80),
        ("100", 100),
        ("30", 40),
        ("200", 120),
    ];

    for (env_value, expected) in test_cases {
        assert_eq!(
            terminal_width_from(Some(env_value), None),
            expected,
            "COLUMNS={env_value} should result in width={expected}"
        );
    }

    assert_eq!(
        terminal_width_from(Some("invalid"), None),
        80,
        "Invalid COLUMNS should fall back to 80"
    );
}

#[test]
fn test_wrap_text_preserves_content() {
    let text = "The quick brown fox jumps over the lazy dog";
    let wrapped = wrap_text(text, 20, None);

    let original_words: Vec<&str> = text.split_whitespace().collect();
    let wrapped_words: Vec<&str> = wrapped.split_whitespace().collect();
    assert_eq!(
        original_words, wrapped_words,
        "Wrapping should preserve all words"
    );
}

#[test]
fn test_wrap_text_respects_width() {
    let text = "This is a very long line that needs to be wrapped at specific boundaries";
    let width = 20;
    let wrapped = wrap_text(text, width, None);

    for line in wrapped.lines() {
        assert!(
            line.len() <= width,
            "Line '{}' exceeds width {} (actual: {})",
            line,
            width,
            line.len()
        );
    }
}

#[test]
fn test_wrap_text_handles_indentation() {
    let text = "First line should not be indented but subsequent lines should have indent";
    let wrapped = wrap_text(text, 30, Some(4));
    let lines: Vec<&str> = wrapped.lines().collect();

    assert!(lines.len() > 1, "Text should wrap to multiple lines");
    assert!(
        !lines[0].starts_with("    "),
        "First line should not be indented"
    );

    for line in &lines[1..] {
        assert!(
            line.starts_with("    "),
            "Continuation line '{line}' should be indented"
        );
    }
}

#[test]
fn test_format_help_entry_alignment() {
    let result = format_help_entry("  -v, --verbose", "Enable verbose output", 20, 60);

    assert!(result.contains("  -v, --verbose"));
    assert!(result.contains("Enable verbose output"));

    let first_line = result.lines().next().unwrap();
    let desc_start = first_line.find("Enable").unwrap();
    assert_eq!(desc_start, 22, "Description should be properly aligned");
}

#[test]
fn test_format_help_entry_long_flag() {
    let result = format_help_entry(
        "  --very-long-flag-name-that-exceeds-column",
        "Description goes here",
        20,
        60,
    );

    let lines: Vec<&str> = result.lines().collect();
    assert_eq!(
        lines.len(),
        2,
        "Long flag should push description to next line"
    );
    assert!(lines[0].contains("--very-long-flag-name"));
    assert!(lines[1].trim().starts_with("Description"));
}

#[test]
fn test_wrap_text_empty_and_edge_cases() {
    assert_eq!(wrap_text("", 80, None), "");

    let long_word = "supercalifragilisticexpialidocious";
    let wrapped = wrap_text(long_word, 10, None);
    assert_eq!(wrapped, long_word, "Long words should not be broken");

    let spaced = "word1     word2     word3";
    let wrapped = wrap_text(spaced, 80, None);
    assert_eq!(
        wrapped, "word1 word2 word3",
        "Multiple spaces should be normalized"
    );
}

#[test]
fn test_terminal_width_snapshot() {
    let test_cases = vec![
        ("Short text", 80, "Short text"),
        (
            "This is a medium length text that might wrap",
            20,
            "This is a medium\nlength text that\nmight wrap",
        ),
        (
            "Text with\nmultiple\nparagraphs",
            80,
            "Text with\nmultiple\nparagraphs",
        ),
    ];

    for (input, width, expected) in test_cases {
        let result = wrap_text(input, width, None);
        assert_eq!(
            result, expected,
            "\nInput: '{input}'\nWidth: {width}\nExpected: '{expected}'\nActual: '{result}'"
        );
    }
}

#[test]
fn detected_width_is_used_when_columns_is_unusable() {
    assert_eq!(terminal_width_from(None, Some(100)), 100);
    assert_eq!(terminal_width_from(Some("abc"), Some(10)), 40);
    assert_eq!(terminal_width_from(None, None), DEFAULT_TERMINAL_WIDTH);
    assert_eq!(terminal_width_from(Some("90"), Some(50)), 90);
}

#[test]
fn wrap_to_terminal_uses_the_chosen_width() {
    let text = "aaaa bbbb cccc dddd eeee ffff gggg hhhh iiii jjjj kkkk";
    let wrapped = wrap_text_to_terminal(text, None, Some("40"), None);
    assert_eq!(wrapped, "aaaa bbbb cccc dddd eeee ffff gggg hhhh\niiii jjjj kkkk");
}

#[test]
fn help_entry_without_description_is_the_left_column() {
    assert_eq!(format_help_entry("  --x", "", 20, 60), "  --x");
    assert_eq!(format_help_entry("ab", "cd", 4, 60), "ab    cd");
}

#[test]
fn test_get_terminal_width_default() {
    // Without COLUMNS and without a terminal-reported width.
    let width = terminal_width_from(None, None);
    assert!(width >= 40);
    assert!(width <= 120);
    assert_eq!(width, 80);
}
