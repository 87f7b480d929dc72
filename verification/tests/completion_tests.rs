use flag_rs::completion::CompletionResult;

#[test]
fn test_completion_result() {
    let result = CompletionResult::new()
        .add("option1")
        .add_with_description("option2", "Description for option2")
        .extend(vec!["option3".to_string(), "option4".to_string()]);

    assert_eq!(result.values.len(), 4);
    assert_eq!(result.descriptions.len(), 4);

    assert_eq!(result.values[0], "option1");
    assert_eq!(result.descriptions[0], "");

    assert_eq!(result.values[1], "option2");
    assert_eq!(result.descriptions[1], "Description for option2");

    assert_eq!(result.values[2], "option3");
    assert_eq!(result.descriptions[2], "");
}

#[test]
fn test_completion_result_with_active_help() {
    let result = CompletionResult::new()
        .add("option1")
        .add_help_text("This is a help message")
        .add_conditional_help("Conditional help", |_| true);

    assert_eq!(result.values.len(), 1);
    assert_eq!(result.active_help.len(), 2);
    assert_eq!(result.active_help[0].message, "This is a help message");
    assert_eq!(result.active_help[1].message, "Conditional help");
}

#[test]
fn merge_concatenates_everything() {
    let a = CompletionResult::new().add("a").add_help_text("first");
    let b = CompletionResult::new()
        .add_with_description("b", "bee")
        .add_help_text("second");
    let m = a.merge(b);
    assert_eq!(m.values, vec!["a", "b"]);
    assert_eq!(m.descriptions, vec!["", "bee"]);
    assert_eq!(m.active_help.len(), 2);
    assert_eq!(m.active_help[1].message, "second");
}

#[test]
fn merge_with_empty_is_identity() {
    let a = CompletionResult::new().add_with_description("x", "y");
    let m = a.merge(CompletionResult::default());
    assert_eq!(m.values, vec!["x"]);
    assert_eq!(m.descriptions, vec!["y"]);
    let m2 = CompletionResult::new().merge(m.duplicate());
    assert_eq!(m2.values, m.values);
    assert_eq!(m2.descriptions, m.descriptions);
}
