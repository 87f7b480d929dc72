use flag_rs::completion::CompletionResult;
use flag_rs::completion_item::CompletionItem;
use flag_rs::completion_optimized::CompletionResultOptimized;
use std::borrow::Cow;

#[test]
fn test_optimized_completion_result() {
    let result = CompletionResultOptimized::new()
        .add("option1")
        .add_with_description("option2", "Description for option2")
        .extend(vec!["option3", "option4"]);

    assert_eq!(result.items.len(), 4);
    assert_eq!(result.items[0].value, "option1");
    assert_eq!(result.items[0].description, None);
    assert_eq!(result.items[1].value, "option2");
    assert_eq!(
        result.items[1].description.as_deref(),
        Some("Description for option2")
    );
}

#[test]
fn test_memory_efficiency() {
    let result = CompletionResultOptimized::new()
        .add("static1")
        .add_with_description("static2", "static description");

    assert!(matches!(result.items[0].value, Cow::Borrowed(_)));
    assert!(matches!(
        result.items[1].description.as_ref().unwrap(),
        Cow::Borrowed(_)
    ));
}

#[test]
fn test_legacy_conversion() {
    let optimized = CompletionResultOptimized::new()
        .add("val1")
        .add_with_description("val2", "desc2");

    let legacy = optimized.clone().into_legacy();
    assert_eq!(legacy.values, vec!["val1", "val2"]);
    assert_eq!(legacy.descriptions, vec!["", "desc2"]);

    let back = CompletionResultOptimized::from_legacy(legacy);
    assert_eq!(back.items.len(), optimized.items.len());
    assert_eq!(back.items[0].value, optimized.items[0].value);
}

#[test]
fn owned_values_stay_owned() {
    let result = CompletionResultOptimized::new().add(String::from("dynamic"));
    assert!(matches!(result.items[0].value, Cow::Owned(_)));
    assert_eq!(result.items[0].value, "dynamic");
}

#[test]
fn items_report_their_descriptions() {
    let plain = CompletionItem::new("a");
    let described = CompletionItem::with_description("b", "bee");
    assert_eq!(plain.description_or_empty(), "");
    assert_eq!(described.description_or_empty(), "bee");
}

#[test]
fn legacy_round_trip_keeps_values_and_descriptions() {
    let legacy = CompletionResult::new()
        .add("x")
        .add_with_description("y", "why")
        .add_help_text("hint");
    let back = CompletionResultOptimized::from_legacy(legacy).into_legacy();
    assert_eq!(back.values, vec!["x", "y"]);
    assert_eq!(back.descriptions, vec!["", "why"]);
    assert_eq!(back.active_help.len(), 1);
}

#[test]
fn merge_and_extend_items() {
    let a = CompletionResultOptimized::new().add("a");
    let b = CompletionResultOptimized::new()
        .extend_items(vec![CompletionItem::with_description("b", "bee")])
        .add_help_text("h");
    let m = a.merge(b);
    assert_eq!(m.items.len(), 2);
    assert_eq!(m.items[1].value, "b");
    assert_eq!(m.active_help.len(), 1);
    let d = CompletionResultOptimized::default().add_conditional_help("c", |_| true);
    assert_eq!(d.active_help[0].message, "c");
}
