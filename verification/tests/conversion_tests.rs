use flag_rs::completion_item::CompletionItem;
use flag_rs::completion_optimized::CompletionResultOptimized;
use flag_rs::error::Error;
use std::borrow::Cow;

#[test]
fn items_from_static_text_borrow_it() {
    let item = CompletionItem::from("static");
    assert!(matches!(item.value, Cow::Borrowed("static")));
    assert!(item.description.is_none());
}

#[test]
fn items_from_owned_text_own_it() {
    let item: CompletionItem = String::from("owned").into();
    assert!(matches!(&item.value, Cow::Owned(s) if s == "owned"));
    assert_eq!(item.description_or_empty(), "");
}

#[test]
fn items_from_pairs_carry_the_description() {
    let item = CompletionItem::from(("value", "a description"));
    assert_eq!(item.value, "value");
    assert_eq!(item.description_or_empty(), "a description");
}

#[test]
fn io_errors_convert_to_io_variant() {
    let err: Error = std::io::Error::new(std::io::ErrorKind::NotFound, "missing file").into();
    assert!(matches!(err, Error::Io(_)));
    assert!(err.has_source());
    assert!(err.render(false).contains("missing file"));
}

#[test]
fn cow_values_keep_their_borrowing() {
    let result = CompletionResultOptimized::new()
        .add_with_description(Cow::Borrowed("static-value"), Cow::Borrowed("Static description"))
        .add(Cow::Owned::<'static, str>("owned".to_string()));
    assert!(matches!(result.items[0].value, Cow::Borrowed("static-value")));
    assert_eq!(result.items[0].description_or_empty(), "Static description");
    assert!(matches!(&result.items[1].value, Cow::Owned(s) if s == "owned"));
}
