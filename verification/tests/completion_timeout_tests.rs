use flag_rs::completion::CompletionResult;
use flag_rs::completion_timeout::{settle_timed_completion, TimedOutcome};
use flag_rs::error::Error;
use flag_rs::suggestion::levenshtein_distance;

#[test]
fn finished_runs_give_their_own_result() {
    let r = settle_timed_completion(TimedOutcome::Finished(Some(Ok(
        CompletionResult::new().add("quick_result"),
    ))));
    assert_eq!(r.ok().unwrap().values, vec!["quick_result"]);

    let r = settle_timed_completion(TimedOutcome::Finished(Some(Err(Error::Completion(
        "failed".to_string(),
    )))));
    assert!(matches!(r, Err(Error::Completion(m)) if m == "failed"));
}

#[test]
fn finished_runs_without_a_result_are_errors() {
    let r = settle_timed_completion(TimedOutcome::Finished(None));
    assert!(matches!(r, Err(Error::Completion(m)) if m == "Completion function did not return a result"));
    let r = settle_timed_completion(TimedOutcome::Unreadable);
    assert!(matches!(r, Err(Error::Completion(m)) if m == "Failed to access completion result"));
}

#[test]
fn timed_out_runs_carry_the_hint_and_any_partial_result() {
    let r = settle_timed_completion(TimedOutcome::TimedOut(None)).ok().unwrap();
    assert!(r.values.is_empty());
    assert_eq!(r.active_help.len(), 1);
    assert!(r.active_help[0].message.contains("timed out"));

    let partial = CompletionResult::new()
        .add_with_description("a", "first")
        .add_help_text("more");
    let r = settle_timed_completion(TimedOutcome::TimedOut(Some(Ok(partial)))).ok().unwrap();
    assert_eq!(r.values, vec!["a"]);
    assert_eq!(r.descriptions, vec!["first"]);
    assert_eq!(r.active_help.len(), 2);
    assert_eq!(
        r.active_help[0].message,
        "⚠️  Completion timed out - results may be incomplete. Try a more specific prefix."
    );
    assert_eq!(r.active_help[1].message, "more");

    let r = settle_timed_completion(TimedOutcome::TimedOut(Some(Err(Error::Completion(
        "late".to_string(),
    )))))
    .ok()
    .unwrap();
    assert!(r.values.is_empty());
    assert_eq!(r.active_help.len(), 1);
}

#[test]
fn distance_is_symmetric_and_zero_on_equal_strings() {
    for (a, b) in [("kitten", "sitting"), ("", "abc"), ("flaw", "lawn"), ("same", "same")] {
        assert_eq!(levenshtein_distance(a, b), levenshtein_distance(b, a));
    }
    assert_eq!(levenshtein_distance("hello", "hello"), 0);
    assert_eq!(levenshtein_distance("kitten", "sitting"), 3);
}

#[test]
fn distance_counts_characters() {
    assert_eq!(levenshtein_distance("", "é"), 1);
    assert_eq!(levenshtein_distance("é", ""), 1);
    assert_eq!(levenshtein_distance("café", "cafe"), 1);
    assert_eq!(levenshtein_distance("naïve", "naïve"), 0);
}
