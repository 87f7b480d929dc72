use flag_rs::suggestion::{find_suggestions, levenshtein_distance, DEFAULT_SUGGESTION_DISTANCE};

#[test]
fn test_levenshtein_distance() {
    assert_eq!(levenshtein_distance("hello", "hello"), 0);

    assert_eq!(levenshtein_distance("hello", "hallo"), 1);
    assert_eq!(levenshtein_distance("hello", "ello"), 1);
    assert_eq!(levenshtein_distance("hello", "helloo"), 1);

    assert_eq!(levenshtein_distance("kitten", "sitting"), 3);
    assert_eq!(levenshtein_distance("saturday", "sunday"), 3);

    assert_eq!(levenshtein_distance("", "hello"), 5);
    assert_eq!(levenshtein_distance("hello", ""), 5);
    assert_eq!(levenshtein_distance("", ""), 0);
}

#[test]
fn test_find_suggestions() {
    let candidates = vec![
        "start".to_string(),
        "status".to_string(),
        "stop".to_string(),
        "restart".to_string(),
        "help".to_string(),
    ];

    let suggestions = find_suggestions("stat", &candidates, 2);
    assert_eq!(suggestions, vec!["start", "status", "stop"]);

    let suggestions = find_suggestions("stop", &candidates, 2);
    assert_eq!(suggestions, vec!["stop"]);

    let suggestions = find_suggestions("xyz", &candidates, 2);
    assert!(suggestions.is_empty());

    let suggestions = find_suggestions("sart", &candidates, 2);
    assert_eq!(suggestions, vec!["start"]);
}

#[test]
fn test_case_sensitivity() {
    assert_eq!(levenshtein_distance("Hello", "hello"), 1);

    let candidates = vec!["Start".to_string(), "start".to_string()];
    let suggestions = find_suggestions("start", &candidates, 0);
    assert_eq!(suggestions, vec!["start"]);
}

#[test]
fn distance_is_symmetric_on_examples() {
    assert_eq!(levenshtein_distance("flaw", "lawn"), levenshtein_distance("lawn", "flaw"));
    assert_eq!(levenshtein_distance("flaw", "lawn"), 2);
}

#[test]
fn ties_are_broken_alphabetically() {
    let candidates = vec!["stat".to_string(), "stab".to_string(), "star".to_string()];
    let suggestions = find_suggestions("sta", &candidates, DEFAULT_SUGGESTION_DISTANCE);
    assert_eq!(suggestions, vec!["stab", "star", "stat"]);
}
