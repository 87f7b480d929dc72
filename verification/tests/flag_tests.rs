use flag_rs::error::Error;
use flag_rs::flag::{check_value, is_float_text, FlagSpec, FlagType};
use flag_rs::parse_optimized::{first_eq, parse_flags_borrowed, parse_flags_optimized, sub_chars};

#[test]
fn test_optimized_parsing() {
    let flags = vec![
        FlagSpec::new("verbose").short('v').value_type(FlagType::Bool),
        FlagSpec::new("output").short('o').value_type(FlagType::String),
    ];

    let args = vec![
        "-v".to_string(),
        "--output".to_string(),
        "file.txt".to_string(),
        "arg1".to_string(),
    ];

    let (parsed, remaining) = parse_flags_optimized(&args, &flags, None).ok().unwrap();

    assert_eq!(parsed.get("verbose").map(String::as_str), Some("true"));
    assert_eq!(parsed.get("output").map(String::as_str), Some("file.txt"));
    assert_eq!(remaining, vec!["arg1"]);
}

#[test]
fn test_no_allocations_for_flags() {
    let flags = vec![FlagSpec::new("flag1").value_type(FlagType::Bool)];

    let args = vec!["--flag1".to_string(), "value".to_string()];

    let (parsed, remaining) = parse_flags_optimized(&args, &flags, None).ok().unwrap();

    assert_eq!(parsed.get("flag1").map(String::as_str), Some("true"));
    assert_eq!(remaining, vec!["value"]);
}

#[test]
fn test_flag_builder() {
    let flag = FlagSpec::new("verbose")
        .short('v')
        .usage("Enable verbose output")
        .default_text("false")
        .value_type(FlagType::Bool);

    assert_eq!(flag.name, "verbose");
    assert_eq!(flag.short, Some('v'));
    assert_eq!(flag.usage, "Enable verbose output");
    assert_eq!(flag.default_text, Some("false".to_string()));
    assert!(!flag.required);
}

#[test]
fn flag_spec_defaults_and_required() {
    let flag = FlagSpec::new("name");
    assert_eq!(flag.value_type, FlagType::String);
    assert_eq!(flag.short, None);
    assert_eq!(flag.usage, "");
    assert_eq!(flag.default_text, None);
    let flag = flag.required();
    assert!(flag.required);
    let copy = flag.duplicate();
    assert_eq!(copy.name, "name");
    assert!(copy.required);
}

fn rejection(t: FlagType, input: &str) -> String {
    match check_value(t, input) {
        Err(Error::FlagParsing { message, flag, suggestions }) => {
            assert!(flag.is_none());
            assert!(suggestions.is_empty());
            message
        }
        Err(_) => panic!("expected a flag parsing error"),
        Ok(()) => panic!("expected the value to be refused"),
    }
}

#[test]
fn check_value_by_type() {
    assert!(check_value(FlagType::String, "test").is_ok());
    assert!(check_value(FlagType::StringSlice, "").is_ok());

    for word in ["true", "false", "1", "0", "yes", "no", "t", "f", "y", "n", "TRUE", "Yes"] {
        assert!(check_value(FlagType::Bool, word).is_ok(), "{word}");
    }
    assert_eq!(rejection(FlagType::Bool, "invalid"), "Invalid boolean value: invalid");

    assert!(check_value(FlagType::Int, "42").is_ok());
    assert!(check_value(FlagType::Int, "-10").is_ok());
    assert!(check_value(FlagType::Int, "+7").is_ok());
    assert!(check_value(FlagType::Int, "9223372036854775807").is_ok());
    assert_eq!(
        rejection(FlagType::Int, "9223372036854775808"),
        "Invalid integer value: 9223372036854775808"
    );
    assert_eq!(
        rejection(FlagType::Int, "not_a_number"),
        "Invalid integer value: not_a_number"
    );

    assert!(check_value(FlagType::Float, "3.14").is_ok());
    assert!(check_value(FlagType::Float, "-2.5").is_ok());
    assert_eq!(
        rejection(FlagType::Float, "not_a_float"),
        "Invalid float value: not_a_float"
    );
}

#[test]
fn float_syntax_agrees_with_std() {
    let samples = [
        "3.14", "-2.5", "+1", "1.", ".5", ".", "", "1e10", "1E-3", "1e", "e5", "inf", "-inf",
        "Infinity", "NaN", "nan", "+NaN", "1.2.3", "0x10", " 1", "1 ", "--1", "1e+5", "1_000",
        "infinity", "INF", "5e-", "9.", "-.5e2",
    ];
    for s in samples {
        assert_eq!(is_float_text(s), s.parse::<f64>().is_ok(), "{s:?}");
    }
}

#[test]
fn equals_position_and_slices() {
    let chars: Vec<char> = "key=value".chars().collect();
    assert_eq!(first_eq(&chars), Some(3));
    let none: Vec<char> = "plain".chars().collect();
    assert_eq!(first_eq(&none), None);
    assert_eq!(sub_chars(&chars, 4, 9), "value".chars().collect::<Vec<char>>());
}

#[test]
fn borrowed_arguments_are_the_same_text() {
    let args = vec!["a".to_string(), "--b".to_string()];
    assert_eq!(parse_flags_borrowed(&args), vec!["a", "--b"]);
}

#[test]
fn parse_errors_and_parent_flags() {
    let flags = vec![FlagSpec::new("count").value_type(FlagType::Int)];
    let parent = vec![FlagSpec::new("debug").short('d').value_type(FlagType::Bool)];
    let args = vec!["--count".to_string(), "abc".to_string()];
    match parse_flags_optimized(&args, &flags, Some(&parent)) {
        Err(Error::FlagParsing { message, .. }) => assert_eq!(message, "Invalid integer value: abc"),
        _ => panic!("expected a flag parsing error"),
    }

    let args = vec!["-d".to_string(), "--count=3".to_string(), "x".to_string()];
    let (parsed, rest) = parse_flags_optimized(&args, &flags, Some(&parent)).ok().unwrap();
    assert_eq!(parsed.get("debug").map(String::as_str), Some("true"));
    assert_eq!(parsed.get("count").map(String::as_str), Some("3"));
    assert_eq!(rest, vec!["x"]);
}
