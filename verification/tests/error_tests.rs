use flag_rs::error::{Error, UserError};

#[test]
fn test_error_source() {
    let io_error = std::io::Error::new(std::io::ErrorKind::NotFound, "file not found");
    let error = Error::Io(io_error);
    assert!(error.has_source());

    let error = Error::CommandNotFound {
        command: "test".to_string(),
        suggestions: vec![],
    };
    assert!(!error.has_source());
}

#[test]
fn test_error_display() {
    assert_eq!(
        Error::CommandNotFound {
            command: "test".to_string(),
            suggestions: vec![],
        }
        .render(false),
        "Error: unknown command test"
    );
    assert_eq!(
        Error::SubcommandRequired("kubectl".to_string()).render(false),
        "Error: 'kubectl' requires a subcommand\n\nHint: use 'kubectl --help' for available subcommands"
    );
    assert_eq!(
        Error::FlagParsing {
            message: "invalid flag".to_string(),
            flag: Some("invalid".to_string()),
            suggestions: vec![],
        }
        .render(false),
        "Error: invalid flag for flag 'invalid'"
    );
}

#[test]
fn test_error_with_suggestions() {
    let error = Error::CommandNotFound {
        command: "strt".to_string(),
        suggestions: vec!["start".to_string()],
    };
    assert_eq!(
        error.render(false),
        "Error: unknown command strt\n\nDid you mean this?\n    start"
    );

    let error = Error::CommandNotFound {
        command: "lst".to_string(),
        suggestions: vec!["list".to_string(), "last".to_string()],
    };
    assert_eq!(
        error.render(false),
        "Error: unknown command lst\n\nDid you mean one of these?\n    list\n    last\n"
    );
}

#[test]
fn colored_rendering_wraps_styled_parts() {
    let error = Error::CommandNotFound {
        command: "x".to_string(),
        suggestions: vec![],
    };
    assert_eq!(
        error.render(true),
        "\x1b[31mError\x1b[0m: unknown command \x1b[1mx\x1b[0m"
    );
}

struct Boom;

impl UserError for Boom {
    fn describe(&self) -> String {
        "boom".to_string()
    }
}

#[test]
fn custom_and_io_errors_have_sources() {
    let e = Error::Custom(Box::new(Boom));
    assert!(e.has_source());
    let text = e.render(false);
    assert!(text.ends_with("boom"));
    let io = Error::Io(std::io::Error::new(std::io::ErrorKind::Other, "disk"));
    assert!(io.render(false).ends_with("disk"));
}

#[test]
fn flag_parsing_constructors() {
    match Error::flag_parsing("bad value") {
        Error::FlagParsing { message, flag, suggestions } => {
            assert_eq!(message, "bad value");
            assert!(flag.is_none());
            assert!(suggestions.is_empty());
        }
        _ => panic!("expected FlagParsing"),
    }
    let e = Error::flag_parsing_with_suggestions("bad level", "level", vec!["info".to_string()]);
    assert_eq!(e.render(false), "Error: bad level for flag 'level'\n\nExpected: info");
    let e = Error::flag_parsing_with_suggestions(
        "bad level",
        "level",
        vec!["info".to_string(), "warn".to_string()],
    );
    assert_eq!(
        e.render(false),
        "Error: bad level for flag 'level'\n\nExpected one of:\n    info\n    warn\n"
    );
}
