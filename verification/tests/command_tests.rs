use flag_rs::command::{Command, CommandBuilder, Outcome};
use flag_rs::completion::CompletionResult;
use flag_rs::context::Context;
use flag_rs::error::Error;
use flag_rs::flag::{FlagSpec, FlagType};
use std::sync::{Arc, Mutex};

#[test]
fn test_simple_command_execution() {
    let executed = Arc::new(Mutex::new(false));
    let executed_clone = executed.clone();

    let cmd = CommandBuilder::new("test")
        .run(move |_ctx| {
            *executed_clone.lock().unwrap() = true;
            Ok(())
        })
        .build();

    assert!(cmd.execute(vec![], false).is_ok());
    assert!(*executed.lock().unwrap());
}

#[test]
fn test_command_with_args() {
    let received_args = Arc::new(Mutex::new(Vec::new()));
    let args_clone = received_args.clone();

    let cmd = CommandBuilder::new("test")
        .run(move |ctx| {
            *args_clone.lock().unwrap() = ctx.args().to_vec();
            Ok(())
        })
        .build();

    assert!(cmd
        .execute(vec!["arg1".to_string(), "arg2".to_string()], false)
        .is_ok());
    assert_eq!(*received_args.lock().unwrap(), vec!["arg1", "arg2"]);
}

#[test]
fn test_subcommand_execution() {
    let main_executed = Arc::new(Mutex::new(false));
    let sub_executed = Arc::new(Mutex::new(false));
    let sub_clone = sub_executed.clone();

    let subcmd = CommandBuilder::new("sub")
        .run(move |_ctx| {
            *sub_clone.lock().unwrap() = true;
            Ok(())
        })
        .build();

    let main_clone = main_executed.clone();
    let cmd = CommandBuilder::new("main")
        .run(move |_ctx| {
            *main_clone.lock().unwrap() = true;
            Ok(())
        })
        .subcommand(subcmd)
        .build();

    assert!(cmd.execute(vec!["sub".to_string()], false).is_ok());
    assert!(*sub_executed.lock().unwrap());
    assert!(!*main_executed.lock().unwrap());
}

#[test]
fn command_test_flag_parsing() {
    let seen = Arc::new(Mutex::new(false));
    let seen_clone = seen.clone();
    let cmd = CommandBuilder::new("test")
        .flag(FlagSpec::new("verbose").short('v').value_type(FlagType::Bool))
        .flag(FlagSpec::new("output").short('o').value_type(FlagType::String))
        .flag(FlagSpec::new("count").value_type(FlagType::Int))
        .run(move |ctx| {
            assert_eq!(ctx.flag("verbose"), Some(&"true".to_string()));
            assert_eq!(ctx.flag("output"), Some(&"file.txt".to_string()));
            assert_eq!(ctx.flag("count"), Some(&"42".to_string()));
            assert_eq!(ctx.args(), &["remaining"]);
            *seen_clone.lock().unwrap() = true;
            Ok(())
        })
        .build();

    assert!(cmd
        .execute(
            vec![
                "-v".to_string(),
                "--output".to_string(),
                "file.txt".to_string(),
                "--count=42".to_string(),
                "remaining".to_string(),
            ],
            false
        )
        .is_ok());
    assert!(*seen.lock().unwrap());
}

#[test]
fn test_flag_inheritance() {
    let sub_executed = Arc::new(Mutex::new(false));
    let sub_clone = sub_executed.clone();

    let subcmd = CommandBuilder::new("sub")
        .run(move |ctx| {
            assert_eq!(ctx.flag("global"), Some(&"value".to_string()));
            *sub_clone.lock().unwrap() = true;
            Ok(())
        })
        .build();

    let cmd = CommandBuilder::new("main")
        .flag(FlagSpec::new("global").value_type(FlagType::String))
        .subcommand(subcmd)
        .build();

    assert!(cmd
        .execute(
            vec!["--global".to_string(), "value".to_string(), "sub".to_string()],
            false
        )
        .is_ok());

    assert!(*sub_executed.lock().unwrap());
}

#[test]
fn test_command_aliases() {
    let executed = Arc::new(Mutex::new(String::new()));
    let exec_clone = executed.clone();

    let subcmd = CommandBuilder::new("subcommand")
        .aliases(vec!["sub", "s"])
        .run(move |_ctx| {
            *exec_clone.lock().unwrap() = "subcommand".to_string();
            Ok(())
        })
        .build();

    let cmd = CommandBuilder::new("main").subcommand(subcmd).build();

    assert!(cmd.execute(vec!["subcommand".to_string()], false).is_ok());
    assert_eq!(*executed.lock().unwrap(), "subcommand");

    assert!(cmd.execute(vec!["sub".to_string()], false).is_ok());
    assert_eq!(*executed.lock().unwrap(), "subcommand");

    assert!(cmd.execute(vec!["s".to_string()], false).is_ok());
    assert_eq!(*executed.lock().unwrap(), "subcommand");
}

#[test]
fn test_error_cases() {
    let cmd = CommandBuilder::new("main").build();

    let result = cmd.execute(vec![], false);
    assert!(result.is_err());
    assert!(matches!(result.unwrap_err(), Error::SubcommandRequired(_)));

    let result = cmd.execute(vec!["unknown".to_string()], false);
    assert!(result.is_err());
    assert!(matches!(result.unwrap_err(), Error::CommandNotFound { .. }));

    let result = cmd.execute(vec!["--unknown".to_string()], false);
    assert!(result.is_err());
    assert!(matches!(result.unwrap_err(), Error::CommandNotFound { .. }));
}

#[test]
fn test_completion() {
    let cmd = CommandBuilder::new("test")
        .arg_completion(|_ctx, prefix| {
            Ok(CompletionResult::new().extend(
                vec!["file1.txt", "file2.txt", "folder/"]
                    .into_iter()
                    .filter(|f| f.starts_with(prefix))
                    .map(String::from)
                    .collect(),
            ))
        })
        .flag_completion("type", |_ctx, prefix| {
            Ok(CompletionResult::new().extend(
                vec!["json", "yaml", "xml"]
                    .into_iter()
                    .filter(|t| t.starts_with(prefix))
                    .map(String::from)
                    .collect(),
            ))
        })
        .build();

    let ctx = Context::new(vec![]);

    let result = cmd.get_completions(&ctx, "fi", None);
    assert!(matches!(&result, Ok(r) if r.values == vec!["file1.txt", "file2.txt"]));

    let result = cmd.get_completions(&ctx, "j", Some("type"));
    assert!(matches!(&result, Ok(r) if r.values == vec!["json"]));
}

#[test]
fn test_flag_with_equals() {
    let cmd = CommandBuilder::new("test")
        .flag(FlagSpec::new("output").value_type(FlagType::String))
        .run(|ctx| {
            assert_eq!(
                ctx.flag("output"),
                Some(&"/path/with=equals.txt".to_string())
            );
            Ok(())
        })
        .build();

    assert!(cmd
        .execute(vec!["--output=/path/with=equals.txt".to_string()], false)
        .is_ok());
}

#[test]
fn test_help_flag() {
    let cmd = CommandBuilder::new("test")
        .short("Test command")
        .long("This is a test command")
        .flag(FlagSpec::new("verbose").short('v').usage("Enable verbose output"))
        .build();

    let result = cmd.execute(vec!["--help".to_string()], false);
    assert!(result.is_ok());

    let result = cmd.execute(vec!["-h".to_string()], false);
    assert!(result.is_ok());
}

#[test]
fn test_subcommand_help() {
    let subcmd = CommandBuilder::new("sub")
        .short("Subcommand")
        .flag(FlagSpec::new("subflag").usage("A flag for the subcommand"))
        .build();

    let cmd = CommandBuilder::new("main")
        .flag(FlagSpec::new("global").usage("A global flag"))
        .subcommand(subcmd)
        .build();

    let result = cmd.execute(vec!["sub".to_string(), "--help".to_string()], false);
    assert!(result.is_ok());
}

#[test]
fn help_text_lists_commands_and_flags() {
    let cmd = CommandBuilder::new("app")
        .long("An app")
        .flag(FlagSpec::new("verbose").short('v').usage("Verbose").value_type(FlagType::Bool))
        .flag(FlagSpec::new("config").usage("Config file").default_text("\"a.toml\""))
        .subcommand(CommandBuilder::new("serve").short("Serve it").build())
        .subcommand(CommandBuilder::new("build").short("Build it").build())
        .build();
    let help = match cmd.execute(vec!["--help".to_string()], false) {
        Ok(Outcome::Help(t)) => t,
        _ => panic!("expected help"),
    };
    let expected = "An app\n\nUsage:\n  app [flags] [command]\n\nAvailable Commands:\n  build                Build it\n  serve                Serve it\n\nFlags:\n          --config string    Config file (default \"a.toml\")\n      -v, --verbose          Verbose\n\nUse \"app [command] --help\" for more information about a command.\n";
    assert_eq!(help, expected);
}

#[test]
fn subcommand_help_lists_global_flags() {
    let sub = CommandBuilder::new("sub")
        .short("A sub")
        .flag(FlagSpec::new("local").usage("Local"))
        .build();
    let cmd = CommandBuilder::new("main")
        .flag(FlagSpec::new("global").usage("Global"))
        .subcommand(sub)
        .build();
    let help = match cmd.execute(vec!["sub".to_string(), "-h".to_string()], false) {
        Ok(Outcome::Help(t)) => t,
        _ => panic!("expected help"),
    };
    assert!(help.contains("Flags:\n          --local string     Local\n"));
    assert!(help.contains("\nGlobal Flags:\n          --global string    Global\n"));
}

#[test]
fn separator_and_unknown_flags_reach_the_arguments() {
    let got = Arc::new(Mutex::new(Vec::new()));
    let g = got.clone();
    let cmd = CommandBuilder::new("t")
        .flag(FlagSpec::new("name").short('n'))
        .run(move |ctx| {
            *g.lock().unwrap() = ctx.args().to_vec();
            Ok(())
        })
        .build();
    assert!(cmd
        .execute(
            vec![
                "-nx".to_string(),
                "--zz".to_string(),
                "--".to_string(),
                "--name".to_string(),
            ],
            false
        )
        .is_ok());
    assert_eq!(*got.lock().unwrap(), vec!["-x", "--zz", "--name"]);
}

#[test]
fn command_lookup_by_name_and_alias() {
    let mut root = Command::new("app");
    root.add_command(CommandBuilder::new("server").aliases(vec!["serve", "s"]).build());
    assert!(root.find_subcommand("server").is_some());
    assert!(root.find_subcommand("serve").is_some());
    assert!(root.find_subcommand("s").is_some());
    assert!(root.find_subcommand("x").is_none());
    assert_eq!(root.subcommands().len(), 1);
    root.add_command(CommandBuilder::new("server").short("again").build());
    assert_eq!(root.subcommands().len(), 1);
    assert_eq!(root.subcommands()[0].short(), "again");
}
