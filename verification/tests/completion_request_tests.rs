use flag_rs::command::{Command, CommandBuilder};
use flag_rs::completion::CompletionResult;
use flag_rs::context::Context;
use flag_rs::error::Error;
use flag_rs::flag::{FlagSpec, FlagType};
use flag_rs::shell::Shell;

fn app() -> Command {
    CommandBuilder::new("myapp")
        .flag(FlagSpec::new("verbose").short('v').usage("Verbose output").value_type(FlagType::Bool))
        .flag(FlagSpec::new("output").short('o').usage("Output format"))
        .flag_completion("output", |_ctx: &Context, prefix: &str| {
            let all = ["json", "yaml", "table"];
            Ok(CompletionResult::new().extend(
                all.iter().filter(|s| s.starts_with(prefix)).map(|s| s.to_string()).collect(),
            ))
        })
        .subcommand(
            CommandBuilder::new("serve")
                .short("Start the server")
                .aliases(vec!["server", "s"])
                .flag(FlagSpec::new("port").short('p').usage("Port").value_type(FlagType::Int))
                .build(),
        )
        .subcommand(CommandBuilder::new("status").short("Show status").build())
        .subcommand(
            CommandBuilder::new("get")
                .short("Get things")
                .arg_completion(|ctx: &Context, prefix: &str| {
                    let mut r = CompletionResult::new().add(format!("thing-{prefix}"));
                    if let Some(o) = ctx.flag("output") {
                        r = r.add(format!("as-{o}"));
                    }
                    Ok(r)
                })
                .build(),
        )
        .build()
}

fn request(cmd: &Command, words: &[&str]) -> Result<Vec<String>, Error> {
    let mut args = vec!["__complete".to_string()];
    args.extend(words.iter().map(|w| w.to_string()));
    cmd.handle_completion_request(&args, None, false)
}

#[test]
fn a_request_must_start_with_the_marker() {
    let cmd = app();
    match cmd.handle_completion_request(&["serve".to_string()], None, false) {
        Err(Error::Completion(m)) => assert_eq!(m, "Invalid completion request"),
        _ => panic!("expected a completion error"),
    }
    assert!(matches!(
        cmd.handle_completion_request(&[], None, false),
        Err(Error::Completion(_))
    ));
}

#[test]
fn root_completion_lists_commands_and_aliases_sorted() {
    let cmd = app();
    let all = request(&cmd, &[]).ok().unwrap();
    assert_eq!(all, vec!["get", "s", "serve", "server", "status"]);
    let s = request(&cmd, &["s"]).ok().unwrap();
    assert_eq!(s, vec!["s", "serve", "server", "status"]);
}

#[test]
fn zsh_suggestions_carry_descriptions_and_alias_notes() {
    let cmd = app();
    let lines = cmd.get_completion_suggestions("ser", None, Some("zsh"), false);
    assert_eq!(
        lines,
        vec!["serve:serve     - Start the server", "server:server    - Alias for serve"]
    );
}

#[test]
fn long_flags_are_completed_with_their_usage() {
    let cmd = app();
    let lines = request(&cmd, &["--o"]).ok().unwrap();
    assert_eq!(lines, vec!["--output"]);
    let zsh = cmd
        .handle_completion_request(
            &["__complete".to_string(), "serve".to_string(), "--".to_string()],
            Some("zsh"),
            false,
        )
        .ok().unwrap();
    assert!(zsh.iter().any(|l| l.starts_with("--port:--port") && l.ends_with("- Port")));
    assert!(zsh
        .iter()
        .any(|l| l.starts_with("--verbose:--verbose") && l.ends_with("- Verbose output")));
}

#[test]
fn short_flags_are_not_completed() {
    let cmd = app();
    assert!(request(&cmd, &["-v"]).ok().unwrap().is_empty());
}

#[test]
fn flag_values_come_from_the_flag_source() {
    let cmd = app();
    assert_eq!(request(&cmd, &["--output", "j"]).ok().unwrap(), vec!["json"]);
    assert_eq!(request(&cmd, &["--output", ""]).ok().unwrap(), vec!["json", "yaml", "table"]);
}

#[test]
fn arguments_see_flags_given_before_them() {
    let cmd = app();
    // Values from a completion source keep the source's order.
    let lines = request(&cmd, &["--output", "yaml", "get", "x"]).ok().unwrap();
    assert_eq!(lines, vec!["thing-x", "as-yaml"]);
    let lines = request(&cmd, &["get", "x"]).ok().unwrap();
    assert_eq!(lines, vec!["thing-x"]);
}

#[test]
fn completion_source_errors_are_passed_on() {
    let cmd = CommandBuilder::new("e")
        .flag(FlagSpec::new("kind"))
        .flag_completion("kind", |_ctx: &Context, _p: &str| Err(Error::Completion("boom".to_string())))
        .build();
    match request(&cmd, &["--kind", ""]) {
        Err(Error::Completion(m)) => assert_eq!(m, "boom"),
        _ => panic!("expected the source's error"),
    }
}

#[test]
fn get_completions_for_unknown_flag_or_missing_source_is_empty() {
    let cmd = app();
    let ctx = Context::new(vec![]);
    assert!(cmd.get_completions(&ctx, "", Some("nope")).ok().unwrap().values.is_empty());
    let status = cmd.find_subcommand("status").unwrap();
    assert!(status.get_completions(&ctx, "", None).ok().unwrap().values.is_empty());
}

#[test]
fn find_subcommand_mut_changes_the_tree() {
    let mut cmd = app();
    cmd.find_subcommand_mut("s")
        .unwrap()
        .add_command(CommandBuilder::new("fast").build());
    let serve = cmd.find_subcommand("serve").unwrap();
    assert!(serve.find_subcommand("fast").is_some());
    assert!(cmd.find_subcommand_mut("missing").is_none());
}

#[test]
fn unknown_commands_are_reported() {
    let cmd = app();
    match cmd.execute(vec!["serv".to_string()], false) {
        Err(Error::CommandNotFound { command, suggestions }) => {
            assert_eq!(command, "serv");
            assert!(suggestions.is_empty());
        }
        _ => panic!("expected an unknown command"),
    }
}

#[test]
fn scripts_name_the_program_and_its_variable() {
    let cmd = Command::new("myapp");
    let bash = cmd.generate_completion(Shell::Bash);
    assert!(bash.starts_with("# Bash completion for myapp\n_myapp_complete() {\n"));
    assert!(bash.contains("MYAPP_COMPLETE=bash"));
    assert!(bash.ends_with("complete -F _myapp_complete myapp\n"));

    let zsh = cmd.generate_completion(Shell::Zsh);
    assert!(zsh.starts_with("#compdef -P myapp\n# Zsh completion for myapp\n"));
    assert!(zsh.contains("MYAPP_COMPLETE=zsh"));

    let fish = cmd.generate_completion(Shell::Fish);
    assert!(fish.contains("MYAPP_COMPLETE=fish"));
    assert!(fish.contains("complete -c myapp"));
}

#[test]
fn script_variable_uses_unicode_upper_case() {
    let cmd = Command::new("straße-ctl");
    let bash = cmd.generate_completion(Shell::Bash);
    assert!(bash.contains("STRASSE-CTL_COMPLETE=bash"));
}
