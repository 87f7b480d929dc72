use flag_rs::command::{Command, CommandBuilder};
use flag_rs::completion::CompletionResult;
use flag_rs::context::Context;
use flag_rs::flag::{FlagSpec, FlagType};

fn has_flag(cmd: &Command, name: &str) -> bool {
    cmd.flags().iter().any(|f| f.name == name)
}

fn has_subcommand(cmd: &Command, name: &str) -> bool {
    cmd.subcommands().iter().any(|c| c.name() == name)
}

fn starting_with(items: &[&str], prefix: &str) -> Vec<String> {
    items
        .iter()
        .filter(|p| p.starts_with(prefix))
        .map(|p| p.to_string())
        .collect()
}

/// A CLI with nested commands, aliases and completion sources. (Path flags
/// are plain string flags here: the flag types are string, bool, int, float
/// and string list.)
fn create_test_cli() -> Command {
    CommandBuilder::new("testcli")
        .short("A test CLI for completion testing")
        .flag(
            FlagSpec::new("verbose")
                .short('v')
                .usage("Enable verbose output")
                .value_type(FlagType::Bool),
        )
        .flag(
            FlagSpec::new("config")
                .short('c')
                .usage("Config file path")
                .value_type(FlagType::String),
        )
        .subcommand(
            CommandBuilder::new("server")
                .short("Server management commands")
                .flag(
                    FlagSpec::new("port")
                        .short('p')
                        .usage("Port to listen on")
                        .value_type(FlagType::Int)
                        .default_text("8080"),
                )
                .subcommand(
                    CommandBuilder::new("start")
                        .short("Start the server")
                        .flag(
                            FlagSpec::new("daemon")
                                .short('d')
                                .usage("Run as daemon")
                                .value_type(FlagType::Bool),
                        )
                        .arg_completion(|_ctx: &Context, prefix: &str| {
                            let profiles = ["development", "staging", "production"];
                            Ok(CompletionResult::new().extend(starting_with(&profiles, prefix)))
                        })
                        .build(),
                )
                .subcommand(
                    CommandBuilder::new("stop")
                        .short("Stop the server")
                        .flag(
                            FlagSpec::new("force")
                                .short('f')
                                .usage("Force stop")
                                .value_type(FlagType::Bool),
                        )
                        .build(),
                )
                .build(),
        )
        .subcommand(
            CommandBuilder::new("database")
                .short("Database operations")
                .alias("db")
                .flag(
                    FlagSpec::new("host")
                        .short('h')
                        .usage("Database host")
                        .value_type(FlagType::String)
                        .default_text("\"localhost\""),
                )
                .flag_completion("host", |_ctx: &Context, prefix: &str| {
                    let hosts = ["localhost", "db.example.com", "192.168.1.100"];
                    Ok(CompletionResult::new().extend(starting_with(&hosts, prefix)))
                })
                .subcommand(
                    CommandBuilder::new("migrate")
                        .short("Run database migrations")
                        .arg_completion(|_ctx: &Context, prefix: &str| {
                            let migrations = [
                                "001_initial_schema",
                                "002_add_users_table",
                                "003_add_indexes",
                            ];
                            Ok(CompletionResult::new().extend(starting_with(&migrations, prefix)))
                        })
                        .build(),
                )
                .build(),
        )
        .build()
}

#[test]
fn test_basic_command_structure() {
    let app = create_test_cli();

    assert_eq!(app.name(), "testcli");
    assert_eq!(app.short(), "A test CLI for completion testing");

    assert!(has_flag(&app, "verbose"));
    assert!(has_flag(&app, "config"));

    assert!(has_subcommand(&app, "server"));
    assert!(has_subcommand(&app, "database"));
}

#[test]
fn test_completion_with_aliases() {
    let app = create_test_cli();

    let db_cmd = app.find_subcommand("db");
    assert!(db_cmd.is_some());
    assert_eq!(db_cmd.unwrap().name(), "database");
}

#[test]
fn test_dynamic_arg_completion() {
    let app = create_test_cli();
    let ctx = Context::new(vec![
        "testcli".to_string(),
        "server".to_string(),
        "start".to_string(),
    ]);

    let server_cmd = app.find_subcommand("server").unwrap();
    let start_cmd = server_cmd.find_subcommand("start").unwrap();

    let result = start_cmd.get_completions(&ctx, "dev", None).ok().unwrap();
    assert_eq!(result.values, vec!["development"]);

    let result = start_cmd.get_completions(&ctx, "prod", None).ok().unwrap();
    assert_eq!(result.values, vec!["production"]);

    let result = start_cmd.get_completions(&ctx, "", None).ok().unwrap();
    assert_eq!(result.values.len(), 3);
}

#[test]
fn test_dynamic_flag_completion() {
    let app = create_test_cli();
    let ctx = Context::new(vec!["testcli".to_string(), "database".to_string()]);

    let db_cmd = app.find_subcommand("database").unwrap();

    let result = db_cmd.get_completions(&ctx, "local", Some("host")).ok().unwrap();
    assert_eq!(result.values, vec!["localhost"]);

    let result = db_cmd.get_completions(&ctx, "db.", Some("host")).ok().unwrap();
    assert_eq!(result.values, vec!["db.example.com"]);
}

#[test]
fn test_nested_subcommand_structure() {
    let app = create_test_cli();

    let server = app.find_subcommand("server").unwrap();
    assert!(has_subcommand(server, "start"));
    assert!(has_subcommand(server, "stop"));

    let database = app.find_subcommand("database").unwrap();
    assert!(has_subcommand(database, "migrate"));
}

#[test]
fn test_completion_with_global_flags() {
    let app = CommandBuilder::new("globaltest")
        .flag(
            FlagSpec::new("global")
                .usage("A global flag")
                .value_type(FlagType::Bool),
        )
        .subcommand(
            CommandBuilder::new("sub")
                .flag(
                    FlagSpec::new("local")
                        .usage("A local flag")
                        .value_type(FlagType::Bool),
                )
                .build(),
        )
        .build();

    assert!(has_flag(&app, "global"));

    let sub = app.find_subcommand("sub").unwrap();
    assert!(has_flag(sub, "local"));
}

#[test]
fn test_completion_special_characters() {
    let app = CommandBuilder::new("special-test")
        .subcommand(
            CommandBuilder::new("sub-command")
                .flag(
                    FlagSpec::new("with-dash")
                        .usage("Flag with dash")
                        .value_type(FlagType::Bool),
                )
                .build(),
        )
        .build();

    let sub = app.find_subcommand("sub-command");
    assert!(sub.is_some());
    assert!(has_flag(sub.unwrap(), "with-dash"));
}

#[test]
fn test_empty_completion_result() {
    let app = CommandBuilder::new("emptytest")
        .arg_completion(|_ctx: &Context, prefix: &str| {
            if prefix.starts_with('z') {
                Ok(CompletionResult::new())
            } else {
                Ok(CompletionResult::new().add("something"))
            }
        })
        .build();

    let ctx = Context::new(vec!["emptytest".to_string()]);

    let result = app.get_completions(&ctx, "z", None).ok().unwrap();
    assert!(result.values.is_empty());

    let result = app.get_completions(&ctx, "s", None).ok().unwrap();
    assert_eq!(result.values, vec!["something"]);
}

#[test]
fn test_completion_with_descriptions() {
    let app = CommandBuilder::new("desctest")
        .arg_completion(|_ctx: &Context, _prefix: &str| {
            Ok(CompletionResult::new()
                .add_with_description("option1", "First option")
                .add_with_description("option2", "Second option")
                .add("option3"))
        })
        .build();

    let ctx = Context::new(vec!["desctest".to_string()]);
    let result = app.get_completions(&ctx, "", None).ok().unwrap();

    assert_eq!(result.values.len(), 3);
    assert_eq!(result.descriptions[0], "First option");
    assert_eq!(result.descriptions[1], "Second option");
    assert_eq!(result.descriptions[2], "");
}
