use flag_rs::active_help::{ActiveHelp, ActiveHelpConfig};
use flag_rs::completion::CompletionResult;
use flag_rs::context::Context;

#[test]
fn test_active_help_new() {
    let help = ActiveHelp::new("Test message");
    assert_eq!(help.message, "Test message");
    assert!(help.condition.is_none());
}

#[test]
fn test_active_help_with_condition() {
    let help = ActiveHelp::with_condition("Conditional help", |_ctx| true);
    assert_eq!(help.message, "Conditional help");
    assert!(help.condition.is_some());
}

#[test]
fn test_should_display() {
    let ctx = Context::new(vec![]);

    // Help without condition should always display
    let help = ActiveHelp::new("Always shown");
    assert!(help.should_display(&ctx));

    // Help with always-true condition
    let help = ActiveHelp::with_condition("Also shown", |_| true);
    assert!(help.should_display(&ctx));

    // Help with always-false condition
    let help = ActiveHelp::with_condition("Never shown", |_| false);
    assert!(!help.should_display(&ctx));
}

#[test]
fn test_active_help_config_default() {
    let config = ActiveHelpConfig::default();
    assert!(config.show_on_double_tab);
    assert!(config.show_on_no_completions);
    assert!(!config.disabled);
    assert_eq!(
        config.disable_env_var,
        Some("COBRA_ACTIVE_HELP".to_string())
    );
}

#[test]
fn test_active_help_config_is_enabled() {
    // Default config should be enabled
    let config = ActiveHelpConfig::default();
    assert!(config.is_enabled(None));

    // Disabled config
    let config = ActiveHelpConfig {
        disabled: true,
        ..Default::default()
    };
    assert!(!config.is_enabled(None));
}

#[test]
fn active_help_switched_off_by_environment_words() {
    let config = ActiveHelpConfig::default();
    assert!(!config.is_enabled(Some("0")));
    assert!(!config.is_enabled(Some("false")));
    assert!(!config.is_enabled(Some("FaLsE")));
    assert!(config.is_enabled(Some("1")));
    assert!(config.is_enabled(Some("no")));
    let no_var = ActiveHelpConfig {
        disable_env_var: None,
        ..Default::default()
    };
    assert!(no_var.is_enabled(Some("0")));
}

#[test]
fn condition_sees_the_context() {
    let help = ActiveHelp::with_condition("Needs args", |ctx: &Context| !ctx.args().is_empty());
    assert!(!help.should_display(&Context::new(vec![])));
    assert!(help.should_display(&Context::new(vec!["x".to_string()])));
}

#[test]
fn duplicated_help_keeps_message_and_condition() {
    let help = ActiveHelp::with_condition("Hidden", |_| false);
    let copy = help.duplicate();
    assert_eq!(copy.message, "Hidden");
    assert!(!copy.should_display(&Context::new(vec![])));
    let result = CompletionResult::new().add_help(help);
    assert_eq!(result.active_help.len(), 1);
}
