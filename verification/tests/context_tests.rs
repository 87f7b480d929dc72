use flag_rs::context::Context;

#[test]
fn test_context_args() {
    let args = vec!["arg1".to_string(), "arg2".to_string()];
    let mut ctx = Context::new(args.clone());
    assert_eq!(ctx.args(), &args);

    ctx.args_mut().push("arg3".to_string());
    assert_eq!(ctx.args().len(), 3);
}

#[test]
fn test_context_flags() {
    let mut ctx = Context::new(vec![]);

    ctx.set_flag("verbose".to_string(), "true".to_string());
    ctx.set_flag("output".to_string(), "json".to_string());

    assert_eq!(ctx.flag("verbose"), Some(&"true".to_string()));
    assert_eq!(ctx.flag("output"), Some(&"json".to_string()));
    assert_eq!(ctx.flag("nonexistent"), None);
}

#[test]
fn test_context_values() {
    #[derive(Debug, PartialEq)]
    struct Config {
        timeout: u32,
    }

    let mut ctx = Context::new(vec![]);
    let config = Config { timeout: 30 };

    ctx.set(config);

    assert_eq!(ctx.get::<Config>(), Some(&Config { timeout: 30 }));
    assert_eq!(ctx.get::<String>(), None);

    if let Some(cfg) = ctx.get_mut::<Config>() {
        cfg.timeout = 60;
    }

    assert_eq!(ctx.get::<Config>(), Some(&Config { timeout: 60 }));
}

#[test]
fn typed_flag_readers() {
    let mut ctx = Context::new(vec![]);
    ctx.set_flag("v".to_string(), "Yes".to_string());
    ctx.set_flag("n".to_string(), "-42".to_string());
    ctx.set_flag("bad".to_string(), "maybe".to_string());
    assert_eq!(ctx.flag_bool("v"), Some(true));
    assert_eq!(ctx.flag_bool("bad"), None);
    assert_eq!(ctx.flag_bool("missing"), None);
    assert_eq!(ctx.flag_int("n"), Some(-42));
    assert_eq!(ctx.flag_int("bad"), None);
    assert_eq!(ctx.flag_str_or("bad", "x"), "maybe");
    assert_eq!(ctx.flag_str_or("missing", "x"), "x");
    assert!(ctx.flag_bool_or("missing", true));
    assert!(!ctx.flag_bool_or("bad", false));
    assert_eq!(ctx.flag_int_or("n", 7), -42);
    assert_eq!(ctx.flag_int_or("bad", 7), 7);
}

#[test]
fn setting_a_flag_twice_keeps_the_last_value() {
    let mut ctx = Context::new(vec![]);
    ctx.set_flag("out".to_string(), "a".to_string());
    ctx.set_flag("out".to_string(), "b".to_string());
    assert_eq!(ctx.flag("out"), Some(&"b".to_string()));
    assert_eq!(ctx.flags().len(), 1);
}
