use flag_rs::error::Error;
use flag_rs::validator::ArgValidator;

#[test]
fn test_exact_args() {
    let validator = ArgValidator::ExactArgs(2);
    assert!(validator
        .validate(&["arg1".to_string(), "arg2".to_string()])
        .is_ok());
    assert!(validator.validate(&["arg1".to_string()]).is_err());
    assert!(validator
        .validate(&["arg1".to_string(), "arg2".to_string(), "arg3".to_string()])
        .is_err());
}

#[test]
fn test_minimum_args() {
    let validator = ArgValidator::MinimumArgs(2);
    assert!(validator
        .validate(&["arg1".to_string(), "arg2".to_string()])
        .is_ok());
    assert!(validator
        .validate(&["arg1".to_string(), "arg2".to_string(), "arg3".to_string()])
        .is_ok());
    assert!(validator.validate(&["arg1".to_string()]).is_err());
    assert!(validator.validate(&[]).is_err());
}

#[test]
fn test_maximum_args() {
    let validator = ArgValidator::MaximumArgs(2);
    assert!(validator.validate(&[]).is_ok());
    assert!(validator.validate(&["arg1".to_string()]).is_ok());
    assert!(validator
        .validate(&["arg1".to_string(), "arg2".to_string()])
        .is_ok());
    assert!(validator
        .validate(&["arg1".to_string(), "arg2".to_string(), "arg3".to_string()])
        .is_err());
}

#[test]
fn test_range_args() {
    let validator = ArgValidator::RangeArgs(1, 3);
    assert!(validator.validate(&["arg1".to_string()]).is_ok());
    assert!(validator
        .validate(&["arg1".to_string(), "arg2".to_string()])
        .is_ok());
    assert!(validator
        .validate(&["arg1".to_string(), "arg2".to_string(), "arg3".to_string()])
        .is_ok());
    assert!(validator.validate(&[]).is_err());
    assert!(validator
        .validate(&[
            "1".to_string(),
            "2".to_string(),
            "3".to_string(),
            "4".to_string()
        ])
        .is_err());
}

#[test]
fn test_only_valid_args() {
    let validator = ArgValidator::OnlyValidArgs(vec![
        "start".to_string(),
        "stop".to_string(),
        "restart".to_string(),
    ]);
    assert!(validator.validate(&["start".to_string()]).is_ok());
    assert!(validator
        .validate(&["stop".to_string(), "restart".to_string()])
        .is_ok());
    assert!(validator.validate(&["invalid".to_string()]).is_err());
    assert!(validator
        .validate(&["start".to_string(), "invalid".to_string()])
        .is_err());
}

#[test]
fn validator_test_custom_validator() {
    let validator = ArgValidator::custom(|args: &[String]| {
        if args.iter().all(|arg| arg.parse::<i32>().is_ok()) {
            Ok(())
        } else {
            Err(Error::ArgumentValidation {
                message: "all arguments must be integers".to_string(),
                expected: "integers".to_string(),
                received: args.len(),
            })
        }
    });

    assert!(validator
        .validate(&["1".to_string(), "2".to_string(), "3".to_string()])
        .is_ok());
    assert!(validator
        .validate(&["1".to_string(), "abc".to_string()])
        .is_err());
}

#[test]
fn validation_errors_describe_the_breach() {
    match ArgValidator::ExactArgs(2).validate(&["a".to_string()]) {
        Err(Error::ArgumentValidation { message, expected, received }) => {
            assert_eq!(message, "accepts 2 arg(s), received 1");
            assert_eq!(expected, "2");
            assert_eq!(received, 1);
        }
        _ => panic!("expected a validation error"),
    }
    match ArgValidator::OnlyValidArgs(vec!["a".to_string(), "b".to_string()])
        .validate(&["a".to_string(), "c".to_string()])
    {
        Err(Error::ArgumentValidation { message, expected, received }) => {
            assert_eq!(message, "invalid argument \"c\"");
            assert_eq!(expected, "one of: a, b");
            assert_eq!(received, 2);
        }
        _ => panic!("expected a validation error"),
    }
}
