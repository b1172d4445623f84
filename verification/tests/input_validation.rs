use passman::error::AppError;
use passman::validation::{validate_arg, validate_password, validate_password_strength};

#[test]
fn validate_arguments() {
    // valid arguments
    assert!(validate_arg("test", "").is_ok());
    assert!(validate_arg("123", "").is_ok());
    assert!(validate_arg("test-123@email.com", "").is_ok());

    // invalid arguments
    assert!(validate_arg(&"A".repeat(100), "").is_err());
    assert!(validate_arg("", "").is_err());
    assert!(validate_arg("../../etc/passwd", "").is_err());
    assert!(validate_arg(";abc", "").is_err());
}

#[test]
fn validate_passwords() {
    // valid passwords
    assert!(validate_password("t3stP@s$wrd!").is_ok());

    // invalid passwords
    assert!(validate_password("abcdef").is_err());
    assert!(validate_password(&"x".repeat(150)).is_err());
    assert!(validate_password("").is_err());
    assert!(validate_password("test\n").is_err());
    assert!(validate_password("test\r").is_err());
    assert!(validate_password("test\t").is_err());
    assert!(validate_password("test\0").is_err());
}

#[test]
fn argument_rejection_names_the_argument() {
    match validate_arg(";abc", "entry") {
        Err(AppError::InvalidArgument(name)) => assert_eq!(name, "entry"),
        other => panic!("unexpected outcome: {:?}", other),
    }
}

#[test]
fn argument_length_boundary() {
    assert!(validate_arg(&"a".repeat(64), "").is_ok());
    assert!(validate_arg(&"a".repeat(65), "").is_err());
}

#[test]
fn password_length_boundaries() {
    assert!(validate_password(&"x".repeat(8)).is_ok());
    assert!(validate_password(&"x".repeat(7)).is_err());
    assert!(validate_password(&"x".repeat(128)).is_ok());
    assert!(validate_password(&"x".repeat(129)).is_err());
    match validate_password(&"x".repeat(129)) {
        Err(AppError::Other(m)) => assert_eq!(m, "Password too long"),
        other => panic!("unexpected outcome: {:?}", other),
    }
    match validate_password("short") {
        Err(AppError::Other(m)) => assert_eq!(m, "Password too short"),
        other => panic!("unexpected outcome: {:?}", other),
    }
}

#[test]
fn password_strength_classes() {
    assert!(validate_password_strength("Correct1!").is_ok());
    // missing a digit
    assert!(validate_password_strength("Correcto!").is_err());
    // missing an upper-case letter
    assert!(validate_password_strength("correct1!").is_err());
    // missing a lower-case letter
    assert!(validate_password_strength("CORRECT1!").is_err());
    // missing a special character
    assert!(validate_password_strength("Correct11").is_err());
    match validate_password_strength("correct1!") {
        Err(AppError::Other(m)) => assert_eq!(m, "Password too weak"),
        other => panic!("unexpected outcome: {:?}", other),
    }
    match validate_password_strength("a1!") {
        Err(AppError::Other(m)) => assert_eq!(m, "Password too short"),
        other => panic!("unexpected outcome: {:?}", other),
    }
}
