use cecho::apply_formatting;
use cecho::parse_args;

#[test]
fn test_parse_args_no_flags() {
    let args = vec!["program".to_string(), "hello world".to_string()];
    let (no_newline, message) = parse_args(&args);
    assert!(!no_newline);
    assert_eq!(message, "hello world");
}

#[test]
fn test_parse_args_with_n_flag() {
    let args = vec![
        "program".to_string(),
        "-n".to_string(),
        "hello world".to_string(),
    ];
    let (no_newline, message) = parse_args(&args);
    assert!(no_newline);
    assert_eq!(message, "hello world");
}

#[test]
fn test_parse_args_message_with_spaces() {
    let args = vec![
        "program".to_string(),
        "-n".to_string(),
        "hello".to_string(),
        "world".to_string(),
    ];
    let (no_newline, message) = parse_args(&args);
    assert!(no_newline);
    assert_eq!(message, "hello world");
}

#[test]
fn test_parse_args_ignores_help_flag() {
    let args = vec![
        "program".to_string(),
        "-h".to_string(),
        "hello".to_string(),
        "world".to_string(),
    ];
    let (no_newline, message) = parse_args(&args);
    assert!(!no_newline);
    assert_eq!(message, "hello world");
}

#[test]
fn test_parse_args_ignores_help_flag_long() {
    let args = vec![
        "program".to_string(),
        "--help".to_string(),
        "hello".to_string(),
        "world".to_string(),
    ];
    let (no_newline, message) = parse_args(&args);
    assert!(!no_newline);
    assert_eq!(message, "hello world");
}

#[test]
fn test_parse_args_mixed_flags_with_help() {
    let args = vec![
        "program".to_string(),
        "-n".to_string(),
        "--help".to_string(),
        "hello".to_string(),
    ];
    let (no_newline, message) = parse_args(&args);
    assert!(no_newline);
    assert_eq!(message, "hello");
}

#[test]
fn test_parse_args_only_program_name() {
    let args = vec!["program".to_string()];
    let (no_newline, message) = parse_args(&args);
    assert!(!no_newline);
    assert_eq!(message, "");
}

#[test]
fn test_parse_args_only_flags() {
    let args = vec!["program".to_string(), "-n".to_string(), "-h".to_string()];
    let (no_newline, message) = parse_args(&args);
    assert!(no_newline);
    assert_eq!(message, "");
}

#[test]
fn test_apply_formatting_known_tokens() {
    assert_eq!(apply_formatting("red", "x"), "\x1b[31mx\x1b[0m");
    assert_eq!(apply_formatting("red underline", "x"), "\x1b[31m\x1b[4mx\x1b[0m");
}

#[test]
fn test_apply_formatting_unknown_tokens() {
    assert_eq!(apply_formatting("glorp", "x"), "x");
    assert_eq!(apply_formatting("", "x"), "x");
    assert_eq!(apply_formatting("   ", "x"), "x");
}

#[test]
fn test_apply_formatting_does_not_trim_body() {
    assert_eq!(apply_formatting("red", " x "), "\x1b[31m x \x1b[0m");
}
