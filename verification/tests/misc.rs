use blender_batch_render_helper::error::RNDRError;
use blender_batch_render_helper::loggers::{log_line, FileLogger, FileLoggerPath};
use blender_batch_render_helper::stacks::{create_complete, rndr_stack_names, settled_status};
use blender_batch_render_helper::text::{
    contains_str, same_text, split_lines, starts_with_str, u32_to_decimal,
};

#[test]
fn error_messages() {
    assert_eq!(RNDRError::AuthError.message(), "[RUST]: Error - An authentication error has occurred");
    assert_eq!(RNDRError::Duplicate.message(), "[RUST]: Error - A duplicate error");
    assert_eq!(RNDRError::MissingParam("m".to_string()).message(), "m");
    assert_eq!(RNDRError::IOError("io".to_string()).message(), "io");
    let e: RNDRError = RNDRError::from("boom".to_string());
    assert!(matches!(e, RNDRError::GenericError(ref m) if m == "boom"));
}

#[test]
fn file_logger_path_and_lines() {
    let mut logger = FileLogger { file_path: String::new() };
    logger.set_log_file_path("/tmp/brh.log");
    assert_eq!(logger.file_path, "/tmp/brh.log");
    assert_eq!(log_line("2024-01-01T00:00:00.000+00:00", "hi"), "2024-01-01T00:00:00.000+00:00 hi");
}

#[test]
fn stack_names_are_filtered() {
    let summaries = vec![
        ("rndr-stack".to_string(), Some("CREATE_COMPLETE".to_string())),
        ("rndr-stack-2".to_string(), Some("CREATE_IN_PROGRESS".to_string())),
        ("other".to_string(), Some("UPDATE_COMPLETE".to_string())),
        ("rndr-stack-3".to_string(), None),
        ("rndr-stack-4".to_string(), Some("ROLLBACK_COMPLETE".to_string())),
        ("rndr-stack-5".to_string(), Some("UPDATE_COMPLETE".to_string())),
        ("".to_string(), Some("CREATE_COMPLETE".to_string())),
    ];
    assert_eq!(rndr_stack_names(&summaries), vec!["rndr-stack", "rndr-stack-4", "rndr-stack-5"]);
    assert!(settled_status("ROLLBACK_COMPLETE"));
    assert!(!settled_status("DELETE_COMPLETE"));
    assert!(create_complete("CREATE_COMPLETE"));
    assert!(!create_complete("UPDATE_COMPLETE"));
}

#[test]
fn lines_like_str_lines() {
    for text in ["", "a", "a\n", "a\nb", "a\r\nb\r\n", "\n\n", "x\r", "a\r\r\nb", "\r\n"] {
        let expected: Vec<String> = text.lines().map(|l| l.to_string()).collect();
        assert_eq!(split_lines(text), expected, "{:?}", text);
    }
}

#[test]
fn substring_prefix_and_equality() {
    assert!(contains_str("hello world", "o w"));
    assert!(contains_str("abc", ""));
    assert!(!contains_str("ab", "abc"));
    assert!(starts_with_str("rndr-stack-1", "rndr-stack"));
    assert!(!starts_with_str("rnd", "rndr"));
    assert!(same_text("é", "é"));
    assert!(!same_text("a", "ab"));
}

#[test]
fn decimal_numbers() {
    for n in [0u32, 7, 10, 99, 100, 123456, u32::MAX] {
        assert_eq!(u32_to_decimal(n), n.to_string());
    }
}
