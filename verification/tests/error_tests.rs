use f90nmlrs::error::{ErrorContext, ErrorSeverity, F90nmlError};
use std::io;

#[test]
fn test_error_display() {
    let err = F90nmlError::parse_error("Invalid token", 5, 10);
    assert_eq!(err.message(), "Parse error at line 5, column 10: Invalid token");

    let err = F90nmlError::GroupNotFound { group: "missing".to_string() };
    assert_eq!(err.message(), "Group 'missing' not found");

    let err = F90nmlError::FileAlreadyExists("/tmp/test.nml".to_string());
    assert_eq!(err.message(), "File already exists: /tmp/test.nml");
}

#[test]
fn test_error_constructors() {
    let err = F90nmlError::invalid_token("&", vec!["identifier".to_string()], 42);
    match err {
        F90nmlError::InvalidToken { token, expected, position } => {
            assert_eq!(token, "&");
            assert_eq!(expected, vec!["identifier"]);
            assert_eq!(position, 42);
        }
        _ => panic!("Wrong error type"),
    }
}

#[test]
fn test_template_errors() {
    let err = F90nmlError::template_error("Invalid template syntax", Some(100));
    match err {
        F90nmlError::Template { message, template_position } => {
            assert_eq!(message, "Invalid template syntax");
            assert_eq!(template_position, Some(100));
        }
        _ => panic!("Wrong error type"),
    }

    let err = F90nmlError::missing_template_info("patching");
    assert_eq!(
        err.message(),
        "Missing template information required for operation: patching"
    );
}

#[test]
fn test_patch_errors() {
    let err = F90nmlError::patch_error(
        "Value mismatch",
        Some("data_nml".to_string()),
        Some("x".to_string()),
    );
    assert_eq!(
        err.message(),
        "Patch error in group 'data_nml', variable 'x': Value mismatch"
    );

    let err = F90nmlError::incompatible_patch("arr", "integer", "real");
    assert_eq!(
        err.message(),
        "Cannot patch variable 'arr': incompatible types (integer vs real)"
    );
}

#[test]
fn test_dimension_mismatch() {
    let err = F90nmlError::dimension_mismatch("matrix", vec![3, 3], vec![2, 4]);
    assert_eq!(
        err.message(),
        "Dimension mismatch for variable 'matrix': expected [3, 3], got [2, 4]"
    );
}

#[test]
fn test_validation_errors() {
    let err = F90nmlError::validation_error(
        "Array index out of bounds",
        Some("test_nml".to_string()),
        Some("arr".to_string()),
    );
    assert_eq!(
        err.message(),
        "Validation error in group 'test_nml', variable 'arr': Array index out of bounds"
    );
}

#[test]
fn test_circular_reference() {
    let path = vec![
        "type_a".to_string(),
        "type_b".to_string(),
        "type_a".to_string(),
    ];
    let err = F90nmlError::circular_reference(path);
    assert_eq!(
        err.message(),
        "Circular reference detected: type_a -> type_b -> type_a"
    );
}

#[test]
fn test_io_error_conversion() {
    let io_err = io::Error::new(io::ErrorKind::NotFound, "File not found");
    let f90_err = F90nmlError::from(io_err);

    match f90_err {
        F90nmlError::Io(msg) => assert!(msg.contains("File not found")),
        _ => panic!("Wrong error type"),
    }
}

#[test]
fn test_error_categories() {
    assert_eq!(F90nmlError::parse_error("test", 1, 1).category(), "parse");
    assert_eq!(F90nmlError::template_error("test", None).category(), "template");
    assert_eq!(F90nmlError::patch_error("test", None, None).category(), "patch");
    assert_eq!(
        F90nmlError::validation_error("test", None, None).category(),
        "validation"
    );
}

#[test]
fn test_error_recoverability() {
    assert!(!F90nmlError::UnexpectedEof.is_recoverable());
    assert!(!F90nmlError::circular_reference(vec![]).is_recoverable());
    assert!(F90nmlError::invalid_value("x", "abc", "integer").is_recoverable());
    assert!(F90nmlError::FileAlreadyExists(String::new()).is_recoverable());
}

#[test]
fn test_error_severity() {
    assert_eq!(F90nmlError::UnexpectedEof.severity(), ErrorSeverity::Fatal);
    assert_eq!(
        F90nmlError::parse_error("test", 1, 1).severity(),
        ErrorSeverity::Error
    );
    assert_eq!(
        F90nmlError::GroupNotFound { group: "test".to_string() }.severity(),
        ErrorSeverity::Warning
    );
}

#[test]
fn test_error_context() {
    let err = F90nmlError::parse_error("test", 10, 5);
    let context = err.context();
    assert_eq!(context.line, Some(10));
    assert_eq!(context.column, Some(5));
    assert!(context.group.is_none());
    assert!(context.variable.is_none());

    let err = F90nmlError::VariableNotFound {
        variable: "x".to_string(),
        group: "data_nml".to_string(),
    };
    let context = err.context();
    assert_eq!(context.group, Some("data_nml".to_string()));
    assert_eq!(context.variable, Some("x".to_string()));
}

#[test]
fn test_detailed_report() {
    let err = F90nmlError::parse_error("Unexpected token", 5, 10);
    let report = err.detailed_report();

    assert!(report.contains("Error Category: parse"));
    assert!(report.contains("Recoverable: false"));
    assert!(report.contains("Message: Parse error"));
    assert!(report.contains("Line: 5"));
    assert!(report.contains("Column: 10"));
}

#[test]
fn test_error_context_helpers() {
    let context = ErrorContext::with_position(5, 10);
    assert_eq!(context.line, Some(5));
    assert_eq!(context.column, Some(10));
    assert!(!context.is_empty());

    let context =
        ErrorContext::with_location(Some("test_nml".to_string()), Some("var".to_string()));
    assert_eq!(context.group, Some("test_nml".to_string()));
    assert_eq!(context.variable, Some("var".to_string()));

    let empty_context = ErrorContext::empty();
    assert!(empty_context.is_empty());
}

#[test]
fn test_conversion_error_variant() {
    let v = f90nmlrs::FortranValue::Logical(true);
    let err = v.as_integer().unwrap_err();
    match err {
        F90nmlError::TypeConversion { from, to, .. } => {
            assert_eq!(from, "logical");
            assert_eq!(to, "integer");
        }
        _ => panic!("Wrong error type"),
    }
}
