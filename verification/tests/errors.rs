use sdiff::error::OutputError;
use sdiff::error::ParseError;
use sdiff::error::SdiffError;

#[test]
fn test_parse_error_display() {
    let err = ParseError::file_not_found("test.json");
    assert_eq!(err.message(), "File not found: test.json");
}

#[test]
fn test_unknown_format_error() {
    let err = ParseError::unknown_format("/path/to/file.txt");
    assert!(err.message().contains("Could not detect file format"));
    assert!(err.message().contains("/path/to/file.txt"));
}

#[test]
fn test_output_error_display() {
    let err = OutputError::UnknownFormat {
        format: "xml".to_string(),
    };
    assert_eq!(err.message(), "Unknown output format: xml");
}

#[test]
fn test_sdiff_error_from_parse_error() {
    let parse_err = ParseError::file_not_found("test.json");
    let sdiff_err: SdiffError = parse_err.into();
    assert!(matches!(sdiff_err, SdiffError::Parse(_)));
}

#[test]
fn test_config_error() {
    let err = SdiffError::ConfigError {
        message: "Invalid option".to_string(),
    };
    assert!(err.message().contains("Invalid configuration"));
}

#[test]
fn test_read_and_syntax_error_messages() {
    let err = ParseError::read_error("a.json", "permission denied");
    assert_eq!(err.message(), "Failed to read file a.json: permission denied");
    let err = ParseError::json_error("a.json", "expected value");
    assert_eq!(err.message(), "Invalid JSON in a.json: expected value");
    let err = ParseError::yaml_error("a.yaml", "bad indent");
    assert_eq!(err.message(), "Invalid YAML in a.yaml: bad indent");
    let err = ParseError::toml_error("a.toml", "bad table");
    assert_eq!(err.message(), "Invalid TOML in a.toml: bad table");
    let err = OutputError::JsonSerializationError {
        message: "oops".to_string(),
    };
    assert_eq!(err.message(), "Failed to serialize to JSON: oops");
}
