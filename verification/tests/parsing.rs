use sdiff::error::ParseError;
use sdiff::parser::parse_file;
use sdiff::tree::Node;

#[test]
fn parses_json_by_extension() {
    let n = parse_file("cfg.json", "{\"a\": 1, \"b\": [true, null]}").unwrap();
    match n {
        Node::Object(entries) => {
            assert_eq!(entries.len(), 2);
            assert_eq!(entries[0].0, "a");
            assert!(matches!(&entries[0].1, Node::Number(s) if s == "1"));
            match &entries[1].1 {
                Node::Array(items) => {
                    assert!(matches!(items[0], Node::Bool(true)));
                    assert!(matches!(items[1], Node::Null));
                },
                other => panic!("expected an array, got {:?}", other),
            }
        },
        other => panic!("expected an object, got {:?}", other),
    }
}

#[test]
fn bad_json_reports_json_error() {
    let e = parse_file("cfg.json", "{\"a\": ").unwrap_err();
    match e {
        ParseError::JsonError { path, .. } => assert_eq!(path, "cfg.json"),
        other => panic!("expected a JSON error, got {:?}", other),
    }
}

#[test]
fn parses_yaml_by_extension() {
    let n = parse_file("cfg.yaml", "a: 1\nb: hello\n").unwrap();
    match n {
        Node::Object(entries) => {
            assert_eq!(entries.len(), 2);
            assert!(matches!(&entries[0].1, Node::Number(s) if s == "1"));
            assert!(matches!(&entries[1].1, Node::Str(s) if s == "hello"));
        },
        other => panic!("expected an object, got {:?}", other),
    }
    // The short extension works too.
    assert!(parse_file("cfg.yml", "a: 1\n").is_ok());
}

#[test]
fn bad_yaml_reports_yaml_error() {
    let e = parse_file("cfg.yaml", "a: [1, 2\nb: ]x\n").unwrap_err();
    match e {
        ParseError::YamlError { path, .. } => assert_eq!(path, "cfg.yaml"),
        other => panic!("expected a YAML error, got {:?}", other),
    }
}

#[test]
fn parses_toml_by_extension() {
    let n = parse_file("cfg.toml", "title = \"x\"\n[owner]\nid = 3\n").unwrap();
    match n {
        Node::Object(entries) => {
            assert_eq!(entries[0].0, "title");
            assert!(matches!(&entries[0].1, Node::Str(s) if s == "x"));
        },
        other => panic!("expected an object, got {:?}", other),
    }
}

#[test]
fn bad_toml_reports_toml_error() {
    let e = parse_file("cfg.toml", "= nonsense").unwrap_err();
    match e {
        ParseError::TomlError { path, .. } => assert_eq!(path, "cfg.toml"),
        other => panic!("expected a TOML error, got {:?}", other),
    }
}

#[test]
fn sniffs_json_then_yaml_without_extension() {
    // JSON content wins first.
    let n = parse_file("data", "[1, 2]").unwrap();
    assert!(matches!(n, Node::Array(_)));
    // YAML is the fallback.
    let n = parse_file("data", "a: 1\nb: 2\n").unwrap();
    assert!(matches!(n, Node::Object(_)));
}

#[test]
fn unknown_format_when_nothing_fits() {
    let e = parse_file("data.bin", "\u{0}\u{1}{{{{").unwrap_err();
    match e {
        ParseError::UnknownFormat { path } => assert_eq!(path, "data.bin"),
        other => panic!("expected an unknown-format error, got {:?}", other),
    }
}

#[test]
fn numbers_keep_canonical_text() {
    let n = parse_file("x.json", "{\"i\": 3, \"f\": 1.50, \"e\": 1e2}").unwrap();
    match n {
        Node::Object(entries) => {
            assert!(matches!(&entries[0].1, Node::Number(s) if s == "3"));
            assert!(matches!(&entries[1].1, Node::Number(s) if s == "1.5"));
            assert!(matches!(&entries[2].1, Node::Number(s) if s == "100.0"));
        },
        other => panic!("expected an object, got {:?}", other),
    }
}
