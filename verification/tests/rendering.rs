use sdiff::diff::compute_diff;
use sdiff::diff::DiffConfig;
use sdiff::error::OutputError;
use sdiff::output::format_diff;
use sdiff::output::parse_output_format;
use sdiff::output::OutputFormat;
use sdiff::output::OutputOptions;
use sdiff::tree::Node;

fn num(s: &str) -> Node {
    Node::Number(s.to_string())
}

fn obj(entries: Vec<(&str, Node)>) -> Node {
    Node::Object(entries.into_iter().map(|(k, v)| (k.to_string(), v)).collect())
}

#[test]
fn plain_rendering_of_a_scalar_change() {
    let d = compute_diff(&num("1"), &num("2"), &DiffConfig::default());
    let s = format_diff(&d, &OutputFormat::Plain, &OutputOptions::default()).unwrap();
    assert_eq!(s, "~ $: 1 -> 2\n");
}

#[test]
fn terminal_rendering_is_colored() {
    let d = compute_diff(&num("1"), &num("2"), &DiffConfig::default());
    let s = format_diff(&d, &OutputFormat::Terminal, &OutputOptions::default()).unwrap();
    assert_eq!(s, "\u{1b}[33m~ $: 1 -> 2\u{1b}[0m\n");
}

#[test]
fn compact_hides_unchanged_lines() {
    let a = obj(vec![("x", num("1")), ("y", num("2"))]);
    let b = obj(vec![("x", num("1")), ("y", num("3"))]);
    let d = compute_diff(&a, &b, &DiffConfig::default());
    let s = format_diff(&d, &OutputFormat::Plain, &OutputOptions::default()).unwrap();
    assert_eq!(s, "~ $.y: 2 -> 3\n");

    let mut opts = OutputOptions::default();
    opts.compact = false;
    let s = format_diff(&d, &OutputFormat::Plain, &opts).unwrap();
    assert_eq!(s, "  $.x: 1\n~ $.y: 2 -> 3\n");
}

#[test]
fn context_lines_pull_in_neighbours() {
    let a = obj(vec![("a", num("1")), ("b", num("2")), ("c", num("3")), ("d", num("4"))]);
    let b = obj(vec![("a", num("1")), ("b", num("9")), ("c", num("3")), ("d", num("4"))]);
    let d = compute_diff(&a, &b, &DiffConfig::default());
    let mut opts = OutputOptions::default();
    opts.context_lines = 1;
    let s = format_diff(&d, &OutputFormat::Plain, &opts).unwrap();
    assert_eq!(s, "  $.a: 1\n~ $.b: 2 -> 9\n  $.c: 3\n");
}

#[test]
fn added_and_removed_lines() {
    let a = obj(vec![("x", num("1"))]);
    let b = obj(vec![("y", num("2"))]);
    let d = compute_diff(&a, &b, &DiffConfig::default());
    let s = format_diff(&d, &OutputFormat::Plain, &OutputOptions::default()).unwrap();
    assert_eq!(s, "- $.x: 1\n+ $.y: 2\n");
}

#[test]
fn array_paths_show_indices() {
    let a = Node::Array(vec![num("1"), num("2")]);
    let b = Node::Array(vec![num("1"), num("5")]);
    let d = compute_diff(&a, &b, &DiffConfig::default());
    let s = format_diff(&d, &OutputFormat::Plain, &OutputOptions::default()).unwrap();
    assert_eq!(s, "~ $[1]: 2 -> 5\n");
}

#[test]
fn previews_are_truncated() {
    let a = Node::Str("aaaaaaaaaa".to_string());
    let b = Node::Str("bbbbbbbbbb".to_string());
    let d = compute_diff(&a, &b, &DiffConfig::default());
    let mut opts = OutputOptions::default();
    opts.max_value_length = 5;
    let s = format_diff(&d, &OutputFormat::Plain, &opts).unwrap();
    assert_eq!(s, "~ $: \"aaaa... -> \"bbbb...\n");

    opts.show_values = true;
    let s = format_diff(&d, &OutputFormat::Plain, &opts).unwrap();
    assert_eq!(s, "~ $: \"aaaaaaaaaa\" -> \"bbbbbbbbbb\"\n");
}

#[test]
fn json_rendering_of_a_scalar_change() {
    let d = compute_diff(&num("1"), &num("2"), &DiffConfig::default());
    let s = format_diff(&d, &OutputFormat::Json, &OutputOptions::default()).unwrap();
    assert_eq!(
        s,
        "{\"changes\":[{\"path\":\"$\",\"type\":\"modified\",\"old\":1,\"new\":2}],\
         \"stats\":{\"added\":0,\"removed\":0,\"modified\":1,\"unchanged\":0}}"
    );
}

#[test]
fn json_rendering_escapes_strings() {
    let a = obj(vec![("k", Node::Str("a\"b\\c".to_string()))]);
    let b = obj(vec![("k", Node::Str("a\nb".to_string()))]);
    let d = compute_diff(&a, &b, &DiffConfig::default());
    let mut opts = OutputOptions::default();
    opts.show_values = true;
    let s = format_diff(&d, &OutputFormat::Json, &opts).unwrap();
    assert_eq!(
        s,
        "{\"changes\":[{\"path\":\"$.k\",\"type\":\"modified\",\
         \"old\":\"a\\\"b\\\\c\",\"new\":\"a\\nb\"}],\
         \"stats\":{\"added\":0,\"removed\":0,\"modified\":1,\"unchanged\":0}}"
    );
}

#[test]
fn nested_values_render_as_json_text() {
    let a = obj(vec![]);
    let b = obj(vec![("a", obj(vec![("b", Node::Array(vec![num("1"), Node::Bool(false)]))]))]);
    let d = compute_diff(&a, &b, &DiffConfig::default());
    let mut opts = OutputOptions::default();
    opts.show_values = true;
    let s = format_diff(&d, &OutputFormat::Plain, &opts).unwrap();
    assert_eq!(s, "+ $.a: {\"b\":[1,false]}\n");
}

#[test]
fn output_format_names() {
    assert_eq!(parse_output_format("terminal").unwrap(), OutputFormat::Terminal);
    assert_eq!(parse_output_format("json").unwrap(), OutputFormat::Json);
    assert_eq!(parse_output_format("plain").unwrap(), OutputFormat::Plain);
    match parse_output_format("xml").unwrap_err() {
        OutputError::UnknownFormat { format } => assert_eq!(format, "xml"),
        other => panic!("expected an unknown-format error, got {:?}", other),
    }
}

#[test]
fn default_output_options() {
    let o = OutputOptions::default();
    assert!(o.compact);
    assert!(!o.show_values);
    assert_eq!(o.max_value_length, 80);
    assert_eq!(o.context_lines, 0);
}
