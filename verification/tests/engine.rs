use sdiff::diff::compute_diff;
use sdiff::diff::ArrayDiffStrategy;
use sdiff::diff::ChangeType;
use sdiff::diff::DiffConfig;
use sdiff::diff::PathSeg;
use sdiff::tree::node_is_wf;
use sdiff::tree::Node;

fn num(s: &str) -> Node {
    Node::Number(s.to_string())
}

fn text(s: &str) -> Node {
    Node::Str(s.to_string())
}

fn obj(entries: Vec<(&str, Node)>) -> Node {
    Node::Object(entries.into_iter().map(|(k, v)| (k.to_string(), v)).collect())
}

fn key_of(seg: &PathSeg) -> &str {
    match seg {
        PathSeg::Key(k) => k.as_str(),
        PathSeg::Index(_) => panic!("expected a key segment"),
    }
}

#[test]
fn whole_subtree_added_atomically() {
    let old = obj(vec![]);
    let new = obj(vec![("a", obj(vec![("b", obj(vec![("c", num("1"))]))]))]);
    let d = compute_diff(&old, &new, &DiffConfig::default());
    assert_eq!(d.changes.len(), 1);
    assert_eq!(d.changes[0].change_type, ChangeType::Added);
    assert_eq!(d.changes[0].path.len(), 1);
    assert_eq!(key_of(&d.changes[0].path[0]), "a");
    assert_eq!(d.stats.added, 1);
    assert_eq!(d.stats.removed, 0);
    assert_eq!(d.stats.modified, 0);
    assert_eq!(d.stats.unchanged, 0);
}

#[test]
fn scalar_change_at_root() {
    let d = compute_diff(&num("1"), &num("2"), &DiffConfig::default());
    assert_eq!(d.changes.len(), 1);
    assert_eq!(d.changes[0].change_type, ChangeType::Modified);
    assert!(d.changes[0].path.is_empty());
    assert!(matches!(&d.changes[0].old_value, Some(Node::Number(s)) if s == "1"));
    assert!(matches!(&d.changes[0].new_value, Some(Node::Number(s)) if s == "2"));
}

#[test]
fn whitespace_normalization_toggle() {
    let mut cfg = DiffConfig::default();
    cfg.ignore_whitespace = true;
    let d = compute_diff(&text("a   b"), &text("a b"), &cfg);
    assert_eq!(d.changes[0].change_type, ChangeType::Unchanged);

    let d = compute_diff(&text("a   b"), &text("a b"), &DiffConfig::default());
    assert_eq!(d.changes[0].change_type, ChangeType::Modified);
}

#[test]
fn whitespace_normalization_trims_ends() {
    let mut cfg = DiffConfig::default();
    cfg.ignore_whitespace = true;
    let d = compute_diff(&text("  a\tb \n"), &text("a b"), &cfg);
    assert_eq!(d.changes[0].change_type, ChangeType::Unchanged);
}

#[test]
fn null_as_missing() {
    let mut cfg = DiffConfig::default();
    cfg.treat_null_as_missing = true;
    let old = obj(vec![("a", Node::Null)]);
    let new = obj(vec![]);
    let d = compute_diff(&old, &new, &cfg);
    assert_eq!(d.stats.added, 0);
    assert_eq!(d.stats.removed, 0);
    assert_eq!(d.stats.modified, 0);
    assert_eq!(d.stats.unchanged, 1);

    // Without the toggle the key counts as removed.
    let d = compute_diff(&old, &new, &DiffConfig::default());
    assert_eq!(d.stats.removed, 1);

    // Null against a value stays a modification.
    let old = obj(vec![("a", Node::Null)]);
    let new = obj(vec![("a", num("1"))]);
    let d = compute_diff(&old, &new, &cfg);
    assert_eq!(d.stats.modified, 1);
}

#[test]
fn array_positional() {
    let old = Node::Array(vec![num("1"), num("2"), num("3")]);
    let new = Node::Array(vec![num("1"), num("9"), num("3")]);
    let d = compute_diff(&old, &new, &DiffConfig::default());
    assert_eq!(d.stats.modified, 1);
    assert_eq!(d.stats.unchanged, 2);
    assert_eq!(d.changes[1].change_type, ChangeType::Modified);
    assert!(matches!(d.changes[1].path[0], PathSeg::Index(1)));

    let old = Node::Array(vec![num("1"), num("2")]);
    let new = Node::Array(vec![num("1"), num("2"), num("3")]);
    let d = compute_diff(&old, &new, &DiffConfig::default());
    assert_eq!(d.stats.added, 1);
    assert_eq!(d.changes[2].change_type, ChangeType::Added);
    assert!(matches!(d.changes[2].path[0], PathSeg::Index(2)));
}

#[test]
fn type_mismatch_short_circuits() {
    let old = obj(vec![("a", num("1"))]);
    let new = Node::Array(vec![num("1")]);
    let d = compute_diff(&old, &new, &DiffConfig::default());
    assert_eq!(d.changes.len(), 1);
    assert_eq!(d.changes[0].change_type, ChangeType::Modified);
    assert!(d.changes[0].path.is_empty());
}

#[test]
fn reflexive_diff_counts_leaves() {
    let x = obj(vec![
        ("a", num("1")),
        ("b", Node::Array(vec![num("2"), text("x"), Node::Bool(true)])),
        ("c", obj(vec![("d", Node::Null)])),
        ("e", obj(vec![])),
    ]);
    let d = compute_diff(&x, &x, &DiffConfig::default());
    assert_eq!(d.stats.added, 0);
    assert_eq!(d.stats.removed, 0);
    assert_eq!(d.stats.modified, 0);
    assert_eq!(d.stats.unchanged, 5);
    assert_eq!(d.changes.len(), 5);
}

#[test]
fn swap_exchanges_added_and_removed() {
    let a = obj(vec![("x", num("1")), ("y", obj(vec![("z", num("2"))]))]);
    let b = obj(vec![("y", obj(vec![])), ("w", text("s"))]);
    let cfg = DiffConfig::default();
    let ab = compute_diff(&a, &b, &cfg);
    let ba = compute_diff(&b, &a, &cfg);
    assert_eq!(ab.stats.added, ba.stats.removed);
    assert_eq!(ab.stats.removed, ba.stats.added);
    assert_eq!(ab.stats.modified, ba.stats.modified);
}

#[test]
fn stats_sum_to_change_count() {
    let a = obj(vec![("x", num("1")), ("y", num("2"))]);
    let b = obj(vec![("y", num("3")), ("z", num("4"))]);
    let d = compute_diff(&a, &b, &DiffConfig::default());
    assert_eq!(
        d.stats.added + d.stats.removed + d.stats.modified + d.stats.unchanged,
        d.changes.len()
    );
}

#[test]
fn empty_objects_diff_to_nothing() {
    let d = compute_diff(&obj(vec![]), &obj(vec![]), &DiffConfig::default());
    assert!(d.changes.is_empty());
    assert_eq!(d.stats.added, 0);
    assert_eq!(d.stats.removed, 0);
    assert_eq!(d.stats.modified, 0);
    assert_eq!(d.stats.unchanged, 0);
}

#[test]
fn object_traversal_order_is_old_then_new_keys() {
    let a = obj(vec![("k1", num("1")), ("k2", num("2"))]);
    let b = obj(vec![("k3", num("3")), ("k1", num("1"))]);
    let d = compute_diff(&a, &b, &DiffConfig::default());
    let keys: Vec<&str> = d.changes.iter().map(|c| key_of(&c.path[0])).collect();
    assert_eq!(keys, vec!["k1", "k2", "k3"]);
}

#[test]
fn integers_differ_from_floats() {
    let d = compute_diff(&num("1"), &num("1.0"), &DiffConfig::default());
    assert_eq!(d.stats.modified, 1);
}

#[test]
fn default_config_values() {
    let cfg = DiffConfig::default();
    assert!(!cfg.ignore_whitespace);
    assert!(!cfg.treat_null_as_missing);
    assert_eq!(cfg.array_diff_strategy, ArrayDiffStrategy::Positional);
}

#[test]
fn well_formedness_checks_key_uniqueness() {
    let good = obj(vec![("a", num("1")), ("b", num("2"))]);
    assert!(node_is_wf(&good));
    let bad = obj(vec![("a", num("1")), ("a", num("2"))]);
    assert!(!node_is_wf(&bad));
    let nested_bad = Node::Array(vec![bad]);
    assert!(!node_is_wf(&nested_bad));
}

#[test]
fn whole_subtree_removed_atomically() {
    let old = obj(vec![("a", obj(vec![("b", obj(vec![("c", num("1"))]))]))]);
    let new = obj(vec![]);
    let d = compute_diff(&old, &new, &DiffConfig::default());
    assert_eq!(d.changes.len(), 1);
    assert_eq!(d.changes[0].change_type, ChangeType::Removed);
    assert_eq!(key_of(&d.changes[0].path[0]), "a");
    assert_eq!(d.stats.removed, 1);
}

#[test]
fn nested_modification_keeps_full_path() {
    let old = obj(vec![("a", obj(vec![("b", Node::Array(vec![num("1"), num("2")]))]))]);
    let new = obj(vec![("a", obj(vec![("b", Node::Array(vec![num("1"), num("7")]))]))]);
    let d = compute_diff(&old, &new, &DiffConfig::default());
    assert_eq!(d.stats.modified, 1);
    let m: Vec<_> = d
        .changes
        .iter()
        .filter(|c| c.change_type == ChangeType::Modified)
        .collect();
    assert_eq!(m.len(), 1);
    assert_eq!(m[0].path.len(), 3);
    assert_eq!(key_of(&m[0].path[0]), "a");
    assert_eq!(key_of(&m[0].path[1]), "b");
    assert!(matches!(m[0].path[2], PathSeg::Index(1)));
}
