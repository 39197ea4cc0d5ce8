//! Building a value tree from document text.
//!
//! The format is chosen by the path's extension; without a recognised
//! extension the text is tried as JSON, then as YAML.  The parsers of
//! the three formats are outside code: their results are named by
//! uninterpreted functions, and everything around them is verified.

use crate::error::ParseError;
use crate::git::str_eq;
use crate::tree::Node;
use crate::tree::NodeV;
use vstd::prelude::*;

verus! {

/// The tree that JSON text parses to, if any.
pub uninterp spec fn json_tree_of(s: Seq<char>) -> Option<NodeV>;

/// The tree that YAML text parses to, if any.
pub uninterp spec fn yaml_tree_of(s: Seq<char>) -> Option<NodeV>;

/// The tree that TOML text parses to, if any.
pub uninterp spec fn toml_tree_of(s: Seq<char>) -> Option<NodeV>;

#[verifier::external_type_specification]
#[verifier::external_body]
pub struct ExJsonValue(serde_json::Value);

/// Relies on the serde_json value model: each variant is converted
/// one for one; a number keeps serde_json's canonical rendering, so
/// equal values render equally and integers stay apart from floats;
/// the parsed map's keys are unique, which makes the tree well-formed.
#[verifier::external_body]
fn node_of_json(v: &serde_json::Value) -> (r: Node)
    ensures
        r@.wf(),
{
    match v {
        serde_json::Value::Null => Node::Null,
        serde_json::Value::Bool(b) => Node::Bool(*b),
        serde_json::Value::Number(n) => Node::Number(n.to_string()),
        serde_json::Value::String(s) => Node::Str(s.clone()),
        serde_json::Value::Array(a) => Node::Array(a.iter().map(node_of_json).collect()),
        serde_json::Value::Object(m) => Node::Object(
            m.iter().map(|p| (p.0.clone(), node_of_json(p.1))).collect(),
        ),
    }
}

/// Relies on serde_json::from_str: whether text parses, and to what
/// value, is a function of the text alone.
#[verifier::external_body]
fn parse_json_text(s: &str) -> (r: Result<Node, String>)
    ensures
        r is Ok <==> json_tree_of(s@) is Some,
        r matches Ok(n) ==> json_tree_of(s@) == Some(n@) && n@.wf(),
{
    match serde_json::from_str::<serde_json::Value>(s) {
        Ok(v) => Ok(node_of_json(&v)),
        Err(e) => Err(e.to_string()),
    }
}

/// Relies on serde_yaml::from_str deserializing into the JSON value
/// model: whether text parses, and to what value, is a function of
/// the text alone.  YAML documents that do not fit that model (such
/// as mappings with non-string keys) are parse failures here.
#[verifier::external_body]
fn parse_yaml_text(s: &str) -> (r: Result<Node, String>)
    ensures
        r is Ok <==> yaml_tree_of(s@) is Some,
        r matches Ok(n) ==> yaml_tree_of(s@) == Some(n@) && n@.wf(),
{
    match serde_yaml::from_str::<serde_json::Value>(s) {
        Ok(v) => Ok(node_of_json(&v)),
        Err(e) => Err(e.to_string()),
    }
}

/// Relies on toml::from_str deserializing into the JSON value model:
/// whether text parses, and to what value, is a function of the text
/// alone.
#[verifier::external_body]
fn parse_toml_text(s: &str) -> (r: Result<Node, String>)
    ensures
        r is Ok <==> toml_tree_of(s@) is Some,
        r matches Ok(n) ==> toml_tree_of(s@) == Some(n@) && n@.wf(),
{
    match toml::from_str::<serde_json::Value>(s) {
        Ok(v) => Ok(node_of_json(&v)),
        Err(e) => Err(e.to_string()),
    }
}

/// Index of the last dot of the path, if any.
pub open spec fn last_dot(s: Seq<char>) -> Option<int>
    decreases s.len(),
{
    if s.len() == 0 {
        None
    } else if s[s.len() - 1] == '.' {
        Some(s.len() - 1)
    } else {
        last_dot(s.drop_last())
    }
}

/// A found dot lies inside the path and is a dot.
proof fn lemma_last_dot_in_range(s: Seq<char>)
    ensures
        last_dot(s) matches Some(i) ==> 0 <= i < s.len() && s[i] == '.',
    decreases s.len(),
{
    if s.len() > 0 && s[s.len() - 1] != '.' {
        lemma_last_dot_in_range(s.drop_last());
    }
}

/// The path's extension: the characters after its last dot.
pub open spec fn ext_spec(s: Seq<char>) -> Option<Seq<char>> {
    match last_dot(s) {
        Some(i) => Some(s.skip(i + 1)),
        None => None,
    }
}

/// Whether the path carries the given extension.
pub open spec fn ext_is(path: Seq<char>, e: Seq<char>) -> bool {
    ext_spec(path) == Some(e)
}

/// Index of the last dot, matching `last_dot`.
#[verifier::loop_isolation(false)]
fn find_last_dot(path: &str) -> (r: Option<usize>)
    ensures
        match r {
            Some(i) => last_dot(path@) == Some(i as int),
            None => last_dot(path@) is None,
        },
{
    let n = path.unicode_len();
    let mut best: Option<usize> = None;
    proof {
        assert(path@.take(0).len() == 0);
    }
    for i in 0..n
        invariant
            match best {
                Some(b) => b < i && last_dot(path@.take(i as int)) == Some(b as int),
                None => last_dot(path@.take(i as int)) is None,
            },
    {
        let c = path.get_char(i);
        proof {
            assert(path@.take(i as int + 1).drop_last() =~= path@.take(i as int));
            assert(path@.take(i as int + 1)[i as int] == path@[i as int]);
        }
        if c == '.' {
            best = Some(i);
        }
    }
    proof {
        assert(path@.take(n as int) =~= path@);
    }
    best
}

/// Whether the format named by the extension is none of the known
/// ones, so that content sniffing decides.
pub open spec fn ext_unknown(path: Seq<char>) -> bool {
    !ext_is(path, "json"@) && !ext_is(path, "yaml"@) && !ext_is(path, "yml"@) && !ext_is(
        path,
        "toml"@,
    )
}

/// Parses document text into a value tree.
///
/// The format is chosen by `path`'s extension; without a recognised
/// extension the text is tried as JSON, then as YAML, and only then
/// rejected as unknown.  A returned tree is always well-formed.  The
/// caller reads the file; this function never touches the file
/// system.
pub fn parse_file(path: &str, content: &str) -> (r: Result<Node, ParseError>)
    ensures
        r matches Ok(n) ==> n@.wf(),
        ext_is(path@, "json"@) ==> match r {
            Ok(n) => json_tree_of(content@) == Some(n@),
            Err(e) => e matches ParseError::JsonError { path: p, .. } && p@ == path@
                && json_tree_of(content@) is None,
        },
        (ext_is(path@, "yaml"@) || ext_is(path@, "yml"@)) ==> match r {
            Ok(n) => yaml_tree_of(content@) == Some(n@),
            Err(e) => e matches ParseError::YamlError { path: p, .. } && p@ == path@
                && yaml_tree_of(content@) is None,
        },
        ext_is(path@, "toml"@) ==> match r {
            Ok(n) => toml_tree_of(content@) == Some(n@),
            Err(e) => e matches ParseError::TomlError { path: p, .. } && p@ == path@
                && toml_tree_of(content@) is None,
        },
        ext_unknown(path@) ==> match r {
            Ok(n) => json_tree_of(content@) == Some(n@) || (json_tree_of(content@) is None
                && yaml_tree_of(content@) == Some(n@)),
            Err(e) => e matches ParseError::UnknownFormat { path: p } && p@ == path@
                && json_tree_of(content@) is None && yaml_tree_of(content@) is None,
        },
{
    let dot = find_last_dot(path);
    if let Some(i) = dot {
        proof {
            lemma_last_dot_in_range(path@);
        }
        let n = path.unicode_len();
        let ext = path.substring_char(i + 1, n);
        proof {
            assert(ext@ =~= path@.skip(i + 1));
            reveal_strlit("json");
            reveal_strlit("yaml");
            reveal_strlit("yml");
            reveal_strlit("toml");
            assert("json"@.len() == 4 && "yaml"@.len() == 4 && "yml"@.len() == 3 && "toml"@.len()
                == 4);
            assert("json"@[0] == 'j' && "yaml"@[0] == 'y' && "toml"@[0] == 't');
        }
        if str_eq(ext, "json") {
            return match parse_json_text(content) {
                Ok(n) => Ok(n),
                Err(m) => Err(ParseError::json_error(path, m.as_str())),
            };
        }
        if str_eq(ext, "yaml") || str_eq(ext, "yml") {
            return match parse_yaml_text(content) {
                Ok(n) => Ok(n),
                Err(m) => Err(ParseError::yaml_error(path, m.as_str())),
            };
        }
        if str_eq(ext, "toml") {
            return match parse_toml_text(content) {
                Ok(n) => Ok(n),
                Err(m) => Err(ParseError::toml_error(path, m.as_str())),
            };
        }
    }
    match parse_json_text(content) {
        Ok(n) => Ok(n),
        Err(_) => match parse_yaml_text(content) {
            Ok(n) => Ok(n),
            Err(_) => Err(ParseError::unknown_format(path)),
        },
    }
}

} // verus!
