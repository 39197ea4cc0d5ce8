//! The value tree: a typed, recursive representation of a parsed
//! document, independent of the source format.
//!
//! `Node` is the executable tree; `NodeV` is its mathematical model,
//! reached through `@`.  An `Object` keeps its entries in insertion
//! order; well-formedness (`NodeV::wf`) asks that the keys of every
//! object are distinct, which the parser guarantees.

use vstd::prelude::*;

verus! {

/// Mathematical model of a value tree.
pub ghost enum NodeV {
    Null,
    Bool(bool),
    Number(Seq<char>),
    Str(Seq<char>),
    Array(Seq<NodeV>),
    Object(Seq<(Seq<char>, NodeV)>),
}

/// A parsed document value.
///
/// Numbers carry their canonical decimal rendering (as produced by the
/// parser), so that integer and floating values of equal text compare
/// equal and integers stay distinct from floats ("1" versus "1.0").
#[derive(Debug)]
pub enum Node {
    Null,
    Bool(bool),
    Number(String),
    Str(String),
    Array(Vec<Node>),
    Object(Vec<(String, Node)>),
}

/// Model of a sequence of child nodes.
pub open spec fn view_nodes(s: Seq<Node>) -> Seq<NodeV>
    decreases s,
{
    if s.len() == 0 {
        Seq::empty()
    } else {
        view_nodes(s.drop_last()).push(s[s.len() - 1]@)
    }
}

/// Model of a sequence of object entries.
pub open spec fn view_entries(s: Seq<(String, Node)>) -> Seq<(Seq<char>, NodeV)>
    decreases s,
{
    if s.len() == 0 {
        Seq::empty()
    } else {
        view_entries(s.drop_last()).push((s[s.len() - 1].0@, s[s.len() - 1].1@))
    }
}

impl View for Node {
    type V = NodeV;

    open spec fn view(&self) -> NodeV
        decreases self,
    {
        match self {
            Node::Null => NodeV::Null,
            Node::Bool(b) => NodeV::Bool(*b),
            Node::Number(s) => NodeV::Number(s@),
            Node::Str(s) => NodeV::Str(s@),
            Node::Array(items) => NodeV::Array(view_nodes(items@)),
            Node::Object(entries) => NodeV::Object(view_entries(entries@)),
        }
    }
}

pub broadcast proof fn lemma_view_nodes(s: Seq<Node>)
    ensures
        #[trigger] view_nodes(s).len() == s.len(),
        forall|i: int| 0 <= i < s.len() ==> #[trigger] view_nodes(s)[i] == s[i]@,
    decreases s.len(),
{
    if s.len() > 0 {
        lemma_view_nodes(s.drop_last());
        assert(view_nodes(s) == view_nodes(s.drop_last()).push(s[s.len() - 1]@));
        assert forall|i: int| 0 <= i < s.len() implies #[trigger] view_nodes(s)[i] == s[i]@ by {
            if i < s.len() - 1 {
                assert(s.drop_last()[i] == s[i]);
            }
        }
    }
}

pub broadcast proof fn lemma_view_entries(s: Seq<(String, Node)>)
    ensures
        #[trigger] view_entries(s).len() == s.len(),
        forall|i: int| 0 <= i < s.len() ==> #[trigger] view_entries(s)[i] == (s[i].0@, s[i].1@),
    decreases s.len(),
{
    if s.len() > 0 {
        lemma_view_entries(s.drop_last());
        assert(view_entries(s) == view_entries(s.drop_last()).push(
            (s[s.len() - 1].0@, s[s.len() - 1].1@),
        ));
        assert forall|i: int| 0 <= i < s.len() implies #[trigger] view_entries(s)[i] == (
            s[i].0@,
            s[i].1@,
        ) by {
            if i < s.len() - 1 {
                assert(s.drop_last()[i] == s[i]);
            }
        }
    }
}

/// The keys of a sequence of object entries, in entry order.
pub open spec fn entry_keys(s: Seq<(Seq<char>, NodeV)>) -> Seq<Seq<char>> {
    s.map_values(|e: (Seq<char>, NodeV)| e.0)
}

/// No key occurs twice.
pub open spec fn distinct_seq(keys: Seq<Seq<char>>) -> bool {
    forall|i: int, j: int| 0 <= i < j < keys.len() ==> keys[i] != keys[j]
}

/// Every node of a sequence is well-formed.
pub open spec fn wf_nodes(s: Seq<NodeV>) -> bool
    decreases s,
{
    if s.len() == 0 {
        true
    } else {
        wf_nodes(s.drop_last()) && s[s.len() - 1].wf()
    }
}

/// Every value of an entry sequence is well-formed.
pub open spec fn wf_entries(s: Seq<(Seq<char>, NodeV)>) -> bool
    decreases s,
{
    if s.len() == 0 {
        true
    } else {
        wf_entries(s.drop_last()) && s[s.len() - 1].1.wf()
    }
}

/// First entry with the given key, if any.
pub open spec fn lookup(s: Seq<(Seq<char>, NodeV)>, k: Seq<char>) -> Option<NodeV>
    decreases s,
{
    if s.len() == 0 {
        None
    } else if s[0].0 == k {
        Some(s[0].1)
    } else {
        lookup(s.drop_first(), k)
    }
}

impl NodeV {
    /// Well-formedness: object keys are distinct, recursively.
    pub open spec fn wf(self) -> bool
        decreases self,
    {
        match self {
            NodeV::Array(items) => wf_nodes(items),
            NodeV::Object(entries) => distinct_seq(entry_keys(entries)) && wf_entries(entries),
            _ => true,
        }
    }

    /// Structural height, used as a termination measure.
    pub open spec fn height(self) -> nat
        decreases self,
    {
        match self {
            NodeV::Array(items) => 1 + heights_of(items),
            NodeV::Object(entries) => 1 + heights_of_entries(entries),
            _ => 1,
        }
    }
}

/// Largest height among a sequence of nodes.
pub open spec fn heights_of(s: Seq<NodeV>) -> nat
    decreases s,
{
    if s.len() == 0 {
        0
    } else {
        let h = s[s.len() - 1].height();
        let r = heights_of(s.drop_last());
        if h > r {
            h
        } else {
            r
        }
    }
}

/// Largest height among the values of an entry sequence.
pub open spec fn heights_of_entries(s: Seq<(Seq<char>, NodeV)>) -> nat
    decreases s,
{
    if s.len() == 0 {
        0
    } else {
        let h = s[s.len() - 1].1.height();
        let r = heights_of_entries(s.drop_last());
        if h > r {
            h
        } else {
            r
        }
    }
}

pub proof fn lemma_wf_nodes_index(s: Seq<NodeV>, i: int)
    requires
        wf_nodes(s),
        0 <= i < s.len(),
    ensures
        s[i].wf(),
    decreases s.len(),
{
    if i < s.len() - 1 {
        lemma_wf_nodes_index(s.drop_last(), i);
    }
}

pub proof fn lemma_wf_entries_index(s: Seq<(Seq<char>, NodeV)>, i: int)
    requires
        wf_entries(s),
        0 <= i < s.len(),
    ensures
        s[i].1.wf(),
    decreases s.len(),
{
    if i < s.len() - 1 {
        lemma_wf_entries_index(s.drop_last(), i);
    }
}

pub proof fn lemma_heights_of_index(s: Seq<NodeV>, i: int)
    requires
        0 <= i < s.len(),
    ensures
        s[i].height() <= heights_of(s),
    decreases s.len(),
{
    if i < s.len() - 1 {
        lemma_heights_of_index(s.drop_last(), i);
    }
}

pub proof fn lemma_heights_of_entries_index(s: Seq<(Seq<char>, NodeV)>, i: int)
    requires
        0 <= i < s.len(),
    ensures
        s[i].1.height() <= heights_of_entries(s),
    decreases s.len(),
{
    if i < s.len() - 1 {
        lemma_heights_of_entries_index(s.drop_last(), i);
    }
}

pub proof fn lemma_lookup_height(s: Seq<(Seq<char>, NodeV)>, k: Seq<char>)
    ensures
        lookup(s, k) matches Some(v) ==> v.height() <= heights_of_entries(s),
    decreases s.len(),
{
    if s.len() > 0 {
        if s[0].0 == k {
            lemma_heights_of_entries_index(s, 0);
        } else {
            lemma_lookup_height(s.drop_first(), k);
            if lookup(s.drop_first(), k) is Some {
                assert forall|i: int| 0 <= i < s.drop_first().len() implies
                    s.drop_first()[i].1.height() <= heights_of_entries(s) by {
                    assert(s.drop_first()[i] == s[i + 1]);
                    lemma_heights_of_entries_index(s, i + 1);
                }
                lemma_lookup_index(s.drop_first(), k);
            }
        }
    }
}

/// A successful lookup names some entry of the sequence.
pub proof fn lemma_lookup_index(s: Seq<(Seq<char>, NodeV)>, k: Seq<char>)
    ensures
        lookup(s, k) matches Some(v) ==> exists|i: int|
            0 <= i < s.len() && s[i].0 == k && s[i].1 == v,
    decreases s.len(),
{
    if s.len() > 0 && s[0].0 != k {
        lemma_lookup_index(s.drop_first(), k);
        match lookup(s, k) {
            Some(v) => {
                let i = choose|i: int|
                    0 <= i < s.drop_first().len() && s.drop_first()[i].0 == k
                        && s.drop_first()[i].1 == v;
                assert(s[i + 1].0 == k && s[i + 1].1 == v);
            },
            None => {},
        }
    }
}

/// A lookup fails exactly when the key is absent.
pub proof fn lemma_lookup_none(s: Seq<(Seq<char>, NodeV)>, k: Seq<char>)
    ensures
        lookup(s, k) is None <==> !entry_keys(s).contains(k),
    decreases s.len(),
{
    if s.len() > 0 {
        lemma_lookup_none(s.drop_first(), k);
        assert(entry_keys(s.drop_first()) =~= entry_keys(s).drop_first());
        if s[0].0 != k {
            if entry_keys(s).contains(k) {
                let i = choose|i: int| 0 <= i < s.len() && entry_keys(s)[i] == k;
                assert(entry_keys(s).drop_first()[i - 1] == k);
                assert(entry_keys(s.drop_first()).contains(k));
            }
        } else {
            assert(entry_keys(s)[0] == k);
        }
    }
}

/// Under distinct keys, a lookup of an entry's key yields that entry.
pub proof fn lemma_lookup_distinct(s: Seq<(Seq<char>, NodeV)>, i: int)
    requires
        distinct_seq(entry_keys(s)),
        0 <= i < s.len(),
    ensures
        lookup(s, s[i].0) == Some(s[i].1),
    decreases s.len(),
{
    if i > 0 {
        assert(entry_keys(s)[0] != entry_keys(s)[i]);
        assert(entry_keys(s.drop_first()) =~= entry_keys(s).drop_first());
        assert forall|a: int, b: int|
            0 <= a < b < entry_keys(s.drop_first()).len() implies entry_keys(s.drop_first())[a]
            != entry_keys(s.drop_first())[b] by {
            assert(entry_keys(s)[a + 1] != entry_keys(s)[b + 1]);
        }
        lemma_lookup_distinct(s.drop_first(), i - 1);
    }
}

/// A successful lookup in a well-formed entry list yields a well-formed value.
pub proof fn lemma_lookup_wf(s: Seq<(Seq<char>, NodeV)>, k: Seq<char>)
    requires
        wf_entries(s),
    ensures
        lookup(s, k) matches Some(v) ==> v.wf(),
{
    lemma_lookup_index(s, k);
    match lookup(s, k) {
        Some(v) => {
            let i = choose|i: int| 0 <= i < s.len() && s[i].0 == k && s[i].1 == v;
            lemma_wf_entries_index(s, i);
        },
        None => {},
    }
}

impl Clone for Node {
    /// A structural copy: the copy has the same model as the original.
    fn clone(&self) -> (r: Self)
        ensures
            r@ == self@,
        decreases self@.height(),
    {
        match self {
            Node::Null => Node::Null,
            Node::Bool(b) => Node::Bool(*b),
            Node::Number(s) => Node::Number(s.clone()),
            Node::Str(s) => Node::Str(s.clone()),
            Node::Array(items) => {
                let mut out: Vec<Node> = Vec::new();
                let n = items.len();
                proof {
                    lemma_view_nodes(items@);
                }
                for i in 0..n
                    invariant
                        n == items.len(),
                        out.len() == i,
                        forall|j: int| 0 <= j < i ==> #[trigger] out@[j]@ == items@[j]@,
                        view_nodes(items@).len() == items@.len(),
                        forall|j: int| 0 <= j < items@.len() ==> #[trigger] view_nodes(
                            items@,
                        )[j] == items@[j]@,
                        self@ == NodeV::Array(view_nodes(items@)),
                        self@.height() == 1 + heights_of(view_nodes(items@)),
                {
                    proof {
                        lemma_heights_of_index(view_nodes(items@), i as int);
                    }
                    let c = items[i].clone();
                    out.push(c);
                }
                proof {
                    lemma_view_nodes(out@);
                    assert(view_nodes(out@) =~= view_nodes(items@));
                }
                Node::Array(out)
            },
            Node::Object(entries) => {
                let mut out: Vec<(String, Node)> = Vec::new();
                let n = entries.len();
                proof {
                    lemma_view_entries(entries@);
                }
                for i in 0..n
                    invariant
                        n == entries.len(),
                        out.len() == i,
                        forall|j: int| 0 <= j < i ==> (#[trigger] out@[j].0@, out@[j].1@)
                            == (entries@[j].0@, entries@[j].1@),
                        view_entries(entries@).len() == entries@.len(),
                        forall|j: int| 0 <= j < entries@.len() ==> #[trigger] view_entries(
                            entries@,
                        )[j] == (entries@[j].0@, entries@[j].1@),
                        self@ == NodeV::Object(view_entries(entries@)),
                        self@.height() == 1 + heights_of_entries(view_entries(entries@)),
                {
                    proof {
                        lemma_heights_of_entries_index(view_entries(entries@), i as int);
                        assert(view_entries(entries@)[i as int].1 == entries@[i as int].1@);
                    }
                    let k = entries[i].0.clone();
                    let v = entries[i].1.clone();
                    out.push((k, v));
                }
                proof {
                    lemma_view_entries(out@);
                    assert(view_entries(out@) =~= view_entries(entries@));
                }
                Node::Object(out)
            },
        }
    }
}

/// Runtime well-formedness check, matching `NodeV::wf`.
pub fn node_is_wf(n: &Node) -> (r: bool)
    ensures
        r == n@.wf(),
    decreases n@.height(),
{
    match n {
        Node::Null => true,
        Node::Bool(_) => true,
        Node::Number(_) => true,
        Node::Str(_) => true,
        Node::Array(items) => {
            let ghost vs = view_nodes(items@);
            proof {
                lemma_view_nodes(items@);
            }
            let n_items = items.len();
            let mut ok = true;
            for i in 0..n_items
                invariant
                    n_items == items.len(),
                    vs == view_nodes(items@),
                    vs.len() == items@.len(),
                    forall|j: int| 0 <= j < items@.len() ==> #[trigger] vs[j] == items@[j]@,
                    ok == wf_nodes(vs.subrange(0, i as int)),
                    n@ == NodeV::Array(vs),
                    n@.height() == 1 + heights_of(vs),
            {
                proof {
                    lemma_heights_of_index(vs, i as int);
                }
                let w = node_is_wf(&items[i]);
                proof {
                    assert(vs.subrange(0, i + 1).drop_last() =~= vs.subrange(0, i as int));
                    assert(vs.subrange(0, i + 1)[i as int] == vs[i as int]);
                }
                ok = ok && w;
            }
            proof {
                assert(vs.subrange(0, vs.len() as int) =~= vs);
            }
            ok
        },
        Node::Object(entries) => {
            let ghost vs = view_entries(entries@);
            proof {
                lemma_view_entries(entries@);
            }
            let n_entries = entries.len();
            let mut distinct = true;
            for i in 0..n_entries
                invariant
                    n_entries == entries.len(),
                    vs == view_entries(entries@),
                    vs.len() == entries@.len(),
                    forall|j: int| 0 <= j < entries@.len() ==> #[trigger] vs[j]
                        == (entries@[j].0@, entries@[j].1@),
                    distinct == (forall|a: int, b: int|
                        0 <= a < b < vs.len() && a < i ==> entry_keys(vs)[a]
                            != entry_keys(vs)[b]),
            {
                let mut row = true;
                for j in (i + 1)..n_entries
                    invariant
                        n_entries == entries.len(),
                        vs == view_entries(entries@),
                        vs.len() == entries@.len(),
                        i < n_entries,
                        forall|jj: int| 0 <= jj < entries@.len() ==> #[trigger] vs[jj]
                            == (entries@[jj].0@, entries@[jj].1@),
                        row == (forall|b: int| i < b < j ==> entry_keys(vs)[i as int]
                            != entry_keys(vs)[b]),
                {
                    let same = entries[i].0 == entries[j].0;
                    proof {
                        assert(entry_keys(vs)[i as int] == vs[i as int].0);
                        assert(entry_keys(vs)[j as int] == vs[j as int].0);
                    }
                    row = row && !same;
                }
                distinct = distinct && row;
            }
            let mut ok = true;
            for i in 0..n_entries
                invariant
                    n_entries == entries.len(),
                    vs == view_entries(entries@),
                    vs.len() == entries@.len(),
                    forall|j: int| 0 <= j < entries@.len() ==> #[trigger] vs[j]
                        == (entries@[j].0@, entries@[j].1@),
                    ok == wf_entries(vs.subrange(0, i as int)),
                    n@ == NodeV::Object(vs),
                    n@.height() == 1 + heights_of_entries(vs),
            {
                proof {
                    lemma_heights_of_entries_index(vs, i as int);
                }
                let w = node_is_wf(&entries[i].1);
                proof {
                    assert(vs.subrange(0, i + 1).drop_last() =~= vs.subrange(0, i as int));
                    assert(vs.subrange(0, i + 1)[i as int] == vs[i as int]);
                }
                ok = ok && w;
            }
            proof {
                assert(vs.subrange(0, vs.len() as int) =~= vs);
                assert(distinct == distinct_seq(entry_keys(vs)));
            }
            distinct && ok
        },
    }
}

/// First entry of `entries` with key `key`, as `lookup` names it.
pub fn obj_get<'a>(entries: &'a Vec<(String, Node)>, key: &String) -> (r: Option<&'a Node>)
    ensures
        match r {
            Some(v) => lookup(view_entries(entries@), key@) == Some(v@),
            None => lookup(view_entries(entries@), key@) is None,
        },
{
    let ghost vs = view_entries(entries@);
    proof {
        lemma_view_entries(entries@);
    }
    let n_entries = entries.len();
    proof {
        assert(vs.skip(0) =~= vs);
    }
    for i in 0..n_entries
        invariant
            n_entries == entries.len(),
            vs == view_entries(entries@),
            vs.len() == entries@.len(),
            forall|j: int| 0 <= j < entries@.len() ==> #[trigger] vs[j]
                == (entries@[j].0@, entries@[j].1@),
            lookup(vs, key@) == lookup(vs.skip(i as int), key@),
    {
        if entries[i].0 == *key {
            proof {
                assert(vs.skip(i as int)[0] == vs[i as int]);
            }
            return Some(&entries[i].1);
        }
        proof {
            assert(vs.skip(i as int)[0] == vs[i as int]);
            assert(vs.skip(i as int).drop_first() =~= vs.skip(i + 1));
        }
    }
    proof {
        assert(vs.skip(vs.len() as int).len() == 0);
    }
    None
}

/// Whether some entry of `entries` has key `key`.
pub fn obj_contains(entries: &Vec<(String, Node)>, key: &String) -> (r: bool)
    ensures
        r == entry_keys(view_entries(entries@)).contains(key@),
{
    let got = obj_get(entries, key);
    proof {
        lemma_lookup_none(view_entries(entries@), key@);
    }
    got.is_some()
}


} // verus!
