//! The diff engine: compares two value trees under a configuration and
//! produces a path-addressed list of changes with summary statistics.
//!
//! The comparison is specified by `spec_diff` and its helpers; the
//! executable `compute_diff` is proved to return exactly that list,
//! together with a tally of the change kinds.

use crate::tree::NodeV;
use crate::tree::Node;
use crate::tree::entry_keys;
use crate::tree::lemma_heights_of_entries_index;
use crate::tree::lemma_heights_of_index;
use crate::tree::lemma_lookup_height;
use crate::tree::lemma_lookup_distinct;
use crate::tree::lemma_lookup_none;
use crate::tree::lemma_lookup_wf;
use crate::tree::lemma_view_entries;
use crate::tree::lemma_view_nodes;
use crate::tree::lemma_wf_entries_index;
use crate::tree::lemma_wf_nodes_index;
use crate::tree::lookup;
use crate::tree::obj_contains;
use crate::tree::obj_get;
use crate::tree::view_entries;
use crate::tree::view_nodes;
use vstd::prelude::*;

verus! {

/// Model of one path segment: an object key or an array index.
pub ghost enum SegV {
    Key(Seq<char>),
    Index(int),
}

/// One step from a tree's root towards a compared location.
#[derive(Debug)]
pub enum PathSeg {
    /// An object member, by key.
    Key(String),
    /// An array element, by position.
    Index(usize),
}

impl View for PathSeg {
    type V = SegV;

    open spec fn view(&self) -> SegV {
        match self {
            PathSeg::Key(s) => SegV::Key(s@),
            PathSeg::Index(i) => SegV::Index(*i as int),
        }
    }
}

impl Clone for PathSeg {
    /// A copy with the same model.
    fn clone(&self) -> (r: Self)
        ensures
            r@ == self@,
    {
        match self {
            PathSeg::Key(s) => PathSeg::Key(s.clone()),
            PathSeg::Index(i) => PathSeg::Index(*i),
        }
    }
}

/// The kind of change observed at one path.
#[derive(Debug, Clone, Copy, PartialEq, Eq, Structural)]
pub enum ChangeType {
    /// Present in the new tree only.
    Added,
    /// Present in the old tree only.
    Removed,
    /// Present in both trees with different values.
    Modified,
    /// Present in both trees with the same value.
    Unchanged,
}

/// Model of one change record.
pub ghost struct ChangeV {
    pub path: Seq<SegV>,
    pub change_type: ChangeType,
    pub old_value: Option<NodeV>,
    pub new_value: Option<NodeV>,
}

/// Model of an optional node.
pub open spec fn opt_view(o: Option<Node>) -> Option<NodeV> {
    match o {
        Some(n) => Some(n@),
        None => None,
    }
}

/// One change record: the outcome of the comparison at a single path.
#[derive(Debug)]
pub struct Change {
    /// Where in the trees the comparison happened.
    pub path: Vec<PathSeg>,
    /// What was observed there.
    pub change_type: ChangeType,
    /// The old side's value, where one exists.
    pub old_value: Option<Node>,
    /// The new side's value, where one exists.
    pub new_value: Option<Node>,
}

impl View for Change {
    type V = ChangeV;

    open spec fn view(&self) -> ChangeV {
        ChangeV {
            path: self.path@.map_values(|s: PathSeg| s@),
            change_type: self.change_type,
            old_value: opt_view(self.old_value),
            new_value: opt_view(self.new_value),
        }
    }
}

/// Counts of the change kinds in a diff.
#[derive(Debug, Clone, PartialEq, Eq, Structural)]
pub struct DiffStats {
    /// Number of `Added` records.
    pub added: usize,
    /// Number of `Removed` records.
    pub removed: usize,
    /// Number of `Modified` records.
    pub modified: usize,
    /// Number of `Unchanged` records.
    pub unchanged: usize,
}

/// The complete result of comparing two trees.
#[derive(Debug)]
pub struct Diff {
    /// All change records, in traversal order.
    pub changes: Vec<Change>,
    /// Tally of the change kinds over `changes`.
    pub stats: DiffStats,
}

/// How arrays are compared.  The enumeration is open to future
/// strategies; only index-by-index comparison exists today.
#[derive(Debug, Clone, Copy, PartialEq, Eq, Structural)]
pub enum ArrayDiffStrategy {
    /// Compare elements at equal indices.
    Positional,
}

/// Comparison policy for the diff engine.
#[derive(Debug, Clone, Copy, PartialEq, Eq, Structural)]
pub struct DiffConfig {
    /// Collapse and trim whitespace before comparing strings.
    pub ignore_whitespace: bool,
    /// Treat a `Null` member on one side and an absent member on the
    /// other as unchanged.
    pub treat_null_as_missing: bool,
    /// How arrays are compared.
    pub array_diff_strategy: ArrayDiffStrategy,
}

impl DiffConfig {
    /// The default policy: compare exactly, position by position.
    pub open spec fn spec_default() -> DiffConfig {
        DiffConfig {
            ignore_whitespace: false,
            treat_null_as_missing: false,
            array_diff_strategy: ArrayDiffStrategy::Positional,
        }
    }
}

impl Default for DiffConfig {
    fn default() -> (r: Self)
        ensures
            r == DiffConfig::spec_default(),
    {
        DiffConfig {
            ignore_whitespace: false,
            treat_null_as_missing: false,
            array_diff_strategy: ArrayDiffStrategy::Positional,
        }
    }
}

/// Whitespace, for string normalization.
pub open spec fn is_ws(c: char) -> bool {
    c == ' ' || c == '\t' || c == '\n' || c == '\r' || c == '\u{c}'
}

/// Collapses every maximal whitespace run to one space.  `prev_ws`
/// records whether the previous emitted character was a space (or the
/// start of the string), so leading runs vanish entirely.
pub open spec fn collapse_ws(s: Seq<char>, prev_ws: bool) -> Seq<char>
    decreases s.len(),
{
    if s.len() == 0 {
        Seq::empty()
    } else if is_ws(s[0]) {
        if prev_ws {
            collapse_ws(s.drop_first(), true)
        } else {
            seq![' '] + collapse_ws(s.drop_first(), true)
        }
    } else {
        seq![s[0]] + collapse_ws(s.drop_first(), false)
    }
}

/// Whitespace normalization: collapse internal runs to single spaces
/// and trim the ends.
pub open spec fn norm_ws(s: Seq<char>) -> Seq<char> {
    let c = collapse_ws(s, true);
    if c.len() > 0 && c[c.len() - 1] == ' ' {
        c.drop_last()
    } else {
        c
    }
}

/// Equality of two scalar nodes of the same variant, under the
/// configured string normalization.  Nodes of different variants are
/// never equal.
pub open spec fn scalar_eq(a: NodeV, b: NodeV, cfg: DiffConfig) -> bool {
    match (a, b) {
        (NodeV::Null, NodeV::Null) => true,
        (NodeV::Bool(x), NodeV::Bool(y)) => x == y,
        (NodeV::Number(x), NodeV::Number(y)) => x == y,
        (NodeV::Str(x), NodeV::Str(y)) => if cfg.ignore_whitespace {
            norm_ws(x) == norm_ws(y)
        } else {
            x == y
        },
        _ => false,
    }
}

/// Height of an optional node; absence counts as zero.
pub open spec fn opt_height(o: Option<NodeV>) -> nat {
    match o {
        Some(v) => v.height(),
        None => 0,
    }
}

/// The element at an index, where the index is in range.
pub open spec fn opt_get(s: Seq<NodeV>, i: int) -> Option<NodeV> {
    if 0 <= i < s.len() {
        Some(s[i])
    } else {
        None
    }
}

/// The keys of `ks` that are not keys of `present`, in order.
pub open spec fn keys_not_in(ks: Seq<Seq<char>>, present: Seq<Seq<char>>) -> Seq<Seq<char>>
    decreases ks.len(),
{
    if ks.len() == 0 {
        Seq::empty()
    } else if present.contains(ks[0]) {
        keys_not_in(ks.drop_first(), present)
    } else {
        seq![ks[0]] + keys_not_in(ks.drop_first(), present)
    }
}

/// Traversal order over the union of two objects' keys: the old
/// object's keys in their order, then the keys only the new object
/// has, in its order.
pub open spec fn union_keys(
    ae: Seq<(Seq<char>, NodeV)>,
    be: Seq<(Seq<char>, NodeV)>,
) -> Seq<Seq<char>> {
    entry_keys(ae) + keys_not_in(entry_keys(be), entry_keys(ae))
}

/// One change record.
pub open spec fn mk_change(
    path: Seq<SegV>,
    t: ChangeType,
    o: Option<NodeV>,
    n: Option<NodeV>,
) -> ChangeV {
    ChangeV { path, change_type: t, old_value: o, new_value: n }
}

/// The changes for a position where at least one side is present.
///
/// An absent side yields a single atomic `Added` or `Removed` record
/// for the whole present subtree, except that, when the configuration
/// treats null as missing, a `Null` against an absent side is reported
/// as `Unchanged` with the null attached to both sides.
pub open spec fn spec_diff_opt(
    path: Seq<SegV>,
    o: Option<NodeV>,
    n: Option<NodeV>,
    cfg: DiffConfig,
) -> Seq<ChangeV>
    decreases opt_height(o) + opt_height(n), 2int, 0int,
{
    match (o, n) {
        (None, None) => Seq::empty(),
        (None, Some(v)) => if cfg.treat_null_as_missing && v is Null {
            seq![
                mk_change(path, ChangeType::Unchanged, Some(NodeV::Null), Some(NodeV::Null)),
            ]
        } else {
            seq![mk_change(path, ChangeType::Added, None, Some(v))]
        },
        (Some(v), None) => if cfg.treat_null_as_missing && v is Null {
            seq![
                mk_change(path, ChangeType::Unchanged, Some(NodeV::Null), Some(NodeV::Null)),
            ]
        } else {
            seq![mk_change(path, ChangeType::Removed, Some(v), None)]
        },
        (Some(a), Some(b)) => spec_diff_both(path, a, b, cfg),
    }
}

/// The changes for a position present on both sides.
///
/// Matching objects and arrays recurse into their members and emit no
/// record of their own; scalars and mismatched variants emit exactly
/// one record.
pub open spec fn spec_diff_both(
    path: Seq<SegV>,
    a: NodeV,
    b: NodeV,
    cfg: DiffConfig,
) -> Seq<ChangeV>
    decreases a.height() + b.height(), 1int, 0int,
{
    match (a, b) {
        (NodeV::Object(ae), NodeV::Object(be)) => spec_diff_keys(
            path,
            ae,
            be,
            union_keys(ae, be),
            cfg,
        ),
        (NodeV::Array(av), NodeV::Array(bv)) => match cfg.array_diff_strategy {
            ArrayDiffStrategy::Positional => spec_diff_idx(path, av, bv, 0, cfg),
        },
        (NodeV::Null, NodeV::Null) => seq![
            mk_change(path, ChangeType::Unchanged, Some(a), Some(b)),
        ],
        (NodeV::Bool(_), NodeV::Bool(_)) | (NodeV::Number(_), NodeV::Number(_)) | (
            NodeV::Str(_),
            NodeV::Str(_),
        ) => if scalar_eq(a, b, cfg) {
            seq![mk_change(path, ChangeType::Unchanged, Some(a), Some(b))]
        } else {
            seq![mk_change(path, ChangeType::Modified, Some(a), Some(b))]
        },
        _ => seq![mk_change(path, ChangeType::Modified, Some(a), Some(b))],
    }
}

/// The concatenated changes for the keys `u`, compared between the
/// entries `ae` (old) and `be` (new).
pub open spec fn spec_diff_keys(
    path: Seq<SegV>,
    ae: Seq<(Seq<char>, NodeV)>,
    be: Seq<(Seq<char>, NodeV)>,
    u: Seq<Seq<char>>,
    cfg: DiffConfig,
) -> Seq<ChangeV>
    decreases NodeV::Object(ae).height() + NodeV::Object(be).height(), 0int, u.len(),
{
    if u.len() == 0 {
        Seq::empty()
    } else {
        proof {
            lemma_lookup_height(ae, u[0]);
            lemma_lookup_height(be, u[0]);
        }
        spec_diff_opt(path.push(SegV::Key(u[0])), lookup(ae, u[0]), lookup(be, u[0]), cfg)
            + spec_diff_keys(path, ae, be, u.drop_first(), cfg)
    }
}

/// The concatenated changes for the array positions from `i` up to the
/// longer array's length.
pub open spec fn spec_diff_idx(
    path: Seq<SegV>,
    av: Seq<NodeV>,
    bv: Seq<NodeV>,
    i: int,
    cfg: DiffConfig,
) -> Seq<ChangeV>
    decreases NodeV::Array(av).height() + NodeV::Array(bv).height(), 0int, max_len(av, bv) - i,
{
    if i < 0 || i >= max_len(av, bv) {
        Seq::empty()
    } else {
        proof {
            if 0 <= i < av.len() {
                lemma_heights_of_index(av, i);
            }
            if 0 <= i < bv.len() {
                lemma_heights_of_index(bv, i);
            }
        }
        spec_diff_opt(path.push(SegV::Index(i)), opt_get(av, i), opt_get(bv, i), cfg)
            + spec_diff_idx(path, av, bv, i + 1, cfg)
    }
}

/// Length of the longer of two element sequences.
pub open spec fn max_len(av: Seq<NodeV>, bv: Seq<NodeV>) -> int {
    if av.len() >= bv.len() {
        av.len() as int
    } else {
        bv.len() as int
    }
}

/// The full diff of two trees: the comparison starts at the empty path
/// with both roots present.
pub open spec fn spec_diff(a: NodeV, b: NodeV, cfg: DiffConfig) -> Seq<ChangeV> {
    spec_diff_opt(Seq::empty(), Some(a), Some(b), cfg)
}

/// How many records of kind `t` a change list holds.
pub open spec fn count_ct(s: Seq<ChangeV>, t: ChangeType) -> nat
    decreases s.len(),
{
    if s.len() == 0 {
        0
    } else {
        count_ct(s.drop_last(), t) + if s[s.len() - 1].change_type == t {
            1nat
        } else {
            0
        }
    }
}

/// The stats a change list must carry.
pub open spec fn stats_of(s: Seq<ChangeV>) -> DiffStats {
    DiffStats {
        added: count_ct(s, ChangeType::Added) as usize,
        removed: count_ct(s, ChangeType::Removed) as usize,
        modified: count_ct(s, ChangeType::Modified) as usize,
        unchanged: count_ct(s, ChangeType::Unchanged) as usize,
    }
}


/// The model of a sequence of change records.
pub open spec fn changes_view(s: Seq<Change>) -> Seq<ChangeV> {
    s.map_values(|c: Change| c@)
}

/// The model of an executable path.
pub open spec fn path_view(p: Seq<PathSeg>) -> Seq<SegV> {
    p.map_values(|s: PathSeg| s@)
}

/// The model of an optional borrowed node.
pub open spec fn opt_ref_view(o: Option<&Node>) -> Option<NodeV> {
    match o {
        Some(x) => Some(x@),
        None => None,
    }
}

/// Whether a kind occurs at most as often as the list is long.
pub proof fn lemma_count_le_len(s: Seq<ChangeV>, t: ChangeType)
    ensures
        count_ct(s, t) <= s.len(),
    decreases s.len(),
{
    if s.len() > 0 {
        lemma_count_le_len(s.drop_last(), t);
    }
}

/// Every record is counted under exactly one kind.
pub proof fn lemma_count_partition(s: Seq<ChangeV>)
    ensures
        count_ct(s, ChangeType::Added) + count_ct(s, ChangeType::Removed) + count_ct(
            s,
            ChangeType::Modified,
        ) + count_ct(s, ChangeType::Unchanged) == s.len(),
    decreases s.len(),
{
    if s.len() > 0 {
        lemma_count_partition(s.drop_last());
    }
}

/// Whitespace test matching `is_ws`.
fn is_ws_char(c: char) -> (r: bool)
    ensures
        r == is_ws(c),
{
    c == ' ' || c == '\t' || c == '\n' || c == '\r' || c == '\u{c}'
}

/// Whitespace-normalized characters of `s`, matching `norm_ws`.
#[verifier::loop_isolation(false)]
fn normalize_chars(s: &str) -> (v: Vec<char>)
    ensures
        v@ == norm_ws(s@),
{
    let n = s.unicode_len();
    let mut out: Vec<char> = Vec::new();
    let mut prev = true;
    proof {
        assert(s@.skip(0) =~= s@);
        assert(Seq::<char>::empty() + collapse_ws(s@, true) =~= collapse_ws(s@, true));
    }
    for i in 0..n
        invariant
            collapse_ws(s@, true) == out@ + collapse_ws(s@.skip(i as int), prev),
    {
        let c = s.get_char(i);
        proof {
            assert(s@.skip(i as int)[0] == s@[i as int]);
            assert(s@.skip(i as int).drop_first() =~= s@.skip(i as int + 1));
        }
        if is_ws_char(c) {
            if !prev {
                out.push(' ');
                prev = true;
                proof {
                    assert(out@ + collapse_ws(s@.skip(i as int + 1), true) =~= out@.drop_last()
                        + (seq![' '] + collapse_ws(s@.skip(i as int + 1), true)));
                }
            }
        } else {
            out.push(c);
            prev = false;
            proof {
                assert(out@ + collapse_ws(s@.skip(i as int + 1), false) =~= out@.drop_last() + (
                seq![c] + collapse_ws(s@.skip(i as int + 1), false)));
            }
        }
    }
    proof {
        assert(collapse_ws(s@.skip(n as int), prev) =~= Seq::empty());
        assert(out@ + Seq::<char>::empty() =~= out@);
    }
    if out.len() > 0 && out[out.len() - 1] == ' ' {
        out.pop();
    }
    out
}

/// Whether two character vectors hold the same characters.
#[verifier::loop_isolation(false)]
fn chars_eq(a: &Vec<char>, b: &Vec<char>) -> (r: bool)
    ensures
        r == (a@ == b@),
{
    if a.len() != b.len() {
        return false;
    }
    let n = a.len();
    for i in 0..n
        invariant
            forall|j: int| 0 <= j < i ==> a@[j] == b@[j],
    {
        if a[i] != b[i] {
            return false;
        }
    }
    proof {
        assert(a@ =~= b@);
    }
    true
}

/// Whether two strings are equal after whitespace normalization.
fn ws_eq(a: &String, b: &String) -> (r: bool)
    ensures
        r == (norm_ws(a@) == norm_ws(b@)),
{
    let va = normalize_chars(a.as_str());
    let vb = normalize_chars(b.as_str());
    chars_eq(&va, &vb)
}

/// A copy of a path, with the same model.
#[verifier::loop_isolation(false)]
fn clone_path(p: &Vec<PathSeg>) -> (r: Vec<PathSeg>)
    ensures
        path_view(r@) == path_view(p@),
{
    let mut out: Vec<PathSeg> = Vec::new();
    let n = p.len();
    for i in 0..n
        invariant
            out@.len() == i,
            forall|j: int| 0 <= j < i ==> #[trigger] out@[j]@ == p@[j]@,
    {
        let s = p[i].clone();
        out.push(s);
    }
    proof {
        assert(path_view(out@) =~= path_view(p@));
    }
    out
}

/// A copy of an optional node, with the same model.
fn clone_opt(o: Option<&Node>) -> (r: Option<Node>)
    ensures
        opt_view(r) == opt_ref_view(o),
{
    match o {
        Some(x) => Some(x.clone()),
        None => None,
    }
}

/// Appends one change record for the current path.
fn emit(
    out: &mut Vec<Change>,
    path: &Vec<PathSeg>,
    t: ChangeType,
    o: Option<&Node>,
    n: Option<&Node>,
)
    ensures
        changes_view(final(out)@) == changes_view(old(out)@) + seq![
            mk_change(path_view(path@), t, opt_ref_view(o), opt_ref_view(n)),
        ],
{
    let c = Change {
        path: clone_path(path),
        change_type: t,
        old_value: clone_opt(o),
        new_value: clone_opt(n),
    };
    out.push(c);
    proof {
        assert(changes_view(out@) =~= changes_view(old(out)@) + seq![
            mk_change(path_view(path@), t, opt_ref_view(o), opt_ref_view(n)),
        ]);
    }
}


/// Recursive comparison: appends exactly the changes that
/// `spec_diff_opt` names for this path and pair, and leaves the path
/// as it found it.
#[verifier::loop_isolation(false)]
fn diff_rec(
    out: &mut Vec<Change>,
    path: &mut Vec<PathSeg>,
    o: Option<&Node>,
    n: Option<&Node>,
    cfg: &DiffConfig,
)
    requires
        match o {
            Some(x) => x@.wf(),
            None => true,
        },
        match n {
            Some(x) => x@.wf(),
            None => true,
        },
    ensures
        final(path)@ == old(path)@,
        changes_view(final(out)@) == changes_view(old(out)@) + spec_diff_opt(
            path_view(old(path)@),
            opt_ref_view(o),
            opt_ref_view(n),
            *cfg,
        ),
    decreases opt_height(opt_ref_view(o)) + opt_height(opt_ref_view(n)),
{
    match (o, n) {
        (None, None) => {
            proof {
                assert(changes_view(out@) + Seq::<ChangeV>::empty() =~= changes_view(out@));
            }
        },
        (None, Some(v)) => {
            if cfg.treat_null_as_missing && matches!(v, Node::Null) {
                let null_node = Node::Null;
                emit(out, path, ChangeType::Unchanged, Some(&null_node), Some(&null_node));
            } else {
                emit(out, path, ChangeType::Added, None, Some(v));
            }
        },
        (Some(v), None) => {
            if cfg.treat_null_as_missing && matches!(v, Node::Null) {
                let null_node = Node::Null;
                emit(out, path, ChangeType::Unchanged, Some(&null_node), Some(&null_node));
            } else {
                emit(out, path, ChangeType::Removed, Some(v), None);
            }
        },
        (Some(a), Some(b)) => {
            match (a, b) {
                (Node::Object(ae), Node::Object(be)) => {
                    diff_objects(out, path, a, b, ae, be, cfg);
                },
                (Node::Array(av), Node::Array(bv)) => {
                    diff_arrays(out, path, a, b, av, bv, cfg);
                },
                (Node::Null, Node::Null) => {
                    emit(out, path, ChangeType::Unchanged, Some(a), Some(b));
                },
                (Node::Bool(x), Node::Bool(y)) => {
                    if x == y {
                        emit(out, path, ChangeType::Unchanged, Some(a), Some(b));
                    } else {
                        emit(out, path, ChangeType::Modified, Some(a), Some(b));
                    }
                },
                (Node::Number(x), Node::Number(y)) => {
                    if *x == *y {
                        emit(out, path, ChangeType::Unchanged, Some(a), Some(b));
                    } else {
                        emit(out, path, ChangeType::Modified, Some(a), Some(b));
                    }
                },
                (Node::Str(x), Node::Str(y)) => {
                    let eq = if cfg.ignore_whitespace {
                        ws_eq(x, y)
                    } else {
                        *x == *y
                    };
                    if eq {
                        emit(out, path, ChangeType::Unchanged, Some(a), Some(b));
                    } else {
                        emit(out, path, ChangeType::Modified, Some(a), Some(b));
                    }
                },
                _ => {
                    emit(out, path, ChangeType::Modified, Some(a), Some(b));
                },
            }
        },
    }
}

/// The object against object case of `diff_rec`: the old object's
/// keys in order, then the new-only keys in order.
#[verifier::loop_isolation(false)]
fn diff_objects(
    out: &mut Vec<Change>,
    path: &mut Vec<PathSeg>,
    a: &Node,
    b: &Node,
    ae: &Vec<(String, Node)>,
    be: &Vec<(String, Node)>,
    cfg: &DiffConfig,
)
    requires
        a@.wf(),
        b@.wf(),
        *a == Node::Object(*ae),
        *b == Node::Object(*be),
    ensures
        final(path)@ == old(path)@,
        changes_view(final(out)@) == changes_view(old(out)@) + spec_diff_both(
            path_view(old(path)@),
            a@,
            b@,
            *cfg,
        ),
    decreases a@.height() + b@.height(), 0int,
{
    let ghost aev = view_entries(ae@);
    let ghost bev = view_entries(be@);
    let ghost pv = path_view(old(path)@);
    let ghost u = union_keys(aev, bev);
    let ghost ka = entry_keys(aev);
    let ghost kb = entry_keys(bev);
    proof {
        lemma_view_entries(ae@);
        lemma_view_entries(be@);
        assert(a@ == NodeV::Object(aev));
        assert(b@ == NodeV::Object(bev));
        assert(u.skip(0) =~= u);
        assert(changes_view(out@) + Seq::<ChangeV>::empty() =~= changes_view(out@));
    }
    let ghost out0 = out@;
    let na = ae.len();
    for i in 0..na
        invariant
            na == ae.len(),
            path@ == old(path)@,
            changes_view(out@) + spec_diff_keys(pv, aev, bev, u.skip(i as int), *cfg)
                == changes_view(out0) + spec_diff_keys(pv, aev, bev, u, *cfg),
    {
        proof {
            assert(u[i as int] == ka[i as int]);
            assert(ka[i as int] == aev[i as int].0);
            lemma_wf_entries_index(aev, i as int);
            lemma_lookup_wf(bev, aev[i as int].0);
            lemma_heights_of_entries_index(aev, i as int);
            lemma_lookup_height(bev, aev[i as int].0);
            lemma_lookup_distinct(aev, i as int);
            assert(u.skip(i as int)[0] == u[i as int]);
            assert(u.skip(i as int).drop_first() =~= u.skip(i as int + 1));
        }
        let key_clone = ae[i].0.clone();
        let got = obj_get(be, &ae[i].0);
        path.push(PathSeg::Key(key_clone));
        proof {
            assert(path_view(path@) =~= pv.push(SegV::Key(aev[i as int].0)));
        }
        let ghost out_before = out@;
        diff_rec(out, path, Some(&ae[i].1), got, cfg);
        let _ = path.pop();
        proof {
            assert(path@ =~= old(path)@);
            let d = spec_diff_opt(
                pv.push(SegV::Key(u[i as int])),
                lookup(aev, u[i as int]),
                lookup(bev, u[i as int]),
                *cfg,
            );
            assert(opt_ref_view(Some(&ae[i as int].1)) == lookup(aev, u[i as int]));
            assert(opt_ref_view(got) == lookup(bev, u[i as int]));
            assert(changes_view(out@) == changes_view(out_before) + d);
            assert(spec_diff_keys(pv, aev, bev, u.skip(i as int), *cfg) == d + spec_diff_keys(
                pv,
                aev,
                bev,
                u.skip(i as int + 1),
                *cfg,
            ));
            assert(changes_view(out@) + spec_diff_keys(pv, aev, bev, u.skip(i as int + 1), *cfg)
                =~= (changes_view(out_before) + d) + spec_diff_keys(
                pv,
                aev,
                bev,
                u.skip(i as int + 1),
                *cfg,
            ));
            assert((changes_view(out_before) + d) + spec_diff_keys(
                pv,
                aev,
                bev,
                u.skip(i as int + 1),
                *cfg,
            ) =~= changes_view(out_before) + (d + spec_diff_keys(
                pv,
                aev,
                bev,
                u.skip(i as int + 1),
                *cfg,
            )));
        }
    }
    proof {
        assert(u.skip(na as int) =~= keys_not_in(kb, ka));
        assert(kb.skip(0) =~= kb);
    }
    let nb = be.len();
    for j in 0..nb
        invariant
            nb == be.len(),
            path@ == old(path)@,
            changes_view(out@) + spec_diff_keys(
                pv,
                aev,
                bev,
                keys_not_in(kb.skip(j as int), ka),
                *cfg,
            ) == changes_view(out0) + spec_diff_keys(pv, aev, bev, u, *cfg),
    {
        proof {
            assert(kb.skip(j as int)[0] == kb[j as int]);
            assert(kb[j as int] == bev[j as int].0);
            assert(kb.skip(j as int).drop_first() =~= kb.skip(j as int + 1));
        }
        let present = obj_contains(ae, &be[j].0);
        if !present {
            proof {
                lemma_lookup_none(aev, bev[j as int].0);
                lemma_lookup_distinct(bev, j as int);
                lemma_wf_entries_index(bev, j as int);
                lemma_heights_of_entries_index(bev, j as int);
                assert(keys_not_in(kb.skip(j as int), ka) == seq![kb[j as int]] + keys_not_in(
                    kb.skip(j as int + 1),
                    ka,
                ));
                assert((seq![kb[j as int]] + keys_not_in(kb.skip(j as int + 1), ka))[0] == kb[
                    j as int
                ]);
                assert((seq![kb[j as int]] + keys_not_in(kb.skip(j as int + 1), ka)).drop_first()
                    =~= keys_not_in(kb.skip(j as int + 1), ka));
            }
            let key_clone = be[j].0.clone();
            path.push(PathSeg::Key(key_clone));
            proof {
                assert(path_view(path@) =~= pv.push(SegV::Key(bev[j as int].0)));
            }
            let ghost out_before = out@;
            diff_rec(out, path, None, Some(&be[j].1), cfg);
            let _ = path.pop();
            proof {
                assert(path@ =~= old(path)@);
                let d = spec_diff_opt(
                    pv.push(SegV::Key(kb[j as int])),
                    lookup(aev, kb[j as int]),
                    lookup(bev, kb[j as int]),
                    *cfg,
                );
                assert(lookup(aev, kb[j as int]) is None);
                assert(opt_ref_view(Some(&be[j as int].1)) == lookup(bev, kb[j as int]));
                assert(changes_view(out@) == changes_view(out_before) + d);
                assert(spec_diff_keys(pv, aev, bev, keys_not_in(kb.skip(j as int), ka), *cfg)
                    == d + spec_diff_keys(pv, aev, bev, keys_not_in(kb.skip(j as int + 1), ka), *cfg));
                assert(changes_view(out@) + spec_diff_keys(
                    pv,
                    aev,
                    bev,
                    keys_not_in(kb.skip(j as int + 1), ka),
                    *cfg,
                ) =~= (changes_view(out_before) + d) + spec_diff_keys(
                    pv,
                    aev,
                    bev,
                    keys_not_in(kb.skip(j as int + 1), ka),
                    *cfg,
                ));
                assert((changes_view(out_before) + d) + spec_diff_keys(
                    pv,
                    aev,
                    bev,
                    keys_not_in(kb.skip(j as int + 1), ka),
                    *cfg,
                ) =~= changes_view(out_before) + (d + spec_diff_keys(
                    pv,
                    aev,
                    bev,
                    keys_not_in(kb.skip(j as int + 1), ka),
                    *cfg,
                )));
            }
        } else {
            proof {
                assert(keys_not_in(kb.skip(j as int), ka) == keys_not_in(
                    kb.skip(j as int + 1),
                    ka,
                ));
            }
        }
    }
    proof {
        assert(kb.skip(kb.len() as int).len() == 0);
        assert(keys_not_in(kb.skip(kb.len() as int), ka).len() == 0);
        assert(changes_view(out@) + Seq::<ChangeV>::empty() =~= changes_view(out@));
        assert(spec_diff_both(pv, a@, b@, *cfg) == spec_diff_keys(pv, aev, bev, u, *cfg));
    }
}

/// The array against array case of `diff_rec`: position by position
/// up to the longer length.
#[verifier::loop_isolation(false)]
fn diff_arrays(
    out: &mut Vec<Change>,
    path: &mut Vec<PathSeg>,
    a: &Node,
    b: &Node,
    av: &Vec<Node>,
    bv: &Vec<Node>,
    cfg: &DiffConfig,
)
    requires
        a@.wf(),
        b@.wf(),
        *a == Node::Array(*av),
        *b == Node::Array(*bv),
    ensures
        final(path)@ == old(path)@,
        changes_view(final(out)@) == changes_view(old(out)@) + spec_diff_both(
            path_view(old(path)@),
            a@,
            b@,
            *cfg,
        ),
    decreases a@.height() + b@.height(), 0int,
{
    let ghost avv = view_nodes(av@);
    let ghost bvv = view_nodes(bv@);
    let ghost pv = path_view(old(path)@);
    proof {
        lemma_view_nodes(av@);
        lemma_view_nodes(bv@);
        assert(a@ == NodeV::Array(avv));
        assert(b@ == NodeV::Array(bvv));
        assert(changes_view(out@) + Seq::<ChangeV>::empty() =~= changes_view(out@));
    }
    let ghost out0 = out@;
    let alen = av.len();
    let blen = bv.len();
    let m = if alen >= blen {
        alen
    } else {
        blen
    };
    proof {
        assert(m == max_len(avv, bvv));
    }
    for i in 0..m
        invariant
            alen == av.len(),
            blen == bv.len(),
            path@ == old(path)@,
            changes_view(out@) + spec_diff_idx(pv, avv, bvv, i as int, *cfg) == changes_view(out0)
                + spec_diff_idx(pv, avv, bvv, 0, *cfg),
    {
        proof {
            if i < alen {
                lemma_wf_nodes_index(avv, i as int);
                lemma_heights_of_index(avv, i as int);
            }
            if i < blen {
                lemma_wf_nodes_index(bvv, i as int);
                lemma_heights_of_index(bvv, i as int);
            }
        }
        let oi: Option<&Node> = if i < alen {
            Some(&av[i])
        } else {
            None
        };
        let ni: Option<&Node> = if i < blen {
            Some(&bv[i])
        } else {
            None
        };
        path.push(PathSeg::Index(i));
        proof {
            assert(path_view(path@) =~= pv.push(SegV::Index(i as int)));
        }
        let ghost out_before = out@;
        diff_rec(out, path, oi, ni, cfg);
        let _ = path.pop();
        proof {
            assert(path@ =~= old(path)@);
            let d = spec_diff_opt(
                pv.push(SegV::Index(i as int)),
                opt_get(avv, i as int),
                opt_get(bvv, i as int),
                *cfg,
            );
            assert(opt_ref_view(oi) == opt_get(avv, i as int));
            assert(opt_ref_view(ni) == opt_get(bvv, i as int));
            assert(changes_view(out@) == changes_view(out_before) + d);
            assert(spec_diff_idx(pv, avv, bvv, i as int, *cfg) == d + spec_diff_idx(
                pv,
                avv,
                bvv,
                i as int + 1,
                *cfg,
            ));
            assert(changes_view(out@) + spec_diff_idx(pv, avv, bvv, i as int + 1, *cfg) =~= (
            changes_view(out_before) + d) + spec_diff_idx(pv, avv, bvv, i as int + 1, *cfg));
            assert((changes_view(out_before) + d) + spec_diff_idx(pv, avv, bvv, i as int + 1, *cfg)
                =~= changes_view(out_before) + (d + spec_diff_idx(
                pv,
                avv,
                bvv,
                i as int + 1,
                *cfg,
            )));
        }
    }
    proof {
        assert(spec_diff_idx(pv, avv, bvv, m as int, *cfg).len() == 0);
        assert(changes_view(out@) + Seq::<ChangeV>::empty() =~= changes_view(out@));
        assert(spec_diff_both(pv, a@, b@, *cfg) == spec_diff_idx(pv, avv, bvv, 0, *cfg));
    }
}

/// Compares two well-formed trees under `config`.
///
/// The change list is exactly the specified diff of the two trees'
/// models, and the statistics tally the list's change kinds, so their
/// sum is the list's length.
#[verifier::loop_isolation(false)]
pub fn compute_diff(old_tree: &Node, new_tree: &Node, config: &DiffConfig) -> (r: Diff)
    requires
        old_tree@.wf(),
        new_tree@.wf(),
    ensures
        changes_view(r.changes@) == spec_diff(old_tree@, new_tree@, *config),
        r.stats == stats_of(spec_diff(old_tree@, new_tree@, *config)),
{
    let mut changes: Vec<Change> = Vec::new();
    let mut path: Vec<PathSeg> = Vec::new();
    proof {
        assert(changes_view(changes@) =~= Seq::<ChangeV>::empty());
        assert(path_view(path@) =~= Seq::<SegV>::empty());
    }
    diff_rec(&mut changes, &mut path, Some(old_tree), Some(new_tree), config);
    let ghost cv = changes_view(changes@);
    proof {
        assert(Seq::<ChangeV>::empty() + spec_diff(old_tree@, new_tree@, *config) =~= spec_diff(
            old_tree@,
            new_tree@,
            *config,
        ));
        assert(cv == spec_diff(old_tree@, new_tree@, *config));
        assert(cv.take(0).len() == 0);
    }
    let mut added: usize = 0;
    let mut removed: usize = 0;
    let mut modified: usize = 0;
    let mut unchanged: usize = 0;
    let nch = changes.len();
    for i in 0..nch
        invariant
            nch == changes.len(),
            added == count_ct(cv.take(i as int), ChangeType::Added),
            removed == count_ct(cv.take(i as int), ChangeType::Removed),
            modified == count_ct(cv.take(i as int), ChangeType::Modified),
            unchanged == count_ct(cv.take(i as int), ChangeType::Unchanged),
    {
        proof {
            lemma_count_le_len(cv.take(i as int), ChangeType::Added);
            lemma_count_le_len(cv.take(i as int), ChangeType::Removed);
            lemma_count_le_len(cv.take(i as int), ChangeType::Modified);
            lemma_count_le_len(cv.take(i as int), ChangeType::Unchanged);
            assert(cv.take(i as int).len() == i);
            assert(cv.take(i as int + 1).drop_last() =~= cv.take(i as int));
            assert(cv.take(i as int + 1)[i as int] == cv[i as int]);
            assert(cv[i as int] == changes@[i as int]@);
        }
        let ct = changes[i].change_type;
        match ct {
            ChangeType::Added => {
                added = added + 1;
            },
            ChangeType::Removed => {
                removed = removed + 1;
            },
            ChangeType::Modified => {
                modified = modified + 1;
            },
            ChangeType::Unchanged => {
                unchanged = unchanged + 1;
            },
        }
    }
    proof {
        assert(cv.take(nch as int) =~= cv);
        lemma_count_le_len(cv, ChangeType::Added);
        lemma_count_le_len(cv, ChangeType::Removed);
        lemma_count_le_len(cv, ChangeType::Modified);
        lemma_count_le_len(cv, ChangeType::Unchanged);
    }
    Diff { changes, stats: DiffStats { added, removed, modified, unchanged } }
}

} // verus!


