//! Proved laws of the diff engine: reflexivity, the stats sum
//! property, and the added/removed symmetry under swapping the trees.

use crate::diff::ChangeType;
use crate::diff::ChangeV;
use crate::diff::Diff;
use crate::diff::DiffConfig;
use crate::diff::SegV;
use crate::diff::changes_view;
use crate::diff::count_ct;
use crate::diff::keys_not_in;
use crate::diff::lemma_count_partition;
use crate::diff::max_len;
use crate::diff::opt_get;
use crate::diff::scalar_eq;
use crate::diff::spec_diff;
use crate::diff::spec_diff_both;
use crate::diff::spec_diff_idx;
use crate::diff::spec_diff_keys;
use crate::diff::spec_diff_opt;
use crate::diff::stats_of;
use crate::diff::union_keys;
use crate::tree::NodeV;
use crate::tree::entry_keys;
use crate::tree::lemma_heights_of_entries_index;
use crate::tree::lemma_heights_of_index;
use crate::tree::lemma_lookup_distinct;
use crate::tree::lemma_lookup_height;
use crate::tree::lemma_lookup_wf;
use crate::tree::lemma_wf_entries_index;
use crate::tree::lemma_wf_nodes_index;
use crate::tree::lookup;
use crate::tree::wf_entries;
use crate::tree::wf_nodes;
use vstd::prelude::*;

verus! {

/// Number of compared positions in a tree: one per scalar, none for
/// an empty object or array.
pub open spec fn leaf_count(v: NodeV) -> nat
    decreases v, 1int, 0int,
{
    match v {
        NodeV::Array(items) => leaf_counts(items),
        NodeV::Object(entries) => leaf_counts_entries(entries),
        _ => 1,
    }
}

/// Sum of the leaf counts of a sequence of nodes.
pub open spec fn leaf_counts(s: Seq<NodeV>) -> nat
    decreases s, 0int, s.len(),
{
    if s.len() == 0 {
        0
    } else {
        leaf_count(s[0]) + leaf_counts(s.drop_first())
    }
}

/// Sum of the leaf counts of an entry sequence's values.
pub open spec fn leaf_counts_entries(s: Seq<(Seq<char>, NodeV)>) -> nat
    decreases s, 0int, s.len(),
{
    if s.len() == 0 {
        0
    } else {
        leaf_count(s[0].1) + leaf_counts_entries(s.drop_first())
    }
}

/// Every record of the list is `Unchanged`.
pub open spec fn all_unchanged(s: Seq<ChangeV>) -> bool {
    forall|i: int| 0 <= i < s.len() ==> s[i].change_type == ChangeType::Unchanged
}

/// Counting in a list of only `Unchanged` records.
proof fn lemma_count_all_unchanged(s: Seq<ChangeV>)
    requires
        all_unchanged(s),
    ensures
        count_ct(s, ChangeType::Unchanged) == s.len(),
        count_ct(s, ChangeType::Added) == 0,
        count_ct(s, ChangeType::Removed) == 0,
        count_ct(s, ChangeType::Modified) == 0,
    decreases s.len(),
{
    if s.len() > 0 {
        assert(all_unchanged(s.drop_last()));
        lemma_count_all_unchanged(s.drop_last());
    }
}

/// No key of `ks` survives filtering against a list that has them all.
proof fn lemma_keys_not_in_all_present(ks: Seq<Seq<char>>, present: Seq<Seq<char>>)
    requires
        forall|i: int| 0 <= i < ks.len() ==> present.contains(#[trigger] ks[i]),
    ensures
        keys_not_in(ks, present).len() == 0,
    decreases ks.len(),
{
    if ks.len() > 0 {
        assert(present.contains(ks[0]));
        assert(forall|i: int| 0 <= i < ks.drop_first().len() ==> present.contains(
            #[trigger] ks.drop_first()[i],
        ));
        lemma_keys_not_in_all_present(ks.drop_first(), present);
    }
}

/// Reflexivity at a both-present position: a tree against itself
/// yields only `Unchanged` records, one per leaf position.
proof fn lemma_refl_both(p: Seq<SegV>, x: NodeV, cfg: DiffConfig)
    requires
        x.wf(),
    ensures
        all_unchanged(spec_diff_both(p, x, x, cfg)),
        spec_diff_both(p, x, x, cfg).len() == leaf_count(x),
    decreases x.height(), 1int, 0int,
{
    match x {
        NodeV::Object(es) => {
            let ka = entry_keys(es);
            assert forall|i: int| 0 <= i < ka.len() implies ka.contains(#[trigger] ka[i]) by {}
            lemma_keys_not_in_all_present(ka, ka);
            assert(union_keys(es, es) =~= ka);
            lemma_refl_keys(p, es, cfg, 0);
            assert(ka.skip(0) =~= ka);
            assert(es.skip(0) =~= es);
        },
        NodeV::Array(items) => {
            lemma_refl_idx(p, items, cfg, 0);
            assert(items.skip(0) =~= items);
        },
        _ => {
            assert(scalar_eq(x, x, cfg));
        },
    }
}

/// Reflexivity over the keys of one object, from position `t` on.
proof fn lemma_refl_keys(p: Seq<SegV>, es: Seq<(Seq<char>, NodeV)>, cfg: DiffConfig, t: int)
    requires
        crate::tree::distinct_seq(entry_keys(es)),
        wf_entries(es),
        0 <= t <= es.len(),
    ensures
        all_unchanged(spec_diff_keys(p, es, es, entry_keys(es).skip(t), cfg)),
        spec_diff_keys(p, es, es, entry_keys(es).skip(t), cfg).len() == leaf_counts_entries(
            es.skip(t),
        ),
    decreases NodeV::Object(es).height(), 0int, es.len() - t,
{
    let ka = entry_keys(es);
    if t == es.len() {
        assert(ka.skip(t).len() == 0);
        assert(es.skip(t).len() == 0);
    } else {
        assert(ka.skip(t)[0] == ka[t]);
        assert(ka[t] == es[t].0);
        lemma_lookup_distinct(es, t);
        lemma_wf_entries_index(es, t);
        lemma_heights_of_entries_index(es, t);
        lemma_refl_both(p.push(SegV::Key(ka[t])), es[t].1, cfg);
        assert(ka.skip(t).drop_first() =~= ka.skip(t + 1));
        lemma_refl_keys(p, es, cfg, t + 1);
        let head = spec_diff_opt(p.push(SegV::Key(ka[t])), lookup(es, ka[t]), lookup(es, ka[t]), cfg);
        let tail = spec_diff_keys(p, es, es, ka.skip(t + 1), cfg);
        assert(head == spec_diff_both(p.push(SegV::Key(ka[t])), es[t].1, es[t].1, cfg));
        assert(spec_diff_keys(p, es, es, ka.skip(t), cfg) == head + tail);
        assert forall|i: int| 0 <= i < (head + tail).len() implies (head + tail)[i].change_type
            == ChangeType::Unchanged by {
            if i < head.len() {
                assert((head + tail)[i] == head[i]);
            } else {
                assert((head + tail)[i] == tail[i - head.len()]);
            }
        }
        assert(es.skip(t)[0] == es[t]);
        assert(es.skip(t).drop_first() =~= es.skip(t + 1));
        assert(leaf_counts_entries(es.skip(t)) == leaf_count(es[t].1) + leaf_counts_entries(
            es.skip(t + 1),
        ));
    }
}

/// Reflexivity over the positions of one array, from `i` on.
proof fn lemma_refl_idx(p: Seq<SegV>, items: Seq<NodeV>, cfg: DiffConfig, i: int)
    requires
        wf_nodes(items),
        0 <= i <= items.len(),
    ensures
        all_unchanged(spec_diff_idx(p, items, items, i, cfg)),
        spec_diff_idx(p, items, items, i, cfg).len() == leaf_counts(items.skip(i)),
    decreases NodeV::Array(items).height(), 0int, items.len() - i,
{
    if i == items.len() {
        assert(items.skip(i).len() == 0);
    } else {
        assert(max_len(items, items) == items.len());
        assert(opt_get(items, i) == Some(items[i]));
        lemma_wf_nodes_index(items, i);
        lemma_heights_of_index(items, i);
        lemma_refl_both(p.push(SegV::Index(i)), items[i], cfg);
        lemma_refl_idx(p, items, cfg, i + 1);
        let head = spec_diff_opt(p.push(SegV::Index(i)), opt_get(items, i), opt_get(items, i), cfg);
        let tail = spec_diff_idx(p, items, items, i + 1, cfg);
        assert(head == spec_diff_both(p.push(SegV::Index(i)), items[i], items[i], cfg));
        assert(spec_diff_idx(p, items, items, i, cfg) == head + tail);
        assert forall|j: int| 0 <= j < (head + tail).len() implies (head + tail)[j].change_type
            == ChangeType::Unchanged by {
            if j < head.len() {
                assert((head + tail)[j] == head[j]);
            } else {
                assert((head + tail)[j] == tail[j - head.len()]);
            }
        }
        assert(items.skip(i)[0] == items[i]);
        assert(items.skip(i).drop_first() =~= items.skip(i + 1));
        assert(leaf_counts(items.skip(i)) == leaf_count(items[i]) + leaf_counts(items.skip(i + 1)));
    }
}

/// Reflexivity: a well-formed tree compared against itself, under any
/// configuration, yields no additions, removals or modifications —
/// only one `Unchanged` record per leaf position of the tree.
pub proof fn lemma_diff_reflexive(x: NodeV, cfg: DiffConfig)
    requires
        x.wf(),
    ensures
        count_ct(spec_diff(x, x, cfg), ChangeType::Added) == 0,
        count_ct(spec_diff(x, x, cfg), ChangeType::Removed) == 0,
        count_ct(spec_diff(x, x, cfg), ChangeType::Modified) == 0,
        count_ct(spec_diff(x, x, cfg), ChangeType::Unchanged) == spec_diff(x, x, cfg).len(),
        spec_diff(x, x, cfg).len() == leaf_count(x),
{
    lemma_refl_both(Seq::empty(), x, cfg);
    lemma_count_all_unchanged(spec_diff(x, x, cfg));
}

/// Sum property: where the statistics tally the change list — as
/// `compute_diff` ensures — the four counts sum to the list's length.
pub proof fn lemma_stats_sum(d: &Diff)
    requires
        d.stats == stats_of(changes_view(d.changes@)),
        d.changes@.len() <= usize::MAX,
    ensures
        d.stats.added + d.stats.removed + d.stats.modified + d.stats.unchanged == d.changes@.len(),
{
    let cv = changes_view(d.changes@);
    assert(cv.len() == d.changes@.len());
    lemma_count_partition(cv);
    crate::diff::lemma_count_le_len(cv, ChangeType::Added);
    crate::diff::lemma_count_le_len(cv, ChangeType::Removed);
    crate::diff::lemma_count_le_len(cv, ChangeType::Modified);
    crate::diff::lemma_count_le_len(cv, ChangeType::Unchanged);
}


/// Sum of `f` over a key sequence.
pub open spec fn key_sum(u: Seq<Seq<char>>, f: spec_fn(Seq<char>) -> nat) -> nat
    decreases u.len(),
{
    if u.len() == 0 {
        0
    } else {
        f(u[0]) + key_sum(u.drop_first(), f)
    }
}

/// Counting distributes over concatenation.
proof fn lemma_count_concat(x: Seq<ChangeV>, y: Seq<ChangeV>, t: ChangeType)
    ensures
        count_ct(x + y, t) == count_ct(x, t) + count_ct(y, t),
    decreases y.len(),
{
    if y.len() == 0 {
        assert(x + y =~= x);
    } else {
        lemma_count_concat(x, y.drop_last(), t);
        assert((x + y).drop_last() =~= x + y.drop_last());
        assert((x + y)[(x + y).len() - 1] == y[y.len() - 1]);
    }
}

/// Sums of pointwise equal functions agree.
proof fn lemma_key_sum_congruent(
    u: Seq<Seq<char>>,
    f: spec_fn(Seq<char>) -> nat,
    g: spec_fn(Seq<char>) -> nat,
)
    requires
        forall|k: Seq<char>| u.contains(k) ==> #[trigger] f(k) == g(k),
    ensures
        key_sum(u, f) == key_sum(u, g),
    decreases u.len(),
{
    if u.len() > 0 {
        assert(u.contains(u[0]));
        assert forall|k: Seq<char>| u.drop_first().contains(k) implies #[trigger] f(k) == g(
            k,
        ) by {
            let i = choose|i: int| 0 <= i < u.drop_first().len() && u.drop_first()[i] == k;
            assert(u[i + 1] == k);
        }
        lemma_key_sum_congruent(u.drop_first(), f, g);
    }
}

/// Removing one element takes exactly its contribution out of the sum.
proof fn lemma_key_sum_remove(u: Seq<Seq<char>>, i: int, f: spec_fn(Seq<char>) -> nat)
    requires
        0 <= i < u.len(),
    ensures
        key_sum(u, f) == f(u[i]) + key_sum(u.remove(i), f),
    decreases u.len(),
{
    if i == 0 {
        assert(u.remove(0) =~= u.drop_first());
    } else {
        lemma_key_sum_remove(u.drop_first(), i - 1, f);
        assert(u.remove(i).drop_first() =~= u.drop_first().remove(i - 1));
        assert(u.remove(i)[0] == u[0]);
        assert(u.drop_first()[i - 1] == u[i]);
    }
}

/// Two duplicate-free sequences with the same members have the same
/// sum.
proof fn lemma_key_sum_same_members(
    u1: Seq<Seq<char>>,
    u2: Seq<Seq<char>>,
    f: spec_fn(Seq<char>) -> nat,
)
    requires
        crate::tree::distinct_seq(u1),
        crate::tree::distinct_seq(u2),
        forall|k: Seq<char>|
            #![trigger u1.contains(k)]
            #![trigger u2.contains(k)]
            u1.contains(k) <==> u2.contains(k),
    ensures
        key_sum(u1, f) == key_sum(u2, f),
    decreases u1.len(),
{
    if u1.len() == 0 {
        if u2.len() > 0 {
            assert(u2.contains(u2[0]));
        }
    } else {
        let k0 = u1[0];
        assert(u1.contains(k0));
        let j = choose|j: int| 0 <= j < u2.len() && u2[j] == k0;
        lemma_key_sum_remove(u2, j, f);
        let r1 = u1.drop_first();
        let r2 = u2.remove(j);
        assert(r2 =~= u2.subrange(0, j) + u2.subrange(j + 1, u2.len() as int));
        assert forall|x: int, y: int| 0 <= x < y < r2.len() implies r2[x] != r2[y] by {
            let xo = if x < j { x } else { x + 1 };
            let yo = if y < j { y } else { y + 1 };
            assert(r2[x] == u2[xo]);
            assert(r2[y] == u2[yo]);
        }
        assert forall|k: Seq<char>| #[trigger] r1.contains(k) implies #[trigger] r2.contains(
            k,
        ) by {
            let i = choose|i: int| 0 <= i < r1.len() && r1[i] == k;
            assert(u1[i + 1] == k);
            assert(k != k0);
            assert(u1.contains(k));
            let m = choose|m: int| 0 <= m < u2.len() && u2[m] == k;
            assert(m != j);
            if m < j {
                assert(r2[m] == u2[m]);
            } else {
                assert(r2[m - 1] == u2[m]);
            }
        }
        assert forall|k: Seq<char>| #[trigger] r2.contains(k) implies #[trigger] r1.contains(
            k,
        ) by {
            let m = choose|m: int| 0 <= m < r2.len() && r2[m] == k;
            let mo = if m < j { m } else { m + 1 };
            assert(r2[m] == u2[mo]);
            assert(u2.contains(k));
            assert(k != k0) by {
                if k == k0 {
                    assert(u2[mo] == u2[j]);
                }
            }
            assert(u1.contains(k));
            let i = choose|i: int| 0 <= i < u1.len() && u1[i] == k;
            assert(i != 0);
            assert(r1[i - 1] == k);
        }
        lemma_key_sum_same_members(r1, r2, f);
    }
}

/// Membership in a filtered key list.
proof fn lemma_knl_contains(ks: Seq<Seq<char>>, present: Seq<Seq<char>>, k: Seq<char>)
    ensures
        keys_not_in(ks, present).contains(k) <==> (ks.contains(k) && !present.contains(k)),
    decreases ks.len(),
{
    if ks.len() > 0 {
        lemma_knl_contains(ks.drop_first(), present, k);
        let rest = keys_not_in(ks.drop_first(), present);
        if present.contains(ks[0]) {
            if ks.contains(k) && !present.contains(k) {
                let i = choose|i: int| 0 <= i < ks.len() && ks[i] == k;
                assert(i != 0);
                assert(ks.drop_first()[i - 1] == k);
            }
            if rest.contains(k) {
                let i = choose|i: int| 0 <= i < rest.len() && rest[i] == k;
                let m = choose|m: int| 0 <= m < ks.drop_first().len() && ks.drop_first()[m] == k;
                assert(ks[m + 1] == k);
            }
        } else {
            let whole = seq![ks[0]] + rest;
            assert(whole[0] == ks[0]);
            if ks.contains(k) && !present.contains(k) {
                if k == ks[0] {
                    assert(whole.contains(k));
                } else {
                    let i = choose|i: int| 0 <= i < ks.len() && ks[i] == k;
                    assert(i != 0);
                    assert(ks.drop_first()[i - 1] == k);
                    assert(rest.contains(k));
                    let m = choose|m: int| 0 <= m < rest.len() && rest[m] == k;
                    assert(whole[m + 1] == k);
                }
            }
            if whole.contains(k) {
                let i = choose|i: int| 0 <= i < whole.len() && whole[i] == k;
                if i == 0 {
                    assert(ks.contains(ks[0]));
                } else {
                    assert(rest[i - 1] == k);
                    assert(ks.drop_first().contains(k));
                    let m = choose|m: int| 0 <= m < ks.drop_first().len() && ks.drop_first()[m]
                        == k;
                    assert(ks[m + 1] == k);
                }
            }
        }
    }
}

/// Filtering keeps a duplicate-free key list duplicate-free.
proof fn lemma_knl_distinct(ks: Seq<Seq<char>>, present: Seq<Seq<char>>)
    requires
        crate::tree::distinct_seq(ks),
    ensures
        crate::tree::distinct_seq(keys_not_in(ks, present)),
    decreases ks.len(),
{
    if ks.len() > 0 {
        assert forall|x: int, y: int|
            0 <= x < y < ks.drop_first().len() implies ks.drop_first()[x] != ks.drop_first()[
            y
        ] by {
            assert(ks[x + 1] != ks[y + 1]);
        }
        lemma_knl_distinct(ks.drop_first(), present);
        let rest = keys_not_in(ks.drop_first(), present);
        if !present.contains(ks[0]) {
            let whole = seq![ks[0]] + rest;
            assert forall|x: int, y: int| 0 <= x < y < whole.len() implies whole[x] != whole[
            y
            ] by {
                if x == 0 {
                    assert(whole[y] == rest[y - 1]);
                    if whole[0] == whole[y] {
                        lemma_knl_contains(ks.drop_first(), present, ks[0]);
                        assert(rest.contains(rest[y - 1]));
                        let m = choose|m: int|
                            0 <= m < ks.drop_first().len() && ks.drop_first()[m] == ks[0];
                        assert(ks[m + 1] == ks[0]);
                    }
                } else {
                    assert(whole[x] == rest[x - 1]);
                    assert(whole[y] == rest[y - 1]);
                }
            }
        }
    }
}

/// The union traversal holds each key of either object exactly once.
proof fn lemma_union_keys_distinct(ka: Seq<Seq<char>>, kb: Seq<Seq<char>>)
    requires
        crate::tree::distinct_seq(ka),
        crate::tree::distinct_seq(kb),
    ensures
        crate::tree::distinct_seq(ka + keys_not_in(kb, ka)),
        forall|k: Seq<char>|
            #![trigger (ka + keys_not_in(kb, ka)).contains(k)]
            (ka + keys_not_in(kb, ka)).contains(k) <==> (ka.contains(k) || kb.contains(k)),
{
    lemma_knl_distinct(kb, ka);
    let knl = keys_not_in(kb, ka);
    let u = ka + knl;
    assert forall|x: int, y: int| 0 <= x < y < u.len() implies u[x] != u[y] by {
        if x < ka.len() && y >= ka.len() {
            assert(u[y] == knl[y - ka.len()]);
            assert(knl.contains(knl[y - ka.len()]));
            lemma_knl_contains(kb, ka, knl[y - ka.len()]);
            assert(u[x] == ka[x]);
            assert(ka.contains(ka[x]));
        } else if x >= ka.len() {
            assert(u[x] == knl[x - ka.len()]);
            assert(u[y] == knl[y - ka.len()]);
        }
    }
    assert forall|k: Seq<char>| #[trigger] u.contains(k) implies (ka.contains(k) || kb.contains(
        k,
    )) by {
        let i = choose|i: int| 0 <= i < u.len() && u[i] == k;
        if i < ka.len() {
            assert(ka[i] == k);
        } else {
            assert(knl[i - ka.len()] == k);
            assert(knl.contains(k));
            lemma_knl_contains(kb, ka, k);
        }
    }
    assert forall|k: Seq<char>| ka.contains(k) || kb.contains(k) implies #[trigger] u.contains(
        k,
    ) by {
        if ka.contains(k) {
            let i = choose|i: int| 0 <= i < ka.len() && ka[i] == k;
            assert(u[i] == k);
        } else {
            lemma_knl_contains(kb, ka, k);
            assert(knl.contains(k));
            let i = choose|i: int| 0 <= i < knl.len() && knl[i] == k;
            assert(u[ka.len() + i] == k);
        }
    }
}


/// Well-formedness of an optional node.
pub open spec fn opt_wf(o: Option<NodeV>) -> bool {
    match o {
        Some(v) => v.wf(),
        None => true,
    }
}

/// The count over a key traversal is the sum of the per-key counts.
proof fn lemma_keys_count_as_sum(
    p: Seq<SegV>,
    ae: Seq<(Seq<char>, NodeV)>,
    be: Seq<(Seq<char>, NodeV)>,
    u: Seq<Seq<char>>,
    cfg: DiffConfig,
    t: ChangeType,
    f: spec_fn(Seq<char>) -> nat,
)
    requires
        forall|k: Seq<char>| u.contains(k) ==> #[trigger] f(k) == count_ct(
            spec_diff_opt(p.push(SegV::Key(k)), lookup(ae, k), lookup(be, k), cfg),
            t,
        ),
    ensures
        count_ct(spec_diff_keys(p, ae, be, u, cfg), t) == key_sum(u, f),
    decreases u.len(),
{
    if u.len() > 0 {
        assert(u.contains(u[0]));
        assert forall|k: Seq<char>| u.drop_first().contains(k) implies #[trigger] f(k)
            == count_ct(
            spec_diff_opt(p.push(SegV::Key(k)), lookup(ae, k), lookup(be, k), cfg),
            t,
        ) by {
            let i = choose|i: int| 0 <= i < u.drop_first().len() && u.drop_first()[i] == k;
            assert(u[i + 1] == k);
        }
        lemma_keys_count_as_sum(p, ae, be, u.drop_first(), cfg, t, f);
        lemma_count_concat(
            spec_diff_opt(p.push(SegV::Key(u[0])), lookup(ae, u[0]), lookup(be, u[0]), cfg),
            spec_diff_keys(p, ae, be, u.drop_first(), cfg),
            t,
        );
    }
}

/// Counting in a one-record list.
proof fn lemma_count_singleton(c: ChangeV, t: ChangeType)
    ensures
        count_ct(seq![c], t) == if c.change_type == t {
            1nat
        } else {
            0nat
        },
{
    assert(seq![c].drop_last() =~= Seq::<ChangeV>::empty());
    assert(count_ct(seq![c].drop_last(), t) == 0);
}

/// Swapping the sides at an optional position swaps the added and
/// removed counts, whatever the two paths.
proof fn lemma_swap_opt(
    p1: Seq<SegV>,
    p2: Seq<SegV>,
    o: Option<NodeV>,
    n: Option<NodeV>,
    cfg: DiffConfig,
)
    requires
        opt_wf(o),
        opt_wf(n),
    ensures
        count_ct(spec_diff_opt(p1, o, n, cfg), ChangeType::Added) == count_ct(
            spec_diff_opt(p2, n, o, cfg),
            ChangeType::Removed,
        ),
        count_ct(spec_diff_opt(p1, o, n, cfg), ChangeType::Removed) == count_ct(
            spec_diff_opt(p2, n, o, cfg),
            ChangeType::Added,
        ),
    decreases crate::diff::opt_height(o) + crate::diff::opt_height(n), 2int, 0int,
{
    match (o, n) {
        (Some(a), Some(b)) => {
            lemma_swap_both(p1, p2, a, b, cfg);
        },
        (None, Some(v)) => {
            let s1 = spec_diff_opt(p1, o, n, cfg);
            let s2 = spec_diff_opt(p2, n, o, cfg);
            lemma_count_singleton(s1[0], ChangeType::Added);
            lemma_count_singleton(s1[0], ChangeType::Removed);
            lemma_count_singleton(s2[0], ChangeType::Added);
            lemma_count_singleton(s2[0], ChangeType::Removed);
            assert(s1 =~= seq![s1[0]]);
            assert(s2 =~= seq![s2[0]]);
        },
        (Some(v), None) => {
            let s1 = spec_diff_opt(p1, o, n, cfg);
            let s2 = spec_diff_opt(p2, n, o, cfg);
            lemma_count_singleton(s1[0], ChangeType::Added);
            lemma_count_singleton(s1[0], ChangeType::Removed);
            lemma_count_singleton(s2[0], ChangeType::Added);
            lemma_count_singleton(s2[0], ChangeType::Removed);
            assert(s1 =~= seq![s1[0]]);
            assert(s2 =~= seq![s2[0]]);
        },
        (None, None) => {},
    }
}

/// Swapping the sides at a both-present position swaps the added and
/// removed counts.
proof fn lemma_swap_both(p1: Seq<SegV>, p2: Seq<SegV>, a: NodeV, b: NodeV, cfg: DiffConfig)
    requires
        a.wf(),
        b.wf(),
    ensures
        count_ct(spec_diff_both(p1, a, b, cfg), ChangeType::Added) == count_ct(
            spec_diff_both(p2, b, a, cfg),
            ChangeType::Removed,
        ),
        count_ct(spec_diff_both(p1, a, b, cfg), ChangeType::Removed) == count_ct(
            spec_diff_both(p2, b, a, cfg),
            ChangeType::Added,
        ),
    decreases a.height() + b.height(), 1int, 0int,
{
    match (a, b) {
        (NodeV::Object(ae), NodeV::Object(be)) => {
            let ka = entry_keys(ae);
            let kb = entry_keys(be);
            let u12 = union_keys(ae, be);
            let u21 = union_keys(be, ae);
            let fa = |k: Seq<char>|
                count_ct(
                    spec_diff_opt(p1.push(SegV::Key(k)), lookup(ae, k), lookup(be, k), cfg),
                    ChangeType::Added,
                );
            let fr = |k: Seq<char>|
                count_ct(
                    spec_diff_opt(p1.push(SegV::Key(k)), lookup(ae, k), lookup(be, k), cfg),
                    ChangeType::Removed,
                );
            let gr = |k: Seq<char>|
                count_ct(
                    spec_diff_opt(p2.push(SegV::Key(k)), lookup(be, k), lookup(ae, k), cfg),
                    ChangeType::Removed,
                );
            let ga = |k: Seq<char>|
                count_ct(
                    spec_diff_opt(p2.push(SegV::Key(k)), lookup(be, k), lookup(ae, k), cfg),
                    ChangeType::Added,
                );
            lemma_keys_count_as_sum(p1, ae, be, u12, cfg, ChangeType::Added, fa);
            lemma_keys_count_as_sum(p1, ae, be, u12, cfg, ChangeType::Removed, fr);
            lemma_keys_count_as_sum(p2, be, ae, u21, cfg, ChangeType::Removed, gr);
            lemma_keys_count_as_sum(p2, be, ae, u21, cfg, ChangeType::Added, ga);
            assert forall|k: Seq<char>| u21.contains(k) implies #[trigger] gr(k) == fa(k) by {
                lemma_lookup_wf(ae, k);
                lemma_lookup_wf(be, k);
                lemma_lookup_height(ae, k);
                lemma_lookup_height(be, k);
                lemma_swap_opt(
                    p1.push(SegV::Key(k)),
                    p2.push(SegV::Key(k)),
                    lookup(ae, k),
                    lookup(be, k),
                    cfg,
                );
            }
            assert forall|k: Seq<char>| u21.contains(k) implies #[trigger] ga(k) == fr(k) by {
                lemma_lookup_wf(ae, k);
                lemma_lookup_wf(be, k);
                lemma_lookup_height(ae, k);
                lemma_lookup_height(be, k);
                lemma_swap_opt(
                    p1.push(SegV::Key(k)),
                    p2.push(SegV::Key(k)),
                    lookup(ae, k),
                    lookup(be, k),
                    cfg,
                );
            }
            lemma_key_sum_congruent(u21, gr, fa);
            lemma_key_sum_congruent(u21, ga, fr);
            lemma_union_keys_distinct(ka, kb);
            lemma_union_keys_distinct(kb, ka);
            assert forall|k: Seq<char>|
                #![trigger u12.contains(k)]
                #![trigger u21.contains(k)]
                u12.contains(k) <==> u21.contains(k) by {
                assert(u12.contains(k) <==> (ka.contains(k) || kb.contains(k)));
                assert(u21.contains(k) <==> (kb.contains(k) || ka.contains(k)));
            }
            lemma_key_sum_same_members(u21, u12, fa);
            lemma_key_sum_same_members(u21, u12, fr);
        },
        (NodeV::Array(av), NodeV::Array(bv)) => {
            lemma_swap_idx(p1, p2, av, bv, cfg, 0);
        },
        _ => {
            let s1 = spec_diff_both(p1, a, b, cfg);
            let s2 = spec_diff_both(p2, b, a, cfg);
            lemma_count_singleton(s1[0], ChangeType::Added);
            lemma_count_singleton(s1[0], ChangeType::Removed);
            lemma_count_singleton(s2[0], ChangeType::Added);
            lemma_count_singleton(s2[0], ChangeType::Removed);
            assert(s1 =~= seq![s1[0]]);
            assert(s2 =~= seq![s2[0]]);
            assert(s1[0].change_type != ChangeType::Added && s1[0].change_type
                != ChangeType::Removed);
            assert(s2[0].change_type != ChangeType::Added && s2[0].change_type
                != ChangeType::Removed);
        },
    }
}

/// Swapping the sides of an array comparison, from position `i` on,
/// swaps the added and removed counts.
proof fn lemma_swap_idx(
    p1: Seq<SegV>,
    p2: Seq<SegV>,
    av: Seq<NodeV>,
    bv: Seq<NodeV>,
    cfg: DiffConfig,
    i: int,
)
    requires
        wf_nodes(av),
        wf_nodes(bv),
        0 <= i,
    ensures
        count_ct(spec_diff_idx(p1, av, bv, i, cfg), ChangeType::Added) == count_ct(
            spec_diff_idx(p2, bv, av, i, cfg),
            ChangeType::Removed,
        ),
        count_ct(spec_diff_idx(p1, av, bv, i, cfg), ChangeType::Removed) == count_ct(
            spec_diff_idx(p2, bv, av, i, cfg),
            ChangeType::Added,
        ),
    decreases NodeV::Array(av).height() + NodeV::Array(bv).height(), 0int, max_len(av, bv) - i,
{
    if i < max_len(av, bv) {
        if 0 <= i < av.len() {
            lemma_wf_nodes_index(av, i);
            lemma_heights_of_index(av, i);
        }
        if 0 <= i < bv.len() {
            lemma_wf_nodes_index(bv, i);
            lemma_heights_of_index(bv, i);
        }
        lemma_swap_opt(
            p1.push(SegV::Index(i)),
            p2.push(SegV::Index(i)),
            opt_get(av, i),
            opt_get(bv, i),
            cfg,
        );
        lemma_swap_idx(p1, p2, av, bv, cfg, i + 1);
        lemma_count_concat(
            spec_diff_opt(p1.push(SegV::Index(i)), opt_get(av, i), opt_get(bv, i), cfg),
            spec_diff_idx(p1, av, bv, i + 1, cfg),
            ChangeType::Added,
        );
        lemma_count_concat(
            spec_diff_opt(p1.push(SegV::Index(i)), opt_get(av, i), opt_get(bv, i), cfg),
            spec_diff_idx(p1, av, bv, i + 1, cfg),
            ChangeType::Removed,
        );
        lemma_count_concat(
            spec_diff_opt(p2.push(SegV::Index(i)), opt_get(bv, i), opt_get(av, i), cfg),
            spec_diff_idx(p2, bv, av, i + 1, cfg),
            ChangeType::Added,
        );
        lemma_count_concat(
            spec_diff_opt(p2.push(SegV::Index(i)), opt_get(bv, i), opt_get(av, i), cfg),
            spec_diff_idx(p2, bv, av, i + 1, cfg),
            ChangeType::Removed,
        );
    }
}

/// Symmetry under swapping the trees: what one direction counts as
/// added, the other counts as removed, and the other way round.
pub proof fn lemma_diff_swap(a: NodeV, b: NodeV, cfg: DiffConfig)
    requires
        a.wf(),
        b.wf(),
    ensures
        count_ct(spec_diff(a, b, cfg), ChangeType::Added) == count_ct(
            spec_diff(b, a, cfg),
            ChangeType::Removed,
        ),
        count_ct(spec_diff(a, b, cfg), ChangeType::Removed) == count_ct(
            spec_diff(b, a, cfg),
            ChangeType::Added,
        ),
{
    lemma_swap_both(Seq::empty(), Seq::empty(), a, b, cfg);
}

} // verus!


