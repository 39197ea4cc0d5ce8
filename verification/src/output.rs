//! Rendering a diff for people and machines: colorized terminal text,
//! plain text, and JSON.
//!
//! Every byte of the output is specified: `format_diff` returns
//! exactly the text that the spec-level rendering functions name.

use crate::diff::Change;
use crate::diff::ChangeType;
use crate::diff::ChangeV;
use crate::diff::Diff;
use crate::diff::DiffStats;
use crate::diff::SegV;
use crate::diff::changes_view;
use crate::diff::opt_view;
use crate::error::OutputError;
use crate::git::str_eq;
use crate::tree::Node;
use crate::tree::NodeV;
use crate::tree::lemma_view_entries;
use crate::tree::lemma_view_nodes;
use crate::tree::view_entries;
use crate::tree::view_nodes;
use vstd::prelude::*;

verus! {

/// How the rendered diff is presented.
#[derive(Debug, Clone, Copy, PartialEq, Eq, Structural)]
pub enum OutputFormat {
    /// Colorized text for a terminal.
    Terminal,
    /// A JSON document.
    Json,
    /// Plain text without colors.
    Plain,
}

/// Presentation options.
#[derive(Debug, Clone)]
pub struct OutputOptions {
    /// Suppress `Unchanged` records.
    pub compact: bool,
    /// Print values in full rather than truncated previews.
    pub show_values: bool,
    /// Length at which a preview is cut off.
    pub max_value_length: usize,
    /// In compact mode, also show unchanged records this close to a
    /// change.
    pub context_lines: usize,
}

impl OutputOptions {
    /// The default presentation.
    pub open spec fn spec_default() -> OutputOptions {
        OutputOptions { compact: true, show_values: false, max_value_length: 80, context_lines: 0 }
    }
}

impl Default for OutputOptions {
    fn default() -> (r: Self)
        ensures
            r == OutputOptions::spec_default(),
    {
        OutputOptions { compact: true, show_values: false, max_value_length: 80, context_lines: 0 }
    }
}

/// One decimal digit.
pub open spec fn digit_char(d: nat) -> char {
    if d == 0 {
        '0'
    } else if d == 1 {
        '1'
    } else if d == 2 {
        '2'
    } else if d == 3 {
        '3'
    } else if d == 4 {
        '4'
    } else if d == 5 {
        '5'
    } else if d == 6 {
        '6'
    } else if d == 7 {
        '7'
    } else if d == 8 {
        '8'
    } else {
        '9'
    }
}

/// Decimal rendering of a number.
pub open spec fn dec_digits(n: nat) -> Seq<char>
    decreases n,
{
    if n < 10 {
        seq![digit_char(n)]
    } else {
        dec_digits(n / 10).push(digit_char(n % 10))
    }
}

/// A string character after escaping: quote, backslash and the three
/// common control characters are escaped; everything else stands for
/// itself.
pub open spec fn esc_char(c: char) -> Seq<char> {
    if c == '"' {
        seq!['\\', '"']
    } else if c == '\\' {
        seq!['\\', '\\']
    } else if c == '\n' {
        seq!['\\', 'n']
    } else if c == '\r' {
        seq!['\\', 'r']
    } else if c == '\t' {
        seq!['\\', 't']
    } else {
        seq![c]
    }
}

/// A string after escaping.
pub open spec fn esc_text(s: Seq<char>) -> Seq<char>
    decreases s.len(),
{
    if s.len() == 0 {
        Seq::empty()
    } else {
        esc_text(s.drop_last()) + esc_char(s[s.len() - 1])
    }
}

/// Text of one path segment: `.key` or `[index]`.
pub open spec fn seg_text(s: SegV) -> Seq<char> {
    match s {
        SegV::Key(k) => seq!['.'] + k,
        SegV::Index(i) => seq!['['] + dec_digits(if i >= 0 {
            i as nat
        } else {
            0
        }) + seq![']'],
    }
}

/// Text of a path's segments.
pub open spec fn segs_text(p: Seq<SegV>) -> Seq<char>
    decreases p.len(),
{
    if p.len() == 0 {
        Seq::empty()
    } else {
        segs_text(p.drop_last()) + seg_text(p[p.len() - 1])
    }
}

/// Text of a whole path, from the root `$`.
pub open spec fn path_text(p: Seq<SegV>) -> Seq<char> {
    seq!['$'] + segs_text(p)
}

/// Text of a node, in JSON shape.
pub open spec fn node_text(v: NodeV) -> Seq<char>
    decreases v, 1int, 0int,
{
    match v {
        NodeV::Null => "null"@,
        NodeV::Bool(b) => if b {
            "true"@
        } else {
            "false"@
        },
        NodeV::Number(s) => s,
        NodeV::Str(s) => seq!['"'] + esc_text(s) + seq!['"'],
        NodeV::Array(items) => seq!['['] + items_text(items) + seq![']'],
        NodeV::Object(entries) => seq!['{'] + entries_text(entries) + seq!['}'],
    }
}

/// Comma-separated text of array elements.
pub open spec fn items_text(s: Seq<NodeV>) -> Seq<char>
    decreases s, 0int, 1int,
{
    if s.len() == 0 {
        Seq::empty()
    } else if s.len() == 1 {
        node_text(s[0])
    } else {
        items_text(s.drop_last()) + seq![','] + node_text(s[s.len() - 1])
    }
}

/// Comma-separated text of object entries.
pub open spec fn entries_text(s: Seq<(Seq<char>, NodeV)>) -> Seq<char>
    decreases s, 0int, 1int,
{
    if s.len() == 0 {
        Seq::empty()
    } else if s.len() == 1 {
        entry_text(s[0])
    } else {
        entries_text(s.drop_last()) + seq![','] + entry_text(s[s.len() - 1])
    }
}

/// Text of one object entry: quoted key, colon, value.
pub open spec fn entry_text(e: (Seq<char>, NodeV)) -> Seq<char>
    decreases e, 0int, 0int,
{
    seq!['"'] + esc_text(e.0) + seq!['"', ':'] + node_text(e.1)
}

/// A value's preview: its text, cut off after `max_value_length`
/// characters unless values are shown in full.
pub open spec fn preview(v: NodeV, opts: OutputOptions) -> Seq<char> {
    let full = node_text(v);
    if !opts.show_values && full.len() > opts.max_value_length {
        full.take(opts.max_value_length as int) + "..."@
    } else {
        full
    }
}

/// Preview of an optional value.
pub open spec fn opt_text(o: Option<NodeV>, opts: OutputOptions) -> Seq<char> {
    match o {
        Some(v) => preview(v, opts),
        None => "(none)"@,
    }
}

/// The marker that starts a change line.
pub open spec fn sigil(t: ChangeType) -> Seq<char> {
    match t {
        ChangeType::Added => "+ "@,
        ChangeType::Removed => "- "@,
        ChangeType::Modified => "~ "@,
        ChangeType::Unchanged => "  "@,
    }
}

/// The color that starts a terminal change line.
pub open spec fn color_pre(t: ChangeType) -> Seq<char> {
    match t {
        ChangeType::Added => "\u{1b}[32m"@,
        ChangeType::Removed => "\u{1b}[31m"@,
        ChangeType::Modified => "\u{1b}[33m"@,
        ChangeType::Unchanged => Seq::empty(),
    }
}

/// The color reset that ends a colored terminal line.
pub open spec fn color_post(t: ChangeType) -> Seq<char> {
    match t {
        ChangeType::Unchanged => Seq::empty(),
        _ => "\u{1b}[0m"@,
    }
}

/// The text after a change line's path: the values involved.
pub open spec fn detail_text(c: ChangeV, opts: OutputOptions) -> Seq<char> {
    match c.change_type {
        ChangeType::Added => opt_text(c.new_value, opts),
        ChangeType::Removed => opt_text(c.old_value, opts),
        ChangeType::Modified => opt_text(c.old_value, opts) + " -> "@ + opt_text(
            c.new_value,
            opts,
        ),
        ChangeType::Unchanged => opt_text(c.old_value, opts),
    }
}

/// One change line, without color.
pub open spec fn line_text(c: ChangeV, opts: OutputOptions) -> Seq<char> {
    sigil(c.change_type) + path_text(c.path) + ": "@ + detail_text(c, opts)
}

/// Whether the record at `i` is shown: always outside compact mode;
/// in compact mode when it is a change, or an unchanged record within
/// `context_lines` of one.
pub open spec fn selected(cs: Seq<ChangeV>, i: int, opts: OutputOptions) -> bool {
    !opts.compact || cs[i].change_type != ChangeType::Unchanged || exists|j: int|
        0 <= j < cs.len() && i - opts.context_lines <= j <= i + opts.context_lines && cs[
            j
        ].change_type != ChangeType::Unchanged
}

/// The shown lines among the first `upto` records, each ended by a
/// newline and colored when `colored`.
pub open spec fn lines_text(cs: Seq<ChangeV>, upto: int, opts: OutputOptions, colored: bool) -> Seq<
    char,
>
    decreases upto,
{
    if upto <= 0 {
        Seq::empty()
    } else {
        lines_text(cs, upto - 1, opts, colored) + if selected(cs, upto - 1, opts) {
            let c = cs[upto - 1];
            (if colored {
                color_pre(c.change_type)
            } else {
                Seq::empty()
            }) + line_text(c, opts) + (if colored {
                color_post(c.change_type)
            } else {
                Seq::empty()
            }) + seq!['\n']
        } else {
            Seq::empty()
        }
    }
}

/// The name of a change kind in the JSON output.
pub open spec fn kind_name(t: ChangeType) -> Seq<char> {
    match t {
        ChangeType::Added => "added"@,
        ChangeType::Removed => "removed"@,
        ChangeType::Modified => "modified"@,
        ChangeType::Unchanged => "unchanged"@,
    }
}

/// JSON text of an optional value: the value itself, or `null`.
pub open spec fn json_opt(o: Option<NodeV>) -> Seq<char> {
    match o {
        Some(v) => node_text(v),
        None => "null"@,
    }
}

/// One change as a JSON object.
pub open spec fn json_change(c: ChangeV) -> Seq<char> {
    "{\"path\":\""@ + esc_text(path_text(c.path)) + "\",\"type\":\""@ + kind_name(c.change_type)
        + "\",\"old\":"@ + json_opt(c.old_value) + ",\"new\":"@ + json_opt(c.new_value) + "}"@
}

/// Whether any record before `i` is shown.
pub open spec fn any_selected_before(cs: Seq<ChangeV>, i: int, opts: OutputOptions) -> bool {
    exists|j: int| 0 <= j < i && selected(cs, j, opts)
}

/// The shown records among the first `upto`, as comma-separated JSON
/// objects.
pub open spec fn json_items(cs: Seq<ChangeV>, upto: int, opts: OutputOptions) -> Seq<char>
    decreases upto,
{
    if upto <= 0 {
        Seq::empty()
    } else {
        json_items(cs, upto - 1, opts) + if selected(cs, upto - 1, opts) {
            (if any_selected_before(cs, upto - 1, opts) {
                seq![',']
            } else {
                Seq::empty()
            }) + json_change(cs[upto - 1])
        } else {
            Seq::empty()
        }
    }
}

/// The whole diff as one JSON document.
pub open spec fn json_text(cs: Seq<ChangeV>, stats: DiffStats, opts: OutputOptions) -> Seq<char> {
    "{\"changes\":["@ + json_items(cs, cs.len() as int, opts) + "],\"stats\":{\"added\":"@
        + dec_digits(stats.added as nat) + ",\"removed\":"@ + dec_digits(stats.removed as nat)
        + ",\"modified\":"@ + dec_digits(stats.modified as nat) + ",\"unchanged\":"@ + dec_digits(
        stats.unchanged as nat,
    ) + "}}"@
}

/// The full rendering of a diff in one format.
pub open spec fn spec_format_diff(d: Diff, format: OutputFormat, opts: OutputOptions) -> Seq<char> {
    let cs = changes_view(d.changes@);
    match format {
        OutputFormat::Terminal => lines_text(cs, cs.len() as int, opts, true),
        OutputFormat::Plain => lines_text(cs, cs.len() as int, opts, false),
        OutputFormat::Json => json_text(cs, d.stats, opts),
    }
}


/// Relies on String::push: appends exactly the one character.
#[verifier::external_body]
fn push_char(out: &mut String, c: char)
    ensures
        final(out)@ == old(out)@ + seq![c],
{
    out.push(c);
}

/// The character for one digit.
fn digit_of(d: usize) -> (c: char)
    requires
        d < 10,
    ensures
        c == digit_char(d as nat),
{
    match d {
        0 => '0',
        1 => '1',
        2 => '2',
        3 => '3',
        4 => '4',
        5 => '5',
        6 => '6',
        7 => '7',
        8 => '8',
        _ => '9',
    }
}

/// Appends the decimal rendering of `n`.
fn push_usize(out: &mut String, n: usize)
    ensures
        final(out)@ == old(out)@ + dec_digits(n as nat),
    decreases n,
{
    if n < 10 {
        push_char(out, digit_of(n));
    } else {
        push_usize(out, n / 10);
        push_char(out, digit_of(n % 10));
        proof {
            assert(final(out)@ =~= old(out)@ + dec_digits(n as nat));
        }
    }
}

/// Appends `s` with its characters escaped.
#[verifier::loop_isolation(false)]
fn push_esc(out: &mut String, s: &str)
    ensures
        final(out)@ == old(out)@ + esc_text(s@),
{
    let n = s.unicode_len();
    proof {
        assert(s@.take(0).len() == 0);
        assert(old(out)@ + esc_text(s@.take(0)) =~= old(out)@);
    }
    for i in 0..n
        invariant
            out@ == old(out)@ + esc_text(s@.take(i as int)),
    {
        let c = s.get_char(i);
        proof {
            assert(s@.take(i as int + 1).drop_last() =~= s@.take(i as int));
            assert(s@.take(i as int + 1)[i as int] == s@[i as int]);
        }
        if c == '"' {
            push_char(out, '\\');
            push_char(out, '"');
        } else if c == '\\' {
            push_char(out, '\\');
            push_char(out, '\\');
        } else if c == '\n' {
            push_char(out, '\\');
            push_char(out, 'n');
        } else if c == '\r' {
            push_char(out, '\\');
            push_char(out, 'r');
        } else if c == '\t' {
            push_char(out, '\\');
            push_char(out, 't');
        } else {
            push_char(out, c);
        }
        proof {
            assert(out@ =~= old(out)@ + esc_text(s@.take(i as int + 1)));
        }
    }
    proof {
        assert(s@.take(n as int) =~= s@);
    }
}

/// Appends the text of one node.
#[verifier::loop_isolation(false)]
#[verifier::rlimit(100)]
fn push_node_text(out: &mut String, node: &Node)
    ensures
        final(out)@ == old(out)@ + node_text(node@),
    decreases node@.height(),
{
    match node {
        Node::Null => {
            out.append("null");
        },
        Node::Bool(b) => {
            if *b {
                out.append("true");
            } else {
                out.append("false");
            }
        },
        Node::Number(s) => {
            out.append(s.as_str());
        },
        Node::Str(s) => {
            push_char(out, '"');
            push_esc(out, s.as_str());
            push_char(out, '"');
            proof {
                assert(final(out)@ =~= old(out)@ + node_text(node@));
            }
        },
        Node::Array(items) => {
            push_char(out, '[');
            let ghost avv = view_nodes(items@);
            let ghost base = out@;
            proof {
                lemma_view_nodes(items@);
                assert(node@ == NodeV::Array(avv));
                assert(node@.height() == 1 + crate::tree::heights_of(avv));
                assert(base + items_text(avv.take(0)) =~= base);
            }
            let n_items = items.len();
            for i in 0..n_items
                invariant
                    n_items == items.len(),
                    out@ == base + items_text(avv.take(i as int)),
            {
                proof {
                    crate::tree::lemma_heights_of_index(avv, i as int);
                }
                if i > 0 {
                    push_char(out, ',');
                }
                push_node_text(out, &items[i]);
                proof {
                    assert(avv.take(i as int + 1).drop_last() =~= avv.take(i as int));
                    assert(avv.take(i as int + 1)[i as int] == avv[i as int]);
                    if i == 0 {
                        assert(avv.take(1).len() == 1);
                    }
                    assert(out@ =~= base + items_text(avv.take(i as int + 1)));
                }
            }
            proof {
                assert(avv.take(n_items as int) =~= avv);
            }
            push_char(out, ']');
            proof {
                assert(final(out)@ =~= old(out)@ + node_text(node@));
            }
        },
        Node::Object(entries) => {
            push_char(out, '{');
            let ghost evv = view_entries(entries@);
            let ghost base = out@;
            proof {
                lemma_view_entries(entries@);
                assert(node@ == NodeV::Object(evv));
                assert(node@.height() == 1 + crate::tree::heights_of_entries(evv));
                assert(base + entries_text(evv.take(0)) =~= base);
            }
            let n_entries = entries.len();
            for i in 0..n_entries
                invariant
                    n_entries == entries.len(),
                    out@ == base + entries_text(evv.take(i as int)),
            {
                proof {
                    crate::tree::lemma_heights_of_entries_index(evv, i as int);
                }
                if i > 0 {
                    push_char(out, ',');
                }
                push_char(out, '"');
                push_esc(out, entries[i].0.as_str());
                push_char(out, '"');
                push_char(out, ':');
                push_node_text(out, &entries[i].1);
                proof {
                    assert(evv.take(i as int + 1).drop_last() =~= evv.take(i as int));
                    assert(evv.take(i as int + 1)[i as int] == evv[i as int]);
                    let e = evv[i as int];
                    assert(entry_text(e) == seq!['"'] + esc_text(e.0) + seq!['"', ':']
                        + node_text(e.1));
                    if i == 0 {
                        assert(evv.take(1).len() == 1);
                        assert(entries_text(evv.take(1)) == entry_text(e));
                    } else {
                        assert(entries_text(evv.take(i as int + 1)) == entries_text(
                            evv.take(i as int),
                        ) + seq![','] + entry_text(e));
                    }
                    assert(out@ =~= base + entries_text(evv.take(i as int + 1)));
                }
            }
            proof {
                assert(evv.take(n_entries as int) =~= evv);
            }
            push_char(out, '}');
            proof {
                assert(final(out)@ =~= old(out)@ + node_text(node@));
            }
        },
    }
}

/// Appends the text of a change's path.
#[verifier::loop_isolation(false)]
fn push_path(out: &mut String, p: &Vec<crate::diff::PathSeg>)
    ensures
        final(out)@ == old(out)@ + path_text(crate::diff::path_view(p@)),
{
    push_char(out, '$');
    let ghost pv = crate::diff::path_view(p@);
    let ghost base = out@;
    proof {
        assert(base + segs_text(pv.take(0)) =~= base);
    }
    let n = p.len();
    for i in 0..n
        invariant
            n == p.len(),
            out@ == base + segs_text(pv.take(i as int)),
    {
        proof {
            assert(pv.take(i as int + 1).drop_last() =~= pv.take(i as int));
            assert(pv.take(i as int + 1)[i as int] == pv[i as int]);
            assert(pv[i as int] == p@[i as int]@);
        }
        match &p[i] {
            crate::diff::PathSeg::Key(k) => {
                push_char(out, '.');
                out.append(k.as_str());
            },
            crate::diff::PathSeg::Index(ix) => {
                push_char(out, '[');
                push_usize(out, *ix);
                push_char(out, ']');
            },
        }
        proof {
            assert(out@ =~= base + segs_text(pv.take(i as int + 1)));
        }
    }
    proof {
        assert(pv.take(n as int) =~= pv);
        assert(final(out)@ =~= old(out)@ + path_text(pv));
    }
}

/// Appends the preview of an optional value.
fn push_opt_preview(out: &mut String, o: &Option<Node>, opts: &OutputOptions)
    ensures
        final(out)@ == old(out)@ + opt_text(opt_view(*o), *opts),
{
    match o {
        None => {
            out.append("(none)");
        },
        Some(node) => {
            let mut t = String::new();
            push_node_text(&mut t, node);
            if !opts.show_values && t.unicode_len() > opts.max_value_length {
                let cut = t.substring_char(0, opts.max_value_length);
                out.append(cut);
                out.append("...");
                proof {
                    assert(cut@ =~= node_text(node@).take(opts.max_value_length as int));
                    assert(final(out)@ =~= old(out)@ + opt_text(opt_view(*o), *opts));
                }
            } else {
                out.append(t.as_str());
            }
        },
    }
}

/// Appends one change line, without color.
fn push_line(out: &mut String, c: &Change, opts: &OutputOptions)
    ensures
        final(out)@ == old(out)@ + line_text(c@, *opts),
{
    match c.change_type {
        ChangeType::Added => out.append("+ "),
        ChangeType::Removed => out.append("- "),
        ChangeType::Modified => out.append("~ "),
        ChangeType::Unchanged => out.append("  "),
    }
    push_path(out, &c.path);
    out.append(": ");
    match c.change_type {
        ChangeType::Added => {
            push_opt_preview(out, &c.new_value, opts);
        },
        ChangeType::Removed => {
            push_opt_preview(out, &c.old_value, opts);
        },
        ChangeType::Modified => {
            push_opt_preview(out, &c.old_value, opts);
            out.append(" -> ");
            push_opt_preview(out, &c.new_value, opts);
        },
        ChangeType::Unchanged => {
            push_opt_preview(out, &c.old_value, opts);
        },
    }
    proof {
        assert(final(out)@ =~= old(out)@ + line_text(c@, *opts));
    }
}

/// Whether the record at `i` is shown, matching `selected`.
#[verifier::loop_isolation(false)]
fn is_selected(changes: &Vec<Change>, i: usize, opts: &OutputOptions) -> (r: bool)
    requires
        i < changes@.len(),
    ensures
        r == selected(changes_view(changes@), i as int, *opts),
{
    let ghost cv = changes_view(changes@);
    proof {
        assert(cv[i as int] == changes@[i as int]@);
    }
    if !opts.compact {
        return true;
    }
    let ct = changes[i].change_type;
    if !matches!(ct, ChangeType::Unchanged) {
        return true;
    }
    let len = changes.len();
    let ctx = if opts.context_lines > len {
        len
    } else {
        opts.context_lines
    };
    let lo = if i > ctx {
        i - ctx
    } else {
        0
    };
    let hi = if len - i - 1 <= ctx {
        len
    } else {
        i + ctx + 1
    };
    for j in lo..hi
        invariant
            forall|k: int| lo <= k < j ==> changes_view(changes@)[k].change_type
                == ChangeType::Unchanged,
    {
        let cj = changes[j].change_type;
        proof {
            assert(cv[j as int] == changes@[j as int]@);
        }
        if !matches!(cj, ChangeType::Unchanged) {
            proof {
                assert(i - opts.context_lines <= j <= i + opts.context_lines);
            }
            return true;
        }
    }
    proof {
        assert forall|j: int|
            0 <= j < cv.len() && i - opts.context_lines <= j && j <= i + opts.context_lines
            implies cv[j].change_type == ChangeType::Unchanged by {
            assert(lo <= j < hi);
        }
    }
    false
}

/// The line rendering of a diff, colored or plain.
#[verifier::loop_isolation(false)]
#[verifier::rlimit(100)]
fn render_lines(diff: &Diff, opts: &OutputOptions, colored: bool) -> (r: String)
    ensures
        r@ == lines_text(
            changes_view(diff.changes@),
            changes_view(diff.changes@).len() as int,
            *opts,
            colored,
        ),
{
    let ghost cv = changes_view(diff.changes@);
    let mut out = String::new();
    let n = diff.changes.len();
    for i in 0..n
        invariant
            n == diff.changes@.len(),
            out@ == lines_text(cv, i as int, *opts, colored),
    {
        let sel = is_selected(&diff.changes, i, opts);
        if sel {
            let ct = diff.changes[i].change_type;
            if colored {
                match ct {
                    ChangeType::Added => out.append("\u{1b}[32m"),
                    ChangeType::Removed => out.append("\u{1b}[31m"),
                    ChangeType::Modified => out.append("\u{1b}[33m"),
                    ChangeType::Unchanged => (),
                }
            }
            push_line(&mut out, &diff.changes[i], opts);
            if colored {
                match ct {
                    ChangeType::Unchanged => (),
                    _ => out.append("\u{1b}[0m"),
                }
            }
            push_char(&mut out, '\n');
        }
        proof {
            assert(cv[i as int] == diff.changes@[i as int]@);
            assert(out@ =~= lines_text(cv, i as int + 1, *opts, colored));
        }
    }
    out
}

/// Appends one change as a JSON object.
#[verifier::rlimit(100)]
fn push_json_change(out: &mut String, c: &Change)
    ensures
        final(out)@ == old(out)@ + json_change(c@),
{
    out.append("{\"path\":\"");
    let mut t = String::new();
    push_path(&mut t, &c.path);
    push_esc(out, t.as_str());
    out.append("\",\"type\":\"");
    match c.change_type {
        ChangeType::Added => out.append("added"),
        ChangeType::Removed => out.append("removed"),
        ChangeType::Modified => out.append("modified"),
        ChangeType::Unchanged => out.append("unchanged"),
    }
    out.append("\",\"old\":");
    match &c.old_value {
        Some(v) => push_node_text(out, v),
        None => out.append("null"),
    }
    out.append(",\"new\":");
    match &c.new_value {
        Some(v) => push_node_text(out, v),
        None => out.append("null"),
    }
    out.append("}");
    proof {
        assert(final(out)@ =~= old(out)@ + json_change(c@));
    }
}

/// The JSON rendering of a diff.
#[verifier::loop_isolation(false)]
#[verifier::rlimit(60)]
fn render_json(diff: &Diff, opts: &OutputOptions) -> (r: String)
    ensures
        r@ == json_text(changes_view(diff.changes@), diff.stats, *opts),
{
    let ghost cv = changes_view(diff.changes@);
    let mut out = String::new();
    out.append("{\"changes\":[");
    let ghost base = out@;
    proof {
        assert(base + json_items(cv, 0, *opts) =~= base);
    }
    let mut first = true;
    let n = diff.changes.len();
    for i in 0..n
        invariant
            n == diff.changes@.len(),
            out@ == base + json_items(cv, i as int, *opts),
            first == !any_selected_before(cv, i as int, *opts),
    {
        let sel = is_selected(&diff.changes, i, opts);
        if sel {
            if !first {
                push_char(&mut out, ',');
            }
            push_json_change(&mut out, &diff.changes[i]);
            first = false;
        }
        proof {
            assert(cv[i as int] == diff.changes@[i as int]@);
            if sel {
                assert(any_selected_before(cv, i as int + 1, *opts));
            } else {
                assert(any_selected_before(cv, i as int + 1, *opts) == any_selected_before(
                    cv,
                    i as int,
                    *opts,
                )) by {
                    if any_selected_before(cv, i as int + 1, *opts) {
                        let j = choose|j: int| 0 <= j < i as int + 1 && selected(cv, j, *opts);
                        assert(j < i as int || j == i as int);
                    }
                }
            }
            assert(out@ =~= base + json_items(cv, i as int + 1, *opts));
        }
    }
    out.append("],\"stats\":{\"added\":");
    push_usize(&mut out, diff.stats.added);
    out.append(",\"removed\":");
    push_usize(&mut out, diff.stats.removed);
    out.append(",\"modified\":");
    push_usize(&mut out, diff.stats.modified);
    out.append(",\"unchanged\":");
    push_usize(&mut out, diff.stats.unchanged);
    out.append("}}");
    proof {
        assert(out@ =~= json_text(cv, diff.stats, *opts));
    }
    out
}

/// Renders a diff in the requested format.  Rendering never fails:
/// the result is exactly the specified text of the diff.
pub fn format_diff(diff: &Diff, format: &OutputFormat, options: &OutputOptions) -> (r: Result<
    String,
    OutputError,
>)
    ensures
        r matches Ok(s) && s@ == spec_format_diff(*diff, *format, *options),
{
    match format {
        OutputFormat::Terminal => Ok(render_lines(diff, options, true)),
        OutputFormat::Plain => Ok(render_lines(diff, options, false)),
        OutputFormat::Json => Ok(render_json(diff, options)),
    }
}

/// Reads a format name: `terminal`, `json` or `plain`; anything else
/// is an unknown-format error that carries the name.
pub fn parse_output_format(s: &str) -> (r: Result<OutputFormat, OutputError>)
    ensures
        s@ == "terminal"@ ==> r == Ok::<OutputFormat, OutputError>(OutputFormat::Terminal),
        s@ == "json"@ ==> r == Ok::<OutputFormat, OutputError>(OutputFormat::Json),
        s@ == "plain"@ ==> r == Ok::<OutputFormat, OutputError>(OutputFormat::Plain),
        (s@ != "terminal"@ && s@ != "json"@ && s@ != "plain"@) ==> (r matches Err(e)
            && e matches OutputError::UnknownFormat { format: f } && f@ == s@),
{
    proof {
        reveal_strlit("terminal");
        reveal_strlit("json");
        reveal_strlit("plain");
        assert("terminal"@.len() == 8 && "json"@.len() == 4 && "plain"@.len() == 5);
    }
    if str_eq(s, "terminal") {
        Ok(OutputFormat::Terminal)
    } else if str_eq(s, "json") {
        Ok(OutputFormat::Json)
    } else if str_eq(s, "plain") {
        Ok(OutputFormat::Plain)
    } else {
        Err(OutputError::UnknownFormat { format: s.to_owned() })
    }
}

} // verus!

