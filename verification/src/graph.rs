//! The commit graph: commits read from git's output, the column and colour
//! that each commit is drawn with, and the selection that the keys move.

use vstd::prelude::*;
use crate::strmap::StringMap;
use crate::text::{
    is_white, law_trimmed, lemma_split_concat, lemma_split_no_sep, law_without_char, leading_white, lines, lines_of, remove_char, split_char,
    split_on, trim, trimmed, without_char,
};

verus! {

/// The colours that the graph is drawn with.
#[derive(Debug, Clone, Copy, PartialEq, Eq)]
pub enum Color {
    Red,
    Green,
    Yellow,
    Blue,
    Magenta,
    Cyan,
    LightRed,
    LightGreen,
    LightYellow,
    LightBlue,
    LightMagenta,
    LightCyan,
    White,
    DarkGray,
}

/// The colour that the `k`-th newly seen branch gets: the twelve palette
/// colours in turn.
pub open spec fn palette(k: nat) -> Color {
    let i = k % 12;
    if i == 0 {
        Color::Red
    } else if i == 1 {
        Color::Green
    } else if i == 2 {
        Color::Yellow
    } else if i == 3 {
        Color::Blue
    } else if i == 4 {
        Color::Magenta
    } else if i == 5 {
        Color::Cyan
    } else if i == 6 {
        Color::LightRed
    } else if i == 7 {
        Color::LightGreen
    } else if i == 8 {
        Color::LightYellow
    } else if i == 9 {
        Color::LightBlue
    } else if i == 10 {
        Color::LightMagenta
    } else {
        Color::LightCyan
    }
}

/// One commit of the history.
#[derive(Debug, Clone)]
pub struct Commit {
    pub hash: String,
    pub author: String,
    pub date: String,
    pub message: String,
    pub branches: Vec<String>,
    pub parents: Vec<String>,
}

#[verifier::ext_equal]
pub struct CommitView {
    pub hash: Seq<char>,
    pub author: Seq<char>,
    pub date: Seq<char>,
    pub message: Seq<char>,
    pub branches: Seq<Seq<char>>,
    pub parents: Seq<Seq<char>>,
}

impl View for Commit {
    type V = CommitView;

    open spec fn view(&self) -> CommitView {
        CommitView {
            hash: self.hash@,
            author: self.author@,
            date: self.date@,
            message: self.message@,
            branches: self.branches.deep_view(),
            parents: self.parents.deep_view(),
        }
    }
}

/// A commit with where and how it is drawn.
#[derive(Debug, Clone)]
pub struct GraphNode {
    pub commit: Commit,
    pub column: usize,
    pub color: Color,
}

#[verifier::ext_equal]
pub struct NodeView {
    pub commit: CommitView,
    pub column: usize,
    pub color: Color,
}

impl View for GraphNode {
    type V = NodeView;

    open spec fn view(&self) -> NodeView {
        NodeView { commit: self.commit@, column: self.column, color: self.color }
    }
}

/// The graph of commits that the viewer shows.
pub struct GitGraph {
    pub commits: Vec<GraphNode>,
    pub branch_colors: StringMap<Color>,
    pub selected_index: usize,
}

#[verifier::ext_equal]
pub struct GraphView {
    pub nodes: Seq<NodeView>,
    pub branch_colors: Map<Seq<char>, Color>,
    pub selected: usize,
}

pub open spec fn node_views(nodes: Seq<GraphNode>) -> Seq<NodeView> {
    nodes.map_values(|n: GraphNode| n@)
}

impl View for GitGraph {
    type V = GraphView;

    open spec fn view(&self) -> GraphView {
        GraphView {
            nodes: node_views(self.commits@),
            branch_colors: self.branch_colors.view(),
            selected: self.selected_index,
        }
    }
}

/// A key the viewer reacts to.
#[derive(Debug, Clone, Copy, PartialEq, Eq)]
pub enum Key {
    Up,
    Down,
    Char(char),
    Other,
}

// ---------------------------------------------------------------------------
// Specification of the graph layout
// ---------------------------------------------------------------------------

/// What building the graph keeps track of.
#[verifier::ext_equal]
pub struct BuildState {
    /// The column of each commit placed so far.
    pub columns: Map<Seq<char>, usize>,
    pub next_column: nat,
    /// How many branches have been given a colour in this build.
    pub color_count: nat,
    pub colors: Map<Seq<char>, Color>,
    pub nodes: Seq<NodeView>,
}

/// The colours after giving each branch of `branches` that has none the
/// next palette colour.
pub open spec fn assign_colors(colors: Map<Seq<char>, Color>, count: nat, branches: Seq<Seq<char>>) -> (
    Map<Seq<char>, Color>,
    nat,
)
    decreases branches.len(),
{
    if branches.len() == 0 {
        (colors, count)
    } else {
        let (c1, n1) = assign_colors(colors, count, branches.drop_last());
        let b = branches.last();
        if c1.contains_key(b) {
            (c1, n1)
        } else {
            (c1.insert(b, palette(n1)), n1 + 1)
        }
    }
}

/// The column of a commit: a commit without parents keeps the column it has
/// or takes the next free one; any other takes its first parent's column
/// (0 where that is unknown).
pub open spec fn column_of(st: BuildState, c: CommitView) -> usize {
    if c.parents.len() == 0 {
        if st.columns.contains_key(c.hash) {
            st.columns[c.hash]
        } else {
            st.next_column as usize
        }
    } else if st.columns.contains_key(c.parents[0]) {
        st.columns[c.parents[0]]
    } else {
        0
    }
}

/// The colour of a commit: that of its first branch, white without one.
pub open spec fn color_of(colors: Map<Seq<char>, Color>, c: CommitView) -> Color {
    if c.branches.len() > 0 && colors.contains_key(c.branches[0]) {
        colors[c.branches[0]]
    } else {
        Color::White
    }
}

/// Placing one more commit.
pub open spec fn build_step(st: BuildState, c: CommitView) -> BuildState {
    let column = column_of(st, c);
    let fresh = c.parents.len() == 0 && !st.columns.contains_key(c.hash);
    let (colors, count) = assign_colors(st.colors, st.color_count, c.branches);
    BuildState {
        columns: if fresh || c.parents.len() > 0 {
            st.columns.insert(c.hash, column)
        } else {
            st.columns
        },
        next_column: if fresh {
            st.next_column + 1
        } else {
            st.next_column
        },
        color_count: count,
        colors: colors,
        nodes: st.nodes.push(NodeView { commit: c, column: column, color: color_of(colors, c) }),
    }
}

/// Placing the commits `cs` in order.
pub open spec fn build_spec(st: BuildState, cs: Seq<CommitView>) -> BuildState
    decreases cs.len(),
{
    if cs.len() == 0 {
        st
    } else {
        build_step(build_spec(st, cs.drop_last()), cs.last())
    }
}

pub open spec fn initial_build(g: GraphView) -> BuildState {
    BuildState {
        columns: Map::empty(),
        next_column: 0,
        color_count: 0,
        colors: g.branch_colors,
        nodes: g.nodes,
    }
}

/// The graph after placing the commits `cs`.
pub open spec fn built_graph(g: GraphView, cs: Seq<CommitView>) -> GraphView {
    let st = build_spec(initial_build(g), cs);
    GraphView { nodes: st.nodes, branch_colors: st.colors, selected: g.selected }
}

// ---------------------------------------------------------------------------
// Specification of the selection
// ---------------------------------------------------------------------------

/// The last index a selection can reach among `len` commits.
pub open spec fn last_index(len: nat) -> nat {
    if len == 0 {
        0
    } else {
        (len - 1) as nat
    }
}

/// The selection after `key`.
pub open spec fn key_selection(selected: usize, len: nat, key: Key) -> usize {
    match key {
        Key::Up => if selected > 0 {
            (selected - 1) as usize
        } else {
            selected
        },
        Key::Down => if selected < last_index(len) {
            (selected + 1) as usize
        } else {
            selected
        },
        _ => selected,
    }
}

/// Whether the viewer goes on after `key`: every key but `q` keeps it open.
pub open spec fn keeps_running(key: Key) -> bool {
    key != Key::Char('q')
}

// ---------------------------------------------------------------------------
// Specification of reading git's output
// ---------------------------------------------------------------------------

/// The first four fields of a line of `git log --pretty=format:%H|%an|%ad|%s`.
#[derive(Debug, Clone)]
pub struct LogEntry {
    pub hash: String,
    pub author: String,
    pub date: String,
    pub message: String,
}

#[verifier::ext_equal]
pub struct LogEntryView {
    pub hash: Seq<char>,
    pub author: Seq<char>,
    pub date: Seq<char>,
    pub message: Seq<char>,
}

impl View for LogEntry {
    type V = LogEntryView;

    open spec fn view(&self) -> LogEntryView {
        LogEntryView {
            hash: self.hash@,
            author: self.author@,
            date: self.date@,
            message: self.message@,
        }
    }
}

/// The entries of the lines with at least four `|`-separated fields.
pub open spec fn log_entries(ls: Seq<Seq<char>>) -> Seq<LogEntryView>
    decreases ls.len(),
{
    if ls.len() == 0 {
        Seq::empty()
    } else {
        let r = log_entries(ls.drop_last());
        let parts = split_on(ls.last(), '|');
        if parts.len() >= 4 {
            r.push(
                LogEntryView { hash: parts[0], author: parts[1], date: parts[2], message: parts[3] },
            )
        } else {
            r
        }
    }
}

/// A line of `git branch --contains` without the current-branch marker.
pub open spec fn clean_branch(l: Seq<char>) -> Seq<char> {
    trimmed(without_char(trimmed(l), '*'))
}

/// The branch names that lines of `git branch --contains` list.
pub open spec fn branch_names(ls: Seq<Seq<char>>) -> Seq<Seq<char>>
    decreases ls.len(),
{
    if ls.len() == 0 {
        Seq::empty()
    } else {
        let r = branch_names(ls.drop_last());
        let b = clean_branch(ls.last());
        if b.len() > 0 {
            r.push(b)
        } else {
            r
        }
    }
}

/// The hashes that lines of `git rev-parse <hash>^@` list.
pub open spec fn parent_hashes(ls: Seq<Seq<char>>) -> Seq<Seq<char>>
    decreases ls.len(),
{
    if ls.len() == 0 {
        Seq::empty()
    } else {
        let r = parent_hashes(ls.drop_last());
        let p = trimmed(ls.last());
        if p.len() > 0 {
            r.push(p)
        } else {
            r
        }
    }
}

/// What git printed about one commit: its log entry and the output of the
/// commands that list its branches and its parents.
pub struct CommitOutput {
    pub entry: LogEntry,
    pub branches_output: String,
    pub parents_output: String,
}

/// The commit that git's output about it describes.
pub open spec fn commit_of(o: CommitOutput) -> CommitView {
    CommitView {
        hash: o.entry.hash@,
        author: o.entry.author@,
        date: o.entry.date@,
        message: o.entry.message@,
        branches: branch_names(lines_of(o.branches_output@)),
        parents: parent_hashes(lines_of(o.parents_output@)),
    }
}

pub open spec fn commit_views(cs: Seq<Commit>) -> Seq<CommitView> {
    cs.map_values(|c: Commit| c@)
}

pub open spec fn entry_views(es: Seq<LogEntry>) -> Seq<LogEntryView> {
    es.map_values(|e: LogEntry| e@)
}

pub open spec fn output_commits(os: Seq<CommitOutput>) -> Seq<CommitView> {
    os.map_values(|o: CommitOutput| commit_of(o))
}

// ---------------------------------------------------------------------------
// Laws
// ---------------------------------------------------------------------------

proof fn lemma_assign_colors(colors: Map<Seq<char>, Color>, count: nat, bs: Seq<Seq<char>>)
    ensures
        forall|k: Seq<char>|
            #[trigger] colors.contains_key(k) ==> assign_colors(colors, count, bs).0.contains_key(k)
                && assign_colors(colors, count, bs).0[k] == colors[k],
        forall|j: int|
            0 <= j < bs.len() ==> assign_colors(colors, count, bs).0.contains_key(#[trigger] bs[j]),
    decreases bs.len(),
{
    if bs.len() > 0 {
        lemma_assign_colors(colors, count, bs.drop_last());
        assert forall|j: int| 0 <= j < bs.len() implies assign_colors(
            colors,
            count,
            bs,
        ).0.contains_key(#[trigger] bs[j]) by {
            if j < bs.len() - 1 {
                assert(bs[j] == bs.drop_last()[j]);
            }
        }
    }
}

proof fn lemma_build(st: BuildState, cs: Seq<CommitView>)
    ensures
        ({
            let fin = build_spec(st, cs);
            &&& forall|k: Seq<char>|
                #[trigger] st.colors.contains_key(k) ==> fin.colors.contains_key(k) && fin.colors[k]
                    == st.colors[k]
            &&& forall|i: int, j: int|
                0 <= i < cs.len() && 0 <= j < cs[i].branches.len() ==> fin.colors.contains_key(
                    #[trigger] cs[i].branches[j],
                )
            &&& fin.nodes.len() == st.nodes.len() + cs.len()
            &&& forall|i: int| 0 <= i < st.nodes.len() ==> #[trigger] fin.nodes[i] == st.nodes[i]
            &&& forall|i: int|
                0 <= i < cs.len() ==> (#[trigger] fin.nodes[st.nodes.len() + i]).commit == cs[i]
                    && fin.nodes[st.nodes.len() + i].color == color_of(fin.colors, cs[i])
        }),
    decreases cs.len(),
{
    if cs.len() > 0 {
        let prev = build_spec(st, cs.drop_last());
        let c = cs.last();
        lemma_build(st, cs.drop_last());
        lemma_assign_colors(prev.colors, prev.color_count, c.branches);
        let fin = build_spec(st, cs);
        assert forall|i: int, j: int|
            0 <= i < cs.len() && 0 <= j < cs[i].branches.len() implies fin.colors.contains_key(
            #[trigger] cs[i].branches[j],
        ) by {
            if i < cs.len() - 1 {
                assert(cs[i] == cs.drop_last()[i]);
                assert(prev.colors.contains_key(cs.drop_last()[i].branches[j]));
            }
        }
        assert forall|i: int|
            0 <= i < cs.len() implies (#[trigger] fin.nodes[st.nodes.len() + i]).commit == cs[i]
            && fin.nodes[st.nodes.len() + i].color == color_of(fin.colors, cs[i]) by {
            if i < cs.len() - 1 {
                assert(cs[i] == cs.drop_last()[i]);
                assert(fin.nodes[st.nodes.len() + i] == prev.nodes[st.nodes.len() + i]);
                let ci = cs[i];
                if ci.branches.len() > 0 {
                    assert(prev.colors.contains_key(cs.drop_last()[i].branches[0]));
                }
            }
        }
    }
}

/// Building the graph keeps the commits already placed, places one node per
/// new commit in order, never recolours a branch, leaves no branch of a new
/// commit without a colour, and draws each new commit in the colour of its
/// first branch (white where it has none).
pub proof fn law_build_graph(g: GraphView, cs: Seq<CommitView>)
    ensures
        ({
            let h = built_graph(g, cs);
            &&& h.selected == g.selected
            &&& h.nodes.len() == g.nodes.len() + cs.len()
            &&& forall|i: int| 0 <= i < g.nodes.len() ==> #[trigger] h.nodes[i] == g.nodes[i]
            &&& forall|k: Seq<char>|
                #[trigger] g.branch_colors.contains_key(k) ==> h.branch_colors.contains_key(k)
                    && h.branch_colors[k] == g.branch_colors[k]
            &&& forall|i: int, j: int|
                0 <= i < cs.len() && 0 <= j < cs[i].branches.len() ==> h.branch_colors.contains_key(
                    #[trigger] cs[i].branches[j],
                )
            &&& forall|i: int|
                0 <= i < cs.len() ==> (#[trigger] h.nodes[g.nodes.len() + i]).commit == cs[i] && (
                if cs[i].branches.len() > 0 {
                    h.nodes[g.nodes.len() + i].color == h.branch_colors[cs[i].branches[0]]
                } else {
                    h.nodes[g.nodes.len() + i].color == Color::White
                })
        }),
{
    lemma_build(initial_build(g), cs);
    let fin = build_spec(initial_build(g), cs);
    let h = built_graph(g, cs);
    assert(h.nodes == fin.nodes);
    assert(h.branch_colors == fin.colors);
    assert(initial_build(g).nodes == g.nodes);
    assert(initial_build(g).colors == g.branch_colors);
    assert(h.nodes.len() == g.nodes.len() + cs.len());
    assert(forall|i: int| 0 <= i < g.nodes.len() ==> #[trigger] h.nodes[i] == g.nodes[i]);
    assert forall|i: int|
        0 <= i < cs.len() implies (#[trigger] built_graph(g, cs).nodes[g.nodes.len() + i]).commit
        == cs[i] && (if cs[i].branches.len() > 0 {
        built_graph(g, cs).nodes[g.nodes.len() + i].color == built_graph(
            g,
            cs,
        ).branch_colors[cs[i].branches[0]]
    } else {
        built_graph(g, cs).nodes[g.nodes.len() + i].color == Color::White
    }) by {
        if cs[i].branches.len() > 0 {
            assert(fin.colors.contains_key(cs[i].branches[0]));
        }
    }
}

/// Placing `a` then `b` is placing `a + b`.
proof fn lemma_build_concat(st: BuildState, a: Seq<CommitView>, b: Seq<CommitView>)
    ensures
        build_spec(st, a + b) == build_spec(build_spec(st, a), b),
    decreases b.len(),
{
    if b.len() == 0 {
        assert(a + b =~= a);
    } else {
        assert((a + b).drop_last() =~= a + b.drop_last());
        assert((a + b).last() == b.last());
        lemma_build_concat(st, a, b.drop_last());
    }
}

/// The column recorded for the last placement of a hash is the column of
/// that commit's node.
proof fn lemma_recorded_columns(st: BuildState, cs: Seq<CommitView>)
    ensures
        forall|k: int|
            0 <= k < cs.len() && (forall|m: int| k < m < cs.len() ==> cs[m].hash != cs[k].hash)
                ==> build_spec(st, cs).columns.contains_key(#[trigger] cs[k].hash) && build_spec(
                st,
                cs,
            ).columns[cs[k].hash] == build_spec(st, cs).nodes[st.nodes.len() + k].column,
    decreases cs.len(),
{
    if cs.len() > 0 {
        let prev = build_spec(st, cs.drop_last());
        let fin = build_spec(st, cs);
        let c = cs.last();
        lemma_recorded_columns(st, cs.drop_last());
        lemma_build(st, cs.drop_last());
        assert forall|k: int|
            0 <= k < cs.len() && (forall|m: int| k < m < cs.len() ==> cs[m].hash != cs[k].hash)
                implies fin.columns.contains_key(#[trigger] cs[k].hash) && fin.columns[cs[k].hash]
            == fin.nodes[st.nodes.len() + k].column by {
            if k < cs.len() - 1 {
                assert(cs[k] == cs.drop_last()[k]);
                assert forall|m: int| k < m < cs.drop_last().len() implies cs.drop_last()[m].hash
                    != cs.drop_last()[k].hash by {
                    assert(cs.drop_last()[m] == cs[m]);
                }
                assert(cs[cs.len() - 1].hash != cs[k].hash);
                assert(fin.nodes[st.nodes.len() + k] == prev.nodes[st.nodes.len() + k]);
            }
        }
    }
}

/// A commit whose first parent was placed earlier in the same build (and
/// not placed again in between) is drawn in its parent's column.
pub proof fn law_child_takes_parent_column(g: GraphView, cs: Seq<CommitView>, i: int, j: int)
    requires
        0 <= i < j < cs.len(),
        cs[j].parents.len() > 0,
        cs[j].parents[0] == cs[i].hash,
        forall|m: int| i < m < j ==> cs[m].hash != cs[i].hash,
    ensures
        built_graph(g, cs).nodes[g.nodes.len() + j].column == built_graph(g, cs).nodes[g.nodes.len()
            + i].column,
{
    let st0 = initial_build(g);
    let pre = cs.take(j);
    let stj = build_spec(st0, pre);
    lemma_recorded_columns(st0, pre);
    assert(pre[i] == cs[i]);
    assert forall|m: int| i < m < pre.len() implies pre[m].hash != pre[i].hash by {
        assert(pre[m] == cs[m]);
    }
    assert(stj.columns.contains_key(pre[i].hash));
    let stj1 = build_step(stj, cs[j]);
    assert(cs.take(j + 1).drop_last() =~= pre);
    assert(build_spec(st0, cs.take(j + 1)) == stj1);
    lemma_build(st0, pre);
    lemma_build_concat(st0, cs.take(j + 1), cs.skip(j + 1));
    assert(cs.take(j + 1) + cs.skip(j + 1) =~= cs);
    lemma_build(stj1, cs.skip(j + 1));
    let fin = build_spec(st0, cs);
    assert(fin.nodes[g.nodes.len() + j] == stj1.nodes[g.nodes.len() + j]);
    assert(fin.nodes[g.nodes.len() + i] == stj1.nodes[g.nodes.len() + i]);
    assert(stj1.nodes[g.nodes.len() + i] == stj.nodes[g.nodes.len() + i]);
}

/// The commit at `k` has no parents and its hash is not among the commits
/// before it.
pub open spec fn is_new_root(cs: Seq<CommitView>, k: int) -> bool {
    cs[k].parents.len() == 0 && forall|m: int| 0 <= m < k ==> cs[m].hash != cs[k].hash
}

/// How many of the first `n` commits are new roots.
pub open spec fn new_roots(cs: Seq<CommitView>, n: int) -> nat
    decreases n,
{
    if n <= 0 {
        0
    } else {
        new_roots(cs, n - 1) + if is_new_root(cs, n - 1) {
            1nat
        } else {
            0nat
        }
    }
}

proof fn lemma_new_roots_prefix(cs: Seq<CommitView>, t: Seq<CommitView>, n: int)
    requires
        0 <= n <= t.len() <= cs.len(),
        forall|k: int| 0 <= k < t.len() ==> t[k] == cs[k],
    ensures
        new_roots(t, n) == new_roots(cs, n),
    decreases n,
{
    if n > 0 {
        lemma_new_roots_prefix(cs, t, n - 1);
        assert(is_new_root(t, n - 1) == is_new_root(cs, n - 1));
    }
}

/// In a build from an empty column map, the hashes with a column are those
/// placed, and the next free column is the number of new roots placed.
proof fn lemma_roots(st: BuildState, cs: Seq<CommitView>)
    requires
        st.columns == Map::<Seq<char>, usize>::empty(),
        st.next_column == 0,
    ensures
        build_spec(st, cs).next_column == new_roots(cs, cs.len() as int),
        forall|h: Seq<char>|
            #[trigger] build_spec(st, cs).columns.contains_key(h) <==> exists|k: int|
                0 <= k < cs.len() && cs[k].hash == h,
    decreases cs.len(),
{
    if cs.len() > 0 {
        let t = cs.drop_last();
        let prev = build_spec(st, t);
        let c = cs.last();
        lemma_roots(st, t);
        lemma_new_roots_prefix(cs, t, t.len() as int);
        let n = cs.len() - 1;
        assert(c == cs[n]);
        if exists|m: int| 0 <= m < n && cs[m].hash == c.hash {
            let m = choose|m: int| 0 <= m < n && cs[m].hash == c.hash;
            assert(t[m].hash == c.hash);
            assert(prev.columns.contains_key(c.hash));
        } else {
            assert forall|k: int| 0 <= k < t.len() implies t[k].hash != c.hash by {
                assert(t[k] == cs[k]);
            }
            assert(!prev.columns.contains_key(c.hash));
        }
        assert forall|h: Seq<char>|
            #[trigger] build_spec(st, cs).columns.contains_key(h) <==> exists|k: int|
                0 <= k < cs.len() && cs[k].hash == h by {
            if exists|k: int| 0 <= k < cs.len() && cs[k].hash == h {
                let k = choose|k: int| 0 <= k < cs.len() && cs[k].hash == h;
                if k < n {
                    assert(t[k].hash == h);
                }
            }
            if exists|k: int| 0 <= k < t.len() && t[k].hash == h {
                let k = choose|k: int| 0 <= k < t.len() && t[k].hash == h;
                assert(cs[k].hash == h);
            }
        }
    }
}

/// Roots open new columns: the commit without parents whose hash was not
/// placed before in the build is drawn in the column numbered by how many
/// such roots came before it (the first in column 0, the next in column 1).
pub proof fn law_new_root_column(g: GraphView, cs: Seq<CommitView>, j: int)
    requires
        0 <= j < cs.len(),
        cs.len() <= usize::MAX,
        is_new_root(cs, j),
    ensures
        built_graph(g, cs).nodes[g.nodes.len() + j].column == new_roots(cs, j),
{
    let st0 = initial_build(g);
    let pre = cs.take(j);
    let stj = build_spec(st0, pre);
    assert(st0.columns == Map::<Seq<char>, usize>::empty());
    lemma_roots(st0, pre);
    lemma_new_roots_prefix(cs, pre, j);
    assert(!stj.columns.contains_key(cs[j].hash)) by {
        if exists|k: int| 0 <= k < pre.len() && pre[k].hash == cs[j].hash {
            let k = choose|k: int| 0 <= k < pre.len() && pre[k].hash == cs[j].hash;
            assert(pre[k] == cs[k]);
        }
    }
    assert(new_roots(cs, j) <= j) by {
        lemma_new_roots_bound(cs, j);
    }
    let stj1 = build_step(stj, cs[j]);
    assert(cs.take(j + 1).drop_last() =~= pre);
    assert(build_spec(st0, cs.take(j + 1)) == stj1);
    lemma_build(st0, pre);
    lemma_build_concat(st0, cs.take(j + 1), cs.skip(j + 1));
    assert(cs.take(j + 1) + cs.skip(j + 1) =~= cs);
    lemma_build(stj1, cs.skip(j + 1));
    let fin = build_spec(st0, cs);
    assert(fin.nodes[g.nodes.len() + j] == stj1.nodes[g.nodes.len() + j]);
}

proof fn lemma_new_roots_bound(cs: Seq<CommitView>, n: int)
    requires
        0 <= n,
    ensures
        new_roots(cs, n) <= n,
    decreases n,
{
    if n > 0 {
        lemma_new_roots_bound(cs, n - 1);
    }
}

/// The twelve colours that new branches get, in turn.
pub open spec fn palette_order() -> Seq<Color> {
    seq![
        Color::Red,
        Color::Green,
        Color::Yellow,
        Color::Blue,
        Color::Magenta,
        Color::Cyan,
        Color::LightRed,
        Color::LightGreen,
        Color::LightYellow,
        Color::LightBlue,
        Color::LightMagenta,
        Color::LightCyan,
    ]
}

/// Branches without a colour get the palette colours in turn, in the order
/// in which they are met, starting after the colours already handed out;
/// branches that have a colour keep it.
pub proof fn law_branch_palette(
    colors: Map<Seq<char>, Color>,
    count: nat,
    bs: Seq<Seq<char>>,
)
    requires
        bs.no_duplicates(),
        forall|k: int| 0 <= k < bs.len() ==> !colors.contains_key(#[trigger] bs[k]),
    ensures
        assign_colors(colors, count, bs).1 == count + bs.len(),
        forall|k: int|
            0 <= k < bs.len() ==> assign_colors(colors, count, bs).0[#[trigger] bs[k]]
                == palette_order()[((count + k) % 12) as int],
        forall|b: Seq<char>|
            #[trigger] colors.contains_key(b) ==> assign_colors(colors, count, bs).0[b] == colors[b],
    decreases bs.len(),
{
    if bs.len() > 0 {
        let t = bs.drop_last();
        assert forall|k: int| 0 <= k < t.len() implies !colors.contains_key(#[trigger] t[k]) by {
            assert(t[k] == bs[k]);
        }
        assert(t.no_duplicates()) by {
            assert forall|i: int, j: int| 0 <= i < t.len() && 0 <= j < t.len() && i != j implies t[i]
                != t[j] by {
                assert(t[i] == bs[i] && t[j] == bs[j]);
            }
        }
        law_branch_palette(colors, count, t);
        lemma_assign_colors(colors, count, t);
        let (c1, n1) = assign_colors(colors, count, t);
        let b = bs.last();
        assert(b == bs[bs.len() - 1]);
        assert(!c1.contains_key(b)) by {
            if c1.contains_key(b) {
                assert(!colors.contains_key(b));
                lemma_assign_colors_keys(colors, count, t, b);
                let k = choose|k: int| 0 <= k < t.len() && t[k] == b;
                assert(bs[k] == b);
            }
        }
        assert(palette(n1) == palette_order()[(n1 % 12) as int]);
        assert forall|k: int| 0 <= k < bs.len() implies assign_colors(colors, count, bs).0[
            #[trigger] bs[k]] == palette_order()[((count + k) % 12) as int] by {
            if k < bs.len() - 1 {
                assert(t[k] == bs[k]);
                assert(bs[k] != b);
            }
        }
    }
}

/// The keys that assigning colours adds are branches of the list.
proof fn lemma_assign_colors_keys(
    colors: Map<Seq<char>, Color>,
    count: nat,
    bs: Seq<Seq<char>>,
    b: Seq<char>,
)
    requires
        assign_colors(colors, count, bs).0.contains_key(b),
        !colors.contains_key(b),
    ensures
        exists|k: int| 0 <= k < bs.len() && bs[k] == b,
    decreases bs.len(),
{
    if bs.len() > 0 {
        let t = bs.drop_last();
        if assign_colors(colors, count, t).0.contains_key(b) {
            lemma_assign_colors_keys(colors, count, t, b);
            let k = choose|k: int| 0 <= k < t.len() && t[k] == b;
            assert(bs[k] == b);
        } else {
            assert(bs[bs.len() - 1] == b);
        }
    }
}

/// A line `hash|author|date|message` of four fields without `|` gives the
/// entry with those fields, in that order.
pub proof fn law_log_line(h: Seq<char>, a: Seq<char>, d: Seq<char>, m: Seq<char>)
    requires
        !h.contains('|'),
        !a.contains('|'),
        !d.contains('|'),
        !m.contains('|'),
    ensures
        log_entries(seq![h + seq!['|'] + a + seq!['|'] + d + seq!['|'] + m]) == seq![
            LogEntryView { hash: h, author: a, date: d, message: m },
        ],
{
    let l = h + seq!['|'] + a + seq!['|'] + d + seq!['|'] + m;
    let dm = d + seq!['|'] + m;
    let adm = a + seq!['|'] + dm;
    assert(l =~= h + seq!['|'] + adm);
    assert(adm =~= a + seq!['|'] + dm);
    lemma_split_concat(d, m, '|');
    lemma_split_concat(a, dm, '|');
    lemma_split_concat(h, adm, '|');
    lemma_split_no_sep(h, '|');
    lemma_split_no_sep(a, '|');
    lemma_split_no_sep(d, '|');
    lemma_split_no_sep(m, '|');
    let parts = split_on(l, '|');
    assert(parts =~= seq![h, a, d, m]);
    assert(seq![l].drop_last() =~= Seq::<Seq<char>>::empty());
    assert(seq![l].last() == l);
    assert(log_entries(Seq::<Seq<char>>::empty()) == Seq::<LogEntryView>::empty());
    assert(Seq::<LogEntryView>::empty().push(LogEntryView { hash: h, author: a, date: d, message: m })
        =~= seq![LogEntryView { hash: h, author: a, date: d, message: m }]);
}

/// Every branch name read from git's output is non-empty, holds no `*` (the
/// mark of the current branch) and has no whitespace at either end.
pub proof fn law_branch_names(ls: Seq<Seq<char>>)
    ensures
        forall|i: int|
            0 <= i < branch_names(ls).len() ==> {
                let b = #[trigger] branch_names(ls)[i];
                &&& b.len() > 0
                &&& !b.contains('*')
                &&& !is_white(b[0])
                &&& !is_white(b.last())
            },
    decreases ls.len(),
{
    if ls.len() > 0 {
        law_branch_names(ls.drop_last());
        let w = without_char(trimmed(ls.last()), '*');
        let b = trimmed(w);
        law_trimmed(w);
        law_without_char(trimmed(ls.last()), '*');
        if b.contains('*') {
            let k = choose|k: int| 0 <= k < b.len() && b[k] == '*';
            assert(w[leading_white(w) + k] == '*');
        }
        let r = branch_names(ls.drop_last());
        assert forall|i: int| 0 <= i < branch_names(ls).len() implies {
            let x = #[trigger] branch_names(ls)[i];
            &&& x.len() > 0
            &&& !x.contains('*')
            &&& !is_white(x[0])
            &&& !is_white(x.last())
        } by {
            if i < r.len() {
                assert(branch_names(ls)[i] == r[i]);
            } else {
                assert(branch_names(ls)[i] == b);
            }
        }
    }
}

/// Every parent hash read from git's output is non-empty and has no
/// whitespace at either end.
pub proof fn law_parent_hashes(ls: Seq<Seq<char>>)
    ensures
        forall|i: int|
            0 <= i < parent_hashes(ls).len() ==> {
                let p = #[trigger] parent_hashes(ls)[i];
                &&& p.len() > 0
                &&& !is_white(p[0])
                &&& !is_white(p.last())
            },
    decreases ls.len(),
{
    if ls.len() > 0 {
        law_parent_hashes(ls.drop_last());
        law_trimmed(ls.last());
        let r = parent_hashes(ls.drop_last());
        assert forall|i: int| 0 <= i < parent_hashes(ls).len() implies {
            let x = #[trigger] parent_hashes(ls)[i];
            &&& x.len() > 0
            &&& !is_white(x[0])
            &&& !is_white(x.last())
        } by {
            if i < r.len() {
                assert(parent_hashes(ls)[i] == r[i]);
            }
        }
    }
}

/// A commit without parents that was not placed before opens the next free
/// column, one further right than the previous such commit; a commit with
/// parents takes the column of its first parent where that was placed.
pub proof fn law_column_of(st: BuildState, c: CommitView)
    ensures
        c.parents.len() == 0 && !st.columns.contains_key(c.hash) ==> build_step(st, c).nodes.last().column
            == st.next_column as usize && build_step(st, c).next_column == st.next_column + 1,
        c.parents.len() > 0 && st.columns.contains_key(c.parents[0]) ==> build_step(
            st,
            c,
        ).nodes.last().column == st.columns[c.parents[0]] && build_step(st, c).columns[c.hash]
            == st.columns[c.parents[0]],
{
}

/// A key never moves a selection that is within the commits out of them.
pub proof fn law_selection_in_range(selected: usize, len: nat, key: Key)
    requires
        selected <= last_index(len),
    ensures
        key_selection(selected, len, key) <= last_index(len),
{
}

/// Down moves the selection one row further unless it is on the last row,
/// up moves it one row back unless it is on the first, and no other key
/// moves it.
pub proof fn law_key_moves(selected: usize, len: nat, key: Key)
    requires
        len <= usize::MAX,
    ensures
        key == Key::Down && len > 0 && selected + 1 < len ==> key_selection(selected, len, key)
            == selected + 1,
        key == Key::Down && (len == 0 || selected + 1 >= len) ==> key_selection(selected, len, key)
            == selected,
        key == Key::Up && selected > 0 ==> key_selection(selected, len, key) == selected - 1,
        key == Key::Up && selected == 0 ==> key_selection(selected, len, key) == 0,
        key != Key::Up && key != Key::Down ==> key_selection(selected, len, key) == selected,
{
}

/// Down then up returns to a selection that is not the last, and up then
/// down to one that is not the first.
pub proof fn law_down_up(selected: usize, len: nat)
    requires
        len <= usize::MAX,
    ensures
        selected < last_index(len) ==> key_selection(
            key_selection(selected, len, Key::Down),
            len,
            Key::Up,
        ) == selected,
        0 < selected <= last_index(len) ==> key_selection(
            key_selection(selected, len, Key::Up),
            len,
            Key::Down,
        ) == selected,
{
}

/// `q` ends the viewer and moves nothing; every other key keeps it open.
pub proof fn law_quit(selected: usize, len: nat, key: Key)
    ensures
        keeps_running(key) <==> key != Key::Char('q'),
        key == Key::Char('q') ==> key_selection(selected, len, key) == selected,
{
}

// ---------------------------------------------------------------------------
// Executable functions
// ---------------------------------------------------------------------------

/// The `k`-th palette colour.
fn palette_color(k: usize) -> (r: Color)
    requires
        k < 12,
    ensures
        r == palette(k as nat),
{
    if k == 0 {
        Color::Red
    } else if k == 1 {
        Color::Green
    } else if k == 2 {
        Color::Yellow
    } else if k == 3 {
        Color::Blue
    } else if k == 4 {
        Color::Magenta
    } else if k == 5 {
        Color::Cyan
    } else if k == 6 {
        Color::LightRed
    } else if k == 7 {
        Color::LightGreen
    } else if k == 8 {
        Color::LightYellow
    } else if k == 9 {
        Color::LightBlue
    } else if k == 10 {
        Color::LightMagenta
    } else {
        Color::LightCyan
    }
}

/// The lines of `git log` output that describe a commit, as log entries.
pub fn parse_log(stdout: &str) -> (r: Vec<LogEntry>)
    ensures
        entry_views(r@) == log_entries(lines_of(stdout@)),
{
    let ls = lines(stdout);
    let mut out: Vec<LogEntry> = Vec::new();
    let mut i: usize = 0;
    assert(ls.deep_view().take(0) =~= Seq::<Seq<char>>::empty());
    assert(entry_views(out@) =~= Seq::<LogEntryView>::empty());
    while i < ls.len()
        invariant
            i <= ls@.len(),
            ls.deep_view() == lines_of(stdout@),
            entry_views(out@) == log_entries(ls.deep_view().take(i as int)),
        decreases ls.len() - i,
    {
        let ghost t = ls.deep_view().take(i + 1);
        assert(t.drop_last() =~= ls.deep_view().take(i as int));
        assert(t.last() == ls[i as int]@);
        let parts = split_char(ls[i].as_str(), '|');
        if parts.len() >= 4 {
            let ghost before = entry_views(out@);
            let e = LogEntry {
                hash: parts[0].clone(),
                author: parts[1].clone(),
                date: parts[2].clone(),
                message: parts[3].clone(),
            };
            out.push(e);
            assert(entry_views(out@) =~= before.push(e@));
        }
        i = i + 1;
    }
    assert(ls.deep_view().take(ls.len() as int) =~= ls.deep_view());
    out
}

/// The branch names that `git branch --contains` printed.
pub fn parse_branch_names(output: &str) -> (r: Vec<String>)
    ensures
        r.deep_view() == branch_names(lines_of(output@)),
{
    let ls = lines(output);
    let mut out: Vec<String> = Vec::new();
    let mut i: usize = 0;
    assert(ls.deep_view().take(0) =~= Seq::<Seq<char>>::empty());
    while i < ls.len()
        invariant
            i <= ls@.len(),
            ls.deep_view() == lines_of(output@),
            out.deep_view() == branch_names(ls.deep_view().take(i as int)),
        decreases ls.len() - i,
    {
        let ghost t = ls.deep_view().take(i + 1);
        assert(t.drop_last() =~= ls.deep_view().take(i as int));
        assert(t.last() == ls[i as int]@);
        let first = trim(ls[i].as_str());
        let unmarked = remove_char(first.as_str(), '*');
        let name = trim(unmarked.as_str());
        if !name.as_str().is_empty() {
            let ghost before = out.deep_view();
            out.push(name);
            assert(out.deep_view() =~= before.push(clean_branch(t.last())));
        }
        i = i + 1;
    }
    assert(ls.deep_view().take(ls.len() as int) =~= ls.deep_view());
    out
}

/// The parent hashes that `git rev-parse <hash>^@` printed.
pub fn parse_parent_hashes(output: &str) -> (r: Vec<String>)
    ensures
        r.deep_view() == parent_hashes(lines_of(output@)),
{
    let ls = lines(output);
    let mut out: Vec<String> = Vec::new();
    let mut i: usize = 0;
    assert(ls.deep_view().take(0) =~= Seq::<Seq<char>>::empty());
    while i < ls.len()
        invariant
            i <= ls@.len(),
            ls.deep_view() == lines_of(output@),
            out.deep_view() == parent_hashes(ls.deep_view().take(i as int)),
        decreases ls.len() - i,
    {
        let ghost t = ls.deep_view().take(i + 1);
        assert(t.drop_last() =~= ls.deep_view().take(i as int));
        assert(t.last() == ls[i as int]@);
        let p = trim(ls[i].as_str());
        if !p.as_str().is_empty() {
            let ghost before = out.deep_view();
            out.push(p);
            assert(out.deep_view() =~= before.push(trimmed(t.last())));
        }
        i = i + 1;
    }
    assert(ls.deep_view().take(ls.len() as int) =~= ls.deep_view());
    out
}

impl GitGraph {
    /// A graph without commits.
    pub fn new() -> (r: Self)
        ensures
            r@ == (GraphView { nodes: Seq::empty(), branch_colors: Map::empty(), selected: 0 }),
    {
        let r = GitGraph { commits: Vec::new(), branch_colors: StringMap::new(), selected_index: 0 };
        assert(r@.nodes =~= Seq::<NodeView>::empty());
        r
    }

    /// Gives each of `branches` without a colour the next palette colour.
    fn assign_branch_colors(
        &mut self,
        branches: &Vec<String>,
        color_index: &mut usize,
        Ghost(count): Ghost<nat>,
    ) -> (r: Ghost<nat>)
        requires
            *old(color_index) == count % 12,
        ensures
            (final(self).branch_colors.view(), r@) == assign_colors(
                old(self).branch_colors.view(),
                count,
                branches.deep_view(),
            ),
            *final(color_index) == r@ % 12,
            final(self).commits == old(self).commits,
            final(self).selected_index == old(self).selected_index,
    {
        let ghost c0 = self.branch_colors.view();
        let ghost mut n: nat = count;
        let mut j: usize = 0;
        assert(branches.deep_view().take(0) =~= Seq::<Seq<char>>::empty());
        while j < branches.len()
            invariant
                j <= branches@.len(),
                (self.branch_colors.view(), n) == assign_colors(
                    c0,
                    count,
                    branches.deep_view().take(j as int),
                ),
                *color_index == n % 12,
                self.commits == old(self).commits,
                self.selected_index == old(self).selected_index,
                c0 == old(self).branch_colors.view(),
            decreases branches.len() - j,
        {
            let ghost t = branches.deep_view().take(j + 1);
            assert(t.drop_last() =~= branches.deep_view().take(j as int));
            assert(t.last() == branches[j as int]@);
            if !self.branch_colors.contains_key(&branches[j]) {
                let c = palette_color(*color_index);
                self.branch_colors.insert(branches[j].clone(), c);
                *color_index = if *color_index == 11 {
                    0
                } else {
                    *color_index + 1
                };
                proof {
                    n = n + 1;
                }
            }
            j = j + 1;
        }
        assert(branches.deep_view().take(branches.len() as int) =~= branches.deep_view());
        Ghost(n)
    }

    /// Places `commits` after the commits already in the graph: each gets a
    /// column and a colour, and each new branch the next palette colour.
    pub fn build_graph(&mut self, commits: Vec<Commit>)
        ensures
            final(self)@ == built_graph(old(self)@, commit_views(commits@)),
    {
        let ghost cs = commit_views(commits@);
        let ghost st0 = initial_build(self@);
        let mut column_map: StringMap<usize> = StringMap::new();
        let mut next_column: usize = 0;
        let mut color_index: usize = 0;
        let ghost mut count: nat = 0;
        let mut i: usize = 0;
        let n = commits.len();
        assert(cs.take(0) =~= Seq::<CommitView>::empty());
        for commit in it: commits.into_iter()
            invariant
                i == it.index(),
                n == commits@.len(),
                i <= n,
                it.seq() == commits@,
                cs == commit_views(commits@),
                ({
                    let st = build_spec(st0, cs.take(i as int));
                    &&& column_map.view() == st.columns
                    &&& next_column == st.next_column
                    &&& next_column <= i
                    &&& count == st.color_count
                    &&& color_index == count % 12
                    &&& self.branch_colors.view() == st.colors
                    &&& node_views(self.commits@) == st.nodes
                }),
                self.selected_index == old(self).selected_index,
                st0 == initial_build(old(self)@),
        {
            let ghost st = build_spec(st0, cs.take(i as int));
            let ghost c = commit@;
            assert(cs.take(i + 1).drop_last() =~= cs.take(i as int));
            assert(cs.take(i + 1).last() == c);
            let column: usize = if commit.parents.len() == 0 {
                match column_map.get(&commit.hash) {
                    Some(col) => col,
                    None => {
                        column_map.insert(commit.hash.clone(), next_column);
                        let col = next_column;
                        next_column = next_column + 1;
                        col
                    },
                }
            } else {
                let parent_col = match column_map.get(&commit.parents[0]) {
                    Some(col) => col,
                    None => 0,
                };
                column_map.insert(commit.hash.clone(), parent_col);
                parent_col
            };
            let g = self.assign_branch_colors(&commit.branches, &mut color_index, Ghost(count));
            proof {
                count = g@;
            }
            let color = if commit.branches.len() > 0 {
                match self.branch_colors.get(&commit.branches[0]) {
                    Some(col) => col,
                    None => Color::White,
                }
            } else {
                Color::White
            };
            let ghost before = node_views(self.commits@);
            let node = GraphNode { commit, column, color };
            self.commits.push(node);
            assert(node_views(self.commits@) =~= before.push(node@));
            i = i + 1;
        }
        assert(cs.take(i as int) =~= cs);
    }

    /// Moves the selection for `key`; says whether the viewer goes on.
    pub fn handle_key(&mut self, key: Key) -> (r: bool)
        ensures
            r == keeps_running(key),
            final(self)@ == (GraphView {
                selected: key_selection(old(self)@.selected, old(self)@.nodes.len(), key),
                ..old(self)@
            }),
    {
        match key {
            Key::Up => {
                if self.selected_index > 0 {
                    self.selected_index = self.selected_index - 1;
                }
                true
            },
            Key::Down => {
                if self.selected_index < self.commits.len().saturating_sub(1) {
                    self.selected_index = self.selected_index + 1;
                }
                true
            },
            Key::Char(c) => c != 'q',
            Key::Other => true,
        }
    }

    /// Builds the graph from what git printed about each commit, newest first.
    pub fn load_history(&mut self, outputs: Vec<CommitOutput>)
        ensures
            final(self)@ == built_graph(old(self)@, output_commits(outputs@)),
    {
        let mut commits: Vec<Commit> = Vec::new();
        let mut i: usize = 0;
        while i < outputs.len()
            invariant
                i <= outputs@.len(),
                commit_views(commits@) == output_commits(outputs@).take(i as int),
            decreases outputs.len() - i,
        {
            let o = &outputs[i];
            let c = Commit {
                hash: o.entry.hash.clone(),
                author: o.entry.author.clone(),
                date: o.entry.date.clone(),
                message: o.entry.message.clone(),
                branches: parse_branch_names(o.branches_output.as_str()),
                parents: parse_parent_hashes(o.parents_output.as_str()),
            };
            let ghost before = commit_views(commits@);
            commits.push(c);
            assert(commit_views(commits@) =~= before.push(c@));
            assert(output_commits(outputs@).take(i + 1) =~= output_commits(outputs@).take(
                i as int,
            ).push(commit_of(outputs@[i as int])));
            assert(c@ =~= commit_of(outputs@[i as int]));
            i = i + 1;
        }
        assert(output_commits(outputs@).take(outputs.len() as int) =~= output_commits(outputs@));
        self.build_graph(commits);
    }
}

} // verus!
