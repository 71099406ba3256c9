//! What the viewer draws: the screen split into the history pane and the
//! details pane, and the styled text of each line of both.

use vstd::prelude::*;
use vstd::utf8::{decode_utf8, encode_utf8, encode_utf8_decode_utf8, is_char_boundary};
use crate::graph::{Color, GitGraph, GraphView, NodeView};
use crate::text::{lines, lines_of};

verus! {

/// A piece of text with a foreground colour (the terminal's own where
/// `None`) and a weight.
#[derive(Debug)]
pub struct StyledSpan {
    pub text: String,
    pub fg: Option<Color>,
    pub bold: bool,
}

#[verifier::ext_equal]
pub struct SpanView {
    pub text: Seq<char>,
    pub fg: Option<Color>,
    pub bold: bool,
}

impl View for StyledSpan {
    type V = SpanView;

    open spec fn view(&self) -> SpanView {
        SpanView { text: self.text@, fg: self.fg, bold: self.bold }
    }
}

/// A rectangle of terminal cells.
#[derive(Debug, Clone, Copy, PartialEq, Eq)]
pub struct PaneRect {
    pub x: u16,
    pub y: u16,
    pub width: u16,
    pub height: u16,
}

pub open spec fn rect_tuple(r: PaneRect) -> (u16, u16, u16, u16) {
    (r.x, r.y, r.width, r.height)
}

/// Everything the viewer draws in one frame.
pub struct Screen {
    pub graph_area: PaneRect,
    pub graph_lines: Vec<Vec<StyledSpan>>,
    pub details_area: PaneRect,
    /// `None` where no commit is selected.
    pub details: Option<Vec<Vec<StyledSpan>>>,
}

pub open spec fn spans_view(spans: Seq<StyledSpan>) -> Seq<SpanView> {
    spans.map_values(|s: StyledSpan| s@)
}

pub open spec fn lines_view(ls: Seq<Vec<StyledSpan>>) -> Seq<Seq<SpanView>> {
    ls.map_values(|l: Vec<StyledSpan>| spans_view(l@))
}

pub open spec fn details_view(d: Option<Vec<Vec<StyledSpan>>>) -> Option<Seq<Seq<SpanView>>> {
    match d {
        Some(ls) => Some(lines_view(ls@)),
        None => None,
    }
}

// ---------------------------------------------------------------------------
// The named result of the layout solver
// ---------------------------------------------------------------------------

/// The two areas, left then right, into which ratatui's layout solver splits
/// the area `(x, y, width, height)` side by side under the constraints
/// `Percentage(left)` and `Percentage(right)`.
pub uninterp spec fn split_by_percent(
    x: u16,
    y: u16,
    width: u16,
    height: u16,
    left: u16,
    right: u16,
) -> ((u16, u16, u16, u16), (u16, u16, u16, u16));

/// Calls ratatui's `Layout::split` (default layout, horizontal direction, two
/// percentage constraints) on `area`. The contract claims only that the two
/// areas are a function of the arguments (`split_by_percent`): the layout is
/// computed by a constraint solver, cached per thread by its arguments, and
/// ratatui documents no closed form for it. It also leaves unsaid that the
/// solver never fails (its failure would panic); for two percentage
/// constraints ratatui does not document a failure.
#[verifier::external_body]
fn split_horizontal(area: PaneRect, left: u16, right: u16) -> (r: (PaneRect, PaneRect))
    ensures
        (rect_tuple(r.0), rect_tuple(r.1)) == split_by_percent(
            area.x,
            area.y,
            area.width,
            area.height,
            left,
            right,
        ),
{
    let rects = ratatui::layout::Layout::default().direction(
        ratatui::layout::Direction::Horizontal,
    ).constraints(
        [ratatui::layout::Constraint::Percentage(left), ratatui::layout::Constraint::Percentage(right)],
    ).split(ratatui::layout::Rect { x: area.x, y: area.y, width: area.width, height: area.height });
    let a = rects[0];
    let b = rects[1];
    (
        PaneRect { x: a.x, y: a.y, width: a.width, height: a.height },
        PaneRect { x: b.x, y: b.y, width: b.width, height: b.height },
    )
}

// ---------------------------------------------------------------------------
// Specification of the lines
// ---------------------------------------------------------------------------

pub open spec fn span(text: Seq<char>, fg: Option<Color>, bold: bool) -> SpanView {
    SpanView { text, fg, bold }
}

/// A line of unstyled text, one span per line of it, as ratatui's
/// `Line::from(&str)` makes it.
pub open spec fn plain_line(text: Seq<char>) -> Seq<SpanView> {
    Seq::new(lines_of(text).len(), |i: int| span(lines_of(text)[i], None, false))
}

/// The rails of the columns left of a commit's column.
pub open spec fn rails(n: nat) -> Seq<SpanView> {
    Seq::new(
        2 * n,
        |j: int|
            if j % 2 == 0 {
                span("│"@, Some(Color::DarkGray), false)
            } else {
                span("──"@, Some(Color::DarkGray), false)
            },
    )
}

/// The rails up to a commit's column, then its dot in the commit's colour.
pub open spec fn column_spans(column: nat, color: Color) -> Seq<SpanView> {
    rails(column) + seq![span("●"@, Some(color), false)]
}

pub open spec fn branch_color(colors: Map<Seq<char>, Color>, b: Seq<char>) -> Color {
    if colors.contains_key(b) {
        colors[b]
    } else {
        Color::White
    }
}

/// Each branch in brackets, bold in its colour, followed by a space.
pub open spec fn branch_spans(colors: Map<Seq<char>, Color>, branches: Seq<Seq<char>>) -> Seq<
    SpanView,
> {
    Seq::new(
        2 * branches.len(),
        |j: int|
            if j % 2 == 0 {
                span("("@ + branches[j / 2] + ")"@, Some(branch_color(colors, branches[j / 2])), true)
            } else {
                span(" "@, None, false)
            },
    )
}

/// Whether a hash has a seven-byte abbreviation (`&hash[..7]` is valid).
pub open spec fn abbreviable(h: Seq<char>) -> bool {
    is_char_boundary(encode_utf8(h), 7)
}

/// The characters of the first seven bytes of a hash.
pub open spec fn short_hash(h: Seq<char>) -> Seq<char> {
    decode_utf8(encode_utf8(h).subrange(0, 7))
}

pub open spec fn all_abbreviable(g: GraphView) -> bool {
    forall|i: int| 0 <= i < g.nodes.len() ==> abbreviable(#[trigger] g.nodes[i].commit.hash)
}

/// The line of the history pane for the commit at `idx`.
pub open spec fn graph_line(g: GraphView, idx: int) -> Seq<SpanView> {
    let node = g.nodes[idx];
    let sel = idx == g.selected;
    seq![span(if sel { "> "@ } else { "  "@ }, Some(Color::Yellow), false)] + column_spans(
        node.column as nat,
        node.color,
    ) + seq![
        span(" "@, None, false),
        span(short_hash(node.commit.hash), Some(Color::Cyan), true),
        span(" "@, None, false),
    ] + branch_spans(g.branch_colors, node.commit.branches) + seq![
        span(node.commit.message, Some(if sel { Color::Yellow } else { Color::White }), false),
    ]
}

pub open spec fn graph_lines_spec(g: GraphView) -> Seq<Seq<SpanView>> {
    Seq::new(g.nodes.len(), |i: int| graph_line(g, i))
}

/// A branch line of the details pane.
pub open spec fn branch_detail(colors: Map<Seq<char>, Color>, b: Seq<char>) -> Seq<SpanView> {
    seq![
        span("  • "@, Some(Color::DarkGray), false),
        span(b, Some(branch_color(colors, b)), true),
    ]
}

/// The lines of the details pane for the selected commit; `None` where the
/// selection is past the last commit.
pub open spec fn detail_lines_spec(g: GraphView) -> Option<Seq<Seq<SpanView>>> {
    if g.selected < g.nodes.len() {
        let c = g.nodes[g.selected as int].commit;
        Some(
            seq![
                seq![span("Commit: "@, Some(Color::Cyan), false), span(c.hash, None, true)],
                plain_line(""@),
                seq![span("Author: "@, Some(Color::Green), false), span(c.author, None, false)],
                seq![span("Date: "@, Some(Color::Green), false), span(c.date, None, false)],
                plain_line(""@),
                seq![span("Message:"@, Some(Color::Yellow), false)],
                plain_line(c.message),
                plain_line(""@),
                seq![span("Branches:"@, Some(Color::Magenta), false)],
            ] + Seq::new(
                c.branches.len(),
                |i: int| branch_detail(g.branch_colors, c.branches[i]),
            ),
        )
    } else {
        None
    }
}

/// The history pane has one line per commit, in order: the selected one is
/// marked `> ` and its message drawn yellow, the others are marked with two
/// spaces and their messages drawn white; each line draws the commit's dot in
/// its colour after the rails of the columns left of it, then the first seven
/// bytes of its hash in bold cyan.
pub proof fn law_history_lines(g: GraphView)
    ensures
        graph_lines_spec(g).len() == g.nodes.len(),
        forall|i: int|
            0 <= i < g.nodes.len() ==> {
                let l = #[trigger] graph_lines_spec(g)[i];
                let n = g.nodes[i];
                let c = n.column as int;
                &&& l[0] == SpanView {
                    text: if i == g.selected {
                        "> "@
                    } else {
                        "  "@
                    },
                    fg: Some(Color::Yellow),
                    bold: false,
                }
                &&& forall|k: int|
                    1 <= k <= 2 * c ==> #[trigger] l[k] == (if k % 2 == 1 {
                        SpanView { text: "│"@, fg: Some(Color::DarkGray), bold: false }
                    } else {
                        SpanView { text: "──"@, fg: Some(Color::DarkGray), bold: false }
                    })
                &&& l[2 * c + 1] == SpanView { text: "●"@, fg: Some(n.color), bold: false }
                &&& l[2 * c + 3] == SpanView {
                    text: decode_utf8(encode_utf8(n.commit.hash).subrange(0, 7)),
                    fg: Some(Color::Cyan),
                    bold: true,
                }
                &&& l.len() == 2 * c + 6 + 2 * n.commit.branches.len()
                &&& l.last() == SpanView {
                    text: n.commit.message,
                    fg: Some(
                        if i == g.selected {
                            Color::Yellow
                        } else {
                            Color::White
                        },
                    ),
                    bold: false,
                }
            },
{
    assert forall|i: int| 0 <= i < g.nodes.len() implies {
        let l = #[trigger] graph_lines_spec(g)[i];
        let n = g.nodes[i];
        let c = n.column as int;
        &&& l[0] == SpanView {
            text: if i == g.selected {
                "> "@
            } else {
                "  "@
            },
            fg: Some(Color::Yellow),
            bold: false,
        }
        &&& forall|k: int|
            1 <= k <= 2 * c ==> #[trigger] l[k] == (if k % 2 == 1 {
                SpanView { text: "│"@, fg: Some(Color::DarkGray), bold: false }
            } else {
                SpanView { text: "──"@, fg: Some(Color::DarkGray), bold: false }
            })
        &&& l[2 * c + 1] == SpanView { text: "●"@, fg: Some(n.color), bold: false }
        &&& l[2 * c + 3] == SpanView {
            text: decode_utf8(encode_utf8(n.commit.hash).subrange(0, 7)),
            fg: Some(Color::Cyan),
            bold: true,
        }
        &&& l.len() == 2 * c + 6 + 2 * n.commit.branches.len()
        &&& l.last() == SpanView {
            text: n.commit.message,
            fg: Some(
                if i == g.selected {
                    Color::Yellow
                } else {
                    Color::White
                },
            ),
            bold: false,
        }
    } by {
        let l = graph_lines_spec(g)[i];
        let n = g.nodes[i];
        let c = n.column as int;
        assert(l == graph_line(g, i));
        assert forall|k: int| 1 <= k <= 2 * c implies #[trigger] l[k] == (if k % 2 == 1 {
            SpanView { text: "│"@, fg: Some(Color::DarkGray), bold: false }
        } else {
            SpanView { text: "──"@, fg: Some(Color::DarkGray), bold: false }
        }) by {
            assert(l[k] == rails(c as nat)[k - 1]);
        }
        assert(l[2 * c + 1] == column_spans(c as nat, n.color)[2 * c]);
    }
}

/// The details pane shows the selected commit: its hash in bold after a cyan
/// label, its author and date after green labels, its message, and one line
/// per branch in the branch's colour; there is no details pane where the
/// selection is past the last commit.
pub proof fn law_details_show_selection(g: GraphView)
    ensures
        detail_lines_spec(g) is None <==> g.selected >= g.nodes.len(),
        g.selected < g.nodes.len() ==> {
            let ls = detail_lines_spec(g)->Some_0;
            let c = g.nodes[g.selected as int].commit;
            &&& ls.len() == 9 + c.branches.len()
            &&& ls[0] == seq![
                SpanView { text: "Commit: "@, fg: Some(Color::Cyan), bold: false },
                SpanView { text: c.hash, fg: None, bold: true },
            ]
            &&& ls[2] == seq![
                SpanView { text: "Author: "@, fg: Some(Color::Green), bold: false },
                SpanView { text: c.author, fg: None, bold: false },
            ]
            &&& ls[3] == seq![
                SpanView { text: "Date: "@, fg: Some(Color::Green), bold: false },
                SpanView { text: c.date, fg: None, bold: false },
            ]
            &&& ls[6].len() == lines_of(c.message).len()
            &&& forall|k: int|
                0 <= k < lines_of(c.message).len() ==> #[trigger] ls[6][k] == SpanView {
                    text: lines_of(c.message)[k],
                    fg: None,
                    bold: false,
                }
            &&& forall|k: int|
                0 <= k < c.branches.len() ==> #[trigger] ls[9 + k] == seq![
                    SpanView { text: "  • "@, fg: Some(Color::DarkGray), bold: false },
                    SpanView {
                        text: c.branches[k],
                        fg: Some(
                            if g.branch_colors.contains_key(c.branches[k]) {
                                g.branch_colors[c.branches[k]]
                            } else {
                                Color::White
                            },
                        ),
                        bold: true,
                    },
                ]
        },
{
    if g.selected < g.nodes.len() {
        let ls = detail_lines_spec(g)->Some_0;
        let c = g.nodes[g.selected as int].commit;
        assert forall|k: int| 0 <= k < c.branches.len() implies #[trigger] ls[9 + k] == seq![
            SpanView { text: "  • "@, fg: Some(Color::DarkGray), bold: false },
            SpanView {
                text: c.branches[k],
                fg: Some(
                    if g.branch_colors.contains_key(c.branches[k]) {
                        g.branch_colors[c.branches[k]]
                    } else {
                        Color::White
                    },
                ),
                bold: true,
            },
        ] by {
            assert(ls[9 + k] == branch_detail(g.branch_colors, c.branches[k]));
        }
    }
}

// ---------------------------------------------------------------------------
// Executable functions
// ---------------------------------------------------------------------------

fn styled(text: String, fg: Option<Color>, bold: bool) -> (r: StyledSpan)
    ensures
        r@ == span(text@, fg, bold),
{
    StyledSpan { text, fg, bold }
}

fn styled_str(text: &str, fg: Option<Color>, bold: bool) -> (r: StyledSpan)
    ensures
        r@ == span(text@, fg, bold),
{
    StyledSpan { text: String::from_str(text), fg, bold }
}

/// `text` as a line of unstyled spans, one per line of it.
fn plain(text: &str) -> (r: Vec<StyledSpan>)
    ensures
        spans_view(r@) == plain_line(text@),
{
    let ls = lines(text);
    let mut out: Vec<StyledSpan> = Vec::new();
    let mut i: usize = 0;
    while i < ls.len()
        invariant
            i <= ls@.len(),
            ls.deep_view() == lines_of(text@),
            spans_view(out@) == plain_line(text@).take(i as int),
        decreases ls.len() - i,
    {
        let ghost before = spans_view(out@);
        let s = styled(ls[i].clone(), None, false);
        out.push(s);
        assert(spans_view(out@) =~= before.push(s@));
        assert(plain_line(text@).take(i + 1) =~= plain_line(text@).take(i as int).push(
            plain_line(text@)[i as int],
        ));
        i = i + 1;
    }
    assert(plain_line(text@).take(ls.len() as int) =~= plain_line(text@));
    out
}

/// The first seven bytes of a hash, as `&hash[..7]` takes them.
fn abbreviate(h: &String) -> (r: String)
    requires
        abbreviable(h@),
    ensures
        r@ == short_hash(h@),
{
    let (head, _) = h.as_str().split_at(7);
    proof {
        encode_utf8_decode_utf8(head@);
    }
    String::from_str(head)
}

impl GitGraph {
    /// Whether every commit's hash has a seven-byte abbreviation, so that the
    /// history pane can be drawn.
    pub fn hashes_abbreviable(&self) -> (r: bool)
        ensures
            r == all_abbreviable(self@),
    {
        let mut i: usize = 0;
        while i < self.commits.len()
            invariant
                i <= self.commits@.len(),
                forall|k: int| 0 <= k < i ==> abbreviable(#[trigger] self@.nodes[k].commit.hash),
            decreases self.commits.len() - i,
        {
            if !self.commits[i].commit.hash.as_str().is_char_boundary(7) {
                assert(!abbreviable(self@.nodes[i as int].commit.hash));
                return false;
            }
            i = i + 1;
        }
        true
    }

    /// The line of the history pane for the commit at `idx`.
    fn graph_line(&self, idx: usize) -> (r: Vec<StyledSpan>)
        requires
            idx < self.commits@.len(),
            abbreviable(self@.nodes[idx as int].commit.hash),
        ensures
            spans_view(r@) == graph_line(self@, idx as int),
    {
        let node = &self.commits[idx];
        let ghost nv: NodeView = node@;
        assert(nv == self@.nodes[idx as int]);
        let sel = idx == self.selected_index;
        let mut spans: Vec<StyledSpan> = Vec::new();
        let prefix = if sel {
            "> "
        } else {
            "  "
        };
        spans.push(styled_str(prefix, Some(Color::Yellow), false));
        let ghost head = spans_view(spans@);
        assert(head =~= seq![span(if sel { "> "@ } else { "  "@ }, Some(Color::Yellow), false)]);
        let mut col: usize = 0;
        assert(spans_view(spans@) =~= head + rails(0));
        while col < node.column
            invariant
                col <= node.column,
                spans_view(spans@) == head + rails(col as nat),
            decreases node.column - col,
        {
            let ghost before = spans_view(spans@);
            let a = styled_str("│", Some(Color::DarkGray), false);
            let b = styled_str("──", Some(Color::DarkGray), false);
            spans.push(a);
            spans.push(b);
            assert(spans_view(spans@) =~= before.push(a@).push(b@));
            assert(rails((col + 1) as nat) =~= rails(col as nat).push(a@).push(b@));
            col = col + 1;
        }
        assert(col == nv.column);
        let ghost before_dot = spans_view(spans@);
        let dot = styled_str("●", Some(node.color), false);
        spans.push(dot);
        assert(spans_view(spans@) =~= before_dot.push(dot@));
        let s1 = styled_str(" ", None, false);
        let s2 = styled(abbreviate(&node.commit.hash), Some(Color::Cyan), true);
        let s3 = styled_str(" ", None, false);
        let ghost before_hash = spans_view(spans@);
        spans.push(s1);
        spans.push(s2);
        spans.push(s3);
        let ghost mid = spans_view(spans@);
        assert(mid =~= before_hash.push(s1@).push(s2@).push(s3@));
        assert(mid =~= head + column_spans(nv.column as nat, nv.color) + seq![s1@, s2@, s3@]);
        let branches = &node.commit.branches;
        let mut k: usize = 0;
        assert(mid =~= mid + branch_spans(self@.branch_colors, branches.deep_view().take(0)));
        while k < branches.len()
            invariant
                k <= branches@.len(),
                spans_view(spans@) == mid + branch_spans(
                    self@.branch_colors,
                    branches.deep_view().take(k as int),
                ),
            decreases branches.len() - k,
        {
            let ghost before = spans_view(spans@);
            let mut text = String::from_str("(");
            text.append(branches[k].as_str());
            text.append(")");
            let color = match self.branch_colors.get(&branches[k]) {
                Some(c) => c,
                None => Color::White,
            };
            let a = styled(text, Some(color), true);
            let b = styled_str(" ", None, false);
            spans.push(a);
            spans.push(b);
            assert(spans_view(spans@) =~= before.push(a@).push(b@));
            assert(branches.deep_view().take(k + 1)[k as int] == branches[k as int]@);
            assert(branch_spans(self@.branch_colors, branches.deep_view().take(k + 1)) =~= branch_spans(
                self@.branch_colors,
                branches.deep_view().take(k as int),
            ).push(a@).push(b@));
            k = k + 1;
        }
        assert(branches.deep_view().take(branches.len() as int) =~= branches.deep_view());
        let ghost before_msg = spans_view(spans@);
        let msg = styled(
            node.commit.message.clone(),
            Some(
                if sel {
                    Color::Yellow
                } else {
                    Color::White
                },
            ),
            false,
        );
        spans.push(msg);
        assert(spans_view(spans@) =~= before_msg.push(msg@));
        assert(spans_view(spans@) =~= graph_line(self@, idx as int));
        spans
    }

    /// The lines of the history pane, one per commit.
    pub fn graph_lines(&self) -> (r: Vec<Vec<StyledSpan>>)
        requires
            all_abbreviable(self@),
        ensures
            lines_view(r@) == graph_lines_spec(self@),
    {
        let mut out: Vec<Vec<StyledSpan>> = Vec::new();
        let mut i: usize = 0;
        while i < self.commits.len()
            invariant
                i <= self.commits@.len(),
                all_abbreviable(self@),
                lines_view(out@) == graph_lines_spec(self@).take(i as int),
            decreases self.commits.len() - i,
        {
            let ghost before = lines_view(out@);
            assert(abbreviable(self@.nodes[i as int].commit.hash));
            let line = self.graph_line(i);
            let ghost lv = spans_view(line@);
            out.push(line);
            assert(lines_view(out@) =~= before.push(lv));
            assert(graph_lines_spec(self@).take(i + 1) =~= graph_lines_spec(self@).take(
                i as int,
            ).push(graph_line(self@, i as int)));
            i = i + 1;
        }
        assert(graph_lines_spec(self@).take(self.commits.len() as int) =~= graph_lines_spec(
            self@,
        ));
        out
    }

    /// The lines of the details pane; `None` where no commit is selected.
    pub fn detail_lines(&self) -> (r: Option<Vec<Vec<StyledSpan>>>)
        ensures
            details_view(r) == detail_lines_spec(self@),
    {
        if self.selected_index >= self.commits.len() {
            return None;
        }
        let c = &self.commits[self.selected_index].commit;
        let mut out: Vec<Vec<StyledSpan>> = Vec::new();
        out.push(
            vec![
                styled_str("Commit: ", Some(Color::Cyan), false),
                styled(c.hash.clone(), None, true),
            ],
        );
        out.push(plain(""));
        out.push(
            vec![
                styled_str("Author: ", Some(Color::Green), false),
                styled(c.author.clone(), None, false),
            ],
        );
        out.push(
            vec![
                styled_str("Date: ", Some(Color::Green), false),
                styled(c.date.clone(), None, false),
            ],
        );
        out.push(plain(""));
        out.push(vec![styled_str("Message:", Some(Color::Yellow), false)]);
        out.push(plain(c.message.as_str()));
        out.push(plain(""));
        out.push(vec![styled_str("Branches:", Some(Color::Magenta), false)]);
        let ghost c_view = self@.nodes[self.selected_index as int].commit;
        assert(c@ == c_view);
        let ghost head = lines_view(out@);
        let ghost spec_lines = detail_lines_spec(self@)->Some_0;
        assert(spec_lines.len() == 9 + c_view.branches.len());
        assert(head[0] =~= spec_lines[0]);
        assert(head[1] =~= spec_lines[1]);
        assert(head[2] =~= spec_lines[2]);
        assert(head[3] =~= spec_lines[3]);
        assert(head[4] =~= spec_lines[4]);
        assert(head[5] =~= spec_lines[5]);
        assert(head[6] =~= spec_lines[6]);
        assert(head[7] =~= spec_lines[7]);
        assert(head[8] =~= spec_lines[8]);
        assert(head =~= spec_lines.take(9));
        let mut k: usize = 0;
        while k < c.branches.len()
            invariant
                k <= c.branches@.len(),
                c@ == c_view,
                self.selected_index < self.commits@.len(),
                c_view == self@.nodes[self.selected_index as int].commit,
                spec_lines == detail_lines_spec(self@)->Some_0,
                spec_lines.len() == 9 + c.branches@.len(),
                lines_view(out@) == spec_lines.take(9 + k),
            decreases c.branches.len() - k,
        {
            let ghost before = lines_view(out@);
            let color = match self.branch_colors.get(&c.branches[k]) {
                Some(col) => col,
                None => Color::White,
            };
            let line = vec![
                styled_str("  • ", Some(Color::DarkGray), false),
                styled(c.branches[k].clone(), Some(color), true),
            ];
            let ghost lv = spans_view(line@);
            out.push(line);
            assert(lines_view(out@) =~= before.push(lv));
            assert(spec_lines[9 + k] == branch_detail(self@.branch_colors, c_view.branches[k as int]));
            assert(c.branches[k as int]@ == c_view.branches[k as int]);
            assert(lv =~= spec_lines[9 + k]);
            assert(spec_lines.take(9 + k + 1) =~= spec_lines.take(9 + k).push(spec_lines[9 + k]));
            k = k + 1;
        }
        assert(spec_lines.take(9 + c.branches@.len() as int) =~= spec_lines);
        Some(out)
    }

    /// The frame for the given areas of the two panes.
    pub fn screen_in(&self, graph_area: PaneRect, details_area: PaneRect) -> (r: Screen)
        requires
            all_abbreviable(self@),
        ensures
            r.graph_area == graph_area,
            r.details_area == details_area,
            lines_view(r.graph_lines@) == graph_lines_spec(self@),
            details_view(r.details) == detail_lines_spec(self@),
    {
        Screen {
            graph_area,
            graph_lines: self.graph_lines(),
            details_area,
            details: self.detail_lines(),
        }
    }

    /// The frame for a terminal of the given area: seventy percent of its
    /// width for the history, the rest for the details of the selection.
    pub fn render(&self, area: PaneRect) -> (r: Screen)
        requires
            all_abbreviable(self@),
        ensures
            (rect_tuple(r.graph_area), rect_tuple(r.details_area)) == split_by_percent(
                area.x,
                area.y,
                area.width,
                area.height,
                70,
                30,
            ),
            lines_view(r.graph_lines@) == graph_lines_spec(self@),
            details_view(r.details) == detail_lines_spec(self@),
    {
        let (left, right) = split_horizontal(area, 70, 30);
        self.screen_in(left, right)
    }
}

} // verus!
