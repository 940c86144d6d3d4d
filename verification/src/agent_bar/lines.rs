//! The panel as a list of lines, before any of it is painted.
use super::group_laws;
use super::groups;
use super::groups::{Group, GroupLabel, Row, SessionMeta};
use super::wrap;
use super::wrap::wrap_text;
use crate::dict::Dict;
use crate::host::opt_text;
use crate::readmodel::{Agent, AgentStatus};
use crate::text;
use crate::text::{short_label, str_eq, trim};
use vstd::prelude::*;

verus! {

/// Hard cap on the lines of one agent's name.
pub const MAX_NAME_LINES: usize = 4;

/// A nested agent takes a single line, subordinate to its parent.
pub const MAX_CHILD_NAME_LINES: usize = 1;

/// What is to be signalled about one agent.
#[derive(Clone, Copy, Debug, PartialEq, Eq, Structural)]
pub struct Flags {
    pub unrouted: bool,
    pub needs_attention: bool,
    pub is_in_view: bool,
    /// False for agents that are tracked but not active.
    pub active: bool,
    /// Run in the background.
    pub is_bg: bool,
}

#[derive(Debug)]
pub enum Line {
    /// Blank breathing room above every group but the first.
    Padding,
    Header {
        label: String,
        unrouted_in_group: bool,
        /// Another terminal window is attached to this session.
        open_elsewhere: bool,
        /// The session to switch to when the header is clicked. `None` for the
        /// session we are in, for the sections that are no session, and for a
        /// session that only the readmodel knows: switching to a name with no
        /// live session would create one.
        switch_to: Option<String>,
    },
    AgentRow {
        sid: String,
        status: AgentStatus,
        text: String,
        needs_attention: bool,
        unrouted: bool,
        is_in_view: bool,
        active: bool,
        is_first_wrap_line: bool,
        is_child: bool,
        is_last_child: bool,
        is_bg: bool,
    },
}

pub ghost enum LineView {
    Padding,
    Header {
        label: Seq<char>,
        unrouted_in_group: bool,
        open_elsewhere: bool,
        switch_to: Option<Seq<char>>,
    },
    AgentRow {
        sid: Seq<char>,
        status: AgentStatus,
        text: Seq<char>,
        needs_attention: bool,
        unrouted: bool,
        is_in_view: bool,
        active: bool,
        is_first_wrap_line: bool,
        is_child: bool,
        is_last_child: bool,
        is_bg: bool,
    },
}

impl View for Line {
    type V = LineView;

    open spec fn view(&self) -> LineView {
        match *self {
            Line::Padding => LineView::Padding,
            Line::Header { label, unrouted_in_group, open_elsewhere, switch_to } => LineView::Header {
                label: label@,
                unrouted_in_group,
                open_elsewhere,
                switch_to: opt_text(switch_to),
            },
            Line::AgentRow {
                sid,
                status,
                text,
                needs_attention,
                unrouted,
                is_in_view,
                active,
                is_first_wrap_line,
                is_child,
                is_last_child,
                is_bg,
            } => LineView::AgentRow {
                sid: sid@,
                status,
                text: text@,
                needs_attention,
                unrouted,
                is_in_view,
                active,
                is_first_wrap_line,
                is_child,
                is_last_child,
                is_bg,
            },
        }
    }
}

pub open spec fn line_views(lines: Seq<Line>) -> Seq<LineView> {
    lines.map_values(|l: Line| l@)
}

/// An agent nothing is known of signals nothing.
pub open spec fn flags_for(flags: Map<Seq<char>, Flags>, a: Agent) -> Flags {
    if flags.contains_key(a.session_id@) {
        flags[a.session_id@]
    } else {
        Flags {
            unrouted: false,
            needs_attention: false,
            is_in_view: false,
            active: true,
            is_bg: false,
        }
    }
}

/// The name an agent goes by: its own, or a piece of its id where it has none.
pub open spec fn shown_name(a: Agent) -> Seq<char> {
    let name = text::trimmed(a.name@);
    if name.len() == 0 {
        text::short(a.session_id@)
    } else {
        name
    }
}

/// The lines of an agent's name.
pub open spec fn name_lines(row: groups::RowView, width: nat) -> Seq<Seq<char>> {
    wrap::wrapped(
        shown_name(row.agent),
        width,
        if row.is_child {
            MAX_CHILD_NAME_LINES as nat
        } else {
            MAX_NAME_LINES as nat
        },
    )
}

/// The lines of one agent.
pub open spec fn row_lines(
    row: groups::RowView,
    flags: Map<Seq<char>, Flags>,
    width: nat,
) -> Seq<LineView> {
    let f = flags_for(flags, row.agent);
    let names = name_lines(row, width);
    Seq::new(
        names.len(),
        |i: int|
            LineView::AgentRow {
                sid: row.agent.session_id@,
                status: row.agent.status,
                text: names[i],
                needs_attention: f.needs_attention,
                unrouted: f.unrouted,
                is_in_view: f.is_in_view,
                active: f.active,
                is_first_wrap_line: i == 0,
                is_child: row.is_child,
                is_last_child: row.is_last_child,
                is_bg: f.is_bg,
            },
    )
}

pub open spec fn rows_lines(
    rows: Seq<groups::RowView>,
    flags: Map<Seq<char>, Flags>,
    width: nat,
) -> Seq<LineView>
    decreases rows.len(),
{
    if rows.len() == 0 {
        Seq::empty()
    } else {
        rows_lines(rows.drop_last(), flags, width) + row_lines(rows.last(), flags, width)
    }
}

/// Whether a header is that of the session this panel is in.
pub open spec fn is_own(label: Seq<char>, own: Seq<char>) -> bool {
    own.len() > 0 && label == own
}

/// The header of a group. Our own client does not count towards a session being
/// open elsewhere.
pub open spec fn header(
    g: groups::GroupView,
    sessions: Map<Seq<char>, SessionMeta>,
    own: Seq<char>,
) -> LineView {
    let label = groups::label_text(g.label);
    let here = is_own(label, own);
    LineView::Header {
        label,
        unrouted_in_group: g.any_unrouted,
        open_elsewhere: sessions.contains_key(label) && sessions[label].clients > (if here {
            1int
        } else {
            0int
        }),
        switch_to: match g.label {
            groups::LabelView::Session(name) => if !here && sessions.contains_key(name) {
                Some(name)
            } else {
                None
            },
            _ => None,
        },
    }
}

/// The lines above a group's rows.
pub open spec fn heading(
    g: groups::GroupView,
    first: bool,
    sessions: Map<Seq<char>, SessionMeta>,
    own: Seq<char>,
) -> Seq<LineView> {
    if first {
        seq![header(g, sessions, own)]
    } else {
        seq![LineView::Padding, header(g, sessions, own)]
    }
}

/// All the lines of a panel.
pub open spec fn page(
    groups: Seq<groups::GroupView>,
    flags: Map<Seq<char>, Flags>,
    width: nat,
    sessions: Map<Seq<char>, SessionMeta>,
    own: Seq<char>,
) -> Seq<LineView>
    decreases groups.len(),
{
    if groups.len() == 0 {
        Seq::empty()
    } else {
        page(groups.drop_last(), flags, width, sessions, own) + heading(
            groups.last(),
            groups.len() == 1,
            sessions,
            own,
        ) + rows_lines(groups.last().rows, flags, width)
    }
}

/// Where the lines of each row start and end, the first row's at `from`.
pub open spec fn row_spans(
    rows: Seq<groups::RowView>,
    flags: Map<Seq<char>, Flags>,
    width: nat,
    from: int,
) -> Seq<(int, int)>
    decreases rows.len(),
{
    if rows.len() == 0 {
        Seq::empty()
    } else {
        row_spans(rows.drop_last(), flags, width, from).push(
            (
                from + rows_lines(rows.drop_last(), flags, width).len(),
                from + rows_lines(rows, flags, width).len(),
            ),
        )
    }
}

/// Where the lines of each agent start and end, in display order.
pub open spec fn page_spans(
    groups: Seq<groups::GroupView>,
    flags: Map<Seq<char>, Flags>,
    width: nat,
    sessions: Map<Seq<char>, SessionMeta>,
    own: Seq<char>,
) -> Seq<(int, int)>
    decreases groups.len(),
{
    if groups.len() == 0 {
        Seq::empty()
    } else {
        let above = page(groups.drop_last(), flags, width, sessions, own);
        page_spans(groups.drop_last(), flags, width, sessions, own) + row_spans(
            groups.last().rows,
            flags,
            width,
            (above.len() + heading(groups.last(), groups.len() == 1, sessions, own).len()) as int,
        )
    }
}

pub open spec fn span_views(spans: Seq<(usize, usize)>) -> Seq<(int, int)> {
    spans.map_values(|s: (usize, usize)| (s.0 as int, s.1 as int))
}

fn push_line(lines: &mut Vec<Line>, line: Line)
    ensures
        line_views(final(lines)@) == line_views(old(lines)@).push(line@),
        final(lines).len() == old(lines).len() + 1,
{
    lines.push(line);
    assert(line_views(lines@) =~= line_views(old(lines)@).push(line@));
}

fn push_row(
    lines: &mut Vec<Line>,
    row: &Row,
    flags: &Dict<String, Flags>,
    width: usize,
)
    ensures
        line_views(final(lines)@) == line_views(old(lines)@) + row_lines(row@, flags@, width as nat),
{
    let a = &row.agent;
    let f = match flags.get(&a.session_id) {
        Some(f) => *f,
        None => Flags {
            unrouted: false,
            needs_attention: false,
            is_in_view: false,
            active: true,
            is_bg: false,
        },
    };
    let mut name = trim(a.name.as_str());
    if name.as_str().is_empty() {
        name = short_label(a.session_id.as_str());
    }
    let max_lines = if row.is_child {
        MAX_CHILD_NAME_LINES
    } else {
        MAX_NAME_LINES
    };
    let wrapped = wrap_text(name.as_str(), width, max_lines);
    let ghost before = line_views(lines@);
    let ghost all = row_lines(row@, flags@, width as nat);
    assert(text::texts(wrapped@) == name_lines(row@, width as nat));
    let mut i: usize = 0;
    while i < wrapped.len()
        invariant
            i <= wrapped.len(),
            wrapped.len() == all.len(),
            all == row_lines(row@, flags@, width as nat),
            f == flags_for(flags@, row.agent),
            *a == row.agent,
            text::texts(wrapped@) == name_lines(row@, width as nat),
            line_views(lines@) == before + all.take(i as int),
        decreases wrapped.len() - i,
    {
        assert(text::texts(wrapped@)[i as int] == wrapped@[i as int]@);
        push_line(
            lines,
            Line::AgentRow {
                sid: a.session_id.clone(),
                status: a.status.copy(),
                text: wrapped[i].clone(),
                needs_attention: f.needs_attention,
                unrouted: f.unrouted,
                is_in_view: f.is_in_view,
                active: f.active,
                is_first_wrap_line: i == 0,
                is_child: row.is_child,
                is_last_child: row.is_last_child,
                is_bg: f.is_bg,
            },
        );
        assert(line_views(lines@) =~= before + all.take(i + 1));
        i += 1;
    }
    assert(all.take(i as int) == all);
}

fn push_heading(
    lines: &mut Vec<Line>,
    g: &Group,
    first: bool,
    sessions: &Dict<String, SessionMeta>,
    own_session: &str,
)
    ensures
        line_views(final(lines)@) == line_views(old(lines)@) + heading(
            g@,
            first,
            sessions@,
            own_session@,
        ),
{
    let ghost before = line_views(lines@);
    if !first {
        push_line(lines, Line::Padding);
    }
    let label = g.label.as_str().to_owned();
    let meta = sessions.get(&label);
    let clients = match meta {
        Some(m) => m.clients,
        None => 0,
    };
    let own = !own_session.is_empty() && str_eq(label.as_str(), own_session);
    let ours: usize = if own {
        1
    } else {
        0
    };
    let switch_to = match &g.label {
        GroupLabel::Session(name) => if !own && meta.is_some() {
            Some(name.clone())
        } else {
            None
        },
        _ => None,
    };
    push_line(
        lines,
        Line::Header {
            label,
            unrouted_in_group: g.any_unrouted,
            open_elsewhere: clients > ours,
            switch_to,
        },
    );
    assert(line_views(lines@) =~= before + heading(g@, first, sessions@, own_session@));
}

fn push_rows(
    lines: &mut Vec<Line>,
    spans: &mut Vec<(usize, usize)>,
    rows: &Vec<Row>,
    flags: &Dict<String, Flags>,
    width: usize,
)
    ensures
        line_views(final(lines)@) == line_views(old(lines)@) + rows_lines(
            rows@.map_values(|r: Row| r@),
            flags@,
            width as nat,
        ),
        span_views(final(spans)@) == span_views(old(spans)@) + row_spans(
            rows@.map_values(|r: Row| r@),
            flags@,
            width as nat,
            old(lines).len() as int,
        ),
{
    let ghost rv = rows@.map_values(|r: Row| r@);
    let ghost before = line_views(lines@);
    let ghost before_spans = span_views(spans@);
    let ghost from = lines.len() as int;
    let mut i: usize = 0;
    proof {
        assert(rv.take(0) =~= Seq::<groups::RowView>::empty());
        assert(before =~= before + rows_lines(rv.take(0), flags@, width as nat));
        assert(before_spans =~= before_spans + row_spans(rv.take(0), flags@, width as nat, from));
    }
    while i < rows.len()
        invariant
            i <= rows.len(),
            rv == rows@.map_values(|r: Row| r@),
            before.len() == from,
            line_views(lines@) == before + rows_lines(rv.take(i as int), flags@, width as nat),
            span_views(spans@) == before_spans + row_spans(
                rv.take(i as int),
                flags@,
                width as nat,
                from,
            ),
        decreases rows.len() - i,
    {
        let ghost held = span_views(spans@);
        proof {
            assert(rv.take(i + 1).drop_last() =~= rv.take(i as int));
            assert(rv.take(i + 1).last() == rows@[i as int]@);
            assert(line_views(lines@).len() == lines.len());
        }
        let start = lines.len();
        push_row(lines, &rows[i], flags, width);
        let end = lines.len();
        assert(line_views(lines@).len() == lines.len());
        assert(line_views(lines@) =~= before + rows_lines(rv.take(i + 1), flags@, width as nat));
        spans.push((start, end));
        assert(span_views(spans@) =~= held.push((start as int, end as int)));
        assert(span_views(spans@) =~= before_spans + row_spans(
            rv.take(i + 1),
            flags@,
            width as nat,
            from,
        ));
        i += 1;
    }
    assert(rv.take(i as int) =~= rv);
}

/// Flatten groups into lines, and record for each agent in display order where
/// its lines start and end.
pub fn build_lines(
    groups: &Vec<Group>,
    flags: &Dict<String, Flags>,
    content_w: usize,
    sessions: &Dict<String, SessionMeta>,
    own_session: &str,
) -> (r: (Vec<Line>, Vec<(usize, usize)>))
    ensures
        line_views(r.0@) == page(
            groups::group_views(groups@),
            flags@,
            content_w as nat,
            sessions@,
            own_session@,
        ),
        span_views(r.1@) == page_spans(
            groups::group_views(groups@),
            flags@,
            content_w as nat,
            sessions@,
            own_session@,
        ),
{
    let mut lines: Vec<Line> = Vec::new();
    let mut spans: Vec<(usize, usize)> = Vec::new();
    let ghost gv = groups::group_views(groups@);
    let ghost w = content_w as nat;
    let mut i: usize = 0;
    proof {
        assert(gv.take(0) =~= Seq::<groups::GroupView>::empty());
        assert(line_views(lines@) =~= Seq::<LineView>::empty());
        assert(span_views(spans@) =~= Seq::<(int, int)>::empty());
    }
    while i < groups.len()
        invariant
            i <= groups.len(),
            gv == groups::group_views(groups@),
            w == content_w,
            line_views(lines@) == page(gv.take(i as int), flags@, w, sessions@, own_session@),
            span_views(spans@) == page_spans(gv.take(i as int), flags@, w, sessions@, own_session@),
        decreases groups.len() - i,
    {
        let g = &groups[i];
        proof {
            assert(gv.take(i + 1).drop_last() =~= gv.take(i as int));
            assert(gv.take(i + 1).last() == g@);
            assert(gv.take(i + 1).len() == i + 1);
        }
        push_heading(&mut lines, g, i == 0, sessions, own_session);
        assert(line_views(lines@).len() == lines.len());
        push_rows(&mut lines, &mut spans, &g.rows, flags, content_w);
        i += 1;
    }
    assert(gv.take(i as int) =~= gv);
    (lines, spans)
}

proof fn row_spans_hold(
    rows: Seq<groups::RowView>,
    flags: Map<Seq<char>, Flags>,
    width: nat,
    from: int,
)
    ensures
        row_spans(rows, flags, width, from).len() == rows.len(),
        forall|i: int|
            0 <= i < rows.len() ==> from <= (#[trigger] row_spans(rows, flags, width, from)[i]).0
                && row_spans(rows, flags, width, from)[i].1 <= from + rows_lines(
                rows,
                flags,
                width,
            ).len() && rows_lines(rows, flags, width).subrange(
                row_spans(rows, flags, width, from)[i].0 - from,
                row_spans(rows, flags, width, from)[i].1 - from,
            ) == row_lines(rows[i], flags, width) && row_spans(rows, flags, width, from)[i].1
                - row_spans(rows, flags, width, from)[i].0 == row_lines(
                rows[i],
                flags,
                width,
            ).len(),
    decreases rows.len(),
{
    if rows.len() > 0 {
        let rest = rows.drop_last();
        row_spans_hold(rest, flags, width, from);
        let spans = row_spans(rows, flags, width, from);
        let all = rows_lines(rows, flags, width);
        let above = rows_lines(rest, flags, width);
        assert forall|i: int| 0 <= i < rows.len() implies from <= (#[trigger] spans[i]).0
            && spans[i].1 <= from + all.len() && all.subrange(spans[i].0 - from, spans[i].1 - from)
            == row_lines(rows[i], flags, width) && spans[i].1 - spans[i].0 == row_lines(
            rows[i],
            flags,
            width,
        ).len() by {
            if i < rest.len() {
                assert(spans[i] == row_spans(rest, flags, width, from)[i]);
                assert(rest[i] == rows[i]);
                assert(all.subrange(spans[i].0 - from, spans[i].1 - from) =~= above.subrange(
                    spans[i].0 - from,
                    spans[i].1 - from,
                ));
            } else {
                assert(all.subrange(spans[i].0 - from, spans[i].1 - from) =~= row_lines(
                    rows.last(),
                    flags,
                    width,
                ));
            }
        }
    }
}

/// Lines and display order are in lockstep: there is one span for each agent
/// shown, in the order shown, and the lines in it are that agent's.
pub proof fn spans_follow_the_display_order(
    groups: Seq<groups::GroupView>,
    flags: Map<Seq<char>, Flags>,
    width: nat,
    sessions: Map<Seq<char>, SessionMeta>,
    own: Seq<char>,
)
    ensures
        ({
            let spans = page_spans(groups, flags, width, sessions, own);
            let lines = page(groups, flags, width, sessions, own);
            let shown = group_laws::display_order(groups);
            &&& spans.len() == shown.len()
            &&& forall|i: int, k: int|
                #![trigger spans[i], lines[k]]
                0 <= i < spans.len() && spans[i].0 <= k < spans[i].1 ==> 0 <= k < lines.len()
                    && lines[k] is AgentRow && lines[k]->AgentRow_sid == shown[i].session_id@
        }),
    decreases groups.len(),
{
    let spans = page_spans(groups, flags, width, sessions, own);
    let lines = page(groups, flags, width, sessions, own);
    let shown = group_laws::display_order(groups);
    if groups.len() > 0 {
        let rest = groups.drop_last();
        let g = groups.last();
        spans_follow_the_display_order(rest, flags, width, sessions, own);
        let above = page(rest, flags, width, sessions, own);
        let head = heading(g, groups.len() == 1, sessions, own);
        let from = above.len() + head.len();
        let own_lines = rows_lines(g.rows, flags, width);
        row_spans_hold(g.rows, flags, width, from as int);
        let mine = row_spans(g.rows, flags, width, from as int);
        let upper = page_spans(rest, flags, width, sessions, own);
        assert(lines.len() == from + own_lines.len());
        assert forall|i: int, k: int|
            #![trigger spans[i], lines[k]]
            0 <= i < spans.len() && spans[i].0 <= k < spans[i].1 implies 0 <= k < lines.len()
            && lines[k] is AgentRow && lines[k]->AgentRow_sid == shown[i].session_id@ by {
            if i < upper.len() {
                assert(spans[i] == upper[i]);
                assert(0 <= k < above.len() && above[k] is AgentRow) by {
                    let _ = above[k];
                }
                assert(lines[k] == above[k]);
            } else {
                let j = i - upper.len();
                assert(spans[i] == mine[j]);
                let piece = own_lines.subrange(mine[j].0 - from, mine[j].1 - from);
                assert(piece[k - mine[j].0] == own_lines[k - from]);
                assert(lines[k] == own_lines[k - from]);
                assert(shown[i] == g.rows[j].agent);
            }
        }
    }
}

} // verus!
