//! Drawing the panel.
use super::events;
use super::groups;
use super::groups::{grouped, Group};
use super::lines;
use super::lines::{build_lines, Flags, Line, LineView};
use super::paint;
use super::paint::{
    attention_frame, diag_frame, mark_row, render_agent_line, render_header, render_padding,
    AgentColors, RowState, Span, SpanView,
};
use super::panel;
use super::panel::{
    LoadState, LoadView, Panel, ReadView, RowTarget, State, TargetView,
};
use super::update::flatten;
use crate::dict::Dict;
use crate::host::{opt_text, PaletteColor};
use crate::readmodel::{Agent, ReadResult};
use crate::text::{joined, str_eq};
use vstd::prelude::*;
use vstd::string::*;

verus! {

/// The spinner's frames, one to a tick.
pub open spec fn spin_frame(age: u32) -> char {
    let i = age % 10;
    if i == 0 {
        '\u{280B}'
    } else if i == 1 {
        '\u{2819}'
    } else if i == 2 {
        '\u{2839}'
    } else if i == 3 {
        '\u{2838}'
    } else if i == 4 {
        '\u{283C}'
    } else if i == 5 {
        '\u{2834}'
    } else if i == 6 {
        '\u{2826}'
    } else if i == 7 {
        '\u{2827}'
    } else if i == 8 {
        '\u{2807}'
    } else {
        '\u{280F}'
    }
}

fn spinner_char(age: u32) -> (r: char)
    ensures
        r == spin_frame(age),
{
    match age % 10 {
        0 => '\u{280B}',
        1 => '\u{2819}',
        2 => '\u{2839}',
        3 => '\u{2838}',
        4 => '\u{283C}',
        5 => '\u{2834}',
        6 => '\u{2826}',
        7 => '\u{2827}',
        8 => '\u{2807}',
        _ => '\u{280F}',
    }
}

/// Whether an agent of this id is listed as gone.
pub open spec fn listed_inactive(agents: Seq<Agent>, sid: Seq<char>) -> bool {
    exists|i: int| 0 <= i < agents.len() && !(#[trigger] agents[i]).active && agents[i].session_id@ == sid
}

pub open spec fn listed(agents: Seq<Agent>, sid: Seq<char>) -> bool {
    exists|i: int| 0 <= i < agents.len() && (#[trigger] agents[i]).session_id@ == sid
}

/// A dismissal is remembered only while the agent is still listed as gone: the
/// daemon may have dropped it, or it may be back.
pub open spec fn still_hidden(dismissed: Set<Seq<char>>, agents: Seq<Agent>) -> Set<Seq<char>> {
    dismissed.filter(|sid: Seq<char>| listed_inactive(agents, sid))
}

pub open spec fn still_dismissed(p: Panel) -> Set<Seq<char>> {
    still_hidden(p.dismissed, events::current(p))
}

/// A mark is kept in the overlay only for an agent that is shown, and only while
/// it is later than what is on disk.
pub open spec fn still_marked(
    overlay: Map<Seq<char>, i64>,
    agents: Seq<Agent>,
    disk: Map<Seq<char>, i64>,
) -> Map<Seq<char>, i64> {
    Map::new(
        |sid: Seq<char>|
            overlay.contains_key(sid) && listed(agents, sid) && overlay[sid]
                > events::time_or_none(disk, sid),
        |sid: Seq<char>| overlay[sid],
    )
}

/// The state once what is stale has been dropped and the seen events have been
/// read again.
pub open spec fn settled(p: Panel, seen: Map<Seq<char>, i64>) -> Panel {
    let q = Panel { dismissed: still_dismissed(p), ..p };
    Panel {
        seen_overlay: still_marked(p.seen_overlay, events::visible(q), p.seen_disk),
        seen_disk: if p.seen_events_dir is Some {
            seen
        } else {
            p.seen_disk
        },
        ..q
    }
}

/// The name of this session, empty where the host has not told it.
pub open spec fn own_session(p: Panel) -> Seq<char> {
    match p.mode.session_name {
        Some(s) => s,
        None => Seq::empty(),
    }
}

/// Whether a pane is on screen: in the active tab, a terminal, and not
/// suppressed.
pub open spec fn on_screen(p: Panel, pane: u32) -> bool {
    exists|i: int|
        0 <= i < events::panes_here(p).len() && !(#[trigger] events::panes_here(p)[i]).is_plugin
            && !events::panes_here(p)[i].is_suppressed && events::panes_here(p)[i].id == pane
}

/// When an agent's attention was last seen: the later of disk and overlay.
pub open spec fn effective_seen_at(p: Panel, sid: Seq<char>) -> i64 {
    events::later(
        events::time_or_none(p.seen_disk, sid),
        events::time_or_none(p.seen_overlay, sid),
    )
}

/// What is to be signalled about an agent. A busy one needs nobody. Pane ids are
/// unique only within a session, so only an agent of this session can be in view.
pub open spec fn flags_of(p: Panel, a: Agent) -> Flags {
    Flags {
        unrouted: a.zellij_pane_id is None,
        needs_attention: a.active && a.status !is Busy && a.attention_at_ms > 0 && a.attention_at_ms
            > effective_seen_at(p, a.session_id@),
        is_in_view: a.active && opt_text(a.zellij_session) == Some(own_session(p))
            && a.zellij_pane_id is Some && on_screen(p, a.zellij_pane_id->0),
        active: a.active,
        is_bg: groups::is_bg(a),
    }
}

pub open spec fn flag_map(p: Panel, agents: Seq<Agent>) -> Map<Seq<char>, Flags>
    decreases agents.len(),
{
    if agents.len() == 0 {
        Map::empty()
    } else {
        flag_map(p, agents.drop_last()).insert(
            agents.last().session_id@,
            flags_of(p, agents.last()),
        )
    }
}

pub open spec fn row_targets(
    rows: Seq<groups::RowView>,
    above: Map<Seq<char>, Seq<char>>,
) -> Map<Seq<char>, Seq<char>>
    decreases rows.len(),
{
    if rows.len() == 0 {
        above
    } else {
        let before = row_targets(rows.drop_last(), above);
        match rows.last().focus_sid {
            Some(t) => before.insert(rows.last().agent.session_id@, t),
            None => before,
        }
    }
}

/// Which session each row's agent is focused through.
pub open spec fn focus_map(groups: Seq<groups::GroupView>) -> Map<Seq<char>, Seq<char>>
    decreases groups.len(),
{
    if groups.len() == 0 {
        Map::empty()
    } else {
        row_targets(groups.last().rows, focus_map(groups.drop_last()))
    }
}

/// The cursor stays on an agent that exists.
pub open spec fn clamped(selected: Option<usize>, n: nat) -> Option<usize> {
    match selected {
        Some(i) => if n == 0 {
            None
        } else if i < n {
            Some(i)
        } else {
            Some((n - 1) as usize)
        },
        None => None,
    }
}

/// The first line shown. Where the viewport follows the cursor it moves just far
/// enough to show the agent under it, and a line above if that is where it goes;
/// it never moves past the end.
pub open spec fn scrolled(
    scroll: int,
    follow: bool,
    selected: Option<usize>,
    spans: Seq<(int, int)>,
    n_lines: int,
    rows: int,
) -> int {
    let chased = if follow && selected is Some && selected->0 < spans.len() {
        let (start, end) = spans[selected->0 as int];
        if start < scroll {
            if start >= 1 {
                start - 1
            } else {
                0
            }
        } else if end > scroll + rows {
            end - rows
        } else {
            scroll
        }
    } else {
        scroll
    };
    let last = if n_lines >= rows {
        n_lines - rows
    } else {
        0
    };
    if chased < last {
        chased
    } else {
        last
    }
}

/// How one line is painted.
pub open spec fn painted(
    line: LineView,
    p: Panel,
    selected_sid: Option<Seq<char>>,
    colors: AgentColors,
    cols: nat,
) -> Seq<SpanView> {
    match line {
        LineView::Padding => paint::padding_row(colors, cols),
        LineView::Header { label, unrouted_in_group, open_elsewhere, switch_to } => paint::header_row(
            label,
            unrouted_in_group,
            open_elsewhere,
            lines::is_own(label, own_session(p)),
            colors,
            cols,
        ),
        LineView::AgentRow {
            sid,
            status,
            text,
            needs_attention,
            unrouted,
            is_in_view,
            active,
            is_first_wrap_line,
            is_child,
            is_last_child,
            is_bg,
        } => paint::agent_row(
            text,
            status,
            RowState {
                needs_attention,
                unrouted,
                is_in_view,
                active,
                is_first_wrap_line,
                is_child,
                is_last_child,
                is_bg,
                selected: selected_sid == Some(sid),
                spinner: if p.in_flight.contains_key(sid) {
                    Some(spin_frame(p.in_flight[sid]))
                } else {
                    None
                },
            },
            colors,
            cols,
        ),
    }
}

/// What a line routes to when clicked, if to anything.
pub open spec fn line_target(line: LineView) -> Option<TargetView> {
    match line {
        LineView::Padding => None,
        LineView::Header { label, unrouted_in_group, open_elsewhere, switch_to } => match switch_to {
            Some(name) => Some(TargetView::Session(name)),
            None => None,
        },
        LineView::AgentRow { sid, .. } => Some(TargetView::Agent(sid)),
    }
}

/// Which of the rows shown can be clicked, and what they route to.
pub open spec fn click_map(shown: Seq<LineView>) -> Seq<(usize, TargetView)>
    decreases shown.len(),
{
    if shown.len() == 0 {
        Seq::empty()
    } else {
        let before = click_map(shown.drop_last());
        match line_target(shown.last()) {
            Some(t) => before.push(((shown.len() - 1) as usize, t)),
            None => before,
        }
    }
}

/// A frame with the marks that there is more above or below, each in the last
/// column of its row. In a frame of one row the mark below stands over the other.
pub open spec fn with_marks(
    frame: Seq<Seq<SpanView>>,
    above: bool,
    below: bool,
    colors: AgentColors,
    cols: nat,
) -> Seq<Seq<SpanView>> {
    let first = if above && frame.len() > 0 {
        frame.update(0, paint::marked_row(frame[0], cols, colors, '\u{2191}'))
    } else {
        frame
    };
    if below && first.len() > 0 {
        first.update(
            first.len() - 1,
            paint::marked_row(first.last(), cols, colors, '\u{2193}'),
        )
    } else {
        first
    }
}

#[verifier::ext_equal]
pub ghost struct Drawn {
    pub panel: Panel,
    pub frame: Seq<Seq<SpanView>>,
}

/// The lines of a settled panel.
pub open spec fn panel_lines(s: Panel, cols: nat) -> Seq<LineView> {
    lines::page(
        groups::grouping(events::visible(s), s.sessions),
        flag_map(s, events::visible(s)),
        paint::name_room(cols),
        s.sessions,
        own_session(s),
    )
}

pub open spec fn panel_spans(s: Panel, cols: nat) -> Seq<(int, int)> {
    lines::page_spans(
        groups::grouping(events::visible(s), s.sessions),
        flag_map(s, events::visible(s)),
        paint::name_room(cols),
        s.sessions,
        own_session(s),
    )
}

/// The panel drawn: the session headers and the agents under them, as far as
/// they fit.
pub open spec fn cells(
    p: Panel,
    rows: nat,
    cols: nat,
    colors: AgentColors,
    seen: Map<Seq<char>, i64>,
) -> Drawn {
    let s = settled(p, seen);
    let shown = events::shown(s);
    let selected = clamped(s.selected, shown.len());
    let all = panel_lines(s, cols);
    let scroll = scrolled(
        s.scroll as int,
        s.follow,
        selected,
        panel_spans(s, cols),
        all.len() as int,
        rows as int,
    );
    let end = if all.len() - scroll <= rows {
        all.len() as int
    } else {
        scroll + rows
    };
    let window = all.subrange(scroll, end);
    let selected_sid = match selected {
        Some(i) => Some(shown[i as int].session_id@),
        None => None,
    };
    Drawn {
        panel: Panel {
            focus_targets: focus_map(groups::grouping(events::visible(s), s.sessions)),
            selected,
            scroll: scroll as usize,
            follow: false,
            row_ranges: click_map(window),
            ..s
        },
        frame: with_marks(
            window.map_values(|l: LineView| painted(l, s, selected_sid, colors, cols)),
            scroll > 0,
            end < all.len(),
            colors,
            cols,
        ),
    }
}

fn mentions_inactive(agents: &Vec<Agent>, sid: &String) -> (r: bool)
    ensures
        r == listed_inactive(agents@, sid@),
{
    let mut i: usize = 0;
    while i < agents.len()
        invariant
            i <= agents.len(),
            forall|j: int|
                0 <= j < i ==> !(!(#[trigger] agents@[j]).active && agents@[j].session_id@ == sid@),
        decreases agents.len() - i,
    {
        if !agents[i].active && agents[i].session_id == *sid {
            assert(!agents@[i as int].active);
            return true;
        }
        i += 1;
    }
    false
}

fn mentions(agents: &Vec<Agent>, sid: &String) -> (r: bool)
    ensures
        r == listed(agents@, sid@),
{
    let mut i: usize = 0;
    while i < agents.len()
        invariant
            i <= agents.len(),
            forall|j: int| 0 <= j < i ==> (#[trigger] agents@[j]).session_id@ != sid@,
        decreases agents.len() - i,
    {
        if agents[i].session_id == *sid {
            assert(agents@[i as int].session_id@ == sid@);
            return true;
        }
        i += 1;
    }
    false
}

impl State {
    /// Drop dismissals that no longer hide anything.
    pub fn prune_dismissed_overlay(&mut self, agents: &Vec<Agent>)
        ensures
            final(self)@ == (Panel {
                dismissed: still_hidden(old(self)@.dismissed, agents@),
                ..old(self)@
            }),
    {
        let ghost before = self@;
        let n = self.dismissed_overlay.len();
        let ghost list = self.dismissed_overlay.list();
        let mut kept: Dict<String, ()> = Dict::new();
        let mut i: usize = 0;
        while i < n
            invariant
                i <= n,
                n == list.len(),
                list == self.dismissed_overlay.list(),
                self.dismissed_overlay.is_listed(),
                self@ == before,
                forall|k: Seq<char>| #[trigger]
                    kept@.contains_key(k) ==> self.dismissed_overlay@.contains_key(k)
                        && listed_inactive(agents@, k),
                forall|j: int|
                    0 <= j < i && listed_inactive(agents@, (#[trigger] list[j]).0@)
                        ==> kept@.contains_key(list[j].0@),
            decreases n - i,
        {
            let sid = self.dismissed_overlay.key_at(i).clone();
            let ghost was = kept@;
            assert(list[i as int].0@ == sid@);
            if mentions_inactive(agents, &sid) {
                kept.insert(sid, ());
            }
            proof {
                assert forall|j: int|
                    0 <= j < i + 1 && listed_inactive(agents@, (#[trigger] list[j]).0@) implies kept@.contains_key(
                list[j].0@) by {
                    if j < i {
                        assert(was.contains_key(list[j].0@));
                    }
                }
            }
            i += 1;
        }
        proof {
            let want = still_hidden(before.dismissed, agents@);
            assert forall|k: Seq<char>| kept@.dom().contains(k) <==> want.contains(k) by {
                if want.contains(k) {
                    assert(self.dismissed_overlay@.contains_key(k));
                    let j = choose|j: int| 0 <= j < list.len() && #[trigger] list[j].0@ == k;
                    assert(kept@.contains_key(list[j].0@));
                }
                if kept@.contains_key(k) {
                    assert(self.dismissed_overlay@.contains_key(k));
                }
            }
            assert(kept@.dom() =~= want);
        }
        self.dismissed_overlay = kept;
        assert(self@ =~= (Panel {
            dismissed: still_hidden(before.dismissed, agents@),
            ..before
        }));
    }

    /// Drop marks that the disk has caught up with, and those of agents that are
    /// not shown.
    pub fn prune_overlay(&mut self, agents: &Vec<Agent>)
        ensures
            final(self)@ == (Panel {
                seen_overlay: still_marked(
                    old(self)@.seen_overlay,
                    agents@,
                    old(self)@.seen_disk,
                ),
                ..old(self)@
            }),
    {
        let ghost before = self@;
        let n = self.seen_overlay.len();
        let ghost list = self.seen_overlay.list();
        let ghost want = still_marked(before.seen_overlay, agents@, before.seen_disk);
        let mut kept: Dict<String, i64> = Dict::new();
        let mut i: usize = 0;
        while i < n
            invariant
                i <= n,
                n == list.len(),
                list == self.seen_overlay.list(),
                self.seen_overlay.is_listed(),
                self@ == before,
                want == still_marked(before.seen_overlay, agents@, before.seen_disk),
                forall|k: Seq<char>| #[trigger]
                    kept@.contains_key(k) ==> want.contains_key(k) && kept@[k] == want[k],
                forall|j: int|
                    0 <= j < i && want.contains_key((#[trigger] list[j]).0@) ==> kept@.contains_key(
                        list[j].0@,
                    ),
            decreases n - i,
        {
            let sid = self.seen_overlay.key_at(i).clone();
            let at = *self.seen_overlay.value_at(i);
            let ghost was = kept@;
            assert(list[i as int].0@ == sid@);
            let disk: i64 = match self.seen_disk.get(&sid) {
                Some(t) => *t,
                None => 0,
            };
            if at > disk && mentions(agents, &sid) {
                kept.insert(sid, at);
            }
            proof {
                assert forall|j: int|
                    0 <= j < i + 1 && want.contains_key((#[trigger] list[j]).0@) implies kept@.contains_key(
                list[j].0@) by {
                    if j < i {
                        assert(was.contains_key(list[j].0@));
                    }
                }
            }
            i += 1;
        }
        proof {
            assert forall|k: Seq<char>| kept@.contains_key(k) <==> want.contains_key(k) by {
                if want.contains_key(k) {
                    assert(self.seen_overlay@.contains_key(k));
                    let j = choose|j: int| 0 <= j < list.len() && #[trigger] list[j].0@ == k;
                    assert(kept@.contains_key(list[j].0@));
                }
            }
            assert(kept@ =~= want);
        }
        self.seen_overlay = kept;
        assert(self@ =~= (Panel { seen_overlay: want, ..before }));
    }

    /// When an agent's attention was last seen.
    pub fn effective_seen_at(&self, agent: &Agent) -> (r: i64)
        ensures
            r == effective_seen_at(self@, agent.session_id@),
    {
        let disk: i64 = match self.seen_disk.get(&agent.session_id) {
            Some(t) => *t,
            None => 0,
        };
        let overlay: i64 = match self.seen_overlay.get(&agent.session_id) {
            Some(t) => *t,
            None => 0,
        };
        if disk > overlay {
            disk
        } else {
            overlay
        }
    }

    fn session_name(&self) -> (r: String)
        ensures
            r@ == own_session(self@),
    {
        match &self.mode_info.session_name {
            Some(s) => s.clone(),
            None => {
                let none = String::new();
                assert(none@ =~= Seq::<char>::empty());
                none
            },
        }
    }

    fn pane_on_screen(&self, pane: u32) -> (r: bool)
        ensures
            r == on_screen(self@, pane),
    {
        let idx = match self.active_tab_idx {
            Some(idx) => idx,
            None => return false,
        };
        let panes = match self.pane_manifest.of_tab(idx) {
            Some(p) => p,
            None => return false,
        };
        let mut i: usize = 0;
        while i < panes.list.len()
            invariant
                i <= panes.list.len(),
                panes@ == events::panes_here(self@),
                forall|j: int|
                    0 <= j < i ==> !(!(#[trigger] panes@[j]).is_plugin && !panes@[j].is_suppressed
                        && panes@[j].id == pane),
            decreases panes.list.len() - i,
        {
            let p = &panes.list[i];
            assert(panes@[i as int] == panes.list@[i as int]@);
            if !p.is_plugin && !p.is_suppressed && p.id == pane {
                assert(!events::panes_here(self@)[i as int].is_plugin);
                return true;
            }
            i += 1;
        }
        false
    }

    fn agent_flags(&self, a: &Agent) -> (r: Flags)
        ensures
            r == flags_of(self@, *a),
    {
        let session = self.session_name();
        let here = match &a.zellij_session {
            Some(s) => *s == session,
            None => false,
        };
        let on_screen = match a.zellij_pane_id {
            Some(pane) => self.pane_on_screen(pane),
            None => false,
        };
        Flags {
            unrouted: a.zellij_pane_id.is_none(),
            needs_attention: a.active && !a.status.is_busy() && a.attention_at_ms > 0
                && a.attention_at_ms > self.effective_seen_at(a),
            is_in_view: a.active && here && on_screen,
            active: a.active,
            is_bg: str_eq(a.kind.as_str(), "bg"),
        }
    }

    fn all_flags(&self, agents: &Vec<Agent>) -> (r: Dict<String, Flags>)
        ensures
            r@ == flag_map(self@, agents@),
    {
        let mut out: Dict<String, Flags> = Dict::new();
        let mut i: usize = 0;
        assert(agents@.take(0) =~= Seq::<Agent>::empty());
        while i < agents.len()
            invariant
                i <= agents.len(),
                out@ == flag_map(self@, agents@.take(i as int)),
            decreases agents.len() - i,
        {
            assert(agents@.take(i + 1).drop_last() =~= agents@.take(i as int));
            out.insert(agents[i].session_id.clone(), self.agent_flags(&agents[i]));
            i += 1;
        }
        assert(agents@.take(i as int) =~= agents@);
        out
    }
}

/// Focus targets by what they say.
pub open spec fn texts_by_key(m: Map<Seq<char>, String>) -> Map<Seq<char>, Seq<char>> {
    m.map_values(|s: String| s@)
}

fn put_target(targets: &mut Dict<String, String>, sid: String, target: String)
    ensures
        texts_by_key(final(targets)@) == texts_by_key(old(targets)@).insert(sid@, target@),
{
    let ghost before = targets@;
    targets.insert(sid, target);
    assert(texts_by_key(targets@) =~= texts_by_key(before).insert(sid@, target@));
}

fn collect_targets(gs: &Vec<Group>) -> (r: Dict<String, String>)
    ensures
        texts_by_key(r@) == focus_map(groups::group_views(gs@)),
{
    let ghost gv = groups::group_views(gs@);
    let mut targets: Dict<String, String> = Dict::new();
    let mut i: usize = 0;
    proof {
        assert(gv.take(0) =~= Seq::<groups::GroupView>::empty());
        assert(texts_by_key(targets@) =~= Map::<Seq<char>, Seq<char>>::empty());
    }
    while i < gs.len()
        invariant
            i <= gs.len(),
            gv == groups::group_views(gs@),
            texts_by_key(targets@) == focus_map(gv.take(i as int)),
        decreases gs.len() - i,
    {
        let rows = &gs[i].rows;
        let ghost above = texts_by_key(targets@);
        let ghost rv = gv[i as int].rows;
        let mut j: usize = 0;
        assert(rv.take(0) =~= Seq::<groups::RowView>::empty());
        while j < rows.len()
            invariant
                j <= rows.len(),
                i < gs.len(),
                *rows == gs@[i as int].rows,
                rv == rows@.map_values(|r: groups::Row| r@),
                texts_by_key(targets@) == row_targets(rv.take(j as int), above),
            decreases rows.len() - j,
        {
            proof {
                assert(rv.take(j + 1).drop_last() =~= rv.take(j as int));
                assert(rv.take(j + 1).last() == rows@[j as int]@);
            }
            if let Some(t) = &rows[j].focus_sid {
                put_target(&mut targets, rows[j].agent.session_id.clone(), t.clone());
            }
            j += 1;
        }
        proof {
            assert(rv.take(j as int) =~= rv);
            assert(gv.take(i + 1).drop_last() =~= gv.take(i as int));
        }
        i += 1;
    }
    assert(gv.take(i as int) =~= gv);
    targets
}

fn push_row(frame: &mut Vec<Vec<Span>>, row: Vec<Span>)
    ensures
        paint::frame_view(final(frame)@) == paint::frame_view(old(frame)@).push(
            paint::row_view(row@),
        ),
        final(frame).len() == old(frame).len() + 1,
{
    frame.push(row);
    assert(paint::frame_view(frame@) =~= paint::frame_view(old(frame)@).push(
        paint::row_view(row@),
    ));
}

/// Put a scroll mark in the last column of a row.
fn mark_frame(frame: &mut Vec<Vec<Span>>, i: usize, cols: usize, colors: &AgentColors, arrow: char)
    requires
        i < old(frame).len(),
    ensures
        paint::frame_view(final(frame)@) == paint::frame_view(old(frame)@).update(
            i as int,
            paint::marked_row(
                paint::frame_view(old(frame)@)[i as int],
                cols as nat,
                *colors,
                arrow,
            ),
        ),
        final(frame).len() == old(frame).len(),
{
    let ghost before = frame@;
    let row = mark_row(&frame[i], cols, colors, arrow);
    assert(paint::frame_view(before)[i as int] == paint::row_view(before[i as int]@));
    frame.set(i, row);
    assert(paint::frame_view(frame@) =~= paint::frame_view(before).update(
        i as int,
        paint::row_view(row@),
    ));
}

fn push_target(ranges: &mut Vec<(usize, RowTarget)>, row: usize, target: RowTarget)
    ensures
        panel::target_views(final(ranges)@) == panel::target_views(old(ranges)@).push(
            (row, target@),
        ),
{
    ranges.push((row, target));
    assert(panel::target_views(ranges@) =~= panel::target_views(old(ranges)@).push((row, target@)));
}

impl State {
    fn render_line(
        &self,
        line: &Line,
        selected_sid: &Option<String>,
        colors: &AgentColors,
        cols: usize,
    ) -> (r: Vec<Span>)
        ensures
            paint::row_view(r@) == painted(
                line@,
                self@,
                opt_text(*selected_sid),
                *colors,
                cols as nat,
            ),
    {
        match line {
            Line::Padding => render_padding(colors, cols),
            Line::Header { label, unrouted_in_group, open_elsewhere, switch_to: _ } => {
                let session = self.session_name();
                let is_active = !session.as_str().is_empty() && *label == session;
                render_header(
                    label.as_str(),
                    *unrouted_in_group,
                    *open_elsewhere,
                    is_active,
                    colors,
                    cols,
                )
            },
            Line::AgentRow {
                sid,
                status,
                text,
                needs_attention,
                unrouted,
                is_in_view,
                active,
                is_first_wrap_line,
                is_child,
                is_last_child,
                is_bg,
            } => {
                let selected = match selected_sid {
                    Some(s) => *s == *sid,
                    None => false,
                };
                let spinner = match self.in_flight.get(sid) {
                    Some(age) => Some(spinner_char(*age)),
                    None => None,
                };
                let state = RowState {
                    needs_attention: *needs_attention,
                    unrouted: *unrouted,
                    is_in_view: *is_in_view,
                    active: *active,
                    is_first_wrap_line: *is_first_wrap_line,
                    is_child: *is_child,
                    is_last_child: *is_last_child,
                    is_bg: *is_bg,
                    selected,
                    spinner,
                };
                render_agent_line(text.as_str(), status, &state, colors, cols)
            },
        }
    }

    /// Settle where the viewport is, and stop following the cursor.
    pub fn adjust_scroll(&mut self, spans: &Vec<(usize, usize)>, n_lines: usize, rows: usize)
        ensures
            final(self)@ == (Panel {
                scroll: scrolled(
                    old(self)@.scroll as int,
                    old(self)@.follow,
                    old(self)@.selected,
                    lines::span_views(spans@),
                    n_lines as int,
                    rows as int,
                ) as usize,
                follow: false,
                ..old(self)@
            }),
            final(self).scroll_offset <= n_lines,
            n_lines >= rows ==> final(self).scroll_offset <= n_lines - rows,
    {
        let ghost before = self@;
        let follow = self.follow_selection;
        self.follow_selection = false;
        if follow {
            if let Some(sel) = self.selected_idx {
                if sel < spans.len() {
                    let (start, end) = spans[sel];
                    assert(lines::span_views(spans@)[sel as int] == (start as int, end as int));
                    if start < self.scroll_offset {
                        self.scroll_offset = if start >= 1 {
                            start - 1
                        } else {
                            0
                        };
                    } else if end >= rows && end - rows > self.scroll_offset {
                        self.scroll_offset = end - rows;
                    }
                }
            }
        }
        let last = if n_lines >= rows {
            n_lines - rows
        } else {
            0
        };
        if self.scroll_offset >= last {
            self.scroll_offset = last;
        }
        assert(self@ =~= (Panel {
            scroll: scrolled(
                before.scroll as int,
                before.follow,
                before.selected,
                lines::span_views(spans@),
                n_lines as int,
                rows as int,
            ) as usize,
            follow: false,
            ..before
        }));
    }

    /// Draw the panel. `seen` is what the directory of seen events holds now.
    pub fn cells_frame(
        &mut self,
        rows: usize,
        cols: usize,
        colors: &AgentColors,
        seen: Dict<String, i64>,
    ) -> (r: Vec<Vec<Span>>)
        ensures
            final(self)@ == cells(old(self)@, rows as nat, cols as nat, *colors, seen@).panel,
            paint::frame_view(r@) == cells(
                old(self)@,
                rows as nat,
                cols as nat,
                *colors,
                seen@,
            ).frame,
    {
        let ghost p0 = self@;
        let all_agents = self.current_agents();
        self.prune_dismissed_overlay(&all_agents);
        let raw = self.visible_agents();
        self.prune_overlay(&raw);
        self.refresh_seen_disk(seen);
        let ghost s = settled(p0, seen@);
        assert(self@ =~= s);
        assert(raw@ == events::visible(s));
        let flags = self.all_flags(&raw);
        let gs = grouped(&raw, &self.sessions);
        let display = flatten(&gs);
        self.focus_targets = collect_targets(&gs);
        self.selected_idx = match self.selected_idx {
            Some(i) => if display.len() == 0 {
                None
            } else if i < display.len() {
                Some(i)
            } else {
                Some(display.len() - 1)
            },
            None => None,
        };
        let session = self.session_name();
        let name_wrap_w = if cols >= paint::OUTER_PAD + paint::AGENT_INDENT {
            cols - paint::OUTER_PAD - paint::AGENT_INDENT
        } else {
            0
        };
        let (all_lines, spans) = build_lines(
            &gs,
            &flags,
            name_wrap_w,
            &self.sessions,
            session.as_str(),
        );
        let ghost lv = lines::line_views(all_lines@);
        assert(lv == panel_lines(s, cols as nat));
        assert(lv.len() == all_lines.len());
        self.adjust_scroll(&spans, all_lines.len(), rows);
        let selected_sid = match self.selected_idx {
            Some(i) => Some(display[i].session_id.clone()),
            None => None,
        };
        let ghost want = cells(p0, rows as nat, cols as nat, *colors, seen@);
        let scroll = self.scroll_offset;
        let end = if all_lines.len() - scroll <= rows {
            all_lines.len()
        } else {
            scroll + rows
        };
        let ghost window = lv.subrange(scroll as int, end as int);
        let ghost f = |l: LineView| painted(l, s, opt_text(selected_sid), *colors, cols as nat);
        let mut frame: Vec<Vec<Span>> = Vec::new();
        let mut ranges: Vec<(usize, RowTarget)> = Vec::new();
        let mut i: usize = scroll;
        proof {
            assert(window.take(0) =~= Seq::<LineView>::empty());
            assert(paint::frame_view(frame@) =~= window.take(0).map_values(f));
            assert(panel::target_views(ranges@) =~= Seq::<(usize, TargetView)>::empty());
        }
        while i < end
            invariant
                scroll <= i <= end <= all_lines.len(),
                lv == lines::line_views(all_lines@),
                window == lv.subrange(scroll as int, end as int),
                f == (|l: LineView| painted(l, s, opt_text(selected_sid), *colors, cols as nat)),
                self@.in_flight == s.in_flight,
                self@.mode == s.mode,
                paint::frame_view(frame@) == window.take(i - scroll).map_values(f),
                panel::target_views(ranges@) == click_map(window.take(i - scroll)),
            decreases end - i,
        {
            let line = &all_lines[i];
            let ghost k = i - scroll;
            proof {
                assert(lv[i as int] == line@);
                assert(window[k] == line@);
                assert(window.take(k + 1).drop_last() =~= window.take(k));
                assert(window.take(k + 1).last() == line@);
                assert(window.take(k + 1).map_values(f) =~= window.take(k).map_values(f).push(
                    f(line@),
                ));
            }
            let row = self.render_line(line, &selected_sid, colors, cols);
            assert(paint::row_view(row@) == f(line@));
            push_row(&mut frame, row);
            match line {
                Line::Padding => {},
                Line::Header { label: _, unrouted_in_group: _, open_elsewhere: _, switch_to } => {
                    if let Some(name) = switch_to {
                        push_target(&mut ranges, i - scroll, RowTarget::Session(name.clone()));
                    }
                },
                Line::AgentRow { sid, .. } => {
                    push_target(&mut ranges, i - scroll, RowTarget::Agent(sid.clone()));
                },
            }
            i += 1;
        }
        proof {
            assert(window.take(i - scroll) =~= window);
        }
        self.row_ranges = ranges;
        let ghost plain_frame = window.map_values(f);
        if scroll > 0 && frame.len() > 0 {
            mark_frame(&mut frame, 0, cols, colors, '\u{2191}');
        }
        if end < all_lines.len() && frame.len() > 0 {
            let last = frame.len() - 1;
            mark_frame(&mut frame, last, cols, colors, '\u{2193}');
        }
        proof {
            assert(self@ =~= want.panel);
            assert(paint::frame_view(frame@) =~= with_marks(
                plain_frame,
                scroll > 0,
                end < all_lines.len(),
                *colors,
                cols as nat,
            ));
        }
        frame
    }
}

/// What the panel shows: every state it can be in has a face of its own.
pub ghost enum Face {
    Diag(PaletteColor, Seq<char>),
    Attention(Seq<char>),
    Cells,
}

pub open spec fn face(p: Panel, colors: AgentColors) -> Face {
    match p.load {
        LoadView::AwaitingPermission => Face::Attention(
            "agent-bar needs permissions \u{2014} press y (fullscreen with Ctrl+Shift+; if cropped)"@,
        ),
        LoadView::NoHomeInEnv => Face::Diag(
            colors.error,
            "$HOME / $USERPROFILE not in session env"@,
        ),
        LoadView::Polling { path, last } => match last {
            None => Face::Diag(colors.text, "reading "@ + path),
            Some(ReadView::Missing) => Face::Diag(colors.error, "missing: "@ + path),
            Some(ReadView::Unreadable(e)) => Face::Diag(
                colors.error,
                "unreadable "@ + path + ": "@ + e,
            ),
            Some(ReadView::ParseError(e)) => Face::Diag(colors.error, "parse error: "@ + e),
            Some(ReadView::Loaded(agents)) => if agents.len() == 0 && p.sessions == Map::<
                Seq<char>,
                groups::SessionMeta,
            >::empty() {
                Face::Diag(colors.text, "no agents"@)
            } else {
                Face::Cells
            },
        },
    }
}

/// The panel drawn on a screen of some size.
pub open spec fn drawn(p: Panel, rows: nat, cols: nat, seen: Map<Seq<char>, i64>) -> Drawn {
    let q = Panel { row_ranges: Seq::empty(), ..p };
    let colors = AgentColors::of(p.mode.style);
    match face(p, colors) {
        Face::Diag(fg, msg) => Drawn {
            panel: q,
            frame: paint::diag_rows(msg, fg, colors.bar_bg, rows, cols),
        },
        Face::Attention(msg) => Drawn {
            panel: q,
            frame: paint::attention_rows(msg, colors, rows, cols),
        },
        Face::Cells => cells(q, rows, cols, colors, seen),
    }
}

impl State {
    /// Draw the panel; `None` where there is no room at all. `seen` is what the
    /// directory of seen events holds now.
    pub fn render(&mut self, rows: usize, cols: usize, seen: Dict<String, i64>) -> (r: Option<
        Vec<Vec<Span>>,
    >)
        ensures
            match r {
                Some(frame) => rows > 0 && cols > 0 && final(self)@ == drawn(
                    old(self)@,
                    rows as nat,
                    cols as nat,
                    seen@,
                ).panel && paint::frame_view(frame@) == drawn(
                    old(self)@,
                    rows as nat,
                    cols as nat,
                    seen@,
                ).frame,
                None => (rows == 0 || cols == 0) && final(self)@ == (Panel {
                    row_ranges: Seq::empty(),
                    ..old(self)@
                }),
            },
    {
        let ghost p = self@;
        self.row_ranges = Vec::new();
        assert(self@ =~= (Panel { row_ranges: Seq::empty(), ..p }));
        if rows == 0 || cols == 0 {
            return None;
        }
        let colors = AgentColors::from_palette(&self.mode_info.style);
        let (fg, msg) = match &self.load {
            LoadState::AwaitingPermission => {
                return Some(
                    attention_frame(
                        "agent-bar needs permissions \u{2014} press y (fullscreen with Ctrl+Shift+; if cropped)",
                        &colors,
                        rows,
                        cols,
                    ),
                );
            },
            LoadState::NoHomeInEnv => (
                colors.error,
                "$HOME / $USERPROFILE not in session env".to_owned(),
            ),
            LoadState::Polling { path, last } => match last {
                None => (colors.text, joined("reading ", path.as_str())),
                Some(ReadResult::Missing) => (colors.error, joined("missing: ", path.as_str())),
                Some(ReadResult::Unreadable(e)) => {
                    let mut msg = joined("unreadable ", path.as_str());
                    msg.append(": ");
                    msg.append(e.as_str());
                    (colors.error, msg)
                },
                Some(ReadResult::ParseError(e)) => (
                    colors.error,
                    joined("parse error: ", e.as_str()),
                ),
                Some(ReadResult::Loaded(agents)) => {
                    if agents.len() > 0 || !self.sessions.is_empty() {
                        return Some(self.cells_frame(rows, cols, &colors, seen));
                    }
                    (colors.text, "no agents".to_owned())
                },
            },
        };
        Some(diag_frame(msg.as_str(), fg, colors.bar_bg, rows, cols))
    }
}

} // verus!
