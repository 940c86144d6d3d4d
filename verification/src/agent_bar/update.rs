//! The panel at work.
use super::events;
use super::events::{
    action_views, to_json, Action, ActionView, Event, EventType, Next, Outcome, PermissionType,
    SessionReport,
};
use super::group_laws;
use super::groups;
use super::groups::{grouped, SessionMeta};
use super::panel;
use super::panel::{
    LoadState, Panel, RowTarget, State, TargetView, MAX_SPIN_TICKS, POLL_TENTHS, SPIN_TENTHS,
};
use crate::dict::{Dict, Same};
use crate::host;
use crate::host::{opt_text, same_opt_text, PaneManifest, TabInfo};
use crate::keys::{BareKey, KeyWithModifier};
use crate::readmodel::{copy_agents, in_state_dir, locate_snapshot, Agent, ReadResult};
use crate::seqs;
use crate::text;
use crate::text::{joined, short_label, str_eq};
use vstd::prelude::*;

verus! {

fn push_action(actions: &mut Vec<Action>, action: Action)
    ensures
        action_views(final(actions)@) == action_views(old(actions)@).push(action@),
{
    actions.push(action);
    assert(action_views(actions@) =~= action_views(old(actions)@).push(action@));
}

fn no_actions() -> (r: Vec<Action>)
    ensures
        action_views(r@) == Seq::<ActionView>::empty(),
{
    let r: Vec<Action> = Vec::new();
    assert(action_views(r@) =~= Seq::<ActionView>::empty());
    r
}

fn find_agent(agents: &Vec<Agent>, sid: &str) -> (r: Option<Agent>)
    ensures
        r == events::find(agents@, sid@),
{
    let mut i: usize = 0;
    assert(agents@.take(0) =~= Seq::<Agent>::empty());
    while i < agents.len()
        invariant
            i <= agents.len(),
            events::find(agents@.take(i as int), sid@) is None,
        decreases agents.len() - i,
    {
        assert(agents@.take(i + 1).drop_last() =~= agents@.take(i as int));
        if str_eq(agents[i].session_id.as_str(), sid) {
            let a = agents[i].copy();
            proof {
                found_stays(agents@, sid@, i + 1, agents@.len() as int);
                assert(agents@.take(agents@.len() as int) =~= agents@);
            }
            return Some(a);
        }
        i += 1;
    }
    assert(agents@.take(i as int) =~= agents@);
    None
}

proof fn found_stays(agents: Seq<Agent>, sid: Seq<char>, i: int, j: int)
    requires
        0 <= i <= j <= agents.len(),
        events::find(agents.take(i), sid) is Some,
    ensures
        events::find(agents.take(j), sid) == events::find(agents.take(i), sid),
    decreases j - i,
{
    if i < j {
        found_stays(agents, sid, i, j - 1);
        assert(agents.take(j).drop_last() =~= agents.take(j - 1));
    }
}

proof fn place_stays(agents: Seq<Agent>, p: spec_fn(Agent) -> bool, i: int, j: int)
    requires
        0 <= i <= j <= agents.len(),
        events::first_place(agents.take(i), p) is Some,
    ensures
        events::first_place(agents.take(j), p) == events::first_place(agents.take(i), p),
    decreases j - i,
{
    if i < j {
        place_stays(agents, p, i, j - 1);
        assert(agents.take(j).drop_last() =~= agents.take(j - 1));
    }
}

fn place_of_sid(agents: &Vec<Agent>, sid: &str) -> (r: Option<usize>)
    ensures
        r == events::first_place(agents@, events::has_sid(sid@)),
{
    let ghost p = events::has_sid(sid@);
    let mut i: usize = 0;
    assert(agents@.take(0) =~= Seq::<Agent>::empty());
    while i < agents.len()
        invariant
            i <= agents.len(),
            p == events::has_sid(sid@),
            events::first_place(agents@.take(i as int), p) is None,
        decreases agents.len() - i,
    {
        assert(agents@.take(i + 1).drop_last() =~= agents@.take(i as int));
        if str_eq(agents[i].session_id.as_str(), sid) {
            proof {
                place_stays(agents@, p, i + 1, agents@.len() as int);
                assert(agents@.take(agents@.len() as int) =~= agents@);
            }
            return Some(i);
        }
        i += 1;
    }
    assert(agents@.take(i as int) =~= agents@);
    None
}

fn place_of_pane(agents: &Vec<Agent>, pane: u32) -> (r: Option<usize>)
    ensures
        r == events::first_place(agents@, events::has_pane(pane)),
{
    let ghost p = events::has_pane(pane);
    let mut i: usize = 0;
    assert(agents@.take(0) =~= Seq::<Agent>::empty());
    while i < agents.len()
        invariant
            i <= agents.len(),
            p == events::has_pane(pane),
            events::first_place(agents@.take(i as int), p) is None,
        decreases agents.len() - i,
    {
        assert(agents@.take(i + 1).drop_last() =~= agents@.take(i as int));
        let here = match agents[i].zellij_pane_id {
            Some(id) => id == pane,
            None => false,
        };
        if here {
            proof {
                place_stays(agents@, p, i + 1, agents@.len() as int);
                assert(agents@.take(agents@.len() as int) =~= agents@);
            }
            return Some(i);
        }
        i += 1;
    }
    assert(agents@.take(i as int) =~= agents@);
    None
}

/// Whether two lists of agents show alike.
pub fn same_agents(a: &Vec<Agent>, b: &Vec<Agent>) -> (r: bool)
    ensures
        r == events::same_agents(a@, b@),
{
    if a.len() != b.len() {
        return false;
    }
    let mut i: usize = 0;
    while i < a.len()
        invariant
            i <= a.len(),
            a.len() == b.len(),
            forall|j: int| 0 <= j < i ==> events::same_agent(#[trigger] a@[j], b@[j]),
        decreases a.len() - i,
    {
        let x = &a[i];
        let y = &b[i];
        let panes = match (x.zellij_pane_id, y.zellij_pane_id) {
            (Some(p), Some(q)) => p == q,
            (None, None) => true,
            _ => false,
        };
        let same = x.session_id == y.session_id && x.status.same(&y.status) && panes
            && same_opt_text(&x.zellij_session, &y.zellij_session) && x.name == y.name
            && x.started_at_ms == y.started_at_ms && x.attention_at_ms == y.attention_at_ms
            && x.active == y.active;
        if !same {
            assert(!events::same_agent(a@[i as int], b@[i as int]));
            return false;
        }
        i += 1;
    }
    true
}

/// Whether a new read shows what the last one did.
pub fn same_result(a: &Option<ReadResult>, b: &ReadResult) -> (r: bool)
    ensures
        r == events::same_result(
            match *a {
                Some(x) => Some(panel::read_view(x)),
                None => None,
            },
            panel::read_view(*b),
        ),
{
    match (a, b) {
        (Some(ReadResult::Loaded(x)), ReadResult::Loaded(y)) => same_agents(x, y),
        (Some(ReadResult::Missing), ReadResult::Missing) => true,
        (Some(ReadResult::Unreadable(x)), ReadResult::Unreadable(y)) => *x == *y,
        (Some(ReadResult::ParseError(x)), ReadResult::ParseError(y)) => *x == *y,
        _ => false,
    }
}

impl State {
    pub fn current_agents(&self) -> (r: Vec<Agent>)
        ensures
            r@ == events::current(self@),
    {
        match &self.load {
            LoadState::Polling { path: _, last: Some(ReadResult::Loaded(a)) } => copy_agents(a),
            _ => Vec::new(),
        }
    }

    /// The agents less those the user dismissed.
    pub fn visible_agents(&self) -> (r: Vec<Agent>)
        ensures
            r@ == events::visible(self@),
    {
        let all = self.current_agents();
        let ghost p = events::not_dismissed(self@.dismissed);
        let mut out: Vec<Agent> = Vec::new();
        let mut i: usize = 0;
        proof {
            seqs::filter_none(all@, p);
        }
        while i < all.len()
            invariant
                i <= all.len(),
                p == events::not_dismissed(self@.dismissed),
                out@ == all@.take(i as int).filter(p),
            decreases all.len() - i,
        {
            proof {
                seqs::filter_step(all@, p, i as int);
            }
            if !self.dismissed_overlay.contains(&all[i].session_id) {
                out.push(all[i].copy());
            }
            i += 1;
        }
        assert(all@.take(i as int) =~= all@);
        out
    }

    /// The agents as the panel lists them, from top to bottom.
    pub fn display_order(&self) -> (r: Vec<Agent>)
        ensures
            r@ == events::shown(self@),
    {
        flatten(&grouped(&self.visible_agents(), &self.sessions))
    }

    pub fn am_focused(&self) -> (r: bool)
        ensures
            r == events::am_focused(self@),
    {
        let own = match self.own_plugin_id {
            Some(id) => id,
            None => return false,
        };
        let idx = match self.active_tab_idx {
            Some(idx) => idx,
            None => return false,
        };
        let panes = match self.pane_manifest.of_tab(idx) {
            Some(p) => p,
            None => return false,
        };
        let mut i: usize = 0;
        while i < panes.list.len()
            invariant
                i <= panes.list.len(),
                panes@ == events::panes_here(self@),
                self.own_plugin_id == Some(own),
                forall|j: int|
                    0 <= j < i ==> !((#[trigger] panes@[j]).is_plugin && panes@[j].id == own
                        && panes@[j].is_focused),
            decreases panes.list.len() - i,
        {
            let p = &panes.list[i];
            assert(panes@[i as int] == panes.list@[i as int]@);
            if p.is_plugin && p.id == own && p.is_focused {
                assert(events::panes_here(self@)[i as int].is_plugin);
                return true;
            }
            i += 1;
        }
        false
    }

    pub fn focused_external_pane_id(&self) -> (r: Option<u32>)
        ensures
            r == events::focused_terminal(events::panes_here(self@)),
    {
        let idx = match self.active_tab_idx {
            Some(idx) => idx,
            None => return None,
        };
        let panes = match self.pane_manifest.of_tab(idx) {
            Some(p) => p,
            None => return None,
        };
        let ghost all = panes@;
        let mut i: usize = 0;
        assert(all.take(0) =~= Seq::<host::PaneView>::empty());
        while i < panes.list.len()
            invariant
                i <= panes.list.len(),
                all == panes@,
                all == events::panes_here(self@),
                events::focused_terminal(all.take(i as int)) is None,
            decreases panes.list.len() - i,
        {
            let p = &panes.list[i];
            proof {
                assert(all.take(i + 1).drop_last() =~= all.take(i as int));
                assert(all[i as int] == panes.list@[i as int]@);
            }
            if p.is_focused && !p.is_plugin {
                proof {
                    focus_stays(all, i + 1, all.len() as int);
                    assert(all.take(all.len() as int) =~= all);
                }
                return Some(p.id);
            }
            i += 1;
        }
        assert(all.take(i as int) =~= all);
        None
    }

    /// Where the cursor goes when the panel gets the focus.
    pub fn initial_selection(&self) -> (r: Option<usize>)
        ensures
            r == events::initial_selection(self@),
    {
        let agents = self.display_order();
        if agents.len() == 0 {
            return None;
        }
        if let Some(prev) = self.last_external_focused_pane {
            if let Some(idx) = place_of_pane(&agents, prev) {
                return Some(idx);
            }
        }
        Some(0)
    }
}

proof fn focus_stays(panes: Seq<host::PaneView>, i: int, j: int)
    requires
        0 <= i <= j <= panes.len(),
        events::focused_terminal(panes.take(i)) is Some,
    ensures
        events::focused_terminal(panes.take(j)) == events::focused_terminal(panes.take(i)),
    decreases j - i,
{
    if i < j {
        focus_stays(panes, i, j - 1);
        assert(panes.take(j).drop_last() =~= panes.take(j - 1));
    }
}

/// The agents of some groups, from top to bottom.
pub fn flatten(gs: &Vec<groups::Group>) -> (r: Vec<Agent>)
    ensures
        r@ == group_laws::display_order(groups::group_views(gs@)),
{
    let ghost gv = groups::group_views(gs@);
    let ghost f = |r: groups::RowView| r.agent;
    let mut out: Vec<Agent> = Vec::new();
    let mut i: usize = 0;
    assert(gv.take(0) =~= Seq::<groups::GroupView>::empty());
    while i < gs.len()
        invariant
            i <= gs.len(),
            gv == groups::group_views(gs@),
            f == (|r: groups::RowView| r.agent),
            out@ == group_laws::display_order(gv.take(i as int)),
        decreases gs.len() - i,
    {
        let rows = &gs[i].rows;
        let ghost above = out@;
        let ghost rv = gv[i as int].rows;
        let mut j: usize = 0;
        assert(above =~= above + rv.take(0).map_values(f));
        while j < rows.len()
            invariant
                j <= rows.len(),
                i < gs.len(),
                *rows == gs@[i as int].rows,
                rv == rows@.map_values(|r: groups::Row| r@),
                f == (|r: groups::RowView| r.agent),
                out@ == above + rv.take(j as int).map_values(f),
            decreases rows.len() - j,
        {
            out.push(rows[j].agent.copy());
            assert(rv[j as int] == rows@[j as int]@);
            assert(out@ =~= above + rv.take(j + 1).map_values(f));
            j += 1;
        }
        proof {
            assert(rv.take(j as int) =~= rv);
            assert(gv.take(i + 1).drop_last() =~= gv.take(i as int));
        }
        i += 1;
    }
    assert(gv.take(i as int) =~= gv);
    out
}

fn push_event(
    actions: &mut Vec<Action>,
    dir: &Option<String>,
    sid: &String,
    time_key: &str,
    at_ms: i64,
)
    ensures
        action_views(final(actions)@) == action_views(old(actions)@) + events::event_writes(
            opt_text(*dir),
            sid@,
            time_key@,
            at_ms,
        ),
{
    if let Some(d) = dir {
        if let Some(bytes) = to_json("session_id", sid.as_str(), time_key, at_ms) {
            push_action(
                actions,
                Action::WriteEvent { dir: d.clone(), name: sid.clone(), bytes },
            );
        }
    }
    assert(action_views(actions@) =~= action_views(old(actions)@) + events::event_writes(
        opt_text(*dir),
        sid@,
        time_key@,
        at_ms,
    ));
}

fn focus_action(focus_sid: &String, echo_sid: &String) -> (r: Action)
    ensures
        r@ == events::focus_command(focus_sid@, echo_sid@),
{
    let mut args: Vec<String> = Vec::new();
    args.push("mux".to_owned());
    args.push("focus-agent".to_owned());
    args.push(focus_sid.clone());
    let mut context: Vec<(String, String)> = Vec::new();
    context.push(("click_label".to_owned(), short_label(focus_sid.as_str())));
    context.push(("session_id".to_owned(), echo_sid.clone()));
    assert(text::texts(args@) =~= seq!["mux"@, "focus-agent"@, focus_sid@]);
    assert(events::pair_views(context@) =~= seq![
        ("click_label"@, text::short(focus_sid@)),
        ("session_id"@, echo_sid@),
    ]);
    Action::RunCommand { args, context }
}

impl State {
    /// Mark an agent's attention as seen.
    pub fn acknowledge_agent(&mut self, sid: &String, actions: &mut Vec<Action>)
        ensures
            final(self)@ == events::acknowledged(old(self)@, sid@).panel,
            action_views(final(actions)@) == action_views(old(actions)@) + events::acknowledged(
                old(self)@,
                sid@,
            ).actions,
    {
        let ghost before = self@;
        let agents = self.current_agents();
        let agent = match find_agent(&agents, sid.as_str()) {
            Some(a) => a,
            None => {
                assert(action_views(actions@) =~= action_views(old(actions)@)
                    + events::acknowledged(before, sid@).actions);
                return;
            },
        };
        if agent.attention_at_ms == 0 {
            assert(action_views(actions@) =~= action_views(old(actions)@) + events::acknowledged(
                before,
                sid@,
            ).actions);
            return;
        }
        let at_ms = agent.attention_at_ms;
        let held: i64 = match self.seen_overlay.get(sid) {
            Some(t) => *t,
            None => 0,
        };
        let best: i64 = if at_ms > held {
            at_ms
        } else {
            held
        };
        self.seen_overlay.insert(sid.clone(), best);
        push_event(actions, &self.seen_events_dir, sid, "seen_at_ms", at_ms);
        assert(self@ =~= events::acknowledged(before, sid@).panel);
    }

    /// Go to a row's pane, where it routes to one.
    pub fn focus_row(&mut self, sid: &String, allow_dead: bool, actions: &mut Vec<Action>)
        ensures
            final(self)@ == events::routed(old(self)@, sid@, allow_dead).panel,
            action_views(final(actions)@) == action_views(old(actions)@) + events::routed(
                old(self)@,
                sid@,
                allow_dead,
            ).actions,
    {
        let ghost before = self@;
        let agents = self.current_agents();
        let dead = match find_agent(&agents, sid.as_str()) {
            Some(a) => !a.active,
            None => false,
        };
        if !dead || allow_dead {
            let target = match self.focus_targets.get(sid) {
                Some(t) => Some(t.clone()),
                None => None,
            };
            if let Some(t) = target {
                self.in_flight.insert(sid.clone(), 0);
                push_action(actions, focus_action(&t, sid));
                assert(self@ =~= events::routed(before, sid@, allow_dead).panel);
            }
        }
        assert(action_views(actions@) =~= action_views(old(actions)@) + events::routed(
            before,
            sid@,
            allow_dead,
        ).actions);
    }

    fn activate(&mut self, sid: &String, allow_dead: bool, actions: &mut Vec<Action>)
        ensures
            final(self)@ == events::activated(old(self)@, sid@, allow_dead).panel,
            action_views(final(actions)@) == action_views(old(actions)@) + events::activated(
                old(self)@,
                sid@,
                allow_dead,
            ).actions,
    {
        self.acknowledge_agent(sid, actions);
        self.focus_row(sid, allow_dead, actions);
        assert(action_views(actions@) =~= action_views(old(actions)@) + events::activated(
            old(self)@,
            sid@,
            allow_dead,
        ).actions);
    }

    /// Hide an agent at once, and leave a mark for the daemon to drop it.
    pub fn dismiss_agent(&mut self, sid: &String, now_ms: i64, actions: &mut Vec<Action>)
        ensures
            final(self)@ == events::dismissing(old(self)@, sid@, now_ms).panel,
            action_views(final(actions)@) == action_views(old(actions)@) + events::dismissing(
                old(self)@,
                sid@,
                now_ms,
            ).actions,
    {
        self.dismissed_overlay.insert(sid.clone(), ());
        push_event(actions, &self.dismissed_events_dir, sid, "dismissed_at_ms", now_ms);
        assert(self@ =~= events::dismissing(old(self)@, sid@, now_ms).panel);
    }

    /// Turn every spinner one tick on, dropping those that have turned long enough;
    /// whether a repaint is due, which it also is where the last one was dropped.
    pub fn advance_spinners(&mut self) -> (r: bool)
        requires
            old(self).wf(),
        ensures
            final(self)@ == (Panel { in_flight: events::spun(old(self)@.in_flight), ..old(self)@ }),
            r == (old(self)@.in_flight != Map::<Seq<char>, u32>::empty()),
    {
        let ghost before = self@;
        let any = !self.in_flight.is_empty();
        let n = self.in_flight.len();
        let mut turned: Dict<String, u32> = Dict::new();
        let ghost list = self.in_flight.list();
        let mut i: usize = 0;
        while i < n
            invariant
                i <= n,
                n == list.len(),
                list == self.in_flight.list(),
                self.in_flight.is_listed(),
                self@ == before,
                before.in_flight == self.in_flight@,
                panel::in_bounds(before),
                forall|k: Seq<char>| #[trigger]
                    turned@.contains_key(k) ==> self.in_flight@.contains_key(k)
                        && self.in_flight@[k] < MAX_SPIN_TICKS && turned@[k] == self.in_flight@[k]
                        + 1,
                forall|j: int|
                    0 <= j < i && (#[trigger] list[j]).1 < MAX_SPIN_TICKS ==> turned@.contains_key(
                        list[j].0@,
                    ),
            decreases n - i,
        {
            let sid = self.in_flight.key_at(i).clone();
            let age = *self.in_flight.value_at(i);
            let ghost was = turned@;
            assert(list[i as int].0@ == sid@);
            if age < MAX_SPIN_TICKS {
                turned.insert(sid, age + 1);
            }
            proof {
                assert forall|j: int|
                    0 <= j < i + 1 && (#[trigger] list[j]).1 < MAX_SPIN_TICKS implies turned@.contains_key(
                    list[j].0@) by {
                    if j < i {
                        assert(was.contains_key(list[j].0@));
                    }
                }
            }
            i += 1;
        }
        proof {
            let want = events::spun(self.in_flight@);
            assert forall|k: Seq<char>| turned@.contains_key(k) <==> want.contains_key(k) by {
                if want.contains_key(k) {
                    let j = choose|j: int| 0 <= j < list.len() && #[trigger] list[j].0@ == k;
                    assert(self.in_flight@[list[j].0@] == list[j].1);
                    assert(turned@.contains_key(list[j].0@));
                }
            }
            assert(turned@ =~= want);
        }
        self.in_flight = turned;
        assert(self@ =~= (Panel { in_flight: events::spun(before.in_flight), ..before }));
        any
    }

    /// Take in a listing of the live sessions; whether it changed anything.
    pub fn refresh_sessions(&mut self, list: Option<Vec<SessionReport>>, now_ms: i64) -> (r: bool)
        requires
            list matches Some(l) ==> events::ages_fit(old(self)@.sessions, l@, now_ms),
        ensures
            final(self)@ == events::after_sessions(old(self)@, list, now_ms).panel,
            r == events::after_sessions(old(self)@, list, now_ms).rerender,
    {
        let ghost before = self@;
        let mut new: Dict<String, SessionMeta> = Dict::new();
        if let Some(l) = &list {
            let mut i: usize = 0;
            assert(l@.take(0) =~= Seq::<SessionReport>::empty());
            while i < l.len()
                invariant
                    i <= l.len(),
                    self@ == before,
                    before.sessions == self.sessions@,
                    events::ages_fit(before.sessions, l@, now_ms),
                    new@ == events::sessions_listed(before.sessions, l@.take(i as int), now_ms),
                decreases l.len() - i,
            {
                let s = &l[i];
                assert(l@.take(i + 1).drop_last() =~= l@.take(i as int));
                assert(l@.take(i + 1).last() == l@[i as int]);
                let created_ms = match self.sessions.get(&s.name) {
                    Some(m) => m.created_ms,
                    None => {
                        assert(!before.sessions.contains_key(l@[i as int].name@));
                        now_ms - s.age_ms
                    },
                };
                new.insert(s.name.clone(), SessionMeta { clients: s.clients, created_ms });
                i += 1;
            }
            assert(l@.take(i as int) =~= l@);
        }
        let same = new.same_as(&self.sessions);
        proof {
            if same {
                assert(new@ =~= self.sessions@);
            }
        }
        self.sessions = new;
        assert(self@ =~= events::after_sessions(before, list, now_ms).panel);
        !same
    }
}

proof fn target_stays(ranges: Seq<(usize, TargetView)>, row: usize, i: int, j: int)
    requires
        0 <= i <= j <= ranges.len(),
        events::target_at(ranges.take(i), row) is Some,
    ensures
        events::target_at(ranges.take(j), row) == events::target_at(ranges.take(i), row),
    decreases j - i,
{
    if i < j {
        target_stays(ranges, row, i, j - 1);
        assert(ranges.take(j).drop_last() =~= ranges.take(j - 1));
    }
}

proof fn active_stays(tabs: Seq<host::TabView>, i: int, j: int)
    requires
        0 <= i <= j <= tabs.len(),
        events::active_position(tabs.take(i)) is Some,
    ensures
        events::active_position(tabs.take(j)) == events::active_position(tabs.take(i)),
    decreases j - i,
{
    if i < j {
        active_stays(tabs, i, j - 1);
        assert(tabs.take(j).drop_last() =~= tabs.take(j - 1));
    }
}

fn active_tab_position(tabs: &Vec<TabInfo>) -> (r: Option<usize>)
    ensures
        r == events::active_position(host::tab_views(tabs@)),
{
    let ghost all = host::tab_views(tabs@);
    let mut i: usize = 0;
    assert(all.take(0) =~= Seq::<host::TabView>::empty());
    while i < tabs.len()
        invariant
            i <= tabs.len(),
            all == host::tab_views(tabs@),
            events::active_position(all.take(i as int)) is None,
        decreases tabs.len() - i,
    {
        proof {
            assert(all.take(i + 1).drop_last() =~= all.take(i as int));
            assert(all[i as int] == tabs@[i as int]@);
        }
        if tabs[i].active {
            proof {
                active_stays(all, i + 1, all.len() as int);
                assert(all.take(all.len() as int) =~= all);
            }
            return Some(tabs[i].position);
        }
        i += 1;
    }
    assert(all.take(i as int) =~= all);
    None
}

/// What an outcome says, next to the state it left.
pub open spec fn outcome_is(s: State, o: Outcome, next: Next) -> bool {
    s@ == next.panel && o.rerender == next.rerender && action_views(o.actions@) == next.actions
}

fn done(rerender: bool) -> (r: Outcome)
    ensures
        r.rerender == rerender,
        action_views(r.actions@) == Seq::<ActionView>::empty(),
{
    Outcome { rerender, actions: no_actions() }
}

fn one(action: Action) -> (r: Outcome)
    ensures
        r.rerender,
        action_views(r.actions@) == seq![action@],
{
    let mut actions = no_actions();
    push_action(&mut actions, action);
    assert(action_views(actions@) =~= seq![action@]);
    Outcome { rerender: true, actions }
}

impl State {
    fn target_at(&self, row: usize) -> (r: Option<usize>)
        ensures
            match r {
                Some(i) => i < self.row_ranges.len() && events::target_at(self@.row_ranges, row)
                    == Some(self.row_ranges@[i as int].1@),
                None => events::target_at(self@.row_ranges, row) is None,
            },
    {
        let ghost all = self@.row_ranges;
        let mut i: usize = 0;
        assert(all.take(0) =~= Seq::<(usize, TargetView)>::empty());
        while i < self.row_ranges.len()
            invariant
                i <= self.row_ranges.len(),
                all == panel::target_views(self.row_ranges@),
                all == self@.row_ranges,
                events::target_at(all.take(i as int), row) is None,
            decreases self.row_ranges.len() - i,
        {
            proof {
                assert(all.take(i + 1).drop_last() =~= all.take(i as int));
                assert(all.take(i + 1).last() == (
                    self.row_ranges@[i as int].0,
                    self.row_ranges@[i as int].1@,
                ));
            }
            if self.row_ranges[i].0 == row {
                proof {
                    target_stays(all, row, i + 1, all.len() as int);
                    assert(all.take(all.len() as int) =~= all);
                }
                return Some(i);
            }
            i += 1;
        }
        assert(all.take(i as int) =~= all);
        None
    }

    fn on_click(&mut self, line: isize) -> (r: Outcome)
        ensures
            outcome_is(
                *final(self),
                r,
                if line < 0 {
                    events::quiet(old(self)@, false)
                } else {
                    match events::target_at(old(self)@.row_ranges, line as usize) {
                        Some(target) => events::after_click(old(self)@, target),
                        None => events::quiet(old(self)@, false),
                    }
                },
            ),
    {
        if line < 0 {
            return done(false);
        }
        let ghost before = self@;
        let i = match self.target_at(line as usize) {
            Some(i) => i,
            None => return done(false),
        };
        let sid = match &self.row_ranges[i].1 {
            RowTarget::Session(name) => {
                return one(Action::SwitchSession(name.clone()));
            },
            RowTarget::Agent(sid) => sid.clone(),
        };
        let agents = self.display_order();
        if let Some(idx) = place_of_sid(&agents, sid.as_str()) {
            self.selected_idx = Some(idx);
            self.follow_selection = true;
            assert(self@ =~= events::selecting(before, idx));
        }
        let mut actions = no_actions();
        self.activate(&sid, false, &mut actions);
        assert(action_views(actions@) =~= events::after_click(
            before,
            TargetView::Agent(sid@),
        ).actions);
        Outcome { rerender: true, actions }
    }

    fn select(&mut self, i: usize) -> (r: Outcome)
        ensures
            outcome_is(*final(self), r, events::quiet(events::selecting(old(self)@, i), true)),
    {
        self.selected_idx = Some(i);
        self.follow_selection = true;
        assert(self@ =~= events::selecting(old(self)@, i));
        done(true)
    }

    fn on_key(&mut self, key: &KeyWithModifier, now_ms: i64) -> (r: Outcome)
        ensures
            outcome_is(*final(self), r, events::after_key(old(self)@, *key, now_ms)),
    {
        let ghost before = self@;
        if !key.has_no_modifiers() {
            return done(false);
        }
        let agents = self.display_order();
        let len = agents.len();
        let sid = match self.selected_idx {
            Some(i) => if i < len {
                Some(agents[i].session_id.clone())
            } else {
                None
            },
            None => None,
        };
        match key.bare_key {
            BareKey::Up | BareKey::Char('k') => {
                if len == 0 {
                    return done(false);
                }
                let i: usize = match self.selected_idx {
                    Some(i) => if i > 0 {
                        i - 1
                    } else {
                        0
                    },
                    None => 0,
                };
                self.select(i)
            },
            BareKey::Down | BareKey::Char('j') => {
                if len == 0 {
                    return done(false);
                }
                let i: usize = match self.selected_idx {
                    Some(i) => if i < len - 1 {
                        i + 1
                    } else {
                        len - 1
                    },
                    None => 0,
                };
                self.select(i)
            },
            BareKey::Home => {
                if len == 0 {
                    return done(false);
                }
                self.select(0)
            },
            BareKey::End | BareKey::Char('G') => {
                if len == 0 {
                    return done(false);
                }
                self.select(len - 1)
            },
            BareKey::Char('g') => match sid {
                Some(s) => {
                    let mut actions = no_actions();
                    self.activate(&s, true, &mut actions);
                    assert(action_views(actions@) =~= events::after_key(
                        before,
                        *key,
                        now_ms,
                    ).actions);
                    Outcome { rerender: true, actions }
                },
                None => done(false),
            },
            BareKey::Enter => match sid {
                Some(s) => {
                    let mut actions = no_actions();
                    self.activate(&s, false, &mut actions);
                    assert(action_views(actions@) =~= events::after_key(
                        before,
                        *key,
                        now_ms,
                    ).actions);
                    Outcome { rerender: true, actions }
                },
                None => done(false),
            },
            BareKey::Char('x') => match self.selected_idx {
                Some(i) => {
                    if i >= len || agents[i].active {
                        return done(false);
                    }
                    let s = agents[i].session_id.clone();
                    let mut actions = no_actions();
                    self.dismiss_agent(&s, now_ms, &mut actions);
                    assert(action_views(actions@) =~= events::after_key(
                        before,
                        *key,
                        now_ms,
                    ).actions);
                    Outcome { rerender: true, actions }
                },
                None => done(false),
            },
            BareKey::Char('y') => match sid {
                Some(s) => one(Action::CopyToClipboard(s)),
                None => done(false),
            },
            BareKey::Char('v') => match sid {
                Some(s) => match self.focus_targets.get(&s) {
                    Some(t) => one(
                        Action::CopyToClipboard(joined("mux focus-agent ", t.as_str())),
                    ),
                    None => done(false),
                },
                None => done(false),
            },
            BareKey::Esc | BareKey::Char('q') => one(Action::FocusRight),
            _ => done(false),
        }
    }

    fn on_timer(&mut self) -> (r: Outcome)
        requires
            old(self).wf(),
        ensures
            outcome_is(*final(self), r, events::after_timer(old(self)@)),
            final(self).wf(),
    {
        let ghost before = self@;
        let changed = self.advance_spinners();
        let mut actions = no_actions();
        let since = self.since_poll + self.cur_timeout;
        if since >= POLL_TENTHS {
            self.since_poll = 0;
            if let LoadState::Polling { path, last: _ } = &self.load {
                push_action(&mut actions, Action::ReadSnapshot(path.clone()));
            }
            if let Some(dir) = &self.seen_events_dir {
                push_action(&mut actions, Action::ReadSeenEvents(dir.clone()));
            }
            push_action(&mut actions, Action::ListSessions);
            assert(action_views(actions@) =~= events::poll_actions(before));
        } else {
            self.since_poll = since;
        }
        self.cur_timeout = if self.in_flight.is_empty() {
            POLL_TENTHS
        } else {
            SPIN_TENTHS
        };
        push_action(&mut actions, Action::SetTimeout(self.cur_timeout));
        proof {
            assert(self@ =~= events::after_timer(before).panel);
            assert(action_views(actions@) =~= events::after_timer(before).actions);
        }
        Outcome { rerender: changed, actions }
    }

    fn on_permission(&mut self, env: &Dict<String, String>) -> (r: Outcome)
        ensures
            outcome_is(*final(self), r, events::after_permission(old(self)@, env@)),
    {
        let ghost before = self@;
        let awaiting = match &self.load {
            LoadState::AwaitingPermission => true,
            _ => false,
        };
        if !awaiting {
            return done(false);
        }
        let mut actions = no_actions();
        match locate_snapshot(env, self.state_dir.as_str()) {
            Some(loc) => {
                push_action(&mut actions, Action::ChangeHostFolder(loc.host_root));
                push_action(&mut actions, Action::ReadSeenEvents(loc.seen_events_dir.clone()));
                push_action(&mut actions, Action::ReadSnapshot(loc.wasi_path.clone()));
                self.seen_events_dir = Some(loc.seen_events_dir);
                self.dismissed_events_dir = Some(
                    in_state_dir(self.state_dir.as_str(), "agent-dismissed-events"),
                );
                self.load = LoadState::Polling { path: loc.wasi_path, last: None };
            },
            None => {
                self.load = LoadState::NoHomeInEnv;
            },
        }
        push_action(&mut actions, Action::ListSessions);
        self.cur_timeout = POLL_TENTHS;
        push_action(&mut actions, Action::SetTimeout(POLL_TENTHS));
        proof {
            assert(self@ =~= events::after_permission(before, env@).panel);
            assert(action_views(actions@) =~= events::after_permission(before, env@).actions);
        }
        Outcome { rerender: true, actions }
    }

    fn on_panes(&mut self, manifest: PaneManifest) -> (r: Outcome)
        ensures
            outcome_is(*final(self), r, events::after_panes(old(self)@, manifest@)),
    {
        let ghost before = self@;
        let changed = !self.pane_manifest.same(&manifest);
        self.pane_manifest = manifest;
        let ghost q = Panel { panes: manifest@, ..before };
        assert(self@ =~= q);
        let now_focused = self.am_focused();
        if !now_focused {
            if let Some(pid) = self.focused_external_pane_id() {
                self.last_external_focused_pane = Some(pid);
            }
        }
        let ghost r = if !now_focused && events::focused_terminal(events::panes_here(q)) is Some {
            Panel { last_external: events::focused_terminal(events::panes_here(q)), ..q }
        } else {
            q
        };
        assert(self@ =~= r);
        if now_focused != self.was_focused {
            self.selected_idx = if now_focused {
                self.initial_selection()
            } else {
                None
            };
            self.follow_selection = now_focused;
            self.was_focused = now_focused;
            assert(self@ =~= events::after_panes(before, manifest@).panel);
            return done(true);
        }
        done(changed)
    }

    fn on_snapshot(&mut self, new: ReadResult) -> (r: Outcome)
        ensures
            outcome_is(
                *final(self),
                r,
                events::after_snapshot(old(self)@, panel::read_view(new)),
            ),
    {
        let ghost before = self@;
        let ghost nv = panel::read_view(new);
        let (path, changed) = match &self.load {
            LoadState::Polling { path, last } => (path.clone(), !same_result(last, &new)),
            _ => return done(false),
        };
        self.load = LoadState::Polling { path, last: Some(new) };
        assert(self@ =~= events::after_snapshot(before, nv).panel);
        done(changed)
    }

    /// Take in a scan of the seen events; whether it changed anything.
    pub fn refresh_seen_disk(&mut self, new: Dict<String, i64>) -> (r: bool)
        ensures
            final(self)@ == events::after_seen(old(self)@, new@).panel,
            r == events::after_seen(old(self)@, new@).rerender,
    {
        if self.seen_events_dir.is_none() {
            return false;
        }
        let same = new.same_as(&self.seen_disk);
        proof {
            if same {
                assert(new@ =~= self.seen_disk@);
            }
        }
        self.seen_disk = new;
        assert(self@ =~= events::after_seen(old(self)@, new@).panel);
        !same
    }

    /// Take in the id the host gave the panel.
    pub fn load(&mut self, plugin_id: u32) -> (r: Vec<Action>)
        ensures
            final(self)@ == events::loaded(old(self)@, plugin_id).panel,
            action_views(r@) == events::loaded(old(self)@, plugin_id).actions,
    {
        let mut wanted: Vec<EventType> = Vec::new();
        wanted.push(EventType::ModeUpdate);
        wanted.push(EventType::TabUpdate);
        wanted.push(EventType::PaneUpdate);
        wanted.push(EventType::Timer);
        wanted.push(EventType::Mouse);
        wanted.push(EventType::Key);
        wanted.push(EventType::PermissionRequestResult);
        wanted.push(EventType::RunCommandResult);
        let mut needed: Vec<PermissionType> = Vec::new();
        needed.push(PermissionType::ReadApplicationState);
        needed.push(PermissionType::FullHdAccess);
        needed.push(PermissionType::ReadSessionEnvironmentVariables);
        needed.push(PermissionType::RunCommands);
        needed.push(PermissionType::WriteToClipboard);
        self.own_plugin_id = Some(plugin_id);
        let ghost want = events::loaded(old(self)@, plugin_id);
        proof {
            assert(ActionView::Subscribe(wanted@) == want.actions[0]) by {
                assert(wanted@ =~= want.actions[0]->Subscribe_0);
            }
            assert(ActionView::RequestPermissions(needed@) == want.actions[1]) by {
                assert(needed@ =~= want.actions[1]->RequestPermissions_0);
            }
        }
        let mut actions = no_actions();
        push_action(&mut actions, Action::Subscribe(wanted));
        push_action(&mut actions, Action::RequestPermissions(needed));
        assert(self@ =~= want.panel);
        assert(action_views(actions@) =~= want.actions);
        actions
    }

    /// Whether a listing's ages can be made points in time.
    pub open spec fn ages_fit(self, event: Event, now_ms: i64) -> bool {
        event matches Event::Sessions(Some(l)) ==> events::ages_fit(self@.sessions, l@, now_ms)
    }

    /// Take in an event at wall-clock time `now_ms`.
    #[verifier::rlimit(30)]
    pub fn update(&mut self, event: Event, now_ms: i64) -> (r: Outcome)
        requires
            old(self).wf(),
            old(self).ages_fit(event, now_ms),
        ensures
            final(self).wf(),
            outcome_is(*final(self), r, events::updated(old(self)@, event, now_ms)),
    {
        let ghost before = self@;
        match event {
            Event::PermissionRequestResult(env) => self.on_permission(&env),
            Event::ModeUpdate(mode_info) => {
                let changed = !self.mode_info.same(&mode_info);
                self.mode_info = mode_info;
                assert(self@ =~= (Panel { mode: mode_info@, ..before }));
                done(changed)
            },
            Event::TabUpdate(tabs) => {
                let new_idx = active_tab_position(&tabs);
                let changed = match (self.active_tab_idx, new_idx) {
                    (Some(a), Some(b)) => a != b,
                    (None, None) => false,
                    _ => true,
                };
                self.active_tab_idx = new_idx;
                assert(self@ =~= (Panel { active_tab: new_idx, ..before }));
                done(changed)
            },
            Event::PaneUpdate(manifest) => self.on_panes(manifest),
            Event::Timer => self.on_timer(),
            Event::ScrollUp(lines) => {
                let n: usize = if lines == 0 {
                    1
                } else {
                    lines
                };
                let was = self.scroll_offset;
                self.scroll_offset = if was >= n {
                    was - n
                } else {
                    0
                };
                assert(self@ =~= events::after_scroll_up(before, lines).panel);
                done(self.scroll_offset != was)
            },
            Event::ScrollDown(lines) => {
                let n: usize = if lines == 0 {
                    1
                } else {
                    lines
                };
                self.scroll_offset = self.scroll_offset.saturating_add(n);
                assert(self@ =~= events::after_scroll_down(before, lines).panel);
                done(true)
            },
            Event::LeftClick(line) => self.on_click(line),
            Event::Key(key) => self.on_key(&key, now_ms),
            Event::RunCommandResult(context) => {
                match context.get(&"session_id".to_owned()) {
                    Some(sid) => {
                        let was = self.in_flight.remove(sid);
                        assert(self@ =~= events::after_command(before, context@).panel);
                        done(was)
                    },
                    None => done(false),
                }
            },
            Event::SeenEvents(seen) => {
                let changed = self.refresh_seen_disk(seen);
                done(changed)
            },
            Event::Snapshot(new) => self.on_snapshot(new),
            Event::Sessions(list) => {
                let changed = self.refresh_sessions(list, now_ms);
                done(changed)
            },
            Event::Other => done(false),
        }
    }
}

} // verus!
