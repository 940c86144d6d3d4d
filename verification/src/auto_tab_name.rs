//! Tabs named after what runs in them.
//!
//! A tab is renamed as long as it carries the name it was last given, or the
//! host's placeholder. A name that came from anywhere else is left alone, until
//! the placeholder is back.
use crate::dict::Dict;
use crate::host::{opt_text, tab_views, PaneInfo, PaneManifest, PaneView, TabInfo, TabView};
use crate::text;
use crate::text::{chars_of, has_prefix, has_suffix, str_eq, trim, white};
use vstd::prelude::*;

pub mod laws;

verus! {

#[derive(Debug)]
pub enum AutoState {
    Auto { last_set_name: String },
    Manual,
}

pub ghost enum AutoView {
    Auto(Seq<char>),
    Manual,
}

impl View for AutoState {
    type V = AutoView;

    open spec fn view(&self) -> AutoView {
        match self {
            AutoState::Auto { last_set_name } => AutoView::Auto(last_set_name@),
            AutoState::Manual => AutoView::Manual,
        }
    }
}

/// Letters in lower case, everything else as it is.
pub open spec fn lower(c: char) -> char {
    if 'A' <= c && c <= 'Z' {
        (c as u32 + 32) as char
    } else {
        c
    }
}

pub open spec fn lowered(s: Seq<char>) -> Seq<char> {
    s.map_values(|c: char| lower(c))
}

pub open spec fn all_digits(s: Seq<char>) -> bool {
    forall|i: int| 0 <= i < s.len() ==> text::is_digit(#[trigger] s[i])
}

/// The host's name for a tab that has none.
pub open spec fn default_name(s: Seq<char>) -> bool {
    "Tab #"@.is_prefix_of(s) && s.len() > "Tab #"@.len() && all_digits(s.skip("Tab #"@.len() as int))
}

pub open spec fn is_alpha(c: char) -> bool {
    ('a' <= c && c <= 'z') || ('A' <= c && c <= 'Z')
}

pub open spec fn path_like(s: Seq<char>) -> bool {
    ||| s.len() > 0 && (s[0] == '/' || s[0] == '~')
    ||| s.len() >= 3 && is_alpha(s[0]) && s[1] == ':' && (s[2] == '\\' || s[2] == '/')
}

/// A program's name without the extension that Windows gives it.
pub open spec fn without_exe(s: Seq<char>) -> Seq<char> {
    if ".exe"@.is_suffix_of(s) {
        s.take(s.len() - ".exe"@.len())
    } else {
        s
    }
}

pub open spec fn is_shell(s: Seq<char>) -> bool {
    ||| s == "pwsh"@
    ||| s == "powershell"@
    ||| s == "bash"@
    ||| s == "zsh"@
    ||| s == "fish"@
    ||| s == "nu"@
    ||| s == "nushell"@
    ||| s == "cmd"@
    ||| s == "sh"@
    ||| s == "dash"@
    ||| s == "ksh"@
}

/// A name that says nothing about what runs in the tab.
pub open spec fn boring(s: Seq<char>) -> bool {
    ||| s.len() == 0
    ||| path_like(s)
    ||| is_shell(lowered(without_exe(s)))
    ||| all_digits(s)
    ||| s == "Pane"@
    ||| "Pane #"@.is_prefix_of(s)
    ||| "Tab #"@.is_prefix_of(s)
}

/// A text up to its first white space.
pub open spec fn until_white(s: Seq<char>) -> Seq<char>
    decreases s.len(),
{
    if s.len() == 0 || text::is_white(s[0]) {
        Seq::empty()
    } else {
        seq![s[0]] + until_white(s.skip(1))
    }
}

pub open spec fn leading_word(s: Seq<char>) -> Seq<char> {
    until_white(text::left_trimmed(s))
}

/// The name a command line or a title offers.
pub open spec fn name_in(raw: Seq<char>) -> Option<Seq<char>> {
    let t = text::trimmed(raw);
    if t.len() == 0 || boring(leading_word(t)) {
        None
    } else {
        Some(leading_word(t))
    }
}

/// The name a pane offers: from its command, else from its title.
pub open spec fn name_of(pane: PaneView) -> Option<Seq<char>> {
    match pane.terminal_command {
        Some(cmd) => if name_in(cmd) is Some {
            name_in(cmd)
        } else {
            name_in(pane.title)
        },
        None => name_in(pane.title),
    }
}

pub open spec fn can_anchor(p: PaneView) -> bool {
    !p.is_plugin && !p.is_suppressed && p.is_selectable
}

/// The pane a tab is named after: the one with the lowest id.
pub open spec fn anchor(panes: Seq<PaneView>) -> Option<PaneView>
    decreases panes.len(),
{
    if panes.len() == 0 {
        None
    } else {
        let before = anchor(panes.drop_last());
        let p = panes.last();
        if can_anchor(p) && (before is None || p.id < before->0.id) {
            Some(p)
        } else {
            before
        }
    }
}

/// Whether a tab is ours to name, given the name it carries now.
pub open spec fn reconciled(prev: Option<AutoView>, name: Seq<char>) -> AutoView {
    if prev matches Some(AutoView::Auto(last)) && last == name {
        AutoView::Auto(name)
    } else if default_name(name) {
        AutoView::Auto(Seq::empty())
    } else {
        AutoView::Manual
    }
}

pub open spec fn held(m: Map<usize, AutoView>, id: usize) -> Option<AutoView> {
    if m.contains_key(id) {
        Some(m[id])
    } else {
        None
    }
}

pub open spec fn reconciled_all(m: Map<usize, AutoView>, tabs: Seq<TabView>) -> Map<usize, AutoView>
    decreases tabs.len(),
{
    if tabs.len() == 0 {
        m
    } else {
        let before = reconciled_all(m, tabs.drop_last());
        let t = tabs.last();
        before.insert(t.tab_id, reconciled(held(before, t.tab_id), t.name))
    }
}

pub open spec fn is_live(tabs: Seq<TabView>, id: usize) -> bool {
    exists|i: int| 0 <= i < tabs.len() && (#[trigger] tabs[i]).tab_id == id
}

/// What is known of the tabs that are left.
pub open spec fn live_only(m: Map<usize, AutoView>, tabs: Seq<TabView>) -> Map<usize, AutoView> {
    Map::new(|id: usize| m.contains_key(id) && is_live(tabs, id), |id: usize| m[id])
}

/// Which tab is at which position.
pub open spec fn positions(tabs: Seq<TabView>) -> Map<usize, usize>
    decreases tabs.len(),
{
    if tabs.len() == 0 {
        Map::empty()
    } else {
        positions(tabs.drop_last()).insert(tabs.last().position, tabs.last().tab_id)
    }
}

/// The name a tab is due, if it is due another one.
pub open spec fn due_name(
    m: Map<usize, AutoView>,
    panes: Map<usize, Seq<PaneView>>,
    position: usize,
    id: usize,
) -> Option<Seq<char>> {
    if m.contains_key(id) && m[id] is Auto && panes.contains_key(position) && anchor(
        panes[position],
    ) is Some {
        let name = name_of(anchor(panes[position])->0);
        if name is Some && name->0 != m[id]->Auto_0 {
            name
        } else {
            None
        }
    } else {
        None
    }
}

/// The state and the renames asked for, in order.
#[verifier::ext_equal]
pub ghost struct Named {
    pub auto_state: Map<usize, AutoView>,
    pub renames: Seq<(usize, Seq<char>)>,
}

/// Tabs visited one after the other, each given the name it is due.
pub open spec fn visited(
    m: Map<usize, AutoView>,
    panes: Map<usize, Seq<PaneView>>,
    tabs: Seq<(usize, usize)>,
) -> Named
    decreases tabs.len(),
{
    if tabs.len() == 0 {
        Named { auto_state: m, renames: Seq::empty() }
    } else {
        let before = visited(m, panes, tabs.drop_last());
        let (position, id) = tabs.last();
        match due_name(before.auto_state, panes, position, id) {
            Some(name) => Named {
                auto_state: before.auto_state.insert(id, AutoView::Auto(name)),
                renames: before.renames.push((id, name)),
            },
            None => before,
        }
    }
}

/// A walk over a map: each position once, in some order.
pub open spec fn is_walk(tabs: Seq<(usize, usize)>, m: Map<usize, usize>) -> bool {
    &&& forall|i: int, j: int|
        #![trigger tabs[i], tabs[j]]
        0 <= i < j < tabs.len() ==> tabs[i].0 != tabs[j].0
    &&& forall|i: int|
        0 <= i < tabs.len() ==> m.contains_key((#[trigger] tabs[i]).0) && m[tabs[i].0] == tabs[i].1
    &&& forall|p: usize| #[trigger]
        m.contains_key(p) ==> exists|i: int| 0 <= i < tabs.len() && #[trigger] tabs[i].0 == p
}

pub struct State {
    pub auto_state: Dict<usize, AutoState>,
    pub position_to_tab_id: Dict<usize, usize>,
    pub panes_by_position: PaneManifest,
}

pub open spec fn auto_views(m: Map<usize, AutoState>) -> Map<usize, AutoView> {
    m.map_values(|a: AutoState| a@)
}

pub open spec fn rename_views(v: Seq<(usize, String)>) -> Seq<(usize, Seq<char>)> {
    v.map_values(|r: (usize, String)| (r.0, r.1@))
}

fn digits_only(cs: &Vec<char>, from: usize) -> (r: bool)
    requires
        from <= cs.len(),
    ensures
        r == all_digits(cs@.skip(from as int)),
{
    let ghost rest = cs@.skip(from as int);
    let mut i: usize = from;
    while i < cs.len()
        invariant
            from <= i <= cs.len(),
            rest == cs@.skip(from as int),
            forall|j: int| 0 <= j < i - from ==> text::is_digit(#[trigger] rest[j]),
        decreases cs.len() - i,
    {
        let c = cs[i];
        assert(rest[i - from] == c);
        if !('0' <= c && c <= '9') {
            return false;
        }
        i += 1;
    }
    true
}

/// Whether a tab carries the host's placeholder.
pub fn is_default_tab_name(name: &str) -> (r: bool)
    ensures
        r == default_name(name@),
{
    let cs = chars_of(name);
    if !has_prefix(&cs, "Tab #") {
        return false;
    }
    let n = chars_of("Tab #").len();
    cs.len() > n && digits_only(&cs, n)
}

/// Whether a word is a path rather than a name.
pub fn looks_like_path(s: &str) -> (r: bool)
    ensures
        r == path_like(s@),
{
    let cs = chars_of(s);
    if cs.len() > 0 && (cs[0] == '/' || cs[0] == '~') {
        return true;
    }
    cs.len() >= 3 && (('a' <= cs[0] && cs[0] <= 'z') || ('A' <= cs[0] && cs[0] <= 'Z')) && cs[1]
        == ':' && (cs[2] == '\\' || cs[2] == '/')
}

/// Take off the extension that Windows gives a program.
pub fn strip_exe(s: &str) -> (r: String)
    ensures
        r@ == without_exe(s@),
{
    let cs = chars_of(s);
    if !has_suffix(&cs, ".exe") {
        return s.to_owned();
    }
    let n = cs.len() - chars_of(".exe").len();
    let mut out = String::new();
    let mut i: usize = 0;
    while i < n
        invariant
            i <= n <= cs.len(),
            out@ == cs@.take(i as int),
        decreases n - i,
    {
        out.push(cs[i]);
        i += 1;
    }
    out
}

fn lower_char(c: char) -> (r: char)
    ensures
        r == lower(c),
{
    if 'A' <= c && c <= 'Z' {
        (c as u8 + 32) as char
    } else {
        c
    }
}

fn to_lower(s: &str) -> (r: String)
    ensures
        r@ == lowered(s@),
{
    let cs = chars_of(s);
    let mut out = String::new();
    let mut i: usize = 0;
    while i < cs.len()
        invariant
            i <= cs.len(),
            out@ == lowered(cs@.take(i as int)),
        decreases cs.len() - i,
    {
        out.push(lower_char(cs[i]));
        assert(out@ =~= lowered(cs@.take(i + 1)));
        i += 1;
    }
    assert(cs@.take(i as int) =~= cs@);
    out
}

fn names_shell(s: &str) -> (r: bool)
    ensures
        r == is_shell(s@),
{
    str_eq(s, "pwsh") || str_eq(s, "powershell") || str_eq(s, "bash") || str_eq(s, "zsh") || str_eq(
        s,
        "fish",
    ) || str_eq(s, "nu") || str_eq(s, "nushell") || str_eq(s, "cmd") || str_eq(s, "sh") || str_eq(
        s,
        "dash",
    ) || str_eq(s, "ksh")
}

/// Whether a name says nothing about what runs in the tab.
pub fn is_boring(s: &str) -> (r: bool)
    ensures
        r == boring(s@),
{
    let cs = chars_of(s);
    if cs.len() == 0 {
        return true;
    }
    if looks_like_path(s) {
        return true;
    }
    if names_shell(to_lower(strip_exe(s).as_str()).as_str()) {
        return true;
    }
    assert(cs@.skip(0) =~= cs@);
    if digits_only(&cs, 0) {
        return true;
    }
    str_eq(s, "Pane") || has_prefix(&cs, "Pane #") || has_prefix(&cs, "Tab #")
}

/// The first word of a text.
pub fn first_token(s: &str) -> (r: String)
    ensures
        r@ == leading_word(s@),
{
    let cs = chars_of(s);
    let mut from: usize = 0;
    assert(cs@.skip(0) =~= cs@);
    while from < cs.len() && white(cs[from])
        invariant
            from <= cs.len(),
            text::left_trimmed(cs@) == text::left_trimmed(cs@.skip(from as int)),
        decreases cs.len() - from,
    {
        assert(cs@.skip(from as int).skip(1) =~= cs@.skip(from + 1));
        from += 1;
    }
    let ghost rest = cs@.skip(from as int);
    assert(text::left_trimmed(cs@) == rest);
    let mut out = String::new();
    let mut i: usize = from;
    assert(out@ + until_white(rest) =~= until_white(rest));
    while i < cs.len() && !white(cs[i])
        invariant
            from <= i <= cs.len(),
            out@ + until_white(cs@.skip(i as int)) == until_white(rest),
        decreases cs.len() - i,
    {
        let ghost tail = cs@.skip(i as int);
        let ghost was = out@;
        out.push(cs[i]);
        proof {
            assert(tail.skip(1) =~= cs@.skip(i + 1));
            assert(until_white(tail) == seq![cs@[i as int]] + until_white(cs@.skip(i + 1)));
            assert(out@ + until_white(cs@.skip(i + 1)) =~= was + (seq![cs@[i as int]]
                + until_white(cs@.skip(i + 1))));
        }
        i += 1;
    }
    assert(out@ + until_white(cs@.skip(i as int)) =~= out@);
    out
}

/// The name a command line or a title offers.
pub fn extract_name(raw: &str) -> (r: Option<String>)
    ensures
        opt_text(r) == name_in(raw@),
{
    let trimmed = trim(raw);
    if trimmed.as_str().is_empty() {
        return None;
    }
    let candidate = first_token(trimmed.as_str());
    if is_boring(candidate.as_str()) {
        return None;
    }
    Some(candidate)
}

/// The name a pane offers.
pub fn derive_name(pane: &PaneInfo) -> (r: Option<String>)
    ensures
        opt_text(r) == name_of(pane@),
{
    if let Some(cmd) = &pane.terminal_command {
        let from_cmd = extract_name(cmd.as_str());
        if from_cmd.is_some() {
            return from_cmd;
        }
    }
    extract_name(pane.title.as_str())
}

/// The pane a tab is named after.
pub fn anchor_pane(panes: &Vec<PaneInfo>) -> (r: Option<usize>)
    ensures
        match r {
            Some(i) => i < panes.len() && anchor(panes@.map_values(|p: PaneInfo| p@)) == Some(
                panes@[i as int]@,
            ),
            None => anchor(panes@.map_values(|p: PaneInfo| p@)) is None,
        },
{
    let ghost all = panes@.map_values(|p: PaneInfo| p@);
    let mut best: Option<usize> = None;
    let mut i: usize = 0;
    assert(all.take(0) =~= Seq::<PaneView>::empty());
    while i < panes.len()
        invariant
            i <= panes.len(),
            all == panes@.map_values(|p: PaneInfo| p@),
            match best {
                Some(b) => b < panes.len() && anchor(all.take(i as int)) == Some(panes@[b as int]@),
                None => anchor(all.take(i as int)) is None,
            },
        decreases panes.len() - i,
    {
        let p = &panes[i];
        proof {
            assert(all.take(i + 1).drop_last() =~= all.take(i as int));
            assert(all.take(i + 1).last() == p@);
        }
        if !p.is_plugin && !p.is_suppressed && p.is_selectable {
            let lower = match best {
                Some(b) => p.id < panes[b].id,
                None => true,
            };
            if lower {
                best = Some(i);
            }
        }
        i += 1;
    }
    assert(all.take(i as int) =~= all);
    best
}

fn put(m: &mut Dict<usize, AutoState>, id: usize, a: AutoState)
    ensures
        auto_views(final(m)@) == auto_views(old(m)@).insert(id, a@),
{
    let ghost before = m@;
    m.insert(id, a);
    assert(auto_views(m@) =~= auto_views(before).insert(id, a@));
}

impl State {
    pub fn new() -> (r: Self)
        ensures
            auto_views(r.auto_state@) == Map::<usize, AutoView>::empty(),
            r.position_to_tab_id@ == Map::<usize, usize>::empty(),
            r.panes_by_position@ == Map::<usize, Seq<PaneView>>::empty(),
    {
        let r = State {
            auto_state: Dict::new(),
            position_to_tab_id: Dict::new(),
            panes_by_position: PaneManifest { panes: Dict::new() },
        };
        assert(auto_views(r.auto_state@) =~= Map::<usize, AutoView>::empty());
        assert(r.panes_by_position@ =~= Map::<usize, Seq<PaneView>>::empty());
        r
    }

    /// Decide whether a tab is ours to name, by the name it carries now.
    pub fn reconcile_tab_state(&mut self, t: &TabInfo)
        ensures
            auto_views(final(self).auto_state@) == auto_views(old(self).auto_state@).insert(
                t.tab_id,
                reconciled(held(auto_views(old(self).auto_state@), t.tab_id), t.name@),
            ),
            final(self).position_to_tab_id == old(self).position_to_tab_id,
            final(self).panes_by_position == old(self).panes_by_position,
    {
        let ours = match self.auto_state.get(&t.tab_id) {
            Some(AutoState::Auto { last_set_name }) => t.name == *last_set_name,
            _ => false,
        };
        let next = if ours {
            AutoState::Auto { last_set_name: t.name.clone() }
        } else if is_default_tab_name(t.name.as_str()) {
            let none = String::new();
            assert(none@ =~= Seq::<char>::empty());
            AutoState::Auto { last_set_name: none }
        } else {
            AutoState::Manual
        };
        put(&mut self.auto_state, t.tab_id, next);
    }

    /// Give the tab at a position the name it is due.
    pub fn maybe_rename(
        &mut self,
        position: usize,
        tab_id: usize,
        renames: &mut Vec<(usize, String)>,
    )
        ensures
            final(self).position_to_tab_id == old(self).position_to_tab_id,
            final(self).panes_by_position == old(self).panes_by_position,
            match due_name(
                auto_views(old(self).auto_state@),
                old(self).panes_by_position@,
                position,
                tab_id,
            ) {
                Some(name) => auto_views(final(self).auto_state@) == auto_views(
                    old(self).auto_state@,
                ).insert(tab_id, AutoView::Auto(name)) && rename_views(final(renames)@)
                    == rename_views(old(renames)@).push((tab_id, name)),
                None => auto_views(final(self).auto_state@) == auto_views(old(self).auto_state@)
                    && rename_views(final(renames)@) == rename_views(old(renames)@),
            },
    {
        let last_set = match self.auto_state.get(&tab_id) {
            Some(AutoState::Auto { last_set_name }) => last_set_name.clone(),
            _ => return,
        };
        let panes = match self.panes_by_position.of_tab(position) {
            Some(p) => p,
            None => return,
        };
        let i = match anchor_pane(&panes.list) {
            Some(i) => i,
            None => return,
        };
        let name = match derive_name(&panes.list[i]) {
            Some(n) => n,
            None => return,
        };
        if name == last_set {
            return;
        }
        let ghost n = name@;
        renames.push((tab_id, name.clone()));
        assert(rename_views(renames@) =~= rename_views(old(renames)@).push((tab_id, n)));
        put(&mut self.auto_state, tab_id, AutoState::Auto { last_set_name: name });
    }

    /// Give every tab the name it is due. The order in which the tabs are visited
    /// is not fixed.
    pub fn maybe_rename_all(&mut self) -> (r: Vec<(usize, String)>)
        ensures
            final(self).position_to_tab_id@ == old(self).position_to_tab_id@,
            final(self).panes_by_position@ == old(self).panes_by_position@,
            exists|walk: Seq<(usize, usize)>|
                is_walk(walk, old(self).position_to_tab_id@) && #[trigger] visited(
                    auto_views(old(self).auto_state@),
                    old(self).panes_by_position@,
                    walk,
                ) == (Named {
                    auto_state: auto_views(final(self).auto_state@),
                    renames: rename_views(r@),
                }),
    {
        let mut renames: Vec<(usize, String)> = Vec::new();
        let n = self.position_to_tab_id.len();
        let ghost dict = self.position_to_tab_id;
        let ghost walk = dict.list();
        let ghost m = auto_views(self.auto_state@);
        let ghost panes = self.panes_by_position@;
        let ghost map = self.position_to_tab_id@;
        let mut i: usize = 0;
        proof {
            assert(walk.take(0) =~= Seq::<(usize, usize)>::empty());
            assert(rename_views(renames@) =~= Seq::<(usize, Seq<char>)>::empty());
        }
        while i < n
            invariant
                i <= n,
                n == walk.len(),
                self.position_to_tab_id == dict,
                walk == dict.list(),
                map == dict@,
                panes == self.panes_by_position@,
                visited(m, panes, walk.take(i as int)) == (Named {
                    auto_state: auto_views(self.auto_state@),
                    renames: rename_views(renames@),
                }),
            decreases n - i,
        {
            let position = *self.position_to_tab_id.key_at(i);
            let tab_id = *self.position_to_tab_id.value_at(i);
            proof {
                assert(walk.take(i + 1).drop_last() =~= walk.take(i as int));
                assert(walk.take(i + 1).last() == (position, tab_id));
            }
            self.maybe_rename(position, tab_id, &mut renames);
            i += 1;
        }
        proof {
            assert(walk.take(i as int) =~= walk);
            assert(is_walk(walk, map)) by {
                assert forall|a: int, b: int|
                    #![trigger walk[a], walk[b]]
                    0 <= a < b < walk.len() implies walk[a].0 != walk[b].0 by {
                    assert(walk[a].0@ != walk[b].0@);
                }
                assert forall|j: int| 0 <= j < walk.len() implies map.contains_key(
                    (#[trigger] walk[j]).0,
                ) && map[walk[j].0] == walk[j].1 by {
                    assert(map.contains_key(walk[j].0@));
                }
                assert forall|p: usize| #[trigger] map.contains_key(p) implies exists|j: int|
                    0 <= j < walk.len() && #[trigger] walk[j].0 == p by {
                    let j = choose|j: int| 0 <= j < walk.len() && #[trigger] walk[j].0@ == p;
                    assert(walk[j].0 == p);
                }
            }
        }
        renames
    }

    /// Take in the tabs as they are now.
    pub fn on_tab_update(&mut self, tabs: &Vec<TabInfo>) -> (r: Vec<(usize, String)>)
        ensures
            final(self).position_to_tab_id@ == positions(tab_views(tabs@)),
            final(self).panes_by_position@ == old(self).panes_by_position@,
            exists|walk: Seq<(usize, usize)>|
                is_walk(walk, positions(tab_views(tabs@))) && #[trigger] visited(
                    live_only(
                        reconciled_all(auto_views(old(self).auto_state@), tab_views(tabs@)),
                        tab_views(tabs@),
                    ),
                    old(self).panes_by_position@,
                    walk,
                ) == (Named {
                    auto_state: auto_views(final(self).auto_state@),
                    renames: rename_views(r@),
                }),
    {
        let ghost tv = tab_views(tabs@);
        let ghost m0 = auto_views(self.auto_state@);
        let ghost panes = self.panes_by_position;
        self.position_to_tab_id = Dict::new();
        let mut i: usize = 0;
        assert(tv.take(0) =~= Seq::<TabView>::empty());
        while i < tabs.len()
            invariant
                i <= tabs.len(),
                tv == tab_views(tabs@),
                self.position_to_tab_id@ == positions(tv.take(i as int)),
                auto_views(self.auto_state@) == m0,
                self.panes_by_position == panes,
            decreases tabs.len() - i,
        {
            proof {
                assert(tv.take(i + 1).drop_last() =~= tv.take(i as int));
                assert(tv.take(i + 1).last() == tabs@[i as int]@);
            }
            self.position_to_tab_id.insert(tabs[i].position, tabs[i].tab_id);
            i += 1;
        }
        assert(tv.take(i as int) =~= tv);
        let mut i: usize = 0;
        while i < tabs.len()
            invariant
                i <= tabs.len(),
                tv == tab_views(tabs@),
                self.position_to_tab_id@ == positions(tv),
                auto_views(self.auto_state@) == reconciled_all(m0, tv.take(i as int)),
                self.panes_by_position == panes,
            decreases tabs.len() - i,
        {
            proof {
                assert(tv.take(i + 1).drop_last() =~= tv.take(i as int));
                assert(tv.take(i + 1).last() == tabs@[i as int]@);
            }
            self.reconcile_tab_state(&tabs[i]);
            i += 1;
        }
        assert(tv.take(i as int) =~= tv);
        self.keep_live(tabs);
        self.maybe_rename_all()
    }

    /// Forget the tabs that are gone.
    fn keep_live(&mut self, tabs: &Vec<TabInfo>)
        ensures
            auto_views(final(self).auto_state@) == live_only(
                auto_views(old(self).auto_state@),
                tab_views(tabs@),
            ),
            final(self).position_to_tab_id == old(self).position_to_tab_id,
            final(self).panes_by_position == old(self).panes_by_position,
    {
        let ghost tv = tab_views(tabs@);
        let mut kept: Dict<usize, AutoState> = Dict::new();
        let n = self.auto_state.len();
        let ghost list = self.auto_state.list();
        let ghost m = self.auto_state@;
        let mut i: usize = 0;
        while i < n
            invariant
                i <= n,
                n == list.len(),
                list == self.auto_state.list(),
                m == self.auto_state@,
                self.auto_state.is_listed(),
                tv == tab_views(tabs@),
                self.position_to_tab_id == old(self).position_to_tab_id,
                self.panes_by_position == old(self).panes_by_position,
                forall|k: usize| #[trigger]
                    kept@.contains_key(k) ==> m.contains_key(k) && is_live(tv, k) && kept@[k]@
                        == m[k]@,
                forall|j: int|
                    0 <= j < i && is_live(tv, (#[trigger] list[j]).0) ==> kept@.contains_key(
                        list[j].0,
                    ),
            decreases n - i,
        {
            let id = *self.auto_state.key_at(i);
            let ghost was = kept@;
            assert(list[i as int].0@ == id);
            if has_tab(tabs, id) {
                let copy = match self.auto_state.value_at(i) {
                    AutoState::Auto { last_set_name } => AutoState::Auto {
                        last_set_name: last_set_name.clone(),
                    },
                    AutoState::Manual => AutoState::Manual,
                };
                kept.insert(id, copy);
            }
            proof {
                assert forall|j: int|
                    0 <= j < i + 1 && is_live(tv, (#[trigger] list[j]).0) implies kept@.contains_key(
                list[j].0) by {
                    if j < i {
                        assert(was.contains_key(list[j].0));
                    }
                }
            }
            i += 1;
        }
        proof {
            let want = live_only(auto_views(m), tv);
            assert forall|k: usize| auto_views(kept@).contains_key(k) <==> want.contains_key(k) by {
                if want.contains_key(k) {
                    assert(m.contains_key(k));
                    let j = choose|j: int| 0 <= j < list.len() && #[trigger] list[j].0@ == k;
                    assert(kept@.contains_key(list[j].0));
                }
            }
            assert(auto_views(kept@) =~= want);
        }
        self.auto_state = kept;
    }

    /// Take in the panes as they are now.
    pub fn on_pane_update(&mut self, manifest: PaneManifest) -> (r: Vec<(usize, String)>)
        ensures
            final(self).position_to_tab_id@ == old(self).position_to_tab_id@,
            final(self).panes_by_position@ == manifest@,
            exists|walk: Seq<(usize, usize)>|
                is_walk(walk, old(self).position_to_tab_id@) && #[trigger] visited(
                    auto_views(old(self).auto_state@),
                    manifest@,
                    walk,
                ) == (Named {
                    auto_state: auto_views(final(self).auto_state@),
                    renames: rename_views(r@),
                }),
    {
        self.panes_by_position = manifest;
        self.maybe_rename_all()
    }
}

fn has_tab(tabs: &Vec<TabInfo>, id: usize) -> (r: bool)
    ensures
        r == is_live(tab_views(tabs@), id),
{
    let ghost tv = tab_views(tabs@);
    let mut i: usize = 0;
    while i < tabs.len()
        invariant
            i <= tabs.len(),
            tv == tab_views(tabs@),
            forall|j: int| 0 <= j < i ==> (#[trigger] tv[j]).tab_id != id,
        decreases tabs.len() - i,
    {
        assert(tv[i as int] == tabs@[i as int]@);
        if tabs[i].tab_id == id {
            return true;
        }
        i += 1;
    }
    false
}

/// A tab is never given a name that says nothing.
pub proof fn no_boring_name_is_given(
    m: Map<usize, AutoView>,
    panes: Map<usize, Seq<PaneView>>,
    position: usize,
    id: usize,
)
    ensures
        due_name(m, panes, position, id) matches Some(name) ==> !boring(name) && name.len() > 0,
{
}

/// A tab named by anyone else is left alone.
pub proof fn a_manual_name_is_left_alone(
    m: Map<usize, AutoView>,
    panes: Map<usize, Seq<PaneView>>,
    position: usize,
    id: usize,
)
    requires
        m.contains_key(id),
        m[id] is Manual,
    ensures
        due_name(m, panes, position, id) is None,
{
}

/// A name we did not set makes the tab manual; the placeholder makes it ours
/// again, whatever it was.
pub proof fn the_placeholder_resets(prev: Option<AutoView>, name: Seq<char>)
    ensures
        default_name(name) ==> reconciled(prev, name) is Auto,
        !default_name(name) && prev != Some(AutoView::Auto(name)) ==> reconciled(prev, name)
            == AutoView::Manual,
{
}

/// A rename is recognised when the host reports it, and not asked for twice.
pub proof fn a_rename_is_asked_for_once(
    m: Map<usize, AutoView>,
    panes: Map<usize, Seq<PaneView>>,
    position: usize,
    id: usize,
)
    requires
        due_name(m, panes, position, id) is Some,
    ensures
        ({
            let name = due_name(m, panes, position, id)->0;
            let after = m.insert(id, AutoView::Auto(name));
            &&& reconciled(held(after, id), name) == AutoView::Auto(name)
            &&& due_name(after, panes, position, id) is None
        }),
{
}

/// Nothing is remembered of a tab that is gone.
pub proof fn only_live_tabs_are_remembered(
    m: Map<usize, AutoView>,
    tabs: Seq<TabView>,
    id: usize,
)
    requires
        live_only(m, tabs).contains_key(id),
    ensures
        is_live(tabs, id),
{
}

/// No tab is at two positions.
pub open spec fn one_position_each(m: Map<usize, usize>) -> bool {
    forall|p: usize, q: usize|
        #![trigger m[p], m[q]]
        m.contains_key(p) && m.contains_key(q) && m[p] == m[q] ==> p == q
}

/// The tab visited at a position, and the name it was due to begin with.
pub open spec fn is_due(
    m: Map<usize, AutoView>,
    panes: Map<usize, Seq<PaneView>>,
    tabs: Seq<(usize, usize)>,
    i: int,
    id: usize,
    name: Seq<char>,
) -> bool {
    tabs[i].1 == id && due_name(m, panes, tabs[i].0, id) == Some(name)
}

pub(crate) proof fn visits_are_independent(
    m: Map<usize, AutoView>,
    panes: Map<usize, Seq<PaneView>>,
    tabs: Seq<(usize, usize)>,
)
    requires
        forall|i: int, j: int|
            #![trigger tabs[i], tabs[j]]
            0 <= i < j < tabs.len() ==> tabs[i].1 != tabs[j].1,
    ensures
        forall|id: usize|
            (forall|i: int| 0 <= i < tabs.len() ==> (#[trigger] tabs[i]).1 != id) ==> #[trigger] held(
                visited(m, panes, tabs).auto_state,
                id,
            ) == held(m, id),
        forall|i: int|
            0 <= i < tabs.len() ==> held(
                visited(m, panes, tabs).auto_state,
                (#[trigger] tabs[i]).1,
            ) == (match due_name(m, panes, tabs[i].0, tabs[i].1) {
                Some(name) => Some(AutoView::Auto(name)),
                None => held(m, tabs[i].1),
            }),
        forall|id: usize, name: Seq<char>| #[trigger]
            visited(m, panes, tabs).renames.contains((id, name)) <==> exists|i: int|
                0 <= i < tabs.len() && #[trigger] is_due(m, panes, tabs, i, id, name),
    decreases tabs.len(),
{
    let after = visited(m, panes, tabs);
    if tabs.len() > 0 {
        let rest = tabs.drop_last();
        let n = tabs.len() - 1;
        let (position, id0) = tabs[n];
        let before = visited(m, panes, rest);
        assert forall|i: int, j: int|
            #![trigger rest[i], rest[j]]
            0 <= i < j < rest.len() implies rest[i].1 != rest[j].1 by {
            assert(tabs[i].1 != tabs[j].1);
        }
        visits_are_independent(m, panes, rest);
        assert forall|i: int| 0 <= i < rest.len() implies (#[trigger] rest[i]).1 != id0 by {
            assert(tabs[i].1 != tabs[n].1);
        }
        assert(held(before.auto_state, id0) == held(m, id0));
        assert(due_name(before.auto_state, panes, position, id0) == due_name(
            m,
            panes,
            position,
            id0,
        ));
        assert forall|id: usize|
            (forall|i: int| 0 <= i < tabs.len() ==> (#[trigger] tabs[i]).1 != id) implies #[trigger] held(
            after.auto_state,
            id,
        ) == held(m, id) by {
            assert(tabs[n].1 != id);
            assert forall|i: int| 0 <= i < rest.len() implies (#[trigger] rest[i]).1 != id by {
                assert(tabs[i].1 != id);
            }
            assert(held(before.auto_state, id) == held(m, id));
        }
        assert forall|i: int| 0 <= i < tabs.len() implies held(
            after.auto_state,
            (#[trigger] tabs[i]).1,
        ) == (match due_name(m, panes, tabs[i].0, tabs[i].1) {
            Some(name) => Some(AutoView::Auto(name)),
            None => held(m, tabs[i].1),
        }) by {
            if i < n {
                assert(rest[i] == tabs[i]);
                assert(tabs[i].1 != tabs[n].1);
                assert(held(after.auto_state, tabs[i].1) == held(before.auto_state, rest[i].1));
            }
        }
        assert forall|id: usize, name: Seq<char>| #[trigger]
            after.renames.contains((id, name)) <==> exists|i: int|
                0 <= i < tabs.len() && #[trigger] is_due(m, panes, tabs, i, id, name) by {
            if after.renames.contains((id, name)) {
                let k = choose|k: int| 0 <= k < after.renames.len() && after.renames[k] == (id, name);
                if k < before.renames.len() {
                    assert(before.renames[k] == (id, name));
                    assert(before.renames.contains((id, name)));
                    let i = choose|i: int|
                        0 <= i < rest.len() && #[trigger] is_due(m, panes, rest, i, id, name);
                    assert(is_due(m, panes, tabs, i, id, name));
                } else {
                    assert(is_due(m, panes, tabs, n, id, name));
                }
            }
            if exists|i: int| 0 <= i < tabs.len() && #[trigger] is_due(m, panes, tabs, i, id, name) {
                let i = choose|i: int|
                    0 <= i < tabs.len() && #[trigger] is_due(m, panes, tabs, i, id, name);
                if i < n {
                    assert(is_due(m, panes, rest, i, id, name));
                    assert(before.renames.contains((id, name)));
                    let k = choose|k: int|
                        0 <= k < before.renames.len() && before.renames[k] == (id, name);
                    assert(after.renames[k] == (id, name));
                } else {
                    assert(after.renames[after.renames.len() - 1] == (id, name));
                }
            }
        }
    } else {
        assert forall|id: usize, name: Seq<char>| !(#[trigger] after.renames.contains((id, name))) by {}
    }
}

/// The order in which tabs are visited does not matter, as long as no tab is at
/// two positions: the same names are given, and the same is remembered.
pub proof fn the_order_of_visits_does_not_matter(
    m: Map<usize, AutoView>,
    panes: Map<usize, Seq<PaneView>>,
    tabs: Map<usize, usize>,
    walk: Seq<(usize, usize)>,
    other: Seq<(usize, usize)>,
)
    requires
        one_position_each(tabs),
        is_walk(walk, tabs),
        is_walk(other, tabs),
    ensures
        visited(m, panes, walk).auto_state == visited(m, panes, other).auto_state,
        forall|id: usize, name: Seq<char>| #[trigger]
            visited(m, panes, walk).renames.contains((id, name)) <==> visited(
                m,
                panes,
                other,
            ).renames.contains((id, name)),
{
    assert forall|i: int, j: int|
        #![trigger walk[i], walk[j]]
        0 <= i < j < walk.len() implies walk[i].1 != walk[j].1 by {
        assert(tabs[walk[i].0] == walk[i].1 && tabs[walk[j].0] == walk[j].1);
    }
    assert forall|i: int, j: int|
        #![trigger other[i], other[j]]
        0 <= i < j < other.len() implies other[i].1 != other[j].1 by {
        assert(tabs[other[i].0] == other[i].1 && tabs[other[j].0] == other[j].1);
    }
    visits_are_independent(m, panes, walk);
    visits_are_independent(m, panes, other);
    let a = visited(m, panes, walk);
    let b = visited(m, panes, other);
    assert forall|id: usize| #[trigger] held(a.auto_state, id) == held(b.auto_state, id) by {
        if exists|i: int| 0 <= i < walk.len() && (#[trigger] walk[i]).1 == id {
            let i = choose|i: int| 0 <= i < walk.len() && (#[trigger] walk[i]).1 == id;
            assert(tabs.contains_key(walk[i].0));
            let j = choose|j: int| 0 <= j < other.len() && #[trigger] other[j].0 == walk[i].0;
            assert(other[j] == walk[i]);
        } else {
            assert forall|j: int| 0 <= j < other.len() implies (#[trigger] other[j]).1 != id by {
                assert(tabs.contains_key(other[j].0));
                let i = choose|i: int| 0 <= i < walk.len() && #[trigger] walk[i].0 == other[j].0;
                assert(walk[i] == other[j]);
            }
            assert(held(a.auto_state, id) == held(m, id));
            assert(held(b.auto_state, id) == held(m, id));
        }
    }
    assert forall|id: usize| a.auto_state.contains_key(id) <==> b.auto_state.contains_key(id) by {
        assert(held(a.auto_state, id) == held(b.auto_state, id));
    }
    assert forall|id: usize| a.auto_state.contains_key(id) implies a.auto_state[id]
        == b.auto_state[id] by {
        assert(held(a.auto_state, id) == held(b.auto_state, id));
    }
    assert(a.auto_state =~= b.auto_state);
    assert forall|id: usize, name: Seq<char>| #[trigger]
        a.renames.contains((id, name)) <==> b.renames.contains((id, name)) by {
        if a.renames.contains((id, name)) {
            let i = choose|i: int|
                0 <= i < walk.len() && #[trigger] is_due(m, panes, walk, i, id, name);
            assert(tabs.contains_key(walk[i].0));
            let j = choose|j: int| 0 <= j < other.len() && #[trigger] other[j].0 == walk[i].0;
            assert(is_due(m, panes, other, j, id, name));
        }
        if b.renames.contains((id, name)) {
            let j = choose|j: int|
                0 <= j < other.len() && #[trigger] is_due(m, panes, other, j, id, name);
            assert(tabs.contains_key(other[j].0));
            let i = choose|i: int| 0 <= i < walk.len() && #[trigger] walk[i].0 == other[j].0;
            assert(is_due(m, panes, walk, i, id, name));
        }
    }
}

} // verus!
