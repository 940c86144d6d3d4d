//! What the plugin host reports: modes, tabs, panes and theme colours, as far
//! as the plugins read them. Whatever else a report holds is carried along as
//! opaque bytes, so that two reports can be told apart by it.
use crate::dict::{Dict, Same};
use vstd::prelude::*;

pub mod laws;

verus! {

#[derive(Clone, Copy, Debug, PartialEq, Eq, Structural)]
pub enum InputMode {
    Normal,
    Locked,
    Resize,
    Pane,
    Tab,
    Scroll,
    EnterSearch,
    Search,
    RenameTab,
    RenamePane,
    Session,
    Move,
    Prompt,
    Tmux,
    CopyMode,
}

#[derive(Clone, Copy, Debug, PartialEq, Eq, Structural)]
pub enum PaletteColor {
    Rgb(u8, u8, u8),
    EightBit(u8),
}

#[derive(Clone, Copy, Debug, PartialEq, Eq, Structural)]
pub struct StyleDeclaration {
    pub base: PaletteColor,
    pub background: PaletteColor,
    pub emphasis_0: PaletteColor,
    pub emphasis_1: PaletteColor,
    pub emphasis_2: PaletteColor,
    pub emphasis_3: PaletteColor,
}

/// The parts of a theme that the plugins paint with.
#[derive(Clone, Copy, Debug, PartialEq, Eq, Structural)]
pub struct Styling {
    pub text_unselected: StyleDeclaration,
    pub text_selected: StyleDeclaration,
    pub ribbon_selected: StyleDeclaration,
    pub list_selected: StyleDeclaration,
    pub frame_selected: StyleDeclaration,
    pub exit_code_error: StyleDeclaration,
}

/// A text that may be absent, by its characters.
pub open spec fn opt_text(o: Option<String>) -> Option<Seq<char>> {
    match o {
        Some(s) => Some(s@),
        None => None,
    }
}

pub fn same_opt_text(a: &Option<String>, b: &Option<String>) -> (r: bool)
    ensures
        r == (opt_text(*a) == opt_text(*b)),
{
    match (a, b) {
        (Some(x), Some(y)) => *x == *y,
        (None, None) => true,
        _ => false,
    }
}

pub fn copy_opt_text(o: &Option<String>) -> (r: Option<String>)
    ensures
        r == *o,
{
    match o {
        Some(s) => Some(s.clone()),
        None => None,
    }
}

pub fn same_bytes(a: &Vec<u8>, b: &Vec<u8>) -> (r: bool)
    ensures
        r == (a@ == b@),
{
    if a.len() != b.len() {
        return false;
    }
    let mut i: usize = 0;
    while i < a.len()
        invariant
            i <= a.len(),
            a.len() == b.len(),
            forall|j: int| 0 <= j < i ==> a@[j] == b@[j],
        decreases a.len() - i,
    {
        if a[i] != b[i] {
            return false;
        }
        i += 1;
    }
    assert(a@ =~= b@);
    true
}

pub fn copy_bytes(a: &Vec<u8>) -> (r: Vec<u8>)
    ensures
        r@ == a@,
{
    let mut out: Vec<u8> = Vec::new();
    let mut i: usize = 0;
    while i < a.len()
        invariant
            i <= a.len(),
            out@ == a@.take(i as int),
        decreases a.len() - i,
    {
        out.push(a[i]);
        i += 1;
    }
    assert(a@.take(i as int) == a@);
    out
}

/// A report on the input mode of this client.
#[derive(Debug)]
pub struct ModeInfo {
    pub mode: InputMode,
    pub base_mode: Option<InputMode>,
    pub session_name: Option<String>,
    pub style: Styling,
    /// The key bindings, encoded; empty where the report brings none.
    pub keybinds: Vec<u8>,
    /// What else the report holds.
    pub other: Vec<u8>,
}

pub ghost struct ModeView {
    pub mode: InputMode,
    pub base_mode: Option<InputMode>,
    pub session_name: Option<Seq<char>>,
    pub style: Styling,
    pub keybinds: Seq<u8>,
    pub other: Seq<u8>,
}

impl View for ModeInfo {
    type V = ModeView;

    open spec fn view(&self) -> ModeView {
        ModeView {
            mode: self.mode,
            base_mode: self.base_mode,
            session_name: opt_text(self.session_name),
            style: self.style,
            keybinds: self.keybinds@,
            other: self.other@,
        }
    }
}

impl Same for ModeInfo {
    fn same(&self, other: &Self) -> (r: bool) {
        let base = match (self.base_mode, other.base_mode) {
            (Some(a), Some(b)) => a == b,
            (None, None) => true,
            _ => false,
        };
        self.mode == other.mode && base && same_opt_text(&self.session_name, &other.session_name)
            && self.style == other.style && same_bytes(&self.keybinds, &other.keybinds)
            && same_bytes(&self.other, &other.other)
    }
}

/// A report on one tab.
#[derive(Debug)]
pub struct TabInfo {
    pub position: usize,
    pub name: String,
    pub active: bool,
    pub tab_id: usize,
    pub display_area_rows: usize,
    pub display_area_columns: usize,
    pub is_swap_layout_dirty: bool,
    pub active_swap_layout_name: Option<String>,
    /// What else the report holds.
    pub other: Vec<u8>,
}

pub ghost struct TabView {
    pub position: usize,
    pub name: Seq<char>,
    pub active: bool,
    pub tab_id: usize,
    pub display_area_rows: usize,
    pub display_area_columns: usize,
    pub is_swap_layout_dirty: bool,
    pub active_swap_layout_name: Option<Seq<char>>,
    pub other: Seq<u8>,
}

impl View for TabInfo {
    type V = TabView;

    open spec fn view(&self) -> TabView {
        TabView {
            position: self.position,
            name: self.name@,
            active: self.active,
            tab_id: self.tab_id,
            display_area_rows: self.display_area_rows,
            display_area_columns: self.display_area_columns,
            is_swap_layout_dirty: self.is_swap_layout_dirty,
            active_swap_layout_name: opt_text(self.active_swap_layout_name),
            other: self.other@,
        }
    }
}

impl Same for TabInfo {
    fn same(&self, other: &Self) -> (r: bool) {
        self.position == other.position && self.name == other.name && self.active == other.active
            && self.tab_id == other.tab_id && self.display_area_rows == other.display_area_rows
            && self.display_area_columns == other.display_area_columns && self.is_swap_layout_dirty
            == other.is_swap_layout_dirty && same_opt_text(
            &self.active_swap_layout_name,
            &other.active_swap_layout_name,
        ) && same_bytes(&self.other, &other.other)
    }
}

pub open spec fn tab_views(tabs: Seq<TabInfo>) -> Seq<TabView> {
    tabs.map_values(|t: TabInfo| t@)
}

pub fn same_tabs(a: &Vec<TabInfo>, b: &Vec<TabInfo>) -> (r: bool)
    ensures
        r == (tab_views(a@) == tab_views(b@)),
{
    if a.len() != b.len() {
        assert(tab_views(a@).len() != tab_views(b@).len());
        return false;
    }
    let mut i: usize = 0;
    while i < a.len()
        invariant
            i <= a.len(),
            a.len() == b.len(),
            forall|j: int| 0 <= j < i ==> a@[j]@ == b@[j]@,
        decreases a.len() - i,
    {
        if !a[i].same(&b[i]) {
            assert(tab_views(a@)[i as int] != tab_views(b@)[i as int]);
            return false;
        }
        i += 1;
    }
    assert(tab_views(a@) =~= tab_views(b@));
    true
}

/// A report on one pane.
#[derive(Debug)]
pub struct PaneInfo {
    pub id: u32,
    pub is_plugin: bool,
    pub is_focused: bool,
    pub is_suppressed: bool,
    pub is_selectable: bool,
    pub title: String,
    pub terminal_command: Option<String>,
    pub plugin_url: Option<String>,
    pub pane_x: usize,
    pub pane_content_x: usize,
    /// What else the report holds.
    pub other: Vec<u8>,
}

pub ghost struct PaneView {
    pub id: u32,
    pub is_plugin: bool,
    pub is_focused: bool,
    pub is_suppressed: bool,
    pub is_selectable: bool,
    pub title: Seq<char>,
    pub terminal_command: Option<Seq<char>>,
    pub plugin_url: Option<Seq<char>>,
    pub pane_x: usize,
    pub pane_content_x: usize,
    pub other: Seq<u8>,
}

impl View for PaneInfo {
    type V = PaneView;

    open spec fn view(&self) -> PaneView {
        PaneView {
            id: self.id,
            is_plugin: self.is_plugin,
            is_focused: self.is_focused,
            is_suppressed: self.is_suppressed,
            is_selectable: self.is_selectable,
            title: self.title@,
            terminal_command: opt_text(self.terminal_command),
            plugin_url: opt_text(self.plugin_url),
            pane_x: self.pane_x,
            pane_content_x: self.pane_content_x,
            other: self.other@,
        }
    }
}

impl Same for PaneInfo {
    fn same(&self, other: &Self) -> (r: bool) {
        self.id == other.id && self.is_plugin == other.is_plugin && self.is_focused
            == other.is_focused && self.is_suppressed == other.is_suppressed && self.is_selectable
            == other.is_selectable && self.title == other.title && same_opt_text(
            &self.terminal_command,
            &other.terminal_command,
        ) && same_opt_text(&self.plugin_url, &other.plugin_url) && self.pane_x == other.pane_x
            && self.pane_content_x == other.pane_content_x && same_bytes(&self.other, &other.other)
    }
}

/// The panes of one tab, in the host's order.
#[derive(Debug)]
pub struct TabPanes {
    pub list: Vec<PaneInfo>,
}

impl View for TabPanes {
    type V = Seq<PaneView>;

    open spec fn view(&self) -> Seq<PaneView> {
        self.list@.map_values(|p: PaneInfo| p@)
    }
}

impl Same for TabPanes {
    fn same(&self, other: &Self) -> (r: bool) {
        if self.list.len() != other.list.len() {
            assert(self@.len() != other@.len());
            return false;
        }
        let mut i: usize = 0;
        while i < self.list.len()
            invariant
                i <= self.list.len(),
                self.list.len() == other.list.len(),
                forall|j: int| 0 <= j < i ==> self.list@[j]@ == other.list@[j]@,
            decreases self.list.len() - i,
        {
            if !self.list[i].same(&other.list[i]) {
                assert(self@[i as int] != other@[i as int]);
                return false;
            }
            i += 1;
        }
        assert(self@ =~= other@);
        true
    }
}

/// The panes of every tab, by the tab's position.
pub struct PaneManifest {
    pub panes: Dict<usize, TabPanes>,
}

impl View for PaneManifest {
    type V = Map<usize, Seq<PaneView>>;

    open spec fn view(&self) -> Map<usize, Seq<PaneView>> {
        self.panes@.map_values(|p: TabPanes| p@)
    }
}

impl Same for PaneManifest {
    fn same(&self, other: &Self) -> (r: bool) {
        let r = self.panes.same_as(&other.panes);
        proof {
            if r {
                assert(self@ =~= other@);
            } else if self@ == other@ {
                assert(self@.dom() =~= self.panes@.dom());
                assert(other@.dom() =~= other.panes@.dom());
                assert forall|k: usize| #[trigger] self.panes@.contains_key(k) implies self.panes@[k]@
                    == other.panes@[k]@ by {
                    assert(self@[k] == other@[k]);
                }
            }
        }
        r
    }
}

impl PaneManifest {
    /// The panes of a tab.
    pub fn of_tab(&self, tab: usize) -> (r: Option<&TabPanes>)
        ensures
            match r {
                Some(p) => self@.contains_key(tab) && p@ == self@[tab],
                None => !self@.contains_key(tab),
            },
    {
        self.panes.get(&tab)
    }
}

} // verus!
