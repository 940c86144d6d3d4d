//! What of the host's values is told apart.
use super::{opt_text, ModeInfo, PaneInfo, PaneManifest, TabInfo, TabPanes};
use vstd::prelude::*;

verus! {

/// Two texts that may be missing are the same where both are missing, or neither is and
/// they read alike.
pub proof fn optional_texts_are_told_apart(a: Option<String>, b: Option<String>)
    ensures
        opt_text(a) == opt_text(b) <==> (a is Some <==> b is Some) && (a is Some && b is Some
            ==> a->0@ == b->0@),
        a matches Some(s) ==> opt_text(a) == Some(s@),
{
}

/// Two tabs are the same only where they are in every respect.
pub proof fn tabs_are_told_apart(a: TabInfo, b: TabInfo)
    ensures
        a@ == b@ <==> {
            &&& a.position == b.position
            &&& a.name@ == b.name@
            &&& a.active == b.active
            &&& a.tab_id == b.tab_id
            &&& a.display_area_rows == b.display_area_rows
            &&& a.display_area_columns == b.display_area_columns
            &&& a.is_swap_layout_dirty == b.is_swap_layout_dirty
            &&& opt_text(a.active_swap_layout_name) == opt_text(b.active_swap_layout_name)
            &&& a.other@ == b.other@
        },
        a@.position == a.position,
        a@.name == a.name@,
        a@.active == a.active,
        a@.tab_id == a.tab_id,
        a@.display_area_rows == a.display_area_rows,
        a@.display_area_columns == a.display_area_columns,
{
}

/// Two panes are the same only where they are in every respect.
pub proof fn panes_are_told_apart(a: PaneInfo, b: PaneInfo)
    ensures
        a@ == b@ <==> {
            &&& a.id == b.id
            &&& a.is_plugin == b.is_plugin
            &&& a.is_focused == b.is_focused
            &&& a.is_suppressed == b.is_suppressed
            &&& a.is_selectable == b.is_selectable
            &&& a.title@ == b.title@
            &&& opt_text(a.terminal_command) == opt_text(b.terminal_command)
            &&& opt_text(a.plugin_url) == opt_text(b.plugin_url)
            &&& a.pane_x == b.pane_x
            &&& a.pane_content_x == b.pane_content_x
            &&& a.other@ == b.other@
        },
        a@.id == a.id,
        a@.is_plugin == a.is_plugin,
        a@.is_focused == a.is_focused,
        a@.is_suppressed == a.is_suppressed,
        a@.title == a.title@,
        a@.pane_x == a.pane_x,
        a@.pane_content_x == a.pane_content_x,
{
}

/// Two modes are the same only where they are in every respect.
pub proof fn modes_are_told_apart(a: ModeInfo, b: ModeInfo)
    ensures
        a@ == b@ <==> {
            &&& a.mode == b.mode
            &&& a.base_mode == b.base_mode
            &&& opt_text(a.session_name) == opt_text(b.session_name)
            &&& a.style == b.style
            &&& a.keybinds@ == b.keybinds@
            &&& a.other@ == b.other@
        },
        a@.mode == a.mode,
        a@.base_mode == a.base_mode,
        a@.session_name == opt_text(a.session_name),
{
}

/// A tab's panes are those of its list, in the same order, and a manifest's tabs those it
/// has panes of.
pub proof fn a_manifest_holds_its_panes(p: TabPanes, m: PaneManifest, tab: usize, i: int)
    ensures
        p@.len() == p.list.len(),
        0 <= i < p.list.len() ==> p@[i] == p.list[i]@,
        m@.contains_key(tab) <==> m.panes@.contains_key(tab),
        m.panes@.contains_key(tab) ==> m@[tab] == m.panes@[tab]@,
{
}

} // verus!
