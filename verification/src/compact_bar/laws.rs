//! What the bar promises as a whole.
use super::rules;
use super::rules::{ActionView, Bar, Event};
use crate::host::ModeView;
use crate::tab_flags;
use crate::tab_flags::TabFlag;
use vstd::prelude::*;

verus! {

/// A tooltip is only looked at: neither clicks nor the clipboard do anything to
/// it.
pub proof fn a_tooltip_ignores_the_mouse_and_the_clipboard(
    b: Bar,
    event: Event,
    size: (usize, usize),
    own_tab: Option<usize>,
)
    requires
        b.is_tooltip,
        event is LeftClick || event is ScrollUp || event is ScrollDown || event is CopyToClipboard
            || event is SystemClipboardFailure || event is InputReceived,
    ensures
        rules::updated(b, event, size, own_tab) == rules::quiet(
            (Bar { is_first_run: false, ..b }),
            false,
        ),
{
}

/// Any input takes the clipboard's message off the bar.
pub proof fn input_clears_the_clipboard_message(b: Bar, size: (usize, usize), own_tab: Option<usize>)
    requires
        !b.is_tooltip,
    ensures
        ({
            let face = rules::face(rules::updated(b, Event::InputReceived, size, own_tab).bar);
            face !is ClipboardHint && face !is ClipboardError
        }),
{
}

/// The wheel never leaves the tabs there are.
pub proof fn the_wheel_stays_within_the_tabs(b: Bar)
    requires
        1 <= b.active <= b.tabs.len(),
    ensures
        1 <= rules::tab_up(b) <= b.tabs.len(),
        1 <= rules::tab_down(b) <= b.tabs.len(),
        rules::tab_up(b) >= b.active,
        rules::tab_down(b) <= b.active,
{
}

/// The active tab is one of the tabs, counted from one.
pub proof fn the_active_tab_is_among_the_tabs(b: Bar, tabs: Seq<crate::host::TabView>)
    requires
        rules::active_place(tabs) is Some,
    ensures
        1 <= rules::after_tabs(b, tabs).bar.active <= tabs.len() || tabs.len() > usize::MAX,
{
    active_place_is_a_place(tabs);
}

proof fn active_place_is_a_place(tabs: Seq<crate::host::TabView>)
    ensures
        rules::active_place(tabs) matches Some(i) ==> 0 <= i < tabs.len() && tabs[i].active,
    decreases tabs.len(),
{
    if tabs.len() > 0 {
        active_place_is_a_place(tabs.drop_last());
    }
}

/// No tooltip is launched in a mode in which it would be in the way, nor in the
/// mode the user started from.
pub proof fn no_tooltip_where_it_is_in_the_way(b: Bar, mode: ModeView, size: (usize, usize))
    requires
        !b.is_tooltip,
        rules::restricted(mode.mode) || mode.mode == rules::base_of(mode) || b.toggle_key is None,
    ensures
        rules::after_mode(b, mode, size).actions == Seq::<ActionView>::empty(),
{
}

/// A tooltip that is not to stay closes when its mode is left.
pub proof fn a_passing_tooltip_closes_with_its_mode(b: Bar, mode: ModeView, size: (usize, usize))
    requires
        b.is_tooltip,
        !b.persist,
        mode.mode == rules::base_of(mode),
    ensures
        rules::after_mode(b, mode, size).actions == seq![ActionView::CloseSelf],
{
}

/// Key bindings that were known are never lost to a report that leaves them out.
pub proof fn key_bindings_are_kept(b: Bar, mode: ModeView, size: (usize, usize))
    ensures
        mode.keybinds.len() == 0 ==> rules::after_mode(b, mode, size).bar.keybinds == b.keybinds,
        rules::after_mode(b, mode, size).bar.mode.keybinds == rules::after_mode(
            b,
            mode,
            size,
        ).bar.keybinds,
{
}

/// Once the tints are computed, the tab the user is in does not ask for
/// attention.
pub proof fn the_tab_in_use_does_not_ask(b: Bar, seen: Option<Map<Seq<char>, i64>>)
    requires
        b.active > 0,
    ensures
        ({
            let flags = rules::after_recompute(b, seen).bar.flags;
            let tab = (b.active - 1) as usize;
            flags.contains_key(tab) ==> flags[tab] == TabFlag::Busy
        }),
{
    let q = match seen {
        Some(m) => Bar { seen: m, ..b },
        None => b,
    };
    tab_flags::the_active_tab_never_asks(
        q.panes[(b.active - 1) as usize],
        q.pane_agents,
        q.seen,
    );
}

/// The key for the tooltip is answered by one bar only: the one in the tab the
/// user is in, and of the user's own client.
pub proof fn one_bar_answers_the_key(
    b: Bar,
    name: Seq<char>,
    payload: Option<Seq<char>>,
    is_private: bool,
    size: (usize, usize),
)
    requires
        !b.is_tooltip,
        b.active > 0,
        b.own_tab != Some((b.active - 1) as usize) || payload != Some(
            crate::text::decimal(b.client as nat),
        ),
    ensures
        rules::after_pipe(b, name, payload, is_private, size) == rules::quiet(b, false),
{
}

/// The timer is armed again each time it fires, once.
pub proof fn the_timer_is_armed_again(b: Bar)
    ensures
        ({
            let actions = rules::after_timer(b).actions;
            &&& actions.len() > 0
            &&& actions.last() == ActionView::SetTimeout(rules::AGENT_POLL_TENTHS)
            &&& forall|i: int|
                0 <= i < actions.len() - 1 ==> !((#[trigger] actions[i]) is SetTimeout)
        }),
{
}

} // verus!
