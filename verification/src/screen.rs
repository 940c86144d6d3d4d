//! Tabs and the panes in them, as far as requests from outside address them.
use crate::dict::Dict;
use crate::text::push_decimal;
use vstd::prelude::*;
use vstd::string::*;
use vstd::utf8::*;

verus! {

pub type ClientId = u16;

#[derive(Clone, Copy, Debug, PartialEq, Eq, Structural)]
pub enum PaneId {
    Terminal(u32),
    Plugin(u32),
}

/// What is known of the pane a client has active, floating or not.
#[derive(Debug)]
pub struct ActivePane {
    pub pane_id: PaneId,
    /// Whether the alternate screen is on.
    pub is_alternate_mode_active: bool,
    /// A turn of the wheel in the pane's top left corner, encoded for the
    /// application; `None` where it does not track the mouse.
    pub wheel_up: Option<String>,
    pub wheel_down: Option<String>,
}

/// Bytes on their way to a pane.
#[derive(Debug)]
pub struct PaneWrite {
    pub pane_id: PaneId,
    pub bytes: Vec<u8>,
    pub client_id: Option<ClientId>,
}

pub ghost struct WriteView {
    pub pane_id: PaneId,
    pub bytes: Seq<u8>,
    pub client_id: Option<ClientId>,
}

impl View for PaneWrite {
    type V = WriteView;

    open spec fn view(&self) -> WriteView {
        WriteView { pane_id: self.pane_id, bytes: self.bytes@, client_id: self.client_id }
    }
}

pub open spec fn write_views(v: Seq<PaneWrite>) -> Seq<WriteView> {
    v.map_values(|w: PaneWrite| w@)
}

pub struct Tab {
    pub position: usize,
    /// By client, the pane it has active.
    pub active_panes: Dict<ClientId, ActivePane>,
    /// What is to be written to the panes, in this order.
    pub outbox: Vec<PaneWrite>,
}

#[derive(Clone, Copy, Debug, PartialEq, Eq, Structural)]
pub enum AltScreenScroll {
    LineUp,
    LineDown,
    PageUp,
    PageDown,
}

/// What a scroll is for the application in the alternate screen. A line is a
/// turn of the wheel where the application tracks the mouse, for it may bind the
/// arrows to something else.
pub open spec fn scroll_bytes(scroll: AltScreenScroll, pane: ActivePane) -> Seq<u8> {
    match scroll {
        AltScreenScroll::LineUp => match pane.wheel_up {
            Some(s) => encode_utf8(s@),
            None => seq![0x1b, 0x5b, 0x41],
        },
        AltScreenScroll::LineDown => match pane.wheel_down {
            Some(s) => encode_utf8(s@),
            None => seq![0x1b, 0x5b, 0x42],
        },
        AltScreenScroll::PageUp => seq![0x1b, 0x5b, 0x35, 0x7e],
        AltScreenScroll::PageDown => seq![0x1b, 0x5b, 0x36, 0x7e],
    }
}

/// Whether a client's active pane shows its alternate screen.
pub open spec fn in_alternate_screen(tab: Tab, client_id: ClientId) -> bool {
    tab.active_panes@.contains_key(client_id)
        && tab.active_panes@[client_id].is_alternate_mode_active
}

fn three(a: u8, b: u8, c: u8) -> (r: Vec<u8>)
    ensures
        r@ == seq![a, b, c],
{
    let mut v: Vec<u8> = Vec::new();
    v.push(a);
    v.push(b);
    v.push(c);
    assert(v@ =~= seq![a, b, c]);
    v
}

impl Tab {
    /// Scrolling does nothing in the alternate screen, for the scrollback is not
    /// there: hand the scroll to the application instead. Whether it was handed
    /// on.
    pub fn forward_scroll_in_alternate_screen(
        &mut self,
        scroll: AltScreenScroll,
        client_id: ClientId,
    ) -> (r: bool)
        ensures
            r == in_alternate_screen(*old(self), client_id),
            write_views(final(self).outbox@) == (if r {
                write_views(old(self).outbox@).push(
                    WriteView {
                        pane_id: old(self).active_panes@[client_id].pane_id,
                        bytes: scroll_bytes(scroll, old(self).active_panes@[client_id]),
                        client_id: Some(client_id),
                    },
                )
            } else {
                write_views(old(self).outbox@)
            }),
            final(self).position == old(self).position,
            final(self).active_panes == old(self).active_panes,
    {
        let (pane_id, bytes) = match self.active_panes.get(&client_id) {
            Some(pane) => {
                if !pane.is_alternate_mode_active {
                    return false;
                }
                let bytes = match scroll {
                    AltScreenScroll::LineUp => match &pane.wheel_up {
                        Some(s) => s.as_str().as_bytes_vec(),
                        None => three(0x1b, 0x5b, 0x41),
                    },
                    AltScreenScroll::LineDown => match &pane.wheel_down {
                        Some(s) => s.as_str().as_bytes_vec(),
                        None => three(0x1b, 0x5b, 0x42),
                    },
                    AltScreenScroll::PageUp => {
                        let mut v = three(0x1b, 0x5b, 0x35);
                        v.push(0x7e);
                        assert(v@ =~= seq![0x1bu8, 0x5b, 0x35, 0x7e]);
                        v
                    },
                    AltScreenScroll::PageDown => {
                        let mut v = three(0x1b, 0x5b, 0x36);
                        v.push(0x7e);
                        assert(v@ =~= seq![0x1bu8, 0x5b, 0x36, 0x7e]);
                        v
                    },
                };
                (pane.pane_id, bytes)
            },
            None => return false,
        };
        let ghost sent = WriteView { pane_id, bytes: bytes@, client_id: Some(client_id) };
        self.outbox.push(PaneWrite { pane_id, bytes, client_id: Some(client_id) });
        assert(write_views(self.outbox@) =~= write_views(old(self).outbox@).push(sent));
        true
    }
}

/// The byte that submits a prompt.
pub const ENTER: u8 = 13;

/// What is to be done next to submit text to a pane. `C` is what is told that the
/// prompt is through, `E` what a pane fails with.
#[derive(Debug)]
pub enum PromptStep<C, E> {
    /// Paste the bytes, then go on with what came of it.
    Paste { pane_id: PaneId, bytes: Vec<u8>, then: Prompt<C> },
    /// Write the bytes, with the completion; then go on with what came of it.
    Write { pane_id: PaneId, bytes: Vec<u8>, completion: Option<C>, then: Prompt<C> },
    Done,
    Failed(E),
}

/// A prompt under way. Paste and enter are one operation: nothing else goes to
/// the pane between the two.
#[derive(Debug)]
pub enum Prompt<C> {
    Pasting { pane_id: PaneId, completion: Option<C> },
    Entering,
}

/// Why a prompt could not start.
#[derive(Debug)]
pub struct NoActivePane {
    pub client_id: ClientId,
}

impl NoActivePane {
    /// What was being done.
    pub fn context(&self) -> (r: String)
        ensures
            r@ == "failed to prompt active terminal for client "@ + crate::text::decimal(
                self.client_id as nat,
            ),
    {
        let mut out = "failed to prompt active terminal for client ".to_owned();
        push_decimal(&mut out, self.client_id as u64);
        out
    }

    /// What was missing.
    pub fn cause(&self) -> (r: String)
        ensures
            r@ == "no active pane for client "@ + crate::text::decimal(self.client_id as nat),
    {
        let mut out = "no active pane for client ".to_owned();
        push_decimal(&mut out, self.client_id as u64);
        out
    }
}

impl Tab {
    /// Submit text to a pane: the first step.
    pub fn prompt_to_pane_id<C, E>(
        &self,
        bytes: Vec<u8>,
        pane_id: PaneId,
        completion: Option<C>,
    ) -> (r: PromptStep<C, E>)
        ensures
            r == (PromptStep::<C, E>::Paste {
                pane_id,
                bytes,
                then: Prompt::Pasting { pane_id, completion },
            }),
    {
        PromptStep::Paste { pane_id, bytes, then: Prompt::Pasting { pane_id, completion } }
    }

    /// Submit text to the pane a client has active: the first step.
    pub fn prompt_to_active_terminal<C, E>(
        &self,
        bytes: Vec<u8>,
        client_id: ClientId,
        completion: Option<C>,
    ) -> (r: Result<PromptStep<C, E>, NoActivePane>)
        ensures
            match r {
                Ok(step) => self.active_panes@.contains_key(client_id) && step == (PromptStep::<
                    C,
                    E,
                >::Paste {
                    pane_id: self.active_panes@[client_id].pane_id,
                    bytes,
                    then: Prompt::Pasting {
                        pane_id: self.active_panes@[client_id].pane_id,
                        completion,
                    },
                }),
                Err(e) => !self.active_panes@.contains_key(client_id) && e.client_id == client_id,
            },
    {
        let pane_id = match self.active_panes.get(&client_id) {
            Some(pane) => pane.pane_id,
            None => return Err(NoActivePane { client_id }),
        };
        Ok(self.prompt_to_pane_id(bytes, pane_id, completion))
    }
}

impl<C> Prompt<C> {
    /// Go on with what came of the last step. Enter follows a paste that went
    /// through, in the same pane; a failed step ends the prompt.
    pub fn after<E>(self, result: Result<(), E>) -> (r: PromptStep<C, E>)
        ensures
            match result {
                Err(e) => r == PromptStep::<C, E>::Failed(e),
                Ok(_) => match self {
                    Prompt::Pasting { pane_id, completion } => r matches PromptStep::Write {
                        pane_id: p,
                        bytes,
                        completion: c,
                        then,
                    } && p == pane_id && bytes@ == seq![ENTER] && c == completion && then
                        == Prompt::<C>::Entering,
                    Prompt::Entering => r == PromptStep::<C, E>::Done,
                },
            },
    {
        match result {
            Err(e) => PromptStep::Failed(e),
            Ok(_) => match self {
                Prompt::Pasting { pane_id, completion } => {
                    let mut bytes: Vec<u8> = Vec::new();
                    bytes.push(ENTER);
                    assert(bytes@ =~= seq![ENTER]);
                    PromptStep::Write { pane_id, bytes, completion, then: Prompt::Entering }
                },
                Prompt::Entering => PromptStep::Done,
            },
        }
    }
}

/// The tabs, by id in ascending order. An id is not a position: it outlives the
/// tabs to its left.
pub struct Screen {
    pub tabs: Vec<(usize, Tab)>,
}

/// Ids ascend.
pub open spec fn by_id(tabs: Seq<(usize, Tab)>) -> bool {
    forall|i: int, j: int|
        #![trigger tabs[i], tabs[j]]
        0 <= i < j < tabs.len() ==> tabs[i].0 < tabs[j].0
}

/// The leftmost tab; of two at one position, the one with the lower id.
pub open spec fn is_leftmost(tabs: Seq<(usize, Tab)>, i: int) -> bool {
    &&& 0 <= i < tabs.len()
    &&& forall|j: int| 0 <= j < tabs.len() ==> tabs[i].1.position <= (#[trigger] tabs[j]).1.position
    &&& forall|j: int| 0 <= j < i ==> tabs[i].1.position < (#[trigger] tabs[j]).1.position
}

impl Screen {
    /// The leftmost tab that actually exists, by position.
    pub fn first_tab_mut(&mut self) -> (r: Option<&mut Tab>)
        ensures
            match r {
                Some(tab) => exists|i: int|
                    #[trigger] is_leftmost(old(self).tabs@, i) && *tab == old(self).tabs@[i].1
                        && final(self).tabs@ == old(self).tabs@.update(
                        i,
                        (old(self).tabs@[i].0, *final(tab)),
                    ),
                None => old(self).tabs.len() == 0 && final(self).tabs@ == old(self).tabs@,
            },
    {
        if self.tabs.len() == 0 {
            return None;
        }
        let mut best: usize = 0;
        let mut i: usize = 1;
        while i < self.tabs.len()
            invariant
                1 <= i <= self.tabs.len(),
                best < i,
                self.tabs@ == old(self).tabs@,
                forall|j: int|
                    0 <= j < i ==> self.tabs@[best as int].1.position <= (
                    #[trigger] self.tabs@[j]).1.position,
                forall|j: int|
                    0 <= j < best ==> self.tabs@[best as int].1.position < (
                    #[trigger] self.tabs@[j]).1.position,
            decreases self.tabs.len() - i,
        {
            if self.tabs[i].1.position < self.tabs[best].1.position {
                best = i;
            }
            i += 1;
        }
        assert(is_leftmost(old(self).tabs@, best as int));
        Some(&mut self.tabs[best].1)
    }
}

/// There is a first tab as soon as there is a tab, whatever its id, and there is
/// only one.
pub proof fn the_leftmost_tab_is_unique(tabs: Seq<(usize, Tab)>, i: int, j: int)
    requires
        is_leftmost(tabs, i),
        is_leftmost(tabs, j),
    ensures
        i == j,
{
    assert(tabs[i].1.position <= tabs[j].1.position);
    assert(tabs[j].1.position <= tabs[i].1.position);
}

/// With ids in order, no tab at the same position has a lower id than the first.
pub proof fn the_leftmost_tab_has_the_lowest_id(tabs: Seq<(usize, Tab)>, i: int, j: int)
    requires
        by_id(tabs),
        is_leftmost(tabs, i),
        0 <= j < tabs.len(),
        tabs[j].1.position == tabs[i].1.position,
    ensures
        tabs[i].0 <= tabs[j].0,
{
    if j < i {
        assert(tabs[i].1.position < tabs[j].1.position);
    } else if i < j {
        assert(tabs[i].0 < tabs[j].0);
    }
}

/// The first tab stands left of, or at, the position of every tab, and there is one
/// wherever there is a tab.
pub proof fn the_first_tab_is_left_of_all(tabs: Seq<(usize, Tab)>, i: int, j: int)
    requires
        0 <= j < tabs.len(),
    ensures
        is_leftmost(tabs, i) ==> 0 <= i < tabs.len() && tabs[i].1.position <= tabs[j].1.position,
        exists|k: int| is_leftmost(tabs, k),
{
    let k = leftmost_of(tabs, tabs.len() as int);
    assert(is_leftmost(tabs, k));
}

proof fn leftmost_of(tabs: Seq<(usize, Tab)>, n: int) -> (k: int)
    requires
        0 < n <= tabs.len(),
    ensures
        0 <= k < n,
        forall|j: int|
            0 <= j < n ==> tabs[k].1.position <= (#[trigger] tabs[j]).1.position,
        forall|j: int| 0 <= j < k ==> tabs[k].1.position < (#[trigger] tabs[j]).1.position,
    decreases n,
{
    if n == 1 {
        0
    } else {
        let k = leftmost_of(tabs, n - 1);
        if tabs[n - 1].1.position < tabs[k].1.position {
            n - 1
        } else {
            k
        }
    }
}

/// A scroll is handed on as the keys that scroll: an escape, a bracket, and the letter of
/// the arrow or the number of the page key. A line is a turn of the wheel instead, where
/// the application tracks the mouse: up for up, and down for down.
pub proof fn a_scroll_is_its_keys(pane: ActivePane)
    ensures
        pane.wheel_up is None ==> scroll_bytes(AltScreenScroll::LineUp, pane) == encode_utf8(
            seq!['\u{1b}', '[', 'A'],
        ),
        pane.wheel_down is None ==> scroll_bytes(AltScreenScroll::LineDown, pane) == encode_utf8(
            seq!['\u{1b}', '[', 'B'],
        ),
        scroll_bytes(AltScreenScroll::PageUp, pane) == encode_utf8(
            seq!['\u{1b}', '[', '5', '~'],
        ),
        scroll_bytes(AltScreenScroll::PageDown, pane) == encode_utf8(
            seq!['\u{1b}', '[', '6', '~'],
        ),
        pane.wheel_up matches Some(s) ==> scroll_bytes(AltScreenScroll::LineUp, pane)
            == encode_utf8(s@),
        pane.wheel_down matches Some(s) ==> scroll_bytes(AltScreenScroll::LineDown, pane)
            == encode_utf8(s@),
{
    ascii_is_its_bytes(seq!['\u{1b}', '[', 'A'], seq![0x1bu8, 0x5b, 0x41]);
    ascii_is_its_bytes(seq!['\u{1b}', '[', 'B'], seq![0x1bu8, 0x5b, 0x42]);
    ascii_is_its_bytes(seq!['\u{1b}', '[', '5', '~'], seq![0x1bu8, 0x5b, 0x35, 0x7e]);
    ascii_is_its_bytes(seq!['\u{1b}', '[', '6', '~'], seq![0x1bu8, 0x5b, 0x36, 0x7e]);
}

proof fn ascii_is_its_bytes(s: Seq<char>, b: Seq<u8>)
    requires
        s.len() == b.len(),
        forall|i: int| 0 <= i < s.len() ==> #[trigger] s[i] as u32 == b[i] && b[i] < 128,
    ensures
        encode_utf8(s) == b,
    decreases s.len(),
{
    if s.len() > 0 {
        let c = s[0] as u32;
        assert(c == b[0] && b[0] < 128);
        assert forall|i: int| 0 <= i < s.drop_first().len() implies #[trigger] s.drop_first()[i] as u32
            == b.drop_first()[i] && b.drop_first()[i] < 128 by {
            assert(s[i + 1] as u32 == b[i + 1]);
        }
        ascii_is_its_bytes(s.drop_first(), b.drop_first());
        assert(c & 0x7F == c) by (bit_vector)
            requires
                c < 128,
        ;
        assert(encode_utf8(s) =~= b);
    } else {
        assert(encode_utf8(s) =~= b);
    }
}

/// Only the alternate screen takes scrolls, and only that of the pane the client has
/// active.
pub proof fn only_the_alternate_screen_takes_scrolls(tab: Tab, client_id: ClientId)
    ensures
        in_alternate_screen(tab, client_id) <==> tab.active_panes@.contains_key(client_id)
            && tab.active_panes@[client_id].is_alternate_mode_active,
{
}

/// A prompt is submitted by a carriage return.
pub proof fn a_prompt_is_submitted_by_a_carriage_return()
    ensures
        ENTER == '\r' as u32,
{
}

} // verus!
