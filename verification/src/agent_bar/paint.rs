//! The panel's rows as coloured spans of text.
//!
//! Concurrent states of an agent are composited as a per-column priority stack
//! across the row's first columns: 0, 1 (the marker), 2 (a space), 3 and on (the
//! name).
//!
//! - column 0: grey if selected, else neutral;
//! - columns 1 and 2: green if in view, else the alert colour, else grey if
//!   selected, else neutral;
//! - the name: grey if selected, else the alert colour, else green if in view,
//!   else neutral.
use super::wrap;
use super::wrap::{width, wrap_text};
use crate::host::{PaletteColor, Styling};
use crate::readmodel::AgentStatus;
use crate::text;
use crate::text::{chars_of, str_eq};
use vstd::prelude::*;
use vstd::string::*;

verus! {

/// Width of column 0, the leftmost cell of every agent row.
pub const OUTER_PAD: usize = 1;

/// The marker and the space between it and the name.
pub const AGENT_INDENT: usize = 2;

/// Theme-driven colours for every agent state.
#[derive(Clone, Copy, Debug, PartialEq, Eq, Structural)]
pub struct AgentColors {
    /// Background of what is in view.
    pub green: PaletteColor,
    /// Foreground of what is busy.
    pub magenta: PaletteColor,
    /// Background of what waits or needs attention.
    pub yellow: PaletteColor,
    /// Foreground on top of `green` or `yellow`.
    pub on_color: PaletteColor,
    /// Neutral text.
    pub text: PaletteColor,
    /// Background of rows without a tint.
    pub bar_bg: PaletteColor,
    /// Background of headers.
    pub header_bg: PaletteColor,
    /// Colour of the scroll marks.
    pub accent: PaletteColor,
    /// The selection cursor.
    pub selected_bg: PaletteColor,
    pub selected_fg: PaletteColor,
    /// The theme's red.
    pub error: PaletteColor,
}

impl AgentColors {
    pub open spec fn of(p: Styling) -> AgentColors {
        AgentColors {
            green: p.ribbon_selected.background,
            magenta: p.text_unselected.emphasis_3,
            yellow: p.exit_code_error.emphasis_0,
            on_color: p.ribbon_selected.base,
            text: p.text_unselected.base,
            bar_bg: p.text_unselected.background,
            header_bg: p.text_selected.background,
            accent: p.frame_selected.base,
            selected_bg: p.list_selected.background,
            selected_fg: p.list_selected.base,
            error: p.exit_code_error.base,
        }
    }

    /// The colours of a theme.
    pub fn from_palette(p: &Styling) -> (r: Self)
        ensures
            r == AgentColors::of(*p),
    {
        AgentColors {
            green: p.ribbon_selected.background,
            magenta: p.text_unselected.emphasis_3,
            yellow: p.exit_code_error.emphasis_0,
            on_color: p.ribbon_selected.base,
            text: p.text_unselected.base,
            bar_bg: p.text_unselected.background,
            header_bg: p.text_selected.background,
            accent: p.frame_selected.base,
            selected_bg: p.list_selected.background,
            selected_fg: p.list_selected.base,
            error: p.exit_code_error.base,
        }
    }
}

/// A piece of text in one style.
#[derive(Debug)]
pub struct Span {
    pub fg: PaletteColor,
    pub bg: PaletteColor,
    pub bold: bool,
    pub dim: bool,
    pub text: String,
}

#[verifier::ext_equal]
pub ghost struct SpanView {
    pub fg: PaletteColor,
    pub bg: PaletteColor,
    pub bold: bool,
    pub dim: bool,
    pub text: Seq<char>,
}

impl View for Span {
    type V = SpanView;

    open spec fn view(&self) -> SpanView {
        SpanView {
            fg: self.fg,
            bg: self.bg,
            bold: self.bold,
            dim: self.dim,
            text: self.text@,
        }
    }
}

/// A painted row.
pub open spec fn row_view(row: Seq<Span>) -> Seq<SpanView> {
    row.map_values(|s: Span| s@)
}

/// A painted frame, row by row.
pub open spec fn frame_view(frame: Seq<Vec<Span>>) -> Seq<Seq<SpanView>> {
    frame.map_values(|row: Vec<Span>| row_view(row@))
}

/// Blank text.
pub open spec fn blanks(n: nat) -> Seq<char> {
    Seq::new(n, |i: int| ' ')
}

pub fn blank_text(n: usize) -> (r: String)
    ensures
        r@ == blanks(n as nat),
{
    let mut out = String::new();
    let mut i: usize = 0;
    while i < n
        invariant
            i <= n,
            out@ == blanks(i as nat),
        decreases n - i,
    {
        out.push(' ');
        assert(out@ =~= blanks((i + 1) as nat));
        i += 1;
    }
    out
}

pub open spec fn less_or_none(a: int, b: int) -> nat {
    if a >= b {
        (a - b) as nat
    } else {
        0
    }
}

/// The longest beginning of a text that fits.
pub open spec fn fitting(s: Seq<char>, budget: nat) -> Seq<char>
    decreases s.len(),
{
    if s.len() == 0 {
        s
    } else {
        let before = fitting(s.drop_last(), budget);
        if before.len() == s.len() - 1 && wrap::columns(s) <= budget {
            s
        } else {
            before
        }
    }
}

proof fn fitting_stops(s: Seq<char>, budget: nat, i: int, j: int)
    requires
        0 <= i < j <= s.len(),
        fitting(s.take(i), budget) == s.take(i),
        wrap::columns(s.take(i + 1)) > budget,
    ensures
        fitting(s.take(j), budget) == s.take(i),
    decreases j - i,
{
    assert(s.take(j).drop_last() =~= s.take(j - 1));
    if j == i + 1 {
    } else {
        fitting_stops(s, budget, i, j - 1);
    }
}

/// Cut a text to what fits; also how many columns that takes.
fn fit(s: &str, budget: usize) -> (r: (String, usize))
    ensures
        r.0@ == fitting(s@, budget as nat),
        r.1 == wrap::columns(r.0@),
        r.1 <= budget,
{
    let cs = chars_of(s);
    let mut out = String::new();
    let mut w: usize = 0;
    let mut i: usize = 0;
    assert(s@.take(0) =~= Seq::<char>::empty());
    while i < cs.len()
        invariant
            i <= cs.len(),
            cs@ == s@,
            out@ == s@.take(i as int),
            w == wrap::columns(out@),
            w <= budget,
            fitting(s@.take(i as int), budget as nat) == s@.take(i as int),
        decreases cs.len() - i,
    {
        let mut one = String::new();
        one.push(cs[i]);
        let cw = width(one.as_str());
        assert(s@.take(i + 1).drop_last() =~= s@.take(i as int));
        if cw > budget || w > budget - cw {
            proof {
                fitting_stops(s@, budget as nat, i as int, s@.len() as int);
                assert(s@.take(s@.len() as int) =~= s@);
            }
            return (out, w);
        }
        out.push(cs[i]);
        assert(out@ =~= s@.take(i + 1));
        w = w + cw;
        i += 1;
    }
    assert(s@.take(i as int) =~= s@);
    (out, w)
}

/// A fitted text is a beginning of it and takes no more than it may.
pub proof fn fitting_fits(s: Seq<char>, budget: nat)
    ensures
        wrap::columns(fitting(s, budget)) <= budget,
        fitting(s, budget).is_prefix_of(s),
    decreases s.len(),
{
    if s.len() > 0 {
        fitting_fits(s.drop_last(), budget);
    }
}

/// The columns a row takes.
pub open spec fn row_columns(row: Seq<SpanView>) -> nat
    decreases row.len(),
{
    if row.len() == 0 {
        0
    } else {
        row_columns(row.drop_last()) + wrap::columns(row.last().text)
    }
}

/// The longest beginning of a row that fits.
pub open spec fn row_fitting(row: Seq<SpanView>, budget: nat) -> Seq<SpanView>
    decreases row.len(),
{
    if row.len() == 0 {
        row
    } else {
        let before = row_fitting(row.drop_last(), budget);
        if before == row.drop_last() {
            let room = less_or_none(budget as int, row_columns(before) as int);
            before.push(SpanView { text: fitting(row.last().text, room), ..row.last() })
        } else {
            before
        }
    }
}

/// A fitted row takes no more than it may, and has no more spans than the row.
pub proof fn row_fitting_fits(row: Seq<SpanView>, budget: nat)
    ensures
        row_columns(row_fitting(row, budget)) <= budget,
        row_fitting(row, budget).len() <= row.len(),
    decreases row.len(),
{
    if row.len() > 0 {
        let before = row_fitting(row.drop_last(), budget);
        row_fitting_fits(row.drop_last(), budget);
        if before == row.drop_last() {
            let room = less_or_none(budget as int, row_columns(before) as int);
            fitting_fits(row.last().text, room);
            assert(row_fitting(row, budget).drop_last() =~= before);
        }
    }
}

proof fn row_fitting_stops(row: Seq<SpanView>, budget: nat, i: int, j: int)
    requires
        0 <= i <= j <= row.len(),
        row_fitting(row.take(i), budget) != row.take(i),
    ensures
        row_fitting(row.take(j), budget) == row_fitting(row.take(i), budget),
    decreases j - i,
{
    if i < j {
        row_fitting_stops(row, budget, i, j - 1);
        row_fitting_fits(row.take(i), budget);
        assert(row.take(j).drop_last() =~= row.take(j - 1));
    }
}

/// Cut a row to what fits; also how many columns that takes.
fn fit_row(row: &Vec<Span>, budget: usize) -> (r: (Vec<Span>, usize))
    ensures
        row_view(r.0@) == row_fitting(row_view(row@), budget as nat),
        r.1 == row_columns(row_view(r.0@)),
        r.1 <= budget,
{
    let ghost rv = row_view(row@);
    let mut out: Vec<Span> = Vec::new();
    let mut used: usize = 0;
    let mut i: usize = 0;
    proof {
        assert(rv.take(0) =~= Seq::<SpanView>::empty());
        assert(row_view(out@) =~= Seq::<SpanView>::empty());
    }
    while i < row.len()
        invariant
            i <= row.len(),
            rv == row_view(row@),
            row_view(out@) == rv.take(i as int),
            row_fitting(rv.take(i as int), budget as nat) == rv.take(i as int),
            used == row_columns(rv.take(i as int)),
            used <= budget,
        decreases row.len() - i,
    {
        let span = &row[i];
        let (text, w) = fit(span.text.as_str(), budget - used);
        let whole = str_eq(text.as_str(), span.text.as_str());
        let cut = Span { fg: span.fg, bg: span.bg, bold: span.bold, dim: span.dim, text };
        let ghost before = rv.take(i as int);
        let ghost upto = rv.take(i + 1);
        proof {
            assert(upto.drop_last() =~= before);
            assert(upto.last() == span@);
            assert(cut@ =~= (SpanView {
                text: fitting(upto.last().text, (budget - used) as nat),
                ..upto.last()
            }));
            assert(row_fitting(upto, budget as nat) =~= before.push(cut@));
            assert(before.push(cut@).drop_last() =~= before);
        }
        push_span(&mut out, cut);
        used = used + w;
        i += 1;
        if !whole {
            proof {
                assert(row_view(out@).last() != upto.last());
                row_fitting_stops(rv, budget as nat, i as int, rv.len() as int);
                assert(rv.take(rv.len() as int) =~= rv);
            }
            return (out, used);
        }
        assert(row_view(out@) =~= upto);
    }
    assert(rv.take(i as int) =~= rv);
    (out, used)
}

/// A row with an arrow in its last column.
pub open spec fn marked_row(
    row: Seq<SpanView>,
    cols: nat,
    colors: AgentColors,
    arrow: char,
) -> Seq<SpanView> {
    let room = less_or_none(cols as int, 1);
    let kept = row_fitting(row, room);
    kept.push(
        plain(
            colors.accent,
            colors.bar_bg,
            blanks((room - row_columns(kept)) as nat) + seq![arrow],
        ),
    )
}

/// Put an arrow in place of what stands in a row's last column.
pub fn mark_row(row: &Vec<Span>, cols: usize, colors: &AgentColors, arrow: char) -> (r: Vec<Span>)
    ensures
        row_view(r@) == marked_row(row_view(row@), cols as nat, *colors, arrow),
{
    let room = if cols >= 1 {
        cols - 1
    } else {
        0
    };
    let (mut out, used) = fit_row(row, room);
    let mut text = blank_text(room - used);
    text.push(arrow);
    assert(text@ =~= blanks((room - used) as nat) + seq![arrow]);
    push_span(
        &mut out,
        Span { fg: colors.accent, bg: colors.bar_bg, bold: false, dim: false, text },
    );
    out
}

/// A blank row.
pub open spec fn padding_row(colors: AgentColors, cols: nat) -> Seq<SpanView> {
    seq![SpanView {
        fg: colors.text,
        bg: colors.bar_bg,
        bold: false,
        dim: false,
        text: blanks(cols),
    }]
}

pub fn render_padding(colors: &AgentColors, cols: usize) -> (r: Vec<Span>)
    ensures
        row_view(r@) == padding_row(*colors, cols as nat),
{
    let mut row: Vec<Span> = Vec::new();
    row.push(
        Span {
            fg: colors.text,
            bg: colors.bar_bg,
            bold: false,
            dim: false,
            text: blank_text(cols),
        },
    );
    assert(row_view(row@) =~= padding_row(*colors, cols as nat));
    row
}

/// A header's title, cut to fit and marked where it was cut.
pub open spec fn title(label: Seq<char>, budget: nat) -> Seq<char> {
    let fit = fitting(label, budget);
    if wrap::columns(fit) < wrap::columns(label) {
        wrap::ellipsized(fit, budget)
    } else {
        fit
    }
}

/// The columns left behind a header's title.
pub open spec fn behind_title(label: Seq<char>, cols: nat) -> nat {
    let body = less_or_none(cols as int, OUTER_PAD as int);
    less_or_none(body as int, wrap::columns(title(label, body)) as int)
}

/// A suffix takes two columns, if they are there.
pub open spec fn takes_suffix(wanted: bool, room: nat) -> bool {
    wanted && room >= 2
}

pub open spec fn after_suffix(wanted: bool, room: nat) -> nat {
    if takes_suffix(wanted, room) {
        (room - 2) as nat
    } else {
        room
    }
}

pub open spec fn header_fg(open_elsewhere: bool, is_active: bool, colors: AgentColors) -> PaletteColor {
    if is_active {
        colors.on_color
    } else if open_elsewhere {
        colors.magenta
    } else {
        colors.text
    }
}

pub open spec fn header_bg(is_active: bool, colors: AgentColors) -> PaletteColor {
    if is_active {
        colors.green
    } else {
        colors.header_bg
    }
}

pub open spec fn plain(fg: PaletteColor, bg: PaletteColor, text: Seq<char>) -> SpanView {
    SpanView { fg, bg, bold: false, dim: false, text }
}

pub open spec fn strong(fg: PaletteColor, bg: PaletteColor, text: Seq<char>) -> SpanView {
    SpanView { fg, bg, bold: true, dim: false, text }
}

/// A header row: the title, a cross where an agent of the group has no pane, two
/// joined squares where another window has the session open, and the strip's
/// background over the rest.
pub open spec fn header_row(
    label: Seq<char>,
    unrouted_in_group: bool,
    open_elsewhere: bool,
    is_active: bool,
    colors: AgentColors,
    cols: nat,
) -> Seq<SpanView> {
    let fg = header_fg(open_elsewhere, is_active, colors);
    let bg = header_bg(is_active, colors);
    let room = behind_title(label, cols);
    let room2 = after_suffix(unrouted_in_group, room);
    let room3 = after_suffix(open_elsewhere, room2);
    let cross = if takes_suffix(unrouted_in_group, room) {
        seq![strong(colors.error, bg, seq![' ', '\u{2717}'])]
    } else {
        Seq::empty()
    };
    let squares = if takes_suffix(open_elsewhere, room2) {
        seq![strong(fg, bg, seq![' ', '\u{29C9}'])]
    } else {
        Seq::empty()
    };
    seq![
        plain(fg, bg, seq![' ']),
        strong(fg, bg, title(label, less_or_none(cols as int, OUTER_PAD as int))),
    ] + cross + squares + seq![plain(fg, bg, blanks(room3))]
}

fn text_of_two(a: char, b: char) -> (r: String)
    ensures
        r@ == seq![a, b],
{
    let mut out = String::new();
    out.push(a);
    out.push(b);
    assert(out@ =~= seq![a, b]);
    out
}

fn text_of_one(a: char) -> (r: String)
    ensures
        r@ == seq![a],
{
    let mut out = String::new();
    out.push(a);
    assert(out@ =~= seq![a]);
    out
}

fn push_span(row: &mut Vec<Span>, span: Span)
    ensures
        row_view(final(row)@) == row_view(old(row)@).push(span@),
{
    row.push(span);
    assert(row_view(row@) =~= row_view(old(row)@).push(span@));
}

fn fit_title(label: &str, budget: usize) -> (r: String)
    ensures
        r@ == title(label@, budget as nat),
{
    let (mut trimmed, w) = fit(label, budget);
    if w < width(label) {
        let ghost line = trimmed@;
        while !trimmed.as_str().is_empty() && width(trimmed.as_str()) >= budget
            invariant
                wrap::shortened(trimmed@, budget as nat) == wrap::shortened(line, budget as nat),
            decreases trimmed@.len(),
        {
            trimmed.pop();
        }
        trimmed.push('\u{2026}');
    }
    trimmed
}

pub fn render_header(
    label: &str,
    unrouted_in_group: bool,
    open_elsewhere: bool,
    is_active: bool,
    colors: &AgentColors,
    cols: usize,
) -> (r: Vec<Span>)
    ensures
        row_view(r@) == header_row(
            label@,
            unrouted_in_group,
            open_elsewhere,
            is_active,
            *colors,
            cols as nat,
        ),
{
    let body_w = if cols >= OUTER_PAD {
        cols - OUTER_PAD
    } else {
        0
    };
    let trimmed = fit_title(label, body_w);
    let title_w = width(trimmed.as_str());
    let mut room = if body_w >= title_w {
        body_w - title_w
    } else {
        0
    };
    let unrouted_suffix = unrouted_in_group && room >= 2;
    if unrouted_suffix {
        room = room - 2;
    }
    let elsewhere_suffix = open_elsewhere && room >= 2;
    if elsewhere_suffix {
        room = room - 2;
    }
    let (fg, bg) = if is_active {
        (colors.on_color, colors.green)
    } else if open_elsewhere {
        (colors.magenta, colors.header_bg)
    } else {
        (colors.text, colors.header_bg)
    };
    let mut row: Vec<Span> = Vec::new();
    push_span(&mut row, Span { fg, bg, bold: false, dim: false, text: text_of_one(' ') });
    push_span(&mut row, Span { fg, bg, bold: true, dim: false, text: trimmed });
    if unrouted_suffix {
        push_span(
            &mut row,
            Span {
                fg: colors.error,
                bg,
                bold: true,
                dim: false,
                text: text_of_two(' ', '\u{2717}'),
            },
        );
    }
    if elsewhere_suffix {
        push_span(
            &mut row,
            Span { fg, bg, bold: true, dim: false, text: text_of_two(' ', '\u{29C9}') },
        );
    }
    push_span(&mut row, Span { fg, bg, bold: false, dim: false, text: blank_text(room) });
    assert(row_view(row@) =~= header_row(
        label@,
        unrouted_in_group,
        open_elsewhere,
        is_active,
        *colors,
        cols as nat,
    ));
    row
}

/// Everything about an agent's line but its text, its colours and its width.
#[derive(Clone, Copy, Debug)]
pub struct RowState {
    pub needs_attention: bool,
    pub unrouted: bool,
    pub is_in_view: bool,
    /// False where the agent is tracked but not active.
    pub active: bool,
    pub is_first_wrap_line: bool,
    pub is_child: bool,
    pub is_last_child: bool,
    pub is_bg: bool,
    /// Under the keyboard cursor.
    pub selected: bool,
    /// The frame of the spinner, while a click on the row is in flight.
    pub spinner: Option<char>,
}

/// A live agent in a status this panel has no name for.
pub open spec fn is_unknown(status: AgentStatus, s: RowState) -> bool {
    s.active && status is Unknown
}

/// A live agent that needs the user.
pub open spec fn alert(status: AgentStatus, s: RowState) -> bool {
    s.active && (s.needs_attention || status is Waiting || is_unknown(status, s))
}

pub open spec fn in_view(s: RowState) -> bool {
    s.is_in_view && s.active
}

pub open spec fn alert_color(status: AgentStatus, s: RowState, c: AgentColors) -> PaletteColor {
    if is_unknown(status, s) {
        c.error
    } else {
        c.yellow
    }
}

pub open spec fn col0_bg(s: RowState, c: AgentColors) -> PaletteColor {
    if s.selected {
        c.selected_bg
    } else {
        c.bar_bg
    }
}

/// The marker's background: what the agent is about survives selection here.
pub open spec fn mid_bg(status: AgentStatus, s: RowState, c: AgentColors) -> PaletteColor {
    if in_view(s) {
        c.green
    } else if alert(status, s) {
        alert_color(status, s, c)
    } else if s.selected {
        c.selected_bg
    } else {
        c.bar_bg
    }
}

/// The name's background: selection outranks everything here.
pub open spec fn body_bg(status: AgentStatus, s: RowState, c: AgentColors) -> PaletteColor {
    if s.selected {
        c.selected_bg
    } else if alert(status, s) {
        alert_color(status, s, c)
    } else if in_view(s) {
        c.green
    } else {
        c.bar_bg
    }
}

/// The name's colour: the status, in a hue that reads on its background, unless
/// the row is selected.
pub open spec fn name_fg(status: AgentStatus, s: RowState, c: AgentColors) -> PaletteColor {
    if s.selected {
        c.selected_fg
    } else if !s.active {
        c.text
    } else if status is Busy {
        c.magenta
    } else if alert(status, s) || in_view(s) {
        c.on_color
    } else {
        c.text
    }
}

pub open spec fn marker(s: RowState) -> char {
    if !s.is_first_wrap_line {
        ' '
    } else if s.spinner is Some {
        s.spinner->0
    } else if s.is_child {
        if s.is_last_child {
            '\u{2514}'
        } else {
            '\u{251c}'
        }
    } else if !s.active {
        '\u{2020}'
    } else if s.is_bg {
        '\u{2219}'
    } else if s.unrouted {
        '\u{2717}'
    } else {
        '>'
    }
}

pub open spec fn marker_fg(status: AgentStatus, s: RowState, c: AgentColors) -> PaletteColor {
    let tinted = in_view(s) || alert(status, s);
    if !s.active {
        name_fg(status, s, c)
    } else if s.unrouted && !s.is_bg && s.spinner is None {
        if tinted {
            c.on_color
        } else {
            c.error
        }
    } else if s.selected {
        c.selected_fg
    } else if tinted {
        c.on_color
    } else {
        name_fg(status, s, c)
    }
}

/// The columns an agent's name may take.
pub open spec fn name_room(cols: nat) -> nat {
    less_or_none(less_or_none(cols as int, OUTER_PAD as int) as int, AGENT_INDENT as int)
}

/// A span in the style of the row: bold where the row carries any signal, faint
/// where the agent is gone.
pub open spec fn row_span(
    fg: PaletteColor,
    bg: PaletteColor,
    status: AgentStatus,
    s: RowState,
    text: Seq<char>,
) -> SpanView {
    SpanView {
        fg,
        bg,
        bold: s.selected || in_view(s) || alert(status, s),
        dim: !s.active && !s.selected,
        text,
    }
}

/// One line of an agent.
pub open spec fn agent_row(
    name: Seq<char>,
    status: AgentStatus,
    s: RowState,
    c: AgentColors,
    cols: nat,
) -> Seq<SpanView> {
    let fg = name_fg(status, s, c);
    let mid = mid_bg(status, s, c);
    let body = body_bg(status, s, c);
    let mark = marker_fg(status, s, c);
    let shown = fitting(name, name_room(cols));
    let arm = if s.is_child && s.is_first_wrap_line {
        row_span(mark, mid, status, s, seq!['\u{2500}'])
    } else {
        row_span(fg, mid, status, s, seq![' '])
    };
    seq![
        row_span(fg, col0_bg(s, c), status, s, seq![' ']),
        row_span(mark, mid, status, s, seq![marker(s)]),
        arm,
        row_span(fg, body, status, s, shown),
        row_span(
            fg,
            body,
            status,
            s,
            blanks((name_room(cols) - wrap::columns(shown)) as nat),
        ),
    ]
}

fn marker_char(s: &RowState) -> (r: char)
    ensures
        r == marker(*s),
{
    if !s.is_first_wrap_line {
        return ' ';
    }
    if let Some(spin) = s.spinner {
        return spin;
    }
    if s.is_child {
        if s.is_last_child {
            '\u{2514}'
        } else {
            '\u{251c}'
        }
    } else if !s.active {
        '\u{2020}'
    } else if s.is_bg {
        '\u{2219}'
    } else if s.unrouted {
        '\u{2717}'
    } else {
        '>'
    }
}

pub fn render_agent_line(
    name: &str,
    status: &AgentStatus,
    s: &RowState,
    colors: &AgentColors,
    cols: usize,
) -> (r: Vec<Span>)
    ensures
        row_view(r@) == agent_row(name@, *status, *s, *colors, cols as nat),
{
    let dead = !s.active;
    let unknown = !dead && match status {
        AgentStatus::Unknown(_) => true,
        _ => false,
    };
    let waiting = match status {
        AgentStatus::Waiting => true,
        _ => false,
    };
    let alert = !dead && (s.needs_attention || waiting || unknown);
    let alert_color = if unknown {
        colors.error
    } else {
        colors.yellow
    };
    let in_view = s.is_in_view && !dead;
    let col0_bg = if s.selected {
        colors.selected_bg
    } else {
        colors.bar_bg
    };
    let mid_bg = if in_view {
        colors.green
    } else if alert {
        alert_color
    } else if s.selected {
        colors.selected_bg
    } else {
        colors.bar_bg
    };
    let body_bg = if s.selected {
        colors.selected_bg
    } else if alert {
        alert_color
    } else if in_view {
        colors.green
    } else {
        colors.bar_bg
    };
    let name_fg = if s.selected {
        colors.selected_fg
    } else if dead {
        colors.text
    } else if status.is_busy() {
        colors.magenta
    } else if alert || in_view {
        colors.on_color
    } else {
        colors.text
    };
    let bold = s.selected || in_view || alert;
    let dim = dead && !s.selected;
    let marker_fg = if dead {
        name_fg
    } else if s.unrouted && !s.is_bg && s.spinner.is_none() {
        if in_view || alert {
            colors.on_color
        } else {
            colors.error
        }
    } else if s.selected {
        colors.selected_fg
    } else if in_view || alert {
        colors.on_color
    } else {
        name_fg
    };
    let name_w = if cols >= OUTER_PAD + AGENT_INDENT {
        cols - OUTER_PAD - AGENT_INDENT
    } else {
        0
    };
    let (visible, w) = fit(name, name_w);
    let pad = blank_text(name_w - w);
    let arm = s.is_child && s.is_first_wrap_line;
    let mut row: Vec<Span> = Vec::new();
    push_span(&mut row, Span { fg: name_fg, bg: col0_bg, bold, dim, text: text_of_one(' ') });
    push_span(
        &mut row,
        Span { fg: marker_fg, bg: mid_bg, bold, dim, text: text_of_one(marker_char(s)) },
    );
    if arm {
        push_span(
            &mut row,
            Span { fg: marker_fg, bg: mid_bg, bold, dim, text: text_of_one('\u{2500}') },
        );
    } else {
        push_span(&mut row, Span { fg: name_fg, bg: mid_bg, bold, dim, text: text_of_one(' ') });
    }
    push_span(&mut row, Span { fg: name_fg, bg: body_bg, bold, dim, text: visible });
    push_span(&mut row, Span { fg: name_fg, bg: body_bg, bold, dim, text: pad });
    assert(row_view(row@) =~= agent_row(name@, *status, *s, *colors, cols as nat));
    row
}

/// Selection is the dominant signal: it takes the name's colours outright.
pub proof fn selection_claims_the_body(status: AgentStatus, s: RowState, c: AgentColors)
    requires
        s.selected,
    ensures
        body_bg(status, s, c) == c.selected_bg,
        name_fg(status, s, c) == c.selected_fg,
        col0_bg(s, c) == c.selected_bg,
{
}

/// A row whose agent is gone carries no tint of what the agent last was: only
/// the selection can colour it.
pub proof fn a_dead_row_has_no_tint(status: AgentStatus, s: RowState, c: AgentColors)
    requires
        !s.active,
    ensures
        mid_bg(status, s, c) == col0_bg(s, c),
        body_bg(status, s, c) == col0_bg(s, c),
        s.is_first_wrap_line && s.spinner is None && !s.is_child ==> marker(s) == '\u{2020}',
{
}

/// The characters that the panel draws by itself are one column wide each.
pub open spec fn glyphs_are_narrow() -> bool {
    &&& wrap::char_columns(' ') == 1
    &&& wrap::char_columns('>') == 1
    &&& wrap::char_columns('\u{2020}') == 1
    &&& wrap::char_columns('\u{2026}') == 1
    &&& wrap::char_columns('\u{2191}') == 1
    &&& wrap::char_columns('\u{2193}') == 1
    &&& wrap::char_columns('\u{2219}') == 1
    &&& wrap::char_columns('\u{2500}') == 1
    &&& wrap::char_columns('\u{2514}') == 1
    &&& wrap::char_columns('\u{251c}') == 1
    &&& wrap::char_columns('\u{2717}') == 1
    &&& wrap::char_columns('\u{29C9}') == 1
}

proof fn columns_of_one(c: char)
    ensures
        wrap::columns(seq![c]) == wrap::char_columns(c),
{
    assert(seq![c].drop_last() =~= Seq::<char>::empty());
    reveal_with_fuel(wrap::columns, 2);
}

proof fn columns_of_blanks(n: nat)
    requires
        wrap::char_columns(' ') == 1,
    ensures
        wrap::columns(blanks(n)) == n,
    decreases n,
{
    if n > 0 {
        columns_of_blanks((n - 1) as nat);
        assert(blanks(n).drop_last() =~= blanks((n - 1) as nat));
    }
}

proof fn row_columns_of_push(row: Seq<SpanView>, span: SpanView)
    ensures
        row_columns(row.push(span)) == row_columns(row) + wrap::columns(span.text),
{
    assert(row.push(span).drop_last() =~= row);
}

proof fn row_columns_of_none()
    ensures
        row_columns(Seq::empty()) == 0,
{
}

/// A blank row fills the width.
pub proof fn a_padding_row_fills_the_width(colors: AgentColors, cols: nat)
    requires
        glyphs_are_narrow(),
    ensures
        row_columns(padding_row(colors, cols)) == cols,
{
    columns_of_blanks(cols);
    row_columns_of_push(Seq::empty(), padding_row(colors, cols)[0]);
    assert(padding_row(colors, cols) =~= Seq::<SpanView>::empty().push(
        padding_row(colors, cols)[0],
    ));
}

proof fn title_fits(label: Seq<char>, budget: nat)
    requires
        glyphs_are_narrow(),
        budget >= 1,
    ensures
        wrap::columns(title(label, budget)) <= budget,
{
    fitting_fits(label, budget);
    let fit = fitting(label, budget);
    shortened_fits(fit, budget);
    let cut = wrap::shortened(fit, budget);
    assert(cut.push('\u{2026}').drop_last() =~= cut);
}

proof fn shortened_fits(line: Seq<char>, budget: nat)
    requires
        budget >= 1,
    ensures
        wrap::columns(wrap::shortened(line, budget)) < budget,
    decreases line.len(),
{
    if line.len() > 0 && wrap::columns(line) >= budget {
        shortened_fits(line.drop_last(), budget);
    }
}

/// A header fills the width, given a column for its title.
pub proof fn a_header_row_fills_the_width(
    label: Seq<char>,
    unrouted_in_group: bool,
    open_elsewhere: bool,
    is_active: bool,
    colors: AgentColors,
    cols: nat,
)
    requires
        glyphs_are_narrow(),
        cols >= 2,
    ensures
        row_columns(
            header_row(label, unrouted_in_group, open_elsewhere, is_active, colors, cols),
        ) == cols,
{
    let fg = header_fg(open_elsewhere, is_active, colors);
    let bg = header_bg(is_active, colors);
    let body = less_or_none(cols as int, OUTER_PAD as int);
    let room = behind_title(label, cols);
    let room2 = after_suffix(unrouted_in_group, room);
    let room3 = after_suffix(open_elsewhere, room2);
    title_fits(label, body);
    columns_of_one(' ');
    columns_of_blanks(room3);
    wrap::columns_of_concat(seq![' '], seq!['\u{2717}']);
    wrap::columns_of_concat(seq![' '], seq!['\u{29C9}']);
    columns_of_one('\u{2717}');
    columns_of_one('\u{29C9}');
    assert(seq![' '] + seq!['\u{2717}'] =~= seq![' ', '\u{2717}']);
    assert(seq![' '] + seq!['\u{29C9}'] =~= seq![' ', '\u{29C9}']);
    row_columns_of_none();
    let lead = plain(fg, bg, seq![' ']);
    let name = strong(fg, bg, title(label, body));
    let cross = strong(colors.error, bg, seq![' ', '\u{2717}']);
    let squares = strong(fg, bg, seq![' ', '\u{29C9}']);
    let rest = plain(fg, bg, blanks(room3));
    let r1 = Seq::<SpanView>::empty().push(lead).push(name);
    row_columns_of_push(Seq::empty(), lead);
    row_columns_of_push(Seq::empty().push(lead), name);
    let r2 = if takes_suffix(unrouted_in_group, room) {
        r1.push(cross)
    } else {
        r1
    };
    row_columns_of_push(r1, cross);
    let r3 = if takes_suffix(open_elsewhere, room2) {
        r2.push(squares)
    } else {
        r2
    };
    row_columns_of_push(r2, squares);
    row_columns_of_push(r3, rest);
    assert(header_row(label, unrouted_in_group, open_elsewhere, is_active, colors, cols)
        =~= r3.push(rest));
}

/// A line of an agent fills the width, given the columns before its name.
pub proof fn an_agent_row_fills_the_width(
    name: Seq<char>,
    status: AgentStatus,
    s: RowState,
    c: AgentColors,
    cols: nat,
)
    requires
        glyphs_are_narrow(),
        s.spinner matches Some(spin) ==> wrap::char_columns(spin) == 1,
        cols >= OUTER_PAD + AGENT_INDENT,
    ensures
        row_columns(agent_row(name, status, s, c, cols)) == cols,
{
    let row = agent_row(name, status, s, c, cols);
    fitting_fits(name, name_room(cols));
    let shown = fitting(name, name_room(cols));
    columns_of_one(' ');
    columns_of_one(marker(s));
    columns_of_one('\u{2500}');
    columns_of_blanks((name_room(cols) - wrap::columns(shown)) as nat);
    row_columns_of_none();
    let r1 = Seq::<SpanView>::empty().push(row[0]);
    let r2 = r1.push(row[1]);
    let r3 = r2.push(row[2]);
    let r4 = r3.push(row[3]);
    row_columns_of_push(Seq::empty(), row[0]);
    row_columns_of_push(r1, row[1]);
    row_columns_of_push(r2, row[2]);
    row_columns_of_push(r3, row[3]);
    row_columns_of_push(r4, row[4]);
    assert(row =~= r4.push(row[4]));
}

/// A mark takes the last column: the row is as wide as the screen, whatever it
/// was before.
pub proof fn a_marked_row_fills_the_width(
    row: Seq<SpanView>,
    cols: nat,
    colors: AgentColors,
    arrow: char,
)
    requires
        wrap::char_columns(' ') == 1,
        wrap::char_columns(arrow) == 1,
        cols >= 1,
    ensures
        row_columns(marked_row(row, cols, colors, arrow)) == cols,
        marked_row(row, cols, colors, arrow).last().text.last() == arrow,
{
    let room = less_or_none(cols as int, 1);
    let kept = row_fitting(row, room);
    row_fitting_fits(row, room);
    let gap = (room - row_columns(kept)) as nat;
    columns_of_blanks(gap);
    columns_of_one(arrow);
    wrap::columns_of_concat(blanks(gap), seq![arrow]);
    row_columns_of_push(kept, marked_row(row, cols, colors, arrow).last());
}

/// A message in place of the panel, one span to a row.
pub open spec fn message_rows(
    lines: Seq<Seq<char>>,
    fg: PaletteColor,
    bg: PaletteColor,
    bold: bool,
) -> Seq<Seq<SpanView>> {
    lines.map_values(|l: Seq<char>| seq![SpanView { fg, bg, bold, dim: false, text: l }])
}

/// What a diagnostic message looks like.
pub open spec fn diag_rows(
    msg: Seq<char>,
    fg: PaletteColor,
    bg: PaletteColor,
    rows: nat,
    cols: nat,
) -> Seq<Seq<SpanView>> {
    message_rows(wrap::wrapped(msg, less_or_none(cols as int, 1), rows), fg, bg, false)
}

pub open spec fn spaced(l: Seq<char>) -> Seq<char> {
    seq![' '] + l + seq![' ']
}

/// What a message that asks for the user looks like.
pub open spec fn attention_rows(
    msg: Seq<char>,
    colors: AgentColors,
    rows: nat,
    cols: nat,
) -> Seq<Seq<SpanView>> {
    message_rows(
        wrap::wrapped(msg, less_or_none(cols as int, 2), rows).map_values(
            |l: Seq<char>| spaced(l),
        ),
        colors.on_color,
        colors.yellow,
        true,
    )
}

fn push_message_row(
    frame: &mut Vec<Vec<Span>>,
    text: String,
    fg: PaletteColor,
    bg: PaletteColor,
    bold: bool,
)
    ensures
        frame_view(final(frame)@) == frame_view(old(frame)@).push(
            seq![SpanView { fg, bg, bold, dim: false, text: text@ }],
        ),
{
    let ghost t = text@;
    let mut row: Vec<Span> = Vec::new();
    row.push(Span { fg, bg, bold, dim: false, text });
    assert(row_view(row@) =~= seq![SpanView { fg, bg, bold, dim: false, text: t }]);
    frame.push(row);
    assert(frame_view(frame@) =~= frame_view(old(frame)@).push(
        seq![SpanView { fg, bg, bold, dim: false, text: t }],
    ));
}

pub fn diag_frame(
    msg: &str,
    fg: PaletteColor,
    bg: PaletteColor,
    rows: usize,
    cols: usize,
) -> (r: Vec<Vec<Span>>)
    ensures
        frame_view(r@) == diag_rows(msg@, fg, bg, rows as nat, cols as nat),
{
    let w = if cols >= 1 {
        cols - 1
    } else {
        0
    };
    let wrapped = wrap_text(msg, w, rows);
    let ghost lines = text::texts(wrapped@);
    let mut frame: Vec<Vec<Span>> = Vec::new();
    let mut i: usize = 0;
    while i < wrapped.len()
        invariant
            i <= wrapped.len(),
            lines == text::texts(wrapped@),
            frame_view(frame@) == message_rows(lines.take(i as int), fg, bg, false),
        decreases wrapped.len() - i,
    {
        let ghost before = message_rows(lines.take(i as int), fg, bg, false);
        push_message_row(&mut frame, wrapped[i].clone(), fg, bg, false);
        assert(message_rows(lines.take(i + 1), fg, bg, false) =~= before.push(
            seq![SpanView { fg, bg, bold: false, dim: false, text: lines[i as int] }],
        ));
        i += 1;
    }
    assert(lines.take(i as int) =~= lines);
    frame
}

pub fn attention_frame(msg: &str, colors: &AgentColors, rows: usize, cols: usize) -> (r: Vec<
    Vec<Span>,
>)
    ensures
        frame_view(r@) == attention_rows(msg@, *colors, rows as nat, cols as nat),
{
    let w = if cols >= 2 {
        cols - 2
    } else {
        0
    };
    let wrapped = wrap_text(msg, w, rows);
    let ghost lines = text::texts(wrapped@).map_values(|l: Seq<char>| spaced(l));
    let (fg, bg) = (colors.on_color, colors.yellow);
    let mut frame: Vec<Vec<Span>> = Vec::new();
    let mut i: usize = 0;
    while i < wrapped.len()
        invariant
            i <= wrapped.len(),
            lines == text::texts(wrapped@).map_values(|l: Seq<char>| spaced(l)),
            frame_view(frame@) == message_rows(lines.take(i as int), fg, bg, true),
        decreases wrapped.len() - i,
    {
        let ghost before = message_rows(lines.take(i as int), fg, bg, true);
        let mut padded = text_of_one(' ');
        padded.append(wrapped[i].as_str());
        padded.push(' ');
        assert(padded@ =~= lines[i as int]);
        push_message_row(&mut frame, padded, fg, bg, true);
        assert(message_rows(lines.take(i + 1), fg, bg, true) =~= before.push(
            seq![SpanView { fg, bg, bold: true, dim: false, text: lines[i as int] }],
        ));
        i += 1;
    }
    assert(lines.take(i as int) =~= lines);
    frame
}

/// The first `n` rows of a frame as they are written to the terminal: the cursor
/// goes home first, and every row is cleared behind its text.
pub open spec fn screen(frame: Seq<Seq<char>>, n: nat) -> Seq<char>
    decreases n,
{
    if n == 0 {
        "\u{1b}[H"@
    } else {
        screen(frame, (n - 1) as nat) + (if n > 1 {
            "\r\n"@
        } else {
            Seq::empty()
        }) + (if n <= frame.len() {
            frame[n - 1]
        } else {
            Seq::empty()
        }) + "\u{1b}[0K"@
    }
}

/// What a frame of painted rows is written as.
pub fn frame_text(frame: &Vec<String>, rows: usize) -> (r: String)
    ensures
        r@ == screen(text::texts(frame@), rows as nat),
{
    let mut out = "\u{1b}[H".to_owned();
    let ghost lines = text::texts(frame@);
    let mut i: usize = 0;
    while i < rows
        invariant
            i <= rows,
            lines == text::texts(frame@),
            out@ == screen(lines, i as nat),
        decreases rows - i,
    {
        let ghost before = out@;
        if i > 0 {
            out.append("\r\n");
        }
        if i < frame.len() {
            out.append(frame[i].as_str());
        }
        out.append("\u{1b}[0K");
        assert(out@ =~= screen(lines, (i + 1) as nat));
        i += 1;
    }
    out
}

} // verus!
