//! How each line of the panel is painted, span by span.
use super::cells;
use super::events;
use super::laws;
use super::lines::LineView;
use super::paint;
use super::paint::{AgentColors, RowState, Span, SpanView};
use super::panel::Panel;
use super::wrap;
use crate::host::{PaletteColor, Styling};
use crate::readmodel::AgentStatus;
use vstd::prelude::*;

verus! {

/// Each colour is taken from the theme for what it is used for.
pub proof fn the_colours_are_the_themes(p: Styling)
    ensures
        ({
            let c = AgentColors::of(p);
            &&& c.green == p.ribbon_selected.background
            &&& c.on_color == p.ribbon_selected.base
            &&& c.magenta == p.text_unselected.emphasis_3
            &&& c.text == p.text_unselected.base
            &&& c.bar_bg == p.text_unselected.background
            &&& c.yellow == p.exit_code_error.emphasis_0
            &&& c.error == p.exit_code_error.base
            &&& c.header_bg == p.text_selected.background
            &&& c.accent == p.frame_selected.base
            &&& c.selected_bg == p.list_selected.background
            &&& c.selected_fg == p.list_selected.base
        }),
{
}

/// Text is cut where the next character would pass the room there is, and not before.
pub proof fn text_is_cut_only_where_it_must(s: Seq<char>, budget: nat)
    ensures
        ({
            let k = paint::fitting(s, budget).len() as int;
            &&& paint::fitting(s, budget) == s.take(k)
            &&& k <= s.len()
            &&& wrap::columns(s.take(k)) <= budget
            &&& k < s.len() ==> wrap::columns(s.take(k + 1)) > budget
        }),
    decreases s.len(),
{
    if s.len() == 0 {
        assert(s.take(0) =~= s);
    } else {
        let rest = s.drop_last();
        let k = paint::fitting(rest, budget).len() as int;
        text_is_cut_only_where_it_must(rest, budget);
        assert(rest.take(k) =~= s.take(k));
        if k == rest.len() {
            assert(s.take(k + 1) =~= s);
            assert(s.take(s.len() as int) =~= s);
        } else {
            assert(rest.take(k + 1) =~= s.take(k + 1));
        }
    }
}

/// Text that fits is shown whole.
pub proof fn text_that_fits_is_shown_whole(s: Seq<char>, budget: nat)
    requires
        wrap::columns(s) <= budget,
    ensures
        paint::fitting(s, budget) == s,
        paint::title(s, budget) == s,
{
    text_is_cut_only_where_it_must(s, budget);
    let k = paint::fitting(s, budget).len() as int;
    if k < s.len() {
        assert(s =~= s.take(k + 1) + s.skip(k + 1));
        wrap::columns_of_concat(s.take(k + 1), s.skip(k + 1));
    } else {
        assert(s.take(k) =~= s);
    }
}

/// A title that is too wide ends in an ellipsis behind a beginning of it.
pub proof fn a_title_that_was_cut_is_marked(s: Seq<char>, budget: nat)
    requires
        wrap::columns(s) > budget,
    ensures
        paint::title(s, budget).len() > 0,
        paint::title(s, budget).last() == '\u{2026}',
        paint::title(s, budget).drop_last().is_prefix_of(s),
{
    text_is_cut_only_where_it_must(s, budget);
    let fit = paint::fitting(s, budget);
    shortened_is_a_beginning(fit, budget);
    assert(paint::title(s, budget).drop_last() =~= wrap::shortened(fit, budget));
}

/// What a line is shortened to is a beginning of it that leaves a column free, and the
/// longest one.
pub proof fn shortened_is_a_beginning(line: Seq<char>, width: nat)
    ensures
        ({
            let k = wrap::shortened(line, width).len() as int;
            &&& k <= line.len()
            &&& wrap::shortened(line, width) == line.take(k)
            &&& k > 0 ==> wrap::columns(line.take(k)) < width
            &&& k < line.len() ==> wrap::columns(line.take(k + 1)) >= width
        }),
    decreases line.len(),
{
    let k = wrap::shortened(line, width).len() as int;
    if line.len() > 0 && wrap::columns(line) >= width {
        let rest = line.drop_last();
        shortened_is_a_beginning(rest, width);
        assert(rest.take(k) =~= line.take(k));
        if k == rest.len() {
            assert(line.take(k + 1) =~= line);
        } else {
            assert(rest.take(k + 1) =~= line.take(k + 1));
        }
    } else {
        assert(line.take(line.len() as int) =~= line);
    }
}

/// Whether a text is blank all over.
pub open spec fn is_blank(s: Seq<char>) -> bool {
    forall|i: int| 0 <= i < s.len() ==> #[trigger] s[i] == ' '
}

/// A padding row is one blank span as wide as the screen, on the bar's background.
pub proof fn a_padding_row_is_blank(c: AgentColors, cols: nat)
    ensures
        ({
            let row = paint::padding_row(c, cols);
            &&& row.len() == 1
            &&& row[0].text.len() == cols
            &&& is_blank(row[0].text)
            &&& row[0].bg == c.bar_bg
            &&& row[0].fg == c.text
            &&& !row[0].bold
            &&& !row[0].dim
        }),
{
}

/// A header whose title fits: a blank, the title, a red cross where an agent has no
/// pane, two joined squares where the session is open elsewhere, each where there is
/// room for it, and blanks to the end. Our own session stands on green; another that is
/// open elsewhere is written in magenta.
pub proof fn a_header_is_painted_as_it_is(
    label: Seq<char>,
    unrouted: bool,
    elsewhere: bool,
    ours: bool,
    c: AgentColors,
    cols: nat,
)
    requires
        cols >= 1,
        wrap::columns(label) <= cols - 1,
    ensures
        ({
            let row = paint::header_row(label, unrouted, elsewhere, ours, c, cols);
            let room = cols - 1 - wrap::columns(label);
            let cross = if unrouted && room >= 2 {
                1int
            } else {
                0
            };
            let squares = if elsewhere && room >= 2 + 2 * cross {
                1int
            } else {
                0
            };
            let fg = if ours {
                c.on_color
            } else if elsewhere {
                c.magenta
            } else {
                c.text
            };
            let bg = if ours {
                c.green
            } else {
                c.header_bg
            };
            &&& row.len() == 3 + cross + squares
            &&& forall|i: int| 0 <= i < row.len() ==> (#[trigger] row[i]).bg == bg && !row[i].dim
            &&& row[0].text == seq![' ']
            &&& row[0].fg == fg
            &&& row[1].text == label
            &&& row[1].fg == fg
            &&& row[1].bold
            &&& cross == 1 ==> row[2].text == seq![' ', '\u{2717}'] && row[2].fg == c.error
                && row[2].bold
            &&& squares == 1 ==> row[2 + cross].text == seq![' ', '\u{29C9}'] && row[2 + cross].fg
                == fg && row[2 + cross].bold
            &&& row[row.len() - 1].text.len() == room - 2 * cross - 2 * squares
            &&& is_blank(row[row.len() - 1].text)
            &&& row[row.len() - 1].fg == fg
        }),
{
    text_that_fits_is_shown_whole(label, (cols - 1) as nat);
}

/// Whether a live agent is shown as needing the user.
pub open spec fn alarms(status: AgentStatus, s: RowState) -> bool {
    s.active && (s.needs_attention || status is Waiting || status is Unknown)
}

/// The backgrounds of an agent's row. The first column shows only the cursor. The
/// marker's shows what the agent is about, also under the cursor: in view before an
/// alert. The name's shows the cursor before an alert, and an alert before what is in
/// view. An alert is yellow, and red in a status without a name.
pub proof fn an_agents_row_has_its_backgrounds(
    name: Seq<char>,
    status: AgentStatus,
    s: RowState,
    c: AgentColors,
    cols: nat,
)
    ensures
        ({
            let row = paint::agent_row(name, status, s, c, cols);
            let hue = if status is Unknown {
                c.error
            } else {
                c.yellow
            };
            let seen = s.is_in_view && s.active;
            let rest = if s.selected {
                c.selected_bg
            } else {
                c.bar_bg
            };
            &&& row.len() == 5
            &&& row[0].bg == rest
            &&& row[1].bg == row[2].bg
            &&& seen ==> row[1].bg == c.green
            &&& !seen && alarms(status, s) ==> row[1].bg == hue
            &&& !seen && !alarms(status, s) ==> row[1].bg == rest
            &&& row[3].bg == row[4].bg
            &&& s.selected ==> row[3].bg == c.selected_bg
            &&& !s.selected && alarms(status, s) ==> row[3].bg == hue
            &&& !s.selected && !alarms(status, s) && seen ==> row[3].bg == c.green
            &&& !s.selected && !alarms(status, s) && !seen ==> row[3].bg == c.bar_bg
        }),
{
}

/// The foregrounds of an agent's row. The name is in the cursor's colour under it,
/// magenta where the agent is busy, and else such that it reads on its background. The
/// marker of an agent without a pane is red, or reads on its tint.
pub proof fn an_agents_row_has_its_foregrounds(
    name: Seq<char>,
    status: AgentStatus,
    s: RowState,
    c: AgentColors,
    cols: nat,
)
    ensures
        ({
            let row = paint::agent_row(name, status, s, c, cols);
            let tinted = (s.is_in_view && s.active) || alarms(status, s);
            let lost = s.active && s.unrouted && !s.is_bg && s.spinner is None;
            &&& row[0].fg == row[3].fg
            &&& row[4].fg == row[3].fg
            &&& s.selected ==> row[3].fg == c.selected_fg
            &&& !s.selected && !s.active ==> row[3].fg == c.text
            &&& !s.selected && s.active && status is Busy ==> row[3].fg == c.magenta
            &&& !s.selected && s.active && status !is Busy && tinted ==> row[3].fg == c.on_color
            &&& !s.selected && s.active && status !is Busy && !tinted ==> row[3].fg == c.text
            &&& !s.active ==> row[1].fg == row[3].fg
            &&& lost && tinted ==> row[1].fg == c.on_color
            &&& lost && !tinted ==> row[1].fg == c.error
            &&& s.active && !lost && s.selected ==> row[1].fg == c.selected_fg
            &&& s.active && !lost && !s.selected && tinted ==> row[1].fg == c.on_color
            &&& s.active && !lost && !s.selected && !tinted ==> row[1].fg == row[3].fg
            &&& s.is_child && s.is_first_wrap_line ==> row[2].fg == row[1].fg
            &&& !(s.is_child && s.is_first_wrap_line) ==> row[2].fg == row[3].fg
        }),
{
}

/// A row is bold where it is under the cursor, in view or an alert, and faint where its
/// agent is gone, but not under the cursor.
pub proof fn a_row_is_bold_for_a_reason(
    name: Seq<char>,
    status: AgentStatus,
    s: RowState,
    c: AgentColors,
    cols: nat,
    i: int,
)
    requires
        0 <= i < 5,
    ensures
        paint::agent_row(name, status, s, c, cols)[i].bold <==> s.selected || (s.is_in_view
            && s.active) || alarms(status, s),
        paint::agent_row(name, status, s, c, cols)[i].dim <==> !s.active && !s.selected,
{
}

/// The texts of a row: a blank, the marker, an arm or a blank, the name as far as it
/// fits, and blanks to the end.
pub proof fn a_row_shows_its_name(
    name: Seq<char>,
    status: AgentStatus,
    s: RowState,
    c: AgentColors,
    cols: nat,
)
    requires
        cols >= 3,
    ensures
        ({
            let row = paint::agent_row(name, status, s, c, cols);
            &&& row[0].text == seq![' ']
            &&& row[1].text.len() == 1
            &&& row[2].text == (if s.is_child && s.is_first_wrap_line {
                seq!['\u{2500}']
            } else {
                seq![' ']
            })
            &&& row[3].text == paint::fitting(name, (cols - 3) as nat)
            &&& is_blank(row[4].text)
            &&& row[4].text.len() + wrap::columns(row[3].text) == cols - 3
        }),
{
    paint::fitting_fits(name, (cols - 3) as nat);
    text_is_cut_only_where_it_must(name, (cols - 3) as nat);
}

/// The marker stands on the first line only. While a command is on its way it spins;
/// below another agent it is a branch, the last one a corner; else it is a dagger for an
/// agent that is gone, a dot for one in the background, a cross for one without a pane,
/// and a pointer for any other.
pub proof fn the_marker_tells_what_a_row_is(
    name: Seq<char>,
    status: AgentStatus,
    s: RowState,
    c: AgentColors,
    cols: nat,
)
    ensures
        ({
            let m = paint::agent_row(name, status, s, c, cols)[1].text[0];
            let plain = s.is_first_wrap_line && s.spinner is None && !s.is_child;
            &&& !s.is_first_wrap_line ==> m == ' '
            &&& s.is_first_wrap_line && s.spinner is Some ==> m == s.spinner->0
            &&& s.is_first_wrap_line && s.spinner is None && s.is_child && s.is_last_child ==> m
                == '\u{2514}'
            &&& s.is_first_wrap_line && s.spinner is None && s.is_child && !s.is_last_child ==> m
                == '\u{251c}'
            &&& plain && !s.active ==> m == '\u{2020}'
            &&& plain && s.active && s.is_bg ==> m == '\u{2219}'
            &&& plain && s.active && !s.is_bg && s.unrouted ==> m == '\u{2717}'
            &&& plain && s.active && !s.is_bg && !s.unrouted ==> m == '>'
        }),
{
}

/// A name may take all columns but three.
pub proof fn a_name_has_all_columns_but_three(cols: nat)
    ensures
        cols >= 3 ==> paint::name_room(cols) == cols - 3,
        cols < 3 ==> paint::name_room(cols) == 0,
{
}

/// A line is painted for what it is: a padding as such, a header in its session's
/// colours, and an agent's row with its own signals, under the cursor where the cursor
/// is on that agent, and spinning while its command is on its way.
pub proof fn a_line_is_painted_for_what_it_is(
    line: LineView,
    p: Panel,
    at: Option<Seq<char>>,
    c: AgentColors,
    cols: nat,
    s: RowState,
)
    requires
        line is AgentRow ==> {
            &&& s.needs_attention == line->needs_attention
            &&& s.unrouted == line->unrouted
            &&& s.is_in_view == line->is_in_view
            &&& s.active == line->active
            &&& s.is_first_wrap_line == line->is_first_wrap_line
            &&& s.is_child == line->is_child
            &&& s.is_last_child == line->is_last_child
            &&& s.is_bg == line->is_bg
            &&& s.selected <==> at is Some && at->0 == line->AgentRow_sid
            &&& s.spinner is Some <==> p.in_flight.contains_key(line->AgentRow_sid)
            &&& s.spinner is Some ==> s.spinner->0 == cells::spin_frame(
                p.in_flight[line->AgentRow_sid],
            )
        },
    ensures
        line is Padding ==> cells::painted(line, p, at, c, cols) == paint::padding_row(c, cols),
        line is AgentRow ==> cells::painted(line, p, at, c, cols) == paint::agent_row(
            line->text,
            line->status,
            s,
            c,
            cols,
        ),
        line is Header ==> cells::painted(line, p, at, c, cols) == paint::header_row(
            line->Header_label,
            line->unrouted_in_group,
            line->open_elsewhere,
            p.mode.session_name is Some && p.mode.session_name->0.len() > 0 && line->Header_label
                == p.mode.session_name->0,
            c,
            cols,
        ),
{
}

/// The window on the lines: row by row the lines from the first one shown, but for the
/// marks in the first and the last row; and what can be clicked is what is shown. The
/// cursor has been seen to, so that the viewport does not follow it again.
pub proof fn the_frame_shows_the_lines_from_the_viewport(
    p: Panel,
    rows: nat,
    cols: nat,
    c: AgentColors,
    seen: Map<Seq<char>, i64>,
    i: int,
)
    requires
        rows >= 1,
        cells::panel_lines(cells::settled(p, seen), cols).len() <= usize::MAX,
        0 <= i < cells::cells(p, rows, cols, c, seen).frame.len(),
    ensures
        ({
            let d = cells::cells(p, rows, cols, c, seen);
            let s = cells::settled(p, seen);
            let all = cells::panel_lines(s, cols);
            let top = d.panel.scroll as int;
            let n = d.frame.len() as int;
            let at = match d.panel.selected {
                Some(k) => Some(events::shown(s)[k as int].session_id@),
                None => None,
            };
            let row = cells::painted(all[top + i], s, at, c, cols);
            let up = i == 0 && top > 0;
            let down = i == n - 1 && top + n < all.len();
            &&& 0 <= top + i < all.len()
            &&& !up && !down ==> d.frame[i] == row
            &&& up && !down ==> d.frame[i] == paint::marked_row(row, cols, c, '\u{2191}')
            &&& down && !up ==> d.frame[i] == paint::marked_row(row, cols, c, '\u{2193}')
            &&& d.panel.selected == cells::clamped(s.selected, events::shown(s).len())
            &&& top == cells::scrolled(
                s.scroll as int,
                s.follow,
                d.panel.selected,
                cells::panel_spans(s, cols),
                all.len() as int,
                rows as int,
            )
            &&& !d.panel.follow
            &&& d.panel.row_ranges == cells::click_map(all.subrange(top, top + n))
            &&& d.panel.focus_targets == cells::focus_map(
                super::groups::grouping(events::visible(s), s.sessions),
            )
            &&& d.panel == (Panel {
                selected: d.panel.selected,
                scroll: d.panel.scroll,
                follow: d.panel.follow,
                row_ranges: d.panel.row_ranges,
                focus_targets: d.panel.focus_targets,
                ..s
            })
        }),
{
    let s = cells::settled(p, seen);
    let all = cells::panel_lines(s, cols);
    let selected = cells::clamped(s.selected, events::shown(s).len());
    let spans = cells::panel_spans(s, cols);
    laws::the_viewport_stays_inside(
        s.scroll as int,
        s.follow,
        selected,
        spans,
        all.len() as int,
        rows as int,
    );
    laws::a_frame_fits_the_screen(p, rows, cols, c, seen);
}

/// The lines and the spans of a panel are those of its visible agents, grouped under
/// the live sessions, with each agent's own signals.
pub proof fn the_lines_are_those_of_the_visible_agents(s: Panel, cols: nat)
    ensures
        ({
            let gs = super::groups::grouping(events::visible(s), s.sessions);
            let flags = cells::flag_map(s, events::visible(s));
            let own = match s.mode.session_name {
                Some(n) => n,
                None => Seq::empty(),
            };
            let room = if cols >= 3 {
                (cols - 3) as nat
            } else {
                0
            };
            &&& cells::panel_lines(s, cols) == super::lines::page(gs, flags, room, s.sessions, own)
            &&& cells::panel_spans(s, cols) == super::lines::page_spans(
                gs,
                flags,
                room,
                s.sessions,
                own,
            )
            &&& events::shown(s) == super::group_laws::display_order(gs)
        }),
{
}

/// The agents from top to bottom are those of the groups, group by group and row by row.
pub proof fn agents_stand_as_their_groups_do(gs: Seq<super::groups::GroupView>, g: super::groups::GroupView, i: int)
    ensures
        super::group_laws::display_order(Seq::empty()).len() == 0,
        super::group_laws::display_order(gs.push(g)).len() == super::group_laws::display_order(
            gs,
        ).len() + g.rows.len(),
        0 <= i < super::group_laws::display_order(gs).len() ==> super::group_laws::display_order(
            gs.push(g),
        )[i] == super::group_laws::display_order(gs)[i],
        0 <= i < g.rows.len() ==> super::group_laws::display_order(gs.push(g))[super::group_laws::display_order(
            gs,
        ).len() + i] == g.rows[i].agent,
{
    assert(gs.push(g).drop_last() =~= gs);
}

/// A mark stands in the last column in the accent colour; a row that leaves the column
/// free is kept whole before it.
pub proof fn a_mark_stands_in_the_last_column(
    row: Seq<SpanView>,
    cols: nat,
    c: AgentColors,
    arrow: char,
)
    requires
        cols >= 1,
        paint::row_columns(row) <= cols - 1,
    ensures
        ({
            let m = paint::marked_row(row, cols, c, arrow);
            &&& m.len() == row.len() + 1
            &&& m.drop_last() == row
            &&& m.last().fg == c.accent
            &&& m.last().bg == c.bar_bg
            &&& !m.last().bold
            &&& !m.last().dim
            &&& m.last().text.last() == arrow
            &&& is_blank(m.last().text.drop_last())
            &&& m.last().text.len() == cols - paint::row_columns(row)
        }),
{
    a_row_that_fits_is_kept(row, (cols - 1) as nat);
    assert(paint::marked_row(row, cols, c, arrow).drop_last() =~= row);
}

proof fn a_row_that_fits_is_kept(row: Seq<SpanView>, budget: nat)
    requires
        paint::row_columns(row) <= budget,
    ensures
        paint::row_fitting(row, budget) == row,
    decreases row.len(),
{
    if row.len() > 0 {
        let rest = row.drop_last();
        a_row_that_fits_is_kept(rest, budget);
        text_that_fits_is_shown_whole(
            row.last().text,
            (budget - paint::row_columns(rest)) as nat,
        );
        assert(rest.push(row.last()) =~= row);
    }
}

/// A row that is cut keeps the spans before the cut as they are.
pub proof fn a_cut_row_keeps_its_beginning(row: Seq<SpanView>, span: SpanView, budget: nat)
    requires
        paint::row_columns(row) <= budget,
    ensures
        ({
            let cut = paint::row_fitting(row.push(span), budget);
            &&& cut.len() == row.len() + 1
            &&& cut.drop_last() == row
            &&& cut.last().text == paint::fitting(
                span.text,
                (budget - paint::row_columns(row)) as nat,
            )
            &&& cut.last().fg == span.fg
            &&& cut.last().bg == span.bg
            &&& cut.last().bold == span.bold
            &&& cut.last().dim == span.dim
        }),
{
    a_row_that_fits_is_kept(row, budget);
    assert(row.push(span).drop_last() =~= row);
    assert(paint::row_fitting(row.push(span), budget).drop_last() =~= row);
}

/// A diagnostic is wrapped to all columns but one, in its colour on the background
/// given; a request to all but two, between blanks, bold on yellow.
pub proof fn messages_are_wrapped_and_coloured(
    msg: Seq<char>,
    fg: PaletteColor,
    bg: PaletteColor,
    c: AgentColors,
    rows: nat,
    cols: nat,
    i: int,
)
    requires
        cols >= 2,
        i >= 0,
    ensures
        ({
            let d = paint::diag_rows(msg, fg, bg, rows, cols);
            let a = paint::attention_rows(msg, c, rows, cols);
            let dl = wrap::wrapped(msg, (cols - 1) as nat, rows);
            let al = wrap::wrapped(msg, (cols - 2) as nat, rows);
            &&& d.len() == dl.len()
            &&& a.len() == al.len()
            &&& i < d.len() ==> d[i].len() == 1 && d[i][0].text == dl[i] && d[i][0].fg == fg
                && d[i][0].bg == bg && !d[i][0].bold && !d[i][0].dim
            &&& i < a.len() ==> a[i].len() == 1 && a[i][0].text == seq![' '] + al[i] + seq![' ']
                && a[i][0].fg == c.on_color && a[i][0].bg == c.yellow && a[i][0].bold
                && !a[i][0].dim
        }),
{
}

/// The screen is written from the top: home, then row by row, each cleared behind its
/// text, with a line break between two.
pub proof fn the_screen_is_written_row_by_row(frame: Seq<Seq<char>>, n: nat)
    ensures
        paint::screen(frame, 0) == seq!['\u{1b}', '[', 'H'],
        paint::screen(frame, n + 1) == paint::screen(frame, n) + (if n == 0 {
            Seq::<char>::empty()
        } else {
            seq!['\r', '\n']
        }) + (if n < frame.len() {
            frame[n as int]
        } else {
            Seq::<char>::empty()
        }) + seq!['\u{1b}', '[', '0', 'K'],
{
    reveal_strlit("\u{1b}[H");
    reveal_strlit("\r\n");
    reveal_strlit("\u{1b}[0K");
    assert("\u{1b}[H"@ =~= seq!['\u{1b}', '[', 'H']);
    assert("\r\n"@ =~= seq!['\r', '\n']);
    assert("\u{1b}[0K"@ =~= seq!['\u{1b}', '[', '0', 'K']);
}

/// A span is painted in the style it has.
pub proof fn a_span_is_painted_as_it_is(s: Span)
    ensures
        s@.fg == s.fg,
        s@.bg == s.bg,
        s@.bold == s.bold,
        s@.dim == s.dim,
        s@.text == s.text@,
{
}

} // verus!
