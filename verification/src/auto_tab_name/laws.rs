//! What a tab is named after, and when.
use super::{
    anchor, boring, default_name, due_name, held, is_due, is_live, is_walk, leading_word,
    live_only, lower, lowered, name_in, name_of, one_position_each, positions, reconciled,
    reconciled_all, until_white, visited, visits_are_independent, without_exe, AutoView,
};
use crate::host::{PaneView, TabView};
use crate::text;
use vstd::prelude::*;
use vstd::string::*;

verus! {

/// A tab has an anchor exactly where one of its panes is a terminal that is not
/// suppressed and can be selected. The anchor is such a pane; none of them has a
/// lower id, and none before it in the list has the same. Nothing else of the panes
/// counts, their focus included.
pub proof fn the_anchor_is_the_oldest_terminal(panes: Seq<PaneView>)
    ensures
        anchor(panes) is Some <==> exists|i: int|
            0 <= i < panes.len() && !(#[trigger] panes[i]).is_plugin && !panes[i].is_suppressed
                && panes[i].is_selectable,
        anchor(panes) matches Some(p) ==> {
            &&& !p.is_plugin
            &&& !p.is_suppressed
            &&& p.is_selectable
            &&& exists|k: int|
                0 <= k < panes.len() && #[trigger] panes[k] == p && forall|j: int|
                    0 <= j < k && !(#[trigger] panes[j]).is_plugin && !panes[j].is_suppressed
                        && panes[j].is_selectable ==> p.id < panes[j].id
            &&& forall|i: int|
                0 <= i < panes.len() && !(#[trigger] panes[i]).is_plugin && !panes[i].is_suppressed
                    && panes[i].is_selectable ==> p.id <= panes[i].id
        },
    decreases panes.len(),
{
    if panes.len() > 0 {
        let rest = panes.drop_last();
        let n = panes.len() - 1;
        the_anchor_is_the_oldest_terminal(rest);
        assert forall|i: int| 0 <= i < n implies #[trigger] panes[i] == rest[i] by {}
        if anchor(rest) is Some {
            let p = anchor(rest)->0;
            let k = choose|k: int|
                0 <= k < rest.len() && #[trigger] rest[k] == p && forall|j: int|
                    0 <= j < k && !(#[trigger] rest[j]).is_plugin && !rest[j].is_suppressed
                        && rest[j].is_selectable ==> p.id < rest[j].id;
            assert(panes[k] == p);
            assert forall|j: int|
                0 <= j < k && !(#[trigger] panes[j]).is_plugin && !panes[j].is_suppressed
                    && panes[j].is_selectable implies p.id < panes[j].id by {
                assert(panes[j] == rest[j]);
            }
            if anchor(panes) != anchor(rest) {
                assert(anchor(panes) == Some(panes[n]));
                assert forall|j: int|
                    0 <= j < n && !(#[trigger] panes[j]).is_plugin && !panes[j].is_suppressed
                        && panes[j].is_selectable implies panes[n].id < panes[j].id by {
                    assert(panes[j] == rest[j]);
                }
            }
        } else {
            if anchor(panes) is Some {
                assert(anchor(panes) == Some(panes[n]));
                assert forall|j: int|
                    0 <= j < n && !(#[trigger] panes[j]).is_plugin && !panes[j].is_suppressed
                        && panes[j].is_selectable implies panes[n].id < panes[j].id by {
                    assert(panes[j] == rest[j]);
                }
            }
        }
    }
}

/// Two reports whose panes agree in what a pane is and which id it has lead to the
/// same anchor, however focus, titles and commands differ.
pub proof fn only_the_kind_and_the_id_of_a_pane_count(a: Seq<PaneView>, b: Seq<PaneView>)
    requires
        a.len() == b.len(),
        forall|i: int|
            0 <= i < a.len() ==> (#[trigger] a[i]).id == b[i].id && a[i].is_plugin == b[i].is_plugin
                && a[i].is_suppressed == b[i].is_suppressed && a[i].is_selectable
                == b[i].is_selectable,
    ensures
        anchor(a) is Some <==> anchor(b) is Some,
        anchor(a) is Some ==> anchor(a)->0.id == anchor(b)->0.id,
        anchor(a) is Some ==> exists|k: int|
            0 <= k < a.len() && anchor(a) == Some(#[trigger] a[k]) && anchor(b) == Some(b[k]),
    decreases a.len(),
{
    if a.len() > 0 {
        only_the_kind_and_the_id_of_a_pane_count(a.drop_last(), b.drop_last());
        let n = a.len() - 1;
        assert(a[n].id == b[n].id);
        if anchor(a) is Some {
            if anchor(a.drop_last()) is Some {
                let k = choose|k: int|
                    0 <= k < n && anchor(a.drop_last()) == Some(#[trigger] a.drop_last()[k])
                        && anchor(b.drop_last()) == Some(b.drop_last()[k]);
                if anchor(a) == anchor(a.drop_last()) && !(a[n] == a[k]) {
                    assert(anchor(a) == Some(a[k]));
                    assert(anchor(b) == Some(b[k]));
                } else if a[n].id < a[k].id {
                    assert(anchor(a) == Some(a[n]));
                } else {
                    assert(anchor(a) == Some(a[k]));
                }
            } else {
                assert(anchor(a) == Some(a[n]));
            }
        }
    }
}

/// The host's placeholder is "Tab #" and a number, and nothing else.
pub proof fn the_placeholder_is_a_numbered_tab(rest: Seq<char>, other: Seq<char>)
    ensures
        default_name(seq!['T', 'a', 'b', ' ', '#'] + rest) <==> rest.len() > 0 && forall|i: int|
            0 <= i < rest.len() ==> '0' <= #[trigger] rest[i] && rest[i] <= '9',
        default_name(other) ==> other.len() > 5 && other.take(5) == seq!['T', 'a', 'b', ' ', '#'],
{
    reveal_strlit("Tab #");
    let head = seq!['T', 'a', 'b', ' ', '#'];
    assert("Tab #"@ =~= head);
    assert((head + rest).subrange(0, 5) =~= head);
    assert((head + rest).skip(5) =~= rest);
    if default_name(other) {
        assert(other.take(5) =~= other.subrange(0, 5));
    }
}

/// The shells whose name says nothing.
pub open spec fn shells() -> Seq<Seq<char>> {
    seq![
        "pwsh"@,
        "powershell"@,
        "bash"@,
        "zsh"@,
        "fish"@,
        "nu"@,
        "nushell"@,
        "cmd"@,
        "sh"@,
        "dash"@,
        "ksh"@,
    ]
}

/// Whether one word is another, but for the case of its letters.
pub open spec fn same_but_case(word: Seq<char>, small: Seq<char>) -> bool {
    word.len() == small.len() && forall|i: int|
        0 <= i < word.len() ==> (#[trigger] word[i] == small[i] && !('A' <= word[i] && word[i]
            <= 'Z')) || ('A' <= word[i] && word[i] <= 'Z' && small[i] as int == word[i] as int + 32)
}

proof fn lowering(word: Seq<char>, small: Seq<char>)
    ensures
        lowered(word) == small <==> same_but_case(word, small),
{
    if lowered(word) == small {
        assert forall|i: int| 0 <= i < word.len() implies (#[trigger] word[i] == small[i] && !('A'
            <= word[i] && word[i] <= 'Z')) || ('A' <= word[i] && word[i] <= 'Z' && small[i] as int
            == word[i] as int + 32) by {
            assert(lowered(word)[i] == lower(word[i]));
        }
    }
    if same_but_case(word, small) {
        assert forall|i: int| 0 <= i < word.len() implies lowered(word)[i] == #[trigger] small[i] by {
            assert(lowered(word)[i] == lower(word[i]));
            assert(word[i] == word[i]);
        }
        assert(lowered(word) =~= small);
    }
}

/// A program's name comes without the extension of Windows, and only without that.
pub proof fn only_the_extension_is_taken_off(s: Seq<char>)
    ensures
        without_exe(s + seq!['.', 'e', 'x', 'e']) == s,
        without_exe(s) == s || without_exe(s) + seq!['.', 'e', 'x', 'e'] == s,
{
    reveal_strlit(".exe");
    let ext = seq!['.', 'e', 'x', 'e'];
    assert(".exe"@ =~= ext);
    let t = s + ext;
    assert(t.subrange(t.len() - 4, t.len() as int) =~= ext);
    assert(t.take(t.len() - 4) =~= s);
    if without_exe(s) != s {
        assert(s.take(s.len() - 4) + s.subrange(s.len() - 4, s.len() as int) =~= s);
    }
}

/// A shell says nothing about what runs in the tab, in whatever case and with or
/// without the extension of Windows.
pub proof fn a_shell_says_nothing(word: Seq<char>, k: int)
    requires
        0 <= k < shells().len(),
        same_but_case(word, shells()[k]),
    ensures
        boring(word + seq!['.', 'e', 'x', 'e']),
        !(".exe"@.is_suffix_of(word)) ==> boring(word),
{
    lowering(word, shells()[k]);
    only_the_extension_is_taken_off(word);
}

/// Paths, numbers and the host's own placeholders say nothing either.
pub proof fn paths_numbers_and_placeholders_say_nothing(word: Seq<char>)
    ensures
        word.len() == 0 ==> boring(word),
        word.len() > 0 && (word[0] == '/' || word[0] == '~') ==> boring(word),
        word.len() >= 3 && (('a' <= word[0] && word[0] <= 'z') || ('A' <= word[0] && word[0] <= 'Z'))
            && word[1] == ':' && (word[2] == '\\' || word[2] == '/') ==> boring(word),
        (forall|i: int| 0 <= i < word.len() ==> '0' <= #[trigger] word[i] && word[i] <= '9')
            ==> boring(word),
        word == seq!['P', 'a', 'n', 'e'] ==> boring(word),
        boring(seq!['P', 'a', 'n', 'e', ' ', '#'] + word),
        boring(seq!['T', 'a', 'b', ' ', '#'] + word),
{
    reveal_strlit("Pane");
    reveal_strlit("Pane #");
    reveal_strlit("Tab #");
    assert("Pane"@ =~= seq!['P', 'a', 'n', 'e']);
    assert("Pane #"@ =~= seq!['P', 'a', 'n', 'e', ' ', '#']);
    assert("Tab #"@ =~= seq!['T', 'a', 'b', ' ', '#']);
    assert((seq!['P', 'a', 'n', 'e', ' ', '#'] + word).subrange(0, 6) =~= seq![
        'P',
        'a',
        'n',
        'e',
        ' ',
        '#',
    ]);
    assert((seq!['T', 'a', 'b', ' ', '#'] + word).subrange(0, 5) =~= seq!['T', 'a', 'b', ' ', '#']);
}

/// Every other word does say something.
pub proof fn any_other_word_says_something(word: Seq<char>)
    requires
        word.len() > 0,
        word[0] != '/',
        word[0] != '~',
        word.len() < 3 || word[1] != ':' || !(word[2] == '\\' || word[2] == '/') || !(('a' <= word[0]
            && word[0] <= 'z') || ('A' <= word[0] && word[0] <= 'Z')),
        exists|i: int| 0 <= i < word.len() && !('0' <= #[trigger] word[i] && word[i] <= '9'),
        word != seq!['P', 'a', 'n', 'e'],
        !seq!['P', 'a', 'n', 'e', ' ', '#'].is_prefix_of(word),
        !seq!['T', 'a', 'b', ' ', '#'].is_prefix_of(word),
        forall|k: int| 0 <= k < shells().len() ==> !same_but_case(word, #[trigger] shells()[k]),
        forall|k: int, w: Seq<char>|
            0 <= k < shells().len() && word == w + seq!['.', 'e', 'x', 'e'] ==> !(
            #[trigger] same_but_case(w, shells()[k])),
    ensures
        !boring(word),
{
    reveal_strlit("Pane");
    reveal_strlit("Pane #");
    reveal_strlit("Tab #");
    assert("Pane"@ =~= seq!['P', 'a', 'n', 'e']);
    assert("Pane #"@ =~= seq!['P', 'a', 'n', 'e', ' ', '#']);
    assert("Tab #"@ =~= seq!['T', 'a', 'b', ' ', '#']);
    only_the_extension_is_taken_off(word);
    let w = without_exe(word);
    let all = shells();
    assert forall|k: int| 0 <= k < all.len() implies lowered(w) != #[trigger] all[k] by {
        lowering(w, all[k]);
        if w == word {
            assert(!same_but_case(word, shells()[k]));
        } else {
            assert(!same_but_case(w, shells()[k]));
        }
    }
    assert(lowered(w) != all[0] && lowered(w) != all[1] && lowered(w) != all[2] && lowered(w)
        != all[3] && lowered(w) != all[4] && lowered(w) != all[5] && lowered(w) != all[6]
        && lowered(w) != all[7] && lowered(w) != all[8] && lowered(w) != all[9] && lowered(w)
        != all[10]);
    let i = choose|i: int| 0 <= i < word.len() && !('0' <= #[trigger] word[i] && word[i] <= '9');
    assert(!text::is_digit(word[i]));
}

proof fn first_word(word: Seq<char>, tail: Seq<char>)
    requires
        forall|i: int| 0 <= i < word.len() ==> !text::is_white(#[trigger] word[i]),
        tail.len() == 0 || text::is_white(tail[0]),
    ensures
        until_white(word + tail) == word,
    decreases word.len(),
{
    if word.len() == 0 {
        assert(word + tail =~= tail);
    } else {
        assert((word + tail).skip(1) =~= word.skip(1) + tail);
        first_word(word.skip(1), tail);
        assert(seq![word[0]] + word.skip(1) =~= word);
    }
}

proof fn lead_is_taken_off(lead: Seq<char>, rest: Seq<char>)
    requires
        forall|i: int| 0 <= i < lead.len() ==> text::is_white(#[trigger] lead[i]),
        rest.len() > 0,
        !text::is_white(rest[0]),
    ensures
        text::left_trimmed(lead + rest) == rest,
    decreases lead.len(),
{
    if lead.len() == 0 {
        assert(lead + rest =~= rest);
    } else {
        assert((lead + rest).skip(1) =~= lead.skip(1) + rest);
        lead_is_taken_off(lead.skip(1), rest);
    }
}

proof fn right_end_keeps_the_word(word: Seq<char>, tail: Seq<char>)
    requires
        word.len() > 0,
        forall|i: int| 0 <= i < word.len() ==> !text::is_white(#[trigger] word[i]),
        tail.len() == 0 || text::is_white(tail[0]),
    ensures
        exists|t: Seq<char>|
            #[trigger] (word + t) == text::right_trimmed(word + tail) && (t.len() == 0
                || text::is_white(t[0])),
    decreases tail.len(),
{
    let s = word + tail;
    if text::is_white(s.last()) {
        if tail.len() == 0 {
            assert(s.last() == word[word.len() - 1]);
        } else {
            assert(s.drop_last() =~= word + tail.drop_last());
            right_end_keeps_the_word(word, tail.drop_last());
        }
    } else {
        assert(word + tail == text::right_trimmed(word + tail));
    }
}

/// The name in a command line or a title is its first word, whatever white space
/// stands before it and whatever arguments behind, unless that word says nothing.
pub proof fn the_name_is_the_first_word(lead: Seq<char>, word: Seq<char>, tail: Seq<char>)
    requires
        forall|i: int| 0 <= i < lead.len() ==> text::is_white(#[trigger] lead[i]),
        word.len() > 0,
        forall|i: int| 0 <= i < word.len() ==> !text::is_white(#[trigger] word[i]),
        tail.len() == 0 || text::is_white(tail[0]),
    ensures
        boring(word) ==> name_in(lead + word + tail) is None,
        !boring(word) ==> name_in(lead + word + tail) == Some(word),
{
    let raw = lead + word + tail;
    assert(raw =~= lead + (word + tail));
    assert((word + tail)[0] == word[0]);
    lead_is_taken_off(lead, word + tail);
    right_end_keeps_the_word(word, tail);
    let t = choose|t: Seq<char>|
        #[trigger] (word + t) == text::right_trimmed(word + tail) && (t.len() == 0
            || text::is_white(t[0]));
    assert((word + t)[0] == word[0]);
    assert(text::left_trimmed(word + t) == word + t);
    first_word(word, t);
}

/// Blank text offers no name.
pub proof fn blank_text_has_no_name(blank: Seq<char>)
    requires
        forall|i: int| 0 <= i < blank.len() ==> text::is_white(#[trigger] blank[i]),
    ensures
        name_in(blank) is None,
{
    let ends = text::laws::trimming_takes_only_white_space(blank);
    if ends.0 < ends.1 {
        assert(text::is_white(blank[ends.0]));
    }
}

/// A pane is named after its command; its title only counts where the command is
/// missing or says nothing.
pub proof fn the_command_goes_before_the_title(pane: PaneView)
    ensures
        pane.terminal_command is None ==> name_of(pane) == name_in(pane.title),
        pane.terminal_command matches Some(cmd) ==> name_in(cmd) is Some ==> name_of(pane)
            == name_in(cmd),
        pane.terminal_command matches Some(cmd) ==> name_in(cmd) is None ==> name_of(pane)
            == name_in(pane.title),
{
}

/// A tab that is ours takes the name of the program in its oldest terminal, as soon
/// as that is another name than the one it was given last.
pub proof fn a_tab_takes_the_name_of_its_program(
    m: Map<usize, AutoView>,
    panes: Map<usize, Seq<PaneView>>,
    position: usize,
    id: usize,
    last: Seq<char>,
    k: int,
    word: Seq<char>,
    tail: Seq<char>,
)
    requires
        m.contains_key(id),
        m[id] == AutoView::Auto(last),
        panes.contains_key(position),
        0 <= k < panes[position].len(),
        !panes[position][k].is_plugin,
        !panes[position][k].is_suppressed,
        panes[position][k].is_selectable,
        forall|i: int|
            0 <= i < panes[position].len() && i != k && !(
            #[trigger] panes[position][i]).is_plugin && !panes[position][i].is_suppressed
                && panes[position][i].is_selectable ==> panes[position][k].id
                < panes[position][i].id,
        panes[position][k].terminal_command == Some(word + tail),
        word.len() > 0,
        forall|i: int| 0 <= i < word.len() ==> !text::is_white(#[trigger] word[i]),
        tail.len() == 0 || text::is_white(tail[0]),
        !boring(word),
    ensures
        due_name(m, panes, position, id) == (if word == last {
            None
        } else {
            Some(word)
        }),
{
    let list = panes[position];
    the_anchor_is_the_oldest_terminal(list);
    assert(list[k] == list[k]);
    let p = anchor(list)->0;
    let j = choose|j: int| 0 <= j < list.len() && #[trigger] list[j] == p;
    if j != k {
        assert(list[k].id < list[j].id);
    }
    the_name_is_the_first_word(Seq::empty(), word, tail);
    assert(Seq::<char>::empty() + word + tail =~= word + tail);
}

/// A tab is renamed only where it is ours, has a terminal that offers a name, and
/// does not have that name from us already.
pub proof fn no_tab_is_renamed_without_a_reason(
    m: Map<usize, AutoView>,
    panes: Map<usize, Seq<PaneView>>,
    position: usize,
    id: usize,
)
    requires
        due_name(m, panes, position, id) is Some,
    ensures
        m.contains_key(id),
        m[id] matches AutoView::Auto(last) && last != due_name(m, panes, position, id)->0,
        panes.contains_key(position),
        exists|k: int|
            0 <= k < panes[position].len() && !(#[trigger] panes[position][k]).is_plugin
                && !panes[position][k].is_suppressed && panes[position][k].is_selectable && name_of(
                panes[position][k],
            ) == due_name(m, panes, position, id),
{
    the_anchor_is_the_oldest_terminal(panes[position]);
    let p = anchor(panes[position])->0;
    let k = choose|k: int| 0 <= k < panes[position].len() && #[trigger] panes[position][k] == p;
    assert(panes[position][k] == p);
}

/// Whose a tab's name is. It stays ours while it is what we set; the placeholder
/// makes it ours, with nothing set yet; any other name is somebody else's.
pub proof fn a_name_is_ours_or_somebody_elses(prev: Option<AutoView>, name: Seq<char>)
    ensures
        prev == Some(AutoView::Auto(name)) ==> reconciled(prev, name) == AutoView::Auto(name),
        prev != Some(AutoView::Auto(name)) && default_name(name) ==> reconciled(prev, name)
            == AutoView::Auto(Seq::empty()),
        prev != Some(AutoView::Auto(name)) && !default_name(name) ==> reconciled(prev, name)
            == AutoView::Manual,
{
}

proof fn reconciling(m: Map<usize, AutoView>, tabs: Seq<TabView>)
    requires
        forall|i: int, j: int|
            #![trigger tabs[i], tabs[j]]
            0 <= i < j < tabs.len() ==> tabs[i].tab_id != tabs[j].tab_id,
    ensures
        forall|i: int|
            0 <= i < tabs.len() ==> reconciled_all(m, tabs).contains_key((#[trigger] tabs[i]).tab_id)
                && reconciled_all(m, tabs)[tabs[i].tab_id] == reconciled(
                held(m, tabs[i].tab_id),
                tabs[i].name,
            ),
        forall|id: usize|
            (forall|i: int| 0 <= i < tabs.len() ==> (#[trigger] tabs[i]).tab_id != id) ==> held(
                #[trigger] reconciled_all(m, tabs),
                id,
            ) == held(m, id),
    decreases tabs.len(),
{
    if tabs.len() > 0 {
        let rest = tabs.drop_last();
        let n = tabs.len() - 1;
        assert forall|i: int, j: int|
            #![trigger rest[i], rest[j]]
            0 <= i < j < rest.len() implies rest[i].tab_id != rest[j].tab_id by {
            assert(tabs[i].tab_id != tabs[j].tab_id);
        }
        reconciling(m, rest);
        let before = reconciled_all(m, rest);
        assert forall|i: int| 0 <= i < rest.len() implies (#[trigger] rest[i]).tab_id
            != tabs[n].tab_id by {
            assert(tabs[i].tab_id != tabs[n].tab_id);
        }
        assert(held(before, tabs[n].tab_id) == held(m, tabs[n].tab_id));
        assert forall|i: int| 0 <= i < tabs.len() implies reconciled_all(m, tabs).contains_key(
            (#[trigger] tabs[i]).tab_id,
        ) && reconciled_all(m, tabs)[tabs[i].tab_id] == reconciled(
            held(m, tabs[i].tab_id),
            tabs[i].name,
        ) by {
            if i < n {
                assert(rest[i] == tabs[i]);
                assert(tabs[i].tab_id != tabs[n].tab_id);
            }
        }
        assert forall|id: usize|
            (forall|i: int| 0 <= i < tabs.len() ==> (#[trigger] tabs[i]).tab_id != id) implies held(
            #[trigger] reconciled_all(m, tabs),
            id,
        ) == held(m, id) by {
            assert(tabs[n].tab_id != id);
            assert forall|i: int| 0 <= i < rest.len() implies (#[trigger] rest[i]).tab_id != id by {
                assert(tabs[i].tab_id != id);
            }
            assert(held(before, id) == held(m, id));
        }
    }
}

/// After a report, exactly the tabs it lists are known, each by the name it carries
/// and by what was known of it, and not by any other tab's.
pub proof fn each_tab_is_judged_by_its_own_name(m: Map<usize, AutoView>, tabs: Seq<TabView>)
    requires
        forall|i: int, j: int|
            #![trigger tabs[i], tabs[j]]
            0 <= i < j < tabs.len() ==> tabs[i].tab_id != tabs[j].tab_id,
    ensures
        forall|i: int|
            0 <= i < tabs.len() ==> live_only(reconciled_all(m, tabs), tabs).contains_key(
                (#[trigger] tabs[i]).tab_id,
            ) && live_only(reconciled_all(m, tabs), tabs)[tabs[i].tab_id] == reconciled(
                if m.contains_key(tabs[i].tab_id) {
                    Some(m[tabs[i].tab_id])
                } else {
                    None
                },
                tabs[i].name,
            ),
        forall|id: usize| #[trigger]
            live_only(reconciled_all(m, tabs), tabs).contains_key(id) ==> exists|i: int|
                0 <= i < tabs.len() && (#[trigger] tabs[i]).tab_id == id,
{
    reconciling(m, tabs);
    assert forall|i: int| 0 <= i < tabs.len() implies live_only(
        reconciled_all(m, tabs),
        tabs,
    ).contains_key((#[trigger] tabs[i]).tab_id) by {
        assert(is_live(tabs, tabs[i].tab_id));
    }
}

/// Each tab is found at the position it is reported at.
pub proof fn each_tab_is_at_its_position(tabs: Seq<TabView>)
    requires
        forall|i: int, j: int|
            #![trigger tabs[i], tabs[j]]
            0 <= i < j < tabs.len() ==> tabs[i].position != tabs[j].position,
    ensures
        forall|i: int|
            0 <= i < tabs.len() ==> positions(tabs).contains_key((#[trigger] tabs[i]).position)
                && positions(tabs)[tabs[i].position] == tabs[i].tab_id,
        forall|p: usize| #[trigger]
            positions(tabs).contains_key(p) ==> exists|i: int|
                0 <= i < tabs.len() && (#[trigger] tabs[i]).position == p,
    decreases tabs.len(),
{
    if tabs.len() > 0 {
        let rest = tabs.drop_last();
        let n = tabs.len() - 1;
        assert forall|i: int, j: int|
            #![trigger rest[i], rest[j]]
            0 <= i < j < rest.len() implies rest[i].position != rest[j].position by {
            assert(tabs[i].position != tabs[j].position);
        }
        each_tab_is_at_its_position(rest);
        assert forall|i: int| 0 <= i < tabs.len() implies positions(tabs).contains_key(
            (#[trigger] tabs[i]).position,
        ) && positions(tabs)[tabs[i].position] == tabs[i].tab_id by {
            if i < n {
                assert(rest[i] == tabs[i]);
                assert(tabs[i].position != tabs[n].position);
            }
        }
        assert forall|p: usize| #[trigger] positions(tabs).contains_key(p) implies exists|i: int|
            0 <= i < tabs.len() && (#[trigger] tabs[i]).position == p by {
            if p == tabs[n].position {
                assert(tabs[n].position == p);
            } else {
                assert(positions(rest).contains_key(p));
                let i = choose|i: int| 0 <= i < rest.len() && (#[trigger] rest[i]).position == p;
                assert(tabs[i].position == p);
            }
        }
    }
}

/// Every tab that is due a name is renamed to it, by its own id, and no other tab is;
/// the name is remembered as ours.
pub proof fn exactly_the_due_tabs_are_renamed(
    m: Map<usize, AutoView>,
    panes: Map<usize, Seq<PaneView>>,
    tabs: Map<usize, usize>,
    walk: Seq<(usize, usize)>,
    position: usize,
    name: Seq<char>,
)
    requires
        one_position_each(tabs),
        is_walk(walk, tabs),
        tabs.contains_key(position),
    ensures
        ({
            let id = tabs[position];
            let after = visited(m, panes, walk);
            &&& after.renames.contains((id, name)) <==> due_name(m, panes, position, id) == Some(
                name,
            )
            &&& due_name(m, panes, position, id) == Some(name) ==> after.auto_state.contains_key(id)
                && after.auto_state[id] == AutoView::Auto(name)
            &&& due_name(m, panes, position, id) is None ==> held(after.auto_state, id) == held(
                m,
                id,
            )
        }),
{
    assert forall|i: int, j: int|
        #![trigger walk[i], walk[j]]
        0 <= i < j < walk.len() implies walk[i].1 != walk[j].1 by {
        assert(tabs[walk[i].0] == walk[i].1 && tabs[walk[j].0] == walk[j].1);
    }
    visits_are_independent(m, panes, walk);
    let id = tabs[position];
    let k = choose|k: int| 0 <= k < walk.len() && #[trigger] walk[k].0 == position;
    assert(walk[k].1 == id);
    if visited(m, panes, walk).renames.contains((id, name)) {
        let i = choose|i: int| 0 <= i < walk.len() && #[trigger] is_due(m, panes, walk, i, id, name);
        if i < k {
            assert(walk[i].1 != walk[k].1);
        } else if k < i {
            assert(walk[k].1 != walk[i].1);
        }
    }
    if due_name(m, panes, position, id) == Some(name) {
        assert(is_due(m, panes, walk, k, id, name));
    }
}

} // verus!
