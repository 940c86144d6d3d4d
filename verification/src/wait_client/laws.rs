//! What a wait finds, prints and says.
use super::engine;
use super::{
    answers, chosen, closed_text, compiles_to, contents, described, ended_text, failed, occurs,
    refused_start, render_end, with_newlines, Compiled, Exit, Matcher, MatcherView, FAILED, MATCHED,
    TIMED_OUT,
};
use vstd::prelude::*;

verus! {

/// The ways a wait ends are told apart by the exit status: found, out of time, failed.
pub proof fn each_end_has_its_status()
    ensures
        MATCHED == 0,
        TIMED_OUT == 1,
        FAILED == 2,
{
}

/// A literal is found exactly where its characters stand in the text one behind the
/// other; a pattern by the engine. Nothing else decides.
pub proof fn a_literal_is_found_where_it_stands(needle: Seq<char>, text: Seq<char>)
    ensures
        answers(MatcherView::Literal(needle), text) <==> exists|a: Seq<char>, z: Seq<char>|
            text == #[trigger] (a + needle + z),
        forall|p: Seq<char>| #[trigger] answers(MatcherView::Regex(p), text) == engine::regex_found(p, text),
{
    if occurs(needle, text) {
        let i = choose|i: int|
            0 <= i <= text.len() - needle.len() && #[trigger] text.subrange(i, i + needle.len())
                == needle;
        let a = text.take(i);
        let z = text.skip(i + needle.len());
        assert(text =~= a + needle + z);
    }
    if exists|a: Seq<char>, z: Seq<char>| text == #[trigger] (a + needle + z) {
        let (a, z) = choose|a: Seq<char>, z: Seq<char>| text == #[trigger] (a + needle + z);
        let i = a.len() as int;
        assert(text.subrange(i, i + needle.len()) =~= needle);
    }
}

/// A pane's contents are the scrollback's lines, if there are any, and then those of the
/// viewport.
pub proof fn the_scrollback_comes_first(viewport: Seq<Seq<char>>, back: Seq<Seq<char>>, i: int)
    ensures
        contents(viewport, None) == viewport,
        contents(viewport, Some(back)).len() == back.len() + viewport.len(),
        0 <= i < back.len() ==> contents(viewport, Some(back))[i] == back[i],
        0 <= i < viewport.len() ==> contents(viewport, Some(back))[back.len() + i] == viewport[i],
{
}

/// Lines are joined by one newline between two of them.
pub proof fn lines_are_joined_by_newlines(lines: Seq<Seq<char>>, line: Seq<char>)
    ensures
        with_newlines(Seq::empty()).len() == 0,
        with_newlines(seq![line]) == line,
        lines.len() > 0 ==> with_newlines(lines.push(line)) == with_newlines(lines) + seq!['\n']
            + line,
{
    assert(lines.push(line).drop_last() =~= lines);
}

/// A wait that goes on prints nothing; one that ends on a render prints exactly the lines
/// that are found by themselves, and only where that was asked for.
pub proof fn only_matching_lines_are_printed(
    m: MatcherView,
    lines: Seq<Seq<char>>,
    line: Seq<char>,
)
    ensures
        render_end(m, lines, true) matches Some(e) ==> (e.stdout.contains(line) <==> lines.contains(
            line,
        ) && answers(m, line)),
        render_end(m, lines, false) matches Some(e) ==> e.stdout.len() == 0,
        render_end(m, lines, true) is Some <==> render_end(m, lines, false) is Some,
{
    super::a_wait_ends_where_the_pattern_is_found(m, lines, true);
    super::a_wait_ends_where_the_pattern_is_found(m, lines, false);
    crate::seqs::filter_members(lines, |l: Seq<char>| answers(m, l));
}

/// A failure is told on the error output, with its own status; the server is not told.
pub proof fn a_failure_is_told(stderr: Seq<Seq<char>>)
    ensures
        failed(stderr).stderr == stderr,
        failed(stderr).stdout.len() == 0,
        failed(stderr).status == 2,
        !failed(stderr).tell_server,
{
}

/// A pattern is called by its text between slashes, a literal by its text between quotes.
pub proof fn what_is_waited_for_is_named(s: Seq<char>)
    ensures
        described(MatcherView::Regex(s)).len() == s.len() + 2,
        described(MatcherView::Literal(s)).len() == s.len() + 2,
        described(MatcherView::Regex(s)).subrange(1, 1 + s.len() as int) == s,
        described(MatcherView::Literal(s)).subrange(1, 1 + s.len() as int) == s,
        described(MatcherView::Regex(s)).first() == '/' && described(MatcherView::Regex(s)).last()
            == '/',
        described(MatcherView::Literal(s)).first() == '\'' && described(
            MatcherView::Literal(s),
        ).last() == '\'',
{
    assert(described(MatcherView::Regex(s)).subrange(1, 1 + s.len() as int) =~= s);
    assert(described(MatcherView::Literal(s)).subrange(1, 1 + s.len() as int) =~= s);
}

/// A regex goes before a literal; without either there is nothing to wait for. A regex
/// that is refused is told with the reason, and is not made up for by a literal.
pub proof fn a_regex_goes_before_a_literal(
    p: Seq<char>,
    why: Seq<char>,
    literal: Option<Seq<char>>,
    s: Seq<char>,
)
    ensures
        chosen(Some(Ok(p)), literal) == Ok::<MatcherView, Seq<char>>(MatcherView::Regex(p)),
        chosen(Some(Err((p, why))), literal) == Err::<MatcherView, Seq<char>>(
            seq![
                'I', 'n', 'v', 'a', 'l', 'i', 'd', ' ', '-', '-', 'r', 'e', 'g', 'e', 'x', ' ',
                '\'',
            ] + p + seq!['\'', ':', ' '] + why,
        ),
        chosen(None, Some(s)) == Ok::<MatcherView, Seq<char>>(MatcherView::Literal(s)),
        chosen(None, None) == Err::<MatcherView, Seq<char>>(seq![
            'P', 'a', 's', 's', ' ', 'e', 'i', 't', 'h', 'e', 'r', ' ', '-', '-', 'r', 'e', 'g',
            'e', 'x', ' ', 'o', 'r', ' ', '-', '-', 'm', 'a', 't', 'c', 'h',
        ]),
{
    reveal_strlit("Invalid --regex '");
    reveal_strlit("': ");
    reveal_strlit("Pass either --regex or --match");
    assert("Invalid --regex '"@ =~= seq![
        'I', 'n', 'v', 'a', 'l', 'i', 'd', ' ', '-', '-', 'r', 'e', 'g', 'e', 'x', ' ', '\'',
    ]);
    assert("': "@ =~= seq!['\'', ':', ' ']);
    assert("Pass either --regex or --match"@ =~= seq![
        'P', 'a', 's', 's', ' ', 'e', 'i', 't', 'h', 'e', 'r', ' ', '-', '-', 'r', 'e', 'g', 'e',
        'x', ' ', 'o', 'r', ' ', '-', '-', 'm', 'a', 't', 'c', 'h',
    ]);
}

/// A regex is compiled as it was given, and only one that was given is.
pub proof fn a_regex_is_compiled_as_given(regex: Option<Seq<char>>, compiled: Option<Compiled>)
    ensures
        compiles_to(regex, compiled) ==> (regex is Some <==> compiled is Some),
        compiles_to(regex, compiled) && regex is Some ==> match compiled->0 {
            Ok(q) => q == regex->0,
            Err(e) => e.0 == regex->0,
        },
{
}

/// The messages name the pane or the session that went away, and what was waited for.
pub proof fn messages_name_what_went_away(name: Seq<char>, m: MatcherView)
    ensures
        closed_text(name, m) == seq!['P', 'a', 'n', 'e', ' '] + name + seq![
            ' ', 'c', 'l', 'o', 's', 'e', 'd', ' ', 'b', 'e', 'f', 'o', 'r', 'e', ' ',
        ] + described(m) + seq![
            ' ', 'm', 'a', 't', 'c', 'h', 'e', 'd',
        ],
        ended_text(name, m) == seq![
            'S', 'e', 's', 's', 'i', 'o', 'n', ' ', '\'',
        ] + name + seq![
            '\'', ' ', 'e', 'n', 'd', 'e', 'd', ' ', 'b', 'e', 'f', 'o', 'r', 'e', ' ',
        ] + described(m) + seq![
            ' ', 'm', 'a', 't', 'c', 'h', 'e', 'd',
        ],
{
    reveal_strlit("Pane ");
    reveal_strlit(" closed before ");
    reveal_strlit(" matched");
    reveal_strlit("Session '");
    reveal_strlit("' ended before ");
    assert("Pane "@ =~= seq!['P', 'a', 'n', 'e', ' ']);
    assert(" closed before "@ =~= seq![
        ' ', 'c', 'l', 'o', 's', 'e', 'd', ' ', 'b', 'e', 'f', 'o', 'r', 'e', ' ',
    ]);
    assert(" matched"@ =~= seq![' ', 'm', 'a', 't', 'c', 'h', 'e', 'd']);
    assert("Session '"@ =~= seq!['S', 'e', 's', 's', 'i', 'o', 'n', ' ', '\'']);
    assert("' ended before "@ =~= seq![
        '\'', ' ', 'e', 'n', 'd', 'e', 'd', ' ', 'b', 'e', 'f', 'o', 'r', 'e', ' ',
    ]);
}

/// A wait is refused exactly where there is nothing to wait for or the pane is no pane,
/// with one line that says which; the former is told first.
pub proof fn a_wait_is_refused_for_a_reason(
    matcher: Result<MatcherView, Seq<char>>,
    pane_id: Seq<char>,
    pane_error: Option<Seq<char>>,
)
    ensures
        ({
            let r = refused_start(matcher, pane_id, pane_error);
            &&& r is None <==> matcher is Ok && pane_error is None
            &&& r matches Some(e) ==> e.status == 2 && e.stdout.len() == 0 && !e.tell_server
                && e.stderr.len() == 1
            &&& matcher matches Err(e) ==> r->0.stderr[0] == e
            &&& matcher is Ok && pane_error is Some ==> r->0.stderr[0] == seq![
                'I', 'n', 'v', 'a', 'l', 'i', 'd', ' ', 'p', 'a', 'n', 'e', ' ', 'I', 'D', ' ',
                '\'',
            ]
                + pane_id + seq!['\'', ':', ' '] + pane_error->0
        }),
{
    reveal_strlit("Invalid pane ID '");
    reveal_strlit("': ");
    assert("Invalid pane ID '"@ =~= seq![
        'I', 'n', 'v', 'a', 'l', 'i', 'd', ' ', 'p', 'a', 'n', 'e', ' ', 'I', 'D', ' ', '\'',
    ]);
    assert("': "@ =~= seq!['\'', ':', ' ']);
}

/// A matcher and an end of a wait are what they are called.
pub proof fn ends_are_what_they_are_called(m: Matcher, e: Exit, i: int)
    ensures
        m matches Matcher::Regex(p) ==> m@ == MatcherView::Regex(p.source()),
        m matches Matcher::Literal(s) ==> m@ == MatcherView::Literal(s@),
        e@.status == e.status,
        e@.tell_server == e.tell_server,
        e@.stdout.len() == e.stdout.len(),
        e@.stderr.len() == e.stderr.len(),
        0 <= i < e.stdout.len() ==> e@.stdout[i] == e.stdout[i]@,
        0 <= i < e.stderr.len() ==> e@.stderr[i] == e.stderr[i]@,
{
}

} // verus!
