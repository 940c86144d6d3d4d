//! Where a text is broken, and that it is broken nowhere else.
use super::wrap;
use vstd::prelude::*;

verus! {

/// A line may end behind a dash, an underscore, a slash, a dot or a blank, and behind
/// nothing else.
pub proof fn lines_may_end_at_five_characters(c: char)
    ensures
        wrap::is_break(c) <==> seq!['-', '_', '/', '.', ' '].contains(c),
{
    let five = seq!['-', '_', '/', '.', ' '];
    assert(five[0] == '-' && five[1] == '_' && five[2] == '/' && five[3] == '.' && five[4] == ' ');
}

/// A text is cut into tokens behind each character at which a line may end, and
/// nowhere else: put together they are the text, and such a character stands only at
/// the end of a token.
pub proof fn tokens_end_where_a_line_may(s: Seq<char>, i: int, j: int)
    ensures
        wrap::run_together(wrap::tokens(s)) == s,
        0 <= i < wrap::tokens(s).len() && 0 <= j < wrap::tokens(s)[i].len() - 1 ==> !wrap::is_break(
            wrap::tokens(s)[i][j],
        ),
        0 <= i < wrap::tokens(s).len() - 1 ==> wrap::tokens(s)[i].len() > 0 && wrap::is_break(
            wrap::tokens(s)[i].last(),
        ),
        0 <= i < wrap::tokens(s).len() ==> wrap::tokens(s)[i].len() > 0,
{
    wrap::tokens_run_together(s);
    tokenised_apart(s);
}

proof fn tokenised_apart(s: Seq<char>)
    ensures
        forall|i: int, j: int|
            0 <= i < wrap::tokenised(s).0.len() && 0 <= j < wrap::tokenised(s).0[i].len() - 1
                ==> !wrap::is_break(#[trigger] wrap::tokenised(s).0[i][j]),
        forall|i: int|
            0 <= i < wrap::tokenised(s).0.len() ==> (#[trigger] wrap::tokenised(s).0[i]).len() > 0
                && wrap::is_break(wrap::tokenised(s).0[i].last()),
        forall|j: int|
            0 <= j < wrap::tokenised(s).1.len() ==> !wrap::is_break(
                #[trigger] wrap::tokenised(s).1[j],
            ),
    decreases s.len(),
{
    if s.len() > 0 {
        tokenised_apart(s.drop_last());
        let (done, cur) = wrap::tokenised(s.drop_last());
        let (now, rest) = wrap::tokenised(s);
        assert forall|i: int, j: int|
            0 <= i < now.len() && 0 <= j < now[i].len() - 1 implies !wrap::is_break(
            #[trigger] now[i][j],
        ) by {
            if i < done.len() {
                assert(now[i] == done[i]);
                assert(!wrap::is_break(done[i][j]));
            } else {
                assert(now[i][j] == cur[j]);
            }
        }
        assert forall|i: int| 0 <= i < now.len() implies (#[trigger] now[i]).len() > 0
            && wrap::is_break(now[i].last()) by {
            if i < done.len() {
                assert(now[i] == done[i]);
            }
        }
    }
}

proof fn filled_with_what_fits(toks: Seq<Seq<char>>, width: nat)
    requires
        wrap::columns(wrap::run_together(toks)) <= width,
    ensures
        wrap::filled(toks, width) == (Seq::<Seq<char>>::empty(), wrap::run_together(toks)),
    decreases toks.len(),
{
    if toks.len() > 0 {
        let rest = toks.drop_last();
        assert(toks =~= rest.push(toks.last()));
        wrap::run_together_push(rest, toks.last());
        wrap::columns_of_concat(wrap::run_together(rest), toks.last());
        filled_with_what_fits(rest, width);
    }
}

/// A text that fits a line takes one line, and is shown as it is.
pub proof fn a_text_that_fits_takes_one_line(s: Seq<char>, width: nat, max_lines: nat)
    requires
        s.len() > 0,
        width > 0,
        max_lines > 0,
        wrap::columns(s) <= width,
    ensures
        wrap::wrapped(s, width, max_lines) == seq![s],
{
    wrap::tokens_run_together(s);
    filled_with_what_fits(wrap::tokens(s), width);
    assert(wrap::lines_of(s, width) =~= seq![s]);
}

/// An empty text takes no line; nor does any text without a line or a column for it.
pub proof fn nothing_takes_no_line(s: Seq<char>, width: nat, max_lines: nat)
    ensures
        s.len() == 0 ==> wrap::wrapped(s, width, max_lines).len() == 0,
        width == 0 || max_lines == 0 ==> wrap::wrapped(s, width, max_lines).len() == 0,
{
    if s.len() == 0 {
        assert(wrap::tokens(s) =~= Seq::<Seq<char>>::empty());
        assert(wrap::lines_of(s, width) =~= Seq::<Seq<char>>::empty());
    }
}

/// A line takes as many tokens as fit: where the first ones fit and the next one does
/// not, they are the first line, and the others are laid out as if by themselves.
pub proof fn a_line_takes_what_fits(toks: Seq<Seq<char>>, width: nat, k: int)
    requires
        0 < k < toks.len(),
        wrap::run_together(toks.take(k)).len() > 0,
        wrap::columns(wrap::run_together(toks.take(k))) <= width,
        wrap::columns(wrap::run_together(toks.take(k))) + wrap::columns(toks[k]) > width,
    ensures
        wrap::closed_off(wrap::filled(toks, width)) == seq![wrap::run_together(toks.take(k))]
            + wrap::closed_off(wrap::filled(toks.skip(k), width)),
{
    let line = wrap::run_together(toks.take(k));
    filled_with_what_fits(toks.take(k), width);
    filled_behind(toks, width, k, toks.len() as int);
    assert(toks.take(toks.len() as int) =~= toks);
    assert(toks.subrange(k, toks.len() as int) =~= toks.skip(k));
    assert(wrap::closed_off(wrap::filled(toks, width)) =~= seq![line] + wrap::closed_off(
        wrap::filled(toks.skip(k), width),
    ));
}

proof fn filled_behind(toks: Seq<Seq<char>>, width: nat, k: int, n: int)
    requires
        0 < k < n <= toks.len(),
        wrap::run_together(toks.take(k)).len() > 0,
        wrap::filled(toks.take(k), width) == (
            Seq::<Seq<char>>::empty(),
            wrap::run_together(toks.take(k)),
        ),
        wrap::columns(wrap::run_together(toks.take(k))) + wrap::columns(toks[k]) > width,
    ensures
        ({
            let line = wrap::run_together(toks.take(k));
            let tail = wrap::filled(toks.subrange(k, n), width);
            wrap::filled(toks.take(n), width) == (seq![line] + tail.0, tail.1)
        }),
    decreases n,
{
    let line = wrap::run_together(toks.take(k));
    let piece = toks.subrange(k, n);
    let tail = wrap::filled(piece, width);
    assert(toks.take(n).drop_last() =~= toks.take(n - 1));
    assert(toks.take(n).last() == toks[n - 1]);
    assert(piece.last() == toks[n - 1]);
    let none = (Seq::<Seq<char>>::empty(), Seq::<char>::empty());
    if n == k + 1 {
        assert(piece.drop_last() =~= Seq::<Seq<char>>::empty());
        assert(wrap::filled(piece.drop_last(), width) == none);
        assert(wrap::closed_off((Seq::<Seq<char>>::empty(), line)) =~= seq![line]);
        assert(Seq::<char>::empty() + toks[k] =~= toks[k]);
        assert(wrap::columns(Seq::<char>::empty()) == 0);
        assert(wrap::filled(toks.take(n), width).0 =~= seq![line] + tail.0);
    } else {
        filled_behind(toks, width, k, n - 1);
        assert(piece.drop_last() =~= toks.subrange(k, n - 1));
        let before = wrap::filled(piece.drop_last(), width);
        let page = (seq![line] + before.0, before.1);
        assert(wrap::closed_off(page) =~= seq![line] + wrap::closed_off(before));
        assert(wrap::filled(toks.take(n), width).0 =~= seq![line] + tail.0);
    }
}

/// A token wider than a line is cut only where the next character would pass the width.
pub proof fn a_wide_token_is_cut_where_it_must(s: Seq<char>, width: nat, i: int)
    requires
        0 <= i < wrap::chunks(s, width).len() - 1,
    ensures
        wrap::chunks(s, width)[i + 1].len() > 0,
        wrap::columns(wrap::chunks(s, width)[i]) + wrap::char_columns(
            wrap::chunks(s, width)[i + 1][0],
        ) > width,
{
    chunked_tight(s, width);
}

proof fn chunked_tight(s: Seq<char>, width: nat)
    ensures
        ({
            let (done, cur) = wrap::chunked(s, width);
            &&& s.len() > 0 ==> cur.len() > 0
            &&& forall|i: int| 0 <= i < done.len() ==> (#[trigger] done[i]).len() > 0
            &&& forall|i: int|
                0 <= i < done.len() - 1 ==> wrap::columns(#[trigger] done[i]) + wrap::char_columns(
                    done[i + 1][0],
                ) > width
            &&& done.len() > 0 ==> cur.len() > 0 && wrap::columns(done.last())
                + wrap::char_columns(cur[0]) > width
        }),
    decreases s.len(),
{
    if s.len() > 0 {
        chunked_tight(s.drop_last(), width);
        let (done, cur) = wrap::chunked(s.drop_last(), width);
        let (now, rest) = wrap::chunked(s, width);
        if cur.len() > 0 && wrap::columns(cur) + wrap::char_columns(s.last()) > width {
            assert forall|i: int| 0 <= i < now.len() - 1 implies wrap::columns(#[trigger] now[i])
                + wrap::char_columns(now[i + 1][0]) > width by {
                if i < done.len() - 1 {
                    assert(now[i] == done[i] && now[i + 1] == done[i + 1]);
                } else {
                    assert(now[i] == done.last() && now[i + 1] == cur);
                }
            }
            assert(now.last() == cur);
            assert(rest[0] == s.last());
        } else {
            assert(now == done);
            if done.len() > 0 {
                assert(rest[0] == cur[0]);
            }
        }
    }
}

/// A token that is wider than a line by itself is laid out as its cuts.
pub proof fn a_wide_token_is_laid_out_as_its_cuts(token: Seq<char>, width: nat)
    requires
        wrap::columns(token) > width,
    ensures
        wrap::closed_off(wrap::filled(seq![token], width)) == wrap::chunks(token, width),
{
    assert(seq![token].drop_last() =~= Seq::<Seq<char>>::empty());
    let none = (Seq::<Seq<char>>::empty(), Seq::<char>::empty());
    assert(wrap::filled(seq![token].drop_last(), width) == none);
    assert(wrap::columns(Seq::<char>::empty()) == 0);
    assert(wrap::filled(seq![token], width).0 =~= wrap::chunked(token, width).0);
}

} // verus!
