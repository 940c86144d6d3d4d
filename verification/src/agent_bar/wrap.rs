//! Word wrap to a column width.
use crate::text;
use crate::text::chars_of;
use unicode_width::UnicodeWidthStr;
use vstd::prelude::*;

verus! {

/// The columns that `UnicodeWidthStr::width` of the crate unicode-width gives a
/// text of this one character.
pub uninterp spec fn char_columns(c: char) -> nat;

/// The columns a text takes: those of its characters, added up.
pub open spec fn columns(s: Seq<char>) -> nat
    decreases s.len(),
{
    if s.len() == 0 {
        0
    } else {
        columns(s.drop_last()) + char_columns(s.last())
    }
}

/// `UnicodeWidthStr::width` of the crate unicode-width: the sum, over the
/// characters, of the width that each has by itself.
#[verifier::external_body]
pub(crate) fn width(s: &str) -> (r: usize)
    ensures
        r == columns(s@),
        s@.len() == 1 ==> r == char_columns(s@[0]),
{
    UnicodeWidthStr::width(s)
}

pub proof fn columns_of_concat(a: Seq<char>, b: Seq<char>)
    ensures
        columns(a + b) == columns(a) + columns(b),
    decreases b.len(),
{
    if b.len() == 0 {
        assert(a + b == a);
    } else {
        assert((a + b).drop_last() == a + b.drop_last());
        columns_of_concat(a, b.drop_last());
    }
}

/// The characters after which a line may end.
pub open spec fn is_break(c: char) -> bool {
    c == '-' || c == '_' || c == '/' || c == '.' || c == ' '
}

/// A text cut after each character at which a line may end: the tokens that are
/// complete, and what follows the last of them.
pub open spec fn tokenised(s: Seq<char>) -> (Seq<Seq<char>>, Seq<char>)
    decreases s.len(),
{
    if s.len() == 0 {
        (Seq::empty(), Seq::empty())
    } else {
        let (done, cur) = tokenised(s.drop_last());
        if is_break(s.last()) {
            (done.push(cur.push(s.last())), Seq::empty())
        } else {
            (done, cur.push(s.last()))
        }
    }
}

/// Pieces that are complete and one that is not, if there is anything in it.
pub open spec fn closed_off(p: (Seq<Seq<char>>, Seq<char>)) -> Seq<Seq<char>> {
    if p.1.len() > 0 {
        p.0.push(p.1)
    } else {
        p.0
    }
}

pub open spec fn tokens(s: Seq<char>) -> Seq<Seq<char>> {
    closed_off(tokenised(s))
}

/// A text cut wherever the next character would pass `width`.
pub open spec fn chunked(s: Seq<char>, width: nat) -> (Seq<Seq<char>>, Seq<char>)
    decreases s.len(),
{
    if s.len() == 0 {
        (Seq::empty(), Seq::empty())
    } else {
        let (done, cur) = chunked(s.drop_last(), width);
        if cur.len() > 0 && columns(cur) + char_columns(s.last()) > width {
            (done.push(cur), seq![s.last()])
        } else {
            (done, cur.push(s.last()))
        }
    }
}

pub open spec fn chunks(s: Seq<char>, width: nat) -> Seq<Seq<char>> {
    closed_off(chunked(s, width))
}

/// One token more on a page of full lines and a current line. It goes on the
/// current line if it fits, else on a new one; a token wider than a line starts
/// a new line for each of its chunks.
pub open spec fn placed(
    page: (Seq<Seq<char>>, Seq<char>),
    token: Seq<char>,
    width: nat,
) -> (Seq<Seq<char>>, Seq<char>) {
    if columns(page.1) + columns(token) <= width {
        (page.0, page.1 + token)
    } else if columns(token) <= width {
        (closed_off(page), token)
    } else {
        (closed_off(page) + chunked(token, width).0, chunked(token, width).1)
    }
}

pub open spec fn filled(tokens: Seq<Seq<char>>, width: nat) -> (Seq<Seq<char>>, Seq<char>)
    decreases tokens.len(),
{
    if tokens.len() == 0 {
        (Seq::empty(), Seq::empty())
    } else {
        placed(filled(tokens.drop_last(), width), tokens.last(), width)
    }
}

/// All the lines of a text, however many.
pub open spec fn lines_of(s: Seq<char>, width: nat) -> Seq<Seq<char>> {
    closed_off(filled(tokens(s), width))
}

/// The longest beginning of a line that leaves a column free.
pub open spec fn shortened(line: Seq<char>, width: nat) -> Seq<char>
    decreases line.len(),
{
    if line.len() > 0 && columns(line) >= width {
        shortened(line.drop_last(), width)
    } else {
        line
    }
}

/// A line cut short, and marked so.
pub open spec fn ellipsized(line: Seq<char>, width: nat) -> Seq<char> {
    shortened(line, width).push('\u{2026}')
}

/// The lines of a text, at most `max_lines` of them; where there are more, the
/// last one shown is marked as cut short.
pub open spec fn wrapped(s: Seq<char>, width: nat, max_lines: nat) -> Seq<Seq<char>> {
    let all = lines_of(s, width);
    if width == 0 || max_lines == 0 {
        Seq::empty()
    } else if all.len() <= max_lines {
        all
    } else {
        all.take(max_lines - 1).push(ellipsized(all[max_lines - 1], width))
    }
}

fn can_break(c: char) -> (r: bool)
    ensures
        r == is_break(c),
{
    c == '-' || c == '_' || c == '/' || c == '.' || c == ' '
}

fn cut_tokens(s: &str) -> (r: Vec<String>)
    ensures
        text::texts(r@) == tokens(s@),
{
    let cs = chars_of(s);
    let mut done: Vec<String> = Vec::new();
    let mut current = String::new();
    let mut i: usize = 0;
    assert(s@.take(0) == Seq::<char>::empty());
    while i < cs.len()
        invariant
            i <= cs.len(),
            cs@ == s@,
            (text::texts(done@), current@) == tokenised(s@.take(i as int)),
        decreases cs.len() - i,
    {
        assert(s@.take(i + 1).drop_last() == s@.take(i as int));
        current.push(cs[i]);
        if can_break(cs[i]) {
            let mut token = String::new();
            std::mem::swap(&mut token, &mut current);
            let ghost before = text::texts(done@);
            done.push(token);
            assert(text::texts(done@) =~= before.push(token@));
        }
        i += 1;
    }
    assert(s@.take(i as int) == s@);
    if current.as_str().is_empty() {
        assert(current@.len() == 0);
        done
    } else {
        let ghost before = text::texts(done@);
        let ghost cur = current@;
        done.push(current);
        assert(text::texts(done@) =~= before.push(cur));
        done
    }
}

proof fn chunked_has_last(s: Seq<char>, width: nat)
    requires
        s.len() > 0,
    ensures
        chunked(s, width).1.len() > 0,
{
}

/// Cut a text into pieces that fit a line. A single character wider than a line
/// is a piece by itself.
pub fn hard_split(s: &str, width: usize) -> (r: Vec<String>)
    ensures
        text::texts(r@) == chunks(s@, width as nat),
{
    let cs = chars_of(s);
    let mut out: Vec<String> = Vec::new();
    let mut cur = String::new();
    let mut i: usize = 0;
    assert(s@.take(0) == Seq::<char>::empty());
    while i < cs.len()
        invariant
            i <= cs.len(),
            cs@ == s@,
            (text::texts(out@), cur@) == chunked(s@.take(i as int), width as nat),
        decreases cs.len() - i,
    {
        assert(s@.take(i + 1).drop_last() == s@.take(i as int));
        let mut one = String::new();
        one.push(cs[i]);
        let cw = self::width(one.as_str());
        let cur_w = self::width(cur.as_str());
        if !cur.as_str().is_empty() && (cw > width || cur_w > width - cw) {
            let ghost before = text::texts(out@);
            let ghost piece = cur@;
            out.push(cur);
            assert(text::texts(out@) =~= before.push(piece));
            cur = one;
            assert(cur@ =~= seq![cs[i as int]]);
        } else {
            cur.push(cs[i]);
        }
        i += 1;
    }
    assert(s@.take(i as int) == s@);
    flush(&mut out, cur);
    out
}

/// Close a line off, unless there is nothing in it.
fn flush(lines: &mut Vec<String>, cur: String)
    ensures
        text::texts(final(lines)@) == closed_off((text::texts(old(lines)@), cur@)),
{
    if !cur.as_str().is_empty() {
        lines.push(cur);
        assert(text::texts(lines@) =~= text::texts(old(lines)@).push(cur@));
    }
}

/// Soft-break on `-`, `_`, `/`, `.` and space; greedy line-fill; hard-split of a
/// token wider than `width`; past `max_lines`, the last line is truncated with an
/// ellipsis.
pub fn wrap_text(s: &str, width: usize, max_lines: usize) -> (r: Vec<String>)
    ensures
        text::texts(r@) == wrapped(s@, width as nat, max_lines as nat),
        r.len() <= max_lines,
{
    if width == 0 || max_lines == 0 {
        let none: Vec<String> = Vec::new();
        assert(text::texts(none@) =~= Seq::<Seq<char>>::empty());
        return none;
    }
    let toks = cut_tokens(s);
    let mut lines: Vec<String> = Vec::new();
    let mut cur = String::new();
    let mut i: usize = 0;
    assert(tokens(s@).take(0) == Seq::<Seq<char>>::empty());
    while i < toks.len()
        invariant
            i <= toks.len(),
            text::texts(toks@) == tokens(s@),
            (text::texts(lines@), cur@) == filled(tokens(s@).take(i as int), width as nat),
        decreases toks.len() - i,
    {
        let ghost page = (text::texts(lines@), cur@);
        let tok = toks[i].as_str();
        proof {
            assert(tokens(s@).take(i + 1).drop_last() == tokens(s@).take(i as int));
            assert(tok@ == text::texts(toks@)[i as int]);
            assert(tokens(s@).take(i + 1).last() == tok@);
        }
        let tok_w = self::width(tok);
        let cur_w = self::width(cur.as_str());
        if tok_w <= width && cur_w <= width - tok_w {
            cur = text::joined(cur.as_str(), tok);
        } else {
            let mut full = String::new();
            std::mem::swap(&mut full, &mut cur);
            flush(&mut lines, full);
            if tok_w > width {
                let mut pieces = hard_split(tok, width);
                proof {
                    if tok@.len() == 0 {
                        assert(columns(tok@) == 0);
                    }
                    chunked_has_last(tok@, width as nat);
                }
                let ghost all = text::texts(pieces@);
                match pieces.pop() {
                    Some(last) => {
                        assert(last@ == all.last());
                        assert(text::texts(pieces@) =~= all.drop_last());
                        assert(all.drop_last() =~= chunked(tok@, width as nat).0);
                        let ghost before = text::texts(lines@);
                        let ghost more = text::texts(pieces@);
                        lines.append(&mut pieces);
                        assert(text::texts(lines@) =~= before + more);
                        cur = last;
                    },
                    None => {
                        assert(all.len() > 0);
                    },
                }
            } else {
                cur = tok.to_owned();
            }
        }
        i += 1;
    }
    assert(tokens(s@).take(i as int) == tokens(s@));
    flush(&mut lines, cur);
    let ghost all = text::texts(lines@);
    if lines.len() > max_lines {
        lines.truncate(max_lines);
        assert(text::texts(lines@) =~= all.take(max_lines as int));
        match lines.pop() {
            Some(mut last) => {
                let ghost line = all[max_lines - 1];
                assert(last@ == line);
                assert(text::texts(lines@) =~= all.take(max_lines - 1));
                while !last.as_str().is_empty() && self::width(last.as_str()) >= width
                    invariant
                        shortened(last@, width as nat) == shortened(line, width as nat),
                    decreases last@.len(),
                {
                    last.pop();
                }
                assert(last@ == shortened(line, width as nat));
                last.push('\u{2026}');
                let ghost before = text::texts(lines@);
                let ghost marked = last@;
                lines.push(last);
                assert(text::texts(lines@) =~= before.push(marked));
            },
            None => {},
        }
    }
    lines
}

/// Pieces of text put back together.
pub open spec fn run_together(pieces: Seq<Seq<char>>) -> Seq<char>
    decreases pieces.len(),
{
    if pieces.len() == 0 {
        Seq::empty()
    } else {
        run_together(pieces.drop_last()) + pieces.last()
    }
}

pub(crate) proof fn run_together_push(pieces: Seq<Seq<char>>, p: Seq<char>)
    ensures
        run_together(pieces.push(p)) == run_together(pieces) + p,
{
    assert(pieces.push(p).drop_last() == pieces);
}

proof fn run_together_closed_off(p: (Seq<Seq<char>>, Seq<char>))
    ensures
        run_together(closed_off(p)) == run_together(p.0) + p.1,
{
    run_together_push(p.0, p.1);
    if p.1.len() == 0 {
        assert(run_together(p.0) + p.1 =~= run_together(p.0));
    }
}

proof fn run_together_concat(a: Seq<Seq<char>>, b: Seq<Seq<char>>)
    ensures
        run_together(a + b) == run_together(a) + run_together(b),
    decreases b.len(),
{
    if b.len() == 0 {
        assert(a + b =~= a);
        assert(run_together(a) + run_together(b) =~= run_together(a));
    } else {
        assert((a + b).drop_last() =~= a + b.drop_last());
        run_together_concat(a, b.drop_last());
        assert(run_together(a) + run_together(b.drop_last()) + b.last() =~= run_together(a) + (
        run_together(b.drop_last()) + b.last()));
    }
}

pub(crate) proof fn tokens_run_together(s: Seq<char>)
    ensures
        run_together(tokens(s)) == s,
        run_together(tokenised(s).0) + tokenised(s).1 == s,
    decreases s.len(),
{
    if s.len() > 0 {
        let (done, cur) = tokenised(s.drop_last());
        tokens_run_together(s.drop_last());
        assert(s =~= s.drop_last().push(s.last()));
        assert(run_together(done) + cur.push(s.last()) =~= (run_together(done) + cur).push(
            s.last(),
        ));
        run_together_push(done, cur.push(s.last()));
        if is_break(s.last()) {
            assert(run_together(done.push(cur.push(s.last()))) + Seq::<char>::empty()
                =~= run_together(done.push(cur.push(s.last()))));
        }
    }
    run_together_closed_off(tokenised(s));
}

proof fn chunks_run_together(s: Seq<char>, width: nat)
    ensures
        run_together(chunked(s, width).0) + chunked(s, width).1 == s,
    decreases s.len(),
{
    if s.len() > 0 {
        let (done, cur) = chunked(s.drop_last(), width);
        chunks_run_together(s.drop_last(), width);
        assert(s =~= s.drop_last().push(s.last()));
        run_together_push(done, cur);
        assert(run_together(done) + cur.push(s.last()) =~= (run_together(done) + cur).push(
            s.last(),
        ));
        assert(run_together(done) + cur + seq![s.last()] =~= (run_together(done) + cur).push(
            s.last(),
        ));
    }
}

proof fn filled_runs_together(toks: Seq<Seq<char>>, width: nat)
    ensures
        run_together(filled(toks, width).0) + filled(toks, width).1 == run_together(toks),
    decreases toks.len(),
{
    if toks.len() > 0 {
        let page = filled(toks.drop_last(), width);
        let tok = toks.last();
        filled_runs_together(toks.drop_last(), width);
        run_together_closed_off(page);
        chunks_run_together(tok, width);
        run_together_concat(closed_off(page), chunked(tok, width).0);
        assert(run_together(page.0) + (page.1 + tok) =~= run_together(page.0) + page.1 + tok);
        assert(run_together(closed_off(page)) + run_together(chunked(tok, width).0) + chunked(
            tok,
            width,
        ).1 =~= run_together(closed_off(page)) + (run_together(chunked(tok, width).0) + chunked(
            tok,
            width,
        ).1));
    }
}

/// Nothing is lost: the lines of a text put back together are the text.
pub proof fn lines_lose_nothing(s: Seq<char>, width: nat)
    ensures
        run_together(lines_of(s, width)) == s,
{
    tokens_run_together(s);
    filled_runs_together(tokens(s), width);
    run_together_closed_off(filled(tokens(s), width));
}

spec fn all_fit(lines: Seq<Seq<char>>, width: nat) -> bool {
    forall|i: int| 0 <= i < lines.len() ==> columns(#[trigger] lines[i]) <= width
}

spec fn none_wider(s: Seq<char>, width: nat) -> bool {
    forall|i: int| 0 <= i < s.len() ==> char_columns(#[trigger] s[i]) <= width
}

proof fn chunks_fit(s: Seq<char>, width: nat)
    requires
        none_wider(s, width),
    ensures
        all_fit(chunked(s, width).0, width),
        columns(chunked(s, width).1) <= width,
    decreases s.len(),
{
    if s.len() > 0 {
        let (done, cur) = chunked(s.drop_last(), width);
        assert(none_wider(s.drop_last(), width)) by {
            assert forall|i: int| 0 <= i < s.drop_last().len() implies char_columns(
                #[trigger] s.drop_last()[i],
            ) <= width by {
                assert(s[i] == s.drop_last()[i]);
            }
        }
        chunks_fit(s.drop_last(), width);
        assert(char_columns(s[s.len() - 1]) <= width);
        assert(cur.push(s.last()).drop_last() =~= cur);
        assert(columns(cur.push(s.last())) == columns(cur) + char_columns(s.last()));
        assert(seq![s.last()].drop_last() =~= Seq::<char>::empty());
        assert(columns(seq![s.last()]) == columns(seq![s.last()].drop_last()) + char_columns(
            seq![s.last()].last(),
        ));
        if cur.len() == 0 {
            assert(columns(cur) == 0);
        }
    }
}

proof fn tokens_none_wider(s: Seq<char>, width: nat)
    requires
        none_wider(s, width),
    ensures
        forall|i: int| 0 <= i < tokens(s).len() ==> none_wider(#[trigger] tokens(s)[i], width),
        forall|i: int|
            0 <= i < tokenised(s).0.len() ==> none_wider(#[trigger] tokenised(s).0[i], width),
        none_wider(tokenised(s).1, width),
    decreases s.len(),
{
    if s.len() > 0 {
        let (done, cur) = tokenised(s.drop_last());
        assert(none_wider(s.drop_last(), width)) by {
            assert forall|i: int| 0 <= i < s.drop_last().len() implies char_columns(
                #[trigger] s.drop_last()[i],
            ) <= width by {
                assert(s[i] == s.drop_last()[i]);
            }
        }
        tokens_none_wider(s.drop_last(), width);
        let more = cur.push(s.last());
        assert(none_wider(more, width)) by {
            assert(char_columns(s[s.len() - 1]) <= width);
            assert forall|i: int| 0 <= i < more.len() implies char_columns(#[trigger] more[i])
                <= width by {
                if i < cur.len() {
                    assert(more[i] == cur[i]);
                }
            }
        }
    }
}

proof fn filled_fits(toks: Seq<Seq<char>>, width: nat)
    requires
        forall|i: int| 0 <= i < toks.len() ==> none_wider(#[trigger] toks[i], width),
    ensures
        all_fit(filled(toks, width).0, width),
        columns(filled(toks, width).1) <= width,
    decreases toks.len(),
{
    if toks.len() > 0 {
        let page = filled(toks.drop_last(), width);
        let tok = toks.last();
        assert forall|i: int| 0 <= i < toks.drop_last().len() implies none_wider(
            #[trigger] toks.drop_last()[i],
            width,
        ) by {
            assert(toks[i] == toks.drop_last()[i]);
        }
        filled_fits(toks.drop_last(), width);
        columns_of_concat(page.1, tok);
        assert(none_wider(toks[toks.len() - 1], width));
        chunks_fit(tok, width);
    }
}

proof fn shortened_fits(line: Seq<char>, width: nat)
    requires
        width > 0,
    ensures
        columns(shortened(line, width)) < width,
        shortened(line, width).is_prefix_of(line),
    decreases line.len(),
{
    if line.len() > 0 && columns(line) >= width {
        shortened_fits(line.drop_last(), width);
    }
}

/// Every line fits, given that every character does. The ellipsis counts as one
/// column: a line that was cut short leaves that one free for it.
pub proof fn lines_fit(s: Seq<char>, width: nat, max_lines: nat)
    requires
        forall|i: int| 0 <= i < s.len() ==> char_columns(#[trigger] s[i]) <= width,
    ensures
        lines_of(s, width).len() <= max_lines ==> forall|i: int|
            0 <= i < wrapped(s, width, max_lines).len() ==> columns(
                #[trigger] wrapped(s, width, max_lines)[i],
            ) <= width,
        lines_of(s, width).len() > max_lines ==> forall|i: int|
            0 <= i < wrapped(s, width, max_lines).len() ==> if i < max_lines - 1 {
                columns(#[trigger] wrapped(s, width, max_lines)[i]) <= width
            } else {
                columns(wrapped(s, width, max_lines)[i].drop_last()) <= width - 1
            },
{
    assert(none_wider(s, width));
    tokens_none_wider(s, width);
    filled_fits(tokens(s), width);
    let all = lines_of(s, width);
    assert(all_fit(all, width));
    if width > 0 && 0 < max_lines < all.len() {
        shortened_fits(all[max_lines - 1], width);
        assert(ellipsized(all[max_lines - 1], width).drop_last() =~= shortened(
            all[max_lines - 1],
            width,
        ));
    }
}

/// Where a text has more lines than may be shown, those shown are its first
/// ones, and the last of them ends in an ellipsis behind a beginning of its
/// line. Otherwise they are all its lines.
pub proof fn truncation_is_marked(s: Seq<char>, width: nat, max_lines: nat)
    requires
        width > 0,
        max_lines > 0,
    ensures
        ({
            let all = lines_of(s, width);
            let shown = wrapped(s, width, max_lines);
            if all.len() <= max_lines {
                run_together(shown) == s
            } else {
                &&& shown.len() == max_lines
                &&& shown.drop_last() == all.take(max_lines - 1)
                &&& shown.last().last() == '\u{2026}'
                &&& shown.last().drop_last().is_prefix_of(all[max_lines - 1])
            }
        }),
{
    lines_lose_nothing(s, width);
    let all = lines_of(s, width);
    if all.len() > max_lines {
        shortened_fits(all[max_lines - 1], width);
        assert(ellipsized(all[max_lines - 1], width).drop_last() =~= shortened(
            all[max_lines - 1],
            width,
        ));
        assert(wrapped(s, width, max_lines).drop_last() =~= all.take(max_lines - 1));
    }
}

spec fn none_empty(lines: Seq<Seq<char>>) -> bool {
    forall|i: int| 0 <= i < lines.len() ==> (#[trigger] lines[i]).len() > 0
}

proof fn no_empty_chunk(s: Seq<char>, width: nat)
    ensures
        none_empty(chunked(s, width).0),
    decreases s.len(),
{
    if s.len() > 0 {
        no_empty_chunk(s.drop_last(), width);
    }
}

proof fn no_empty_filled(toks: Seq<Seq<char>>, width: nat)
    ensures
        none_empty(filled(toks, width).0),
    decreases toks.len(),
{
    if toks.len() > 0 {
        no_empty_filled(toks.drop_last(), width);
        no_empty_chunk(toks.last(), width);
    }
}

/// No line is empty.
pub proof fn no_line_is_empty(s: Seq<char>, width: nat, max_lines: nat)
    ensures
        forall|i: int|
            0 <= i < wrapped(s, width, max_lines).len() ==> (#[trigger] wrapped(
                s,
                width,
                max_lines,
            )[i]).len() > 0,
{
    no_empty_filled(tokens(s), width);
    let all = lines_of(s, width);
    assert forall|i: int| 0 <= i < all.len() implies (#[trigger] all[i]).len() > 0 by {
        if i < filled(tokens(s), width).0.len() {
            assert(all[i] == filled(tokens(s), width).0[i]);
        }
    }
}

spec fn ends_in_break(s: Seq<char>) -> bool {
    s.len() > 0 && is_break(s.last())
}

proof fn complete_tokens_end_in_break(s: Seq<char>)
    ensures
        forall|i: int|
            0 <= i < tokenised(s).0.len() ==> ends_in_break(#[trigger] tokenised(s).0[i]),
    decreases s.len(),
{
    if s.len() > 0 {
        complete_tokens_end_in_break(s.drop_last());
        let (done, cur) = tokenised(s.drop_last());
        assert forall|i: int| 0 <= i < tokenised(s).0.len() implies ends_in_break(
            #[trigger] tokenised(s).0[i],
        ) by {
            if i < done.len() {
                assert(tokenised(s).0[i] == tokenised(s.drop_last()).0[i]);
            } else {
                assert(tokenised(s).0[i] == cur.push(s.last()));
            }
        }
    }
}

proof fn filled_ends_in_break(toks: Seq<Seq<char>>, width: nat)
    requires
        forall|i: int|
            0 <= i < toks.len() ==> ends_in_break(#[trigger] toks[i]) && columns(toks[i]) <= width,
    ensures
        forall|i: int|
            0 <= i < filled(toks, width).0.len() ==> ends_in_break(
                #[trigger] filled(toks, width).0[i],
            ),
        filled(toks, width).1.len() > 0 ==> ends_in_break(filled(toks, width).1),
    decreases toks.len(),
{
    if toks.len() > 0 {
        assert forall|i: int| 0 <= i < toks.drop_last().len() implies ends_in_break(
            #[trigger] toks.drop_last()[i],
        ) && columns(toks.drop_last()[i]) <= width by {
            assert(toks[i] == toks.drop_last()[i]);
        }
        filled_ends_in_break(toks.drop_last(), width);
        assert(ends_in_break(toks[toks.len() - 1]));
        let page = filled(toks.drop_last(), width);
        assert((page.1 + toks.last()).last() == toks.last().last());
    }
}

/// Lines end softly: where every token fits a line, every line but the last one
/// of the text ends at a separator.
pub proof fn lines_end_at_separators(s: Seq<char>, width: nat)
    requires
        forall|i: int| 0 <= i < tokens(s).len() ==> columns(#[trigger] tokens(s)[i]) <= width,
    ensures
        forall|i: int|
            0 <= i < lines_of(s, width).len() - 1 ==> (#[trigger] lines_of(s, width)[i]).len() > 0
                && is_break(lines_of(s, width)[i].last()),
{
    complete_tokens_end_in_break(s);
    let toks = tokens(s);
    let (done, rest) = tokenised(s);
    assert forall|i: int| 0 <= i < done.len() implies ends_in_break(#[trigger] done[i]) && columns(
        done[i],
    ) <= width by {
        assert(toks[i] == done[i]);
    }
    filled_ends_in_break(done, width);
    if rest.len() > 0 {
        assert(toks.drop_last() =~= done);
        assert(columns(toks[toks.len() - 1]) <= width);
    }
    let all = lines_of(s, width);
    assert forall|i: int| 0 <= i < all.len() - 1 implies ends_in_break(#[trigger] all[i]) by {
        let page = filled(done, width);
        let off = closed_off(page);
        assert forall|j: int| 0 <= j < off.len() implies ends_in_break(#[trigger] off[j]) by {
            if j < page.0.len() {
                assert(off[j] == page.0[j]);
            }
        }
        if rest.len() == 0 {
            assert(all == off);
        } else if columns(page.1) + columns(rest) <= width {
            assert(all[i] == page.0[i]);
        } else {
            assert(all[i] == off[i]);
        }
    }
}

} // verus!
