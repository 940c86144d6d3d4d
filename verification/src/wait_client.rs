//! Wait until a pane's output matches a pattern.
//!
//! The client subscribes to the pane's renders; what is here decides, message by
//! message, whether the wait is over and with what exit status.
use self::engine::{compile, is_match, Pattern};
use crate::host::opt_text;
use crate::text;
use crate::text::{chars_of, joined, push_decimal};
use vstd::prelude::*;
use vstd::string::*;

pub mod engine;
pub mod laws;

verus! {

pub const MATCHED: i32 = 0;

pub const TIMED_OUT: i32 = 1;

pub const FAILED: i32 = 2;

/// What the command line asks for.
#[derive(Debug)]
pub struct WaitCli {
    pub regex: Option<String>,
    pub match_text: Option<String>,
    pub pane_id: String,
    /// In milliseconds.
    pub timeout: Option<u64>,
    pub print_match: bool,
}

/// What is waited for.
#[derive(Debug)]
pub enum Matcher {
    Regex(Pattern),
    Literal(String),
}

pub ghost enum MatcherView {
    Regex(Seq<char>),
    Literal(Seq<char>),
}

impl View for Matcher {
    type V = MatcherView;

    open spec fn view(&self) -> MatcherView {
        match self {
            Matcher::Regex(p) => MatcherView::Regex(p.source()),
            Matcher::Literal(s) => MatcherView::Literal(s@),
        }
    }
}

/// Whether one text stands somewhere in another.
pub open spec fn occurs(needle: Seq<char>, hay: Seq<char>) -> bool {
    exists|i: int|
        0 <= i <= hay.len() - needle.len() && #[trigger] hay.subrange(i, i + needle.len()) == needle
}

/// Whether a text is what is waited for.
pub open spec fn answers(m: MatcherView, text: Seq<char>) -> bool {
    match m {
        MatcherView::Literal(s) => occurs(s, text),
        MatcherView::Regex(p) => engine::regex_found(p, text),
    }
}

/// What a matcher is called in messages.
pub open spec fn described(m: MatcherView) -> Seq<char> {
    match m {
        MatcherView::Regex(p) => seq!['/'] + p + seq!['/'],
        MatcherView::Literal(s) => seq!['\''] + s + seq!['\''],
    }
}

pub open spec fn refusal_text(pattern: Seq<char>, why: Seq<char>) -> Seq<char> {
    "Invalid --regex '"@ + pattern + "': "@ + why
}

/// What became of a command line's regex: the pattern where it was taken, else
/// pattern and reason.
pub type Compiled = Result<Seq<char>, (Seq<char>, Seq<char>)>;

/// The matcher of a command line, given what became of its regex, if it has one.
/// A regex goes before a literal.
pub open spec fn chosen(
    regex: Option<Compiled>,
    literal: Option<Seq<char>>,
) -> Result<MatcherView, Seq<char>> {
    match regex {
        Some(Ok(p)) => Ok(MatcherView::Regex(p)),
        Some(Err((p, why))) => Err(refusal_text(p, why)),
        None => match literal {
            Some(s) => Ok(MatcherView::Literal(s)),
            None => Err("Pass either --regex or --match"@),
        },
    }
}

/// What can become of a command line's regex: it is taken as it stands, or
/// refused.
pub open spec fn compiles_to(regex: Option<Seq<char>>, compiled: Option<Compiled>) -> bool {
    match (regex, compiled) {
        (None, None) => true,
        (Some(p), Some(Ok(q))) => p == q,
        (Some(p), Some(Err((q, _)))) => p == q,
        _ => false,
    }
}

/// A regex that was refused, and why.
#[derive(Debug)]
pub struct Refused {
    pub pattern: String,
    pub why: String,
}

pub open spec fn compiled_view(c: Option<Result<Pattern, Refused>>) -> Option<Compiled> {
    match c {
        Some(Ok(p)) => Some(Ok(p.source())),
        Some(Err(e)) => Some(Err((e.pattern@, e.why@))),
        None => None,
    }
}

pub open spec fn result_view(r: Result<Matcher, String>) -> Result<MatcherView, Seq<char>> {
    match r {
        Ok(m) => Ok(m@),
        Err(e) => Err(e@),
    }
}

fn contains(hay: &str, needle: &str) -> (r: bool)
    ensures
        r == occurs(needle@, hay@),
{
    let h = chars_of(hay);
    let n = chars_of(needle);
    if n.len() > h.len() {
        return false;
    }
    let last = h.len() - n.len();
    let mut i: usize = 0;
    loop
        invariant
            i <= last,
            last + n.len() == h.len(),
            h@ == hay@,
            n@ == needle@,
            forall|k: int| 0 <= k < i ==> #[trigger] hay@.subrange(k, k + needle@.len()) != needle@,
        decreases last - i,
    {
        let mut j: usize = 0;
        while j < n.len() && h[i + j] == n[j]
            invariant
                j <= n.len(),
                i <= last,
                last + n.len() == h.len(),
                forall|k: int| 0 <= k < j ==> h@[i + k] == n@[k],
            decreases n.len() - j,
        {
            j += 1;
        }
        if j == n.len() {
            assert(hay@.subrange(i as int, i + needle@.len()) =~= needle@);
            return true;
        }
        assert(hay@.subrange(i as int, i + needle@.len())[j as int] == h@[i + j]);
        assert(hay@.subrange(i as int, i + needle@.len()) != needle@);
        if i == last {
            assert forall|k: int|
                0 <= k <= hay@.len() - needle@.len() implies #[trigger] hay@.subrange(
                k,
                k + needle@.len(),
            ) != needle@ by {}
            return false;
        }
        i += 1;
    }
}

/// Compile a command line's regex, if it has one.
fn compile_regex(regex: &Option<String>) -> (r: Option<Result<Pattern, Refused>>)
    ensures
        compiles_to(opt_text(*regex), compiled_view(r)),
{
    match regex {
        Some(pattern) => match compile(pattern.as_str()) {
            Ok(p) => Some(Ok(p)),
            Err(why) => Some(Err(Refused { pattern: pattern.clone(), why })),
        },
        None => None,
    }
}

impl Matcher {
    /// The matcher of a command line, given what became of its regex, if it has
    /// one.
    pub fn pick(
        regex: Option<Result<Pattern, Refused>>,
        match_text: &Option<String>,
    ) -> (r: Result<Matcher, String>)
        ensures
            result_view(r) == chosen(compiled_view(regex), opt_text(*match_text)),
    {
        match regex {
            Some(Ok(pattern)) => Ok(Matcher::Regex(pattern)),
            Some(Err(refused)) => {
                let mut msg = joined("Invalid --regex '", refused.pattern.as_str());
                msg.append("': ");
                msg.append(refused.why.as_str());
                Err(msg)
            },
            None => match match_text {
                Some(literal) => Ok(Matcher::Literal(literal.clone())),
                None => Err("Pass either --regex or --match".to_owned()),
            },
        }
    }

    /// The matcher of a command line. Without a regex nothing outside decides;
    /// with one, it is taken or refused with a message.
    pub fn new(cli: &WaitCli) -> (r: Result<Matcher, String>)
        ensures
            exists|compiled: Option<Compiled>|
                compiles_to(opt_text(cli.regex), compiled) && result_view(r) == #[trigger] chosen(
                    compiled,
                    opt_text(cli.match_text),
                ),
    {
        let compiled = compile_regex(&cli.regex);
        let ghost c = compiled_view(compiled);
        let r = Matcher::pick(compiled, &cli.match_text);
        assert(result_view(r) == chosen(c, opt_text(cli.match_text)));
        r
    }

    /// Whether contents match, given what the regex engine answers on them: a
    /// literal is looked for here.
    pub fn judge(&self, contents: &str, regex_answer: bool) -> (r: bool)
        ensures
            r == (match self@ {
                MatcherView::Regex(_) => regex_answer,
                MatcherView::Literal(literal) => occurs(literal, contents@),
            }),
    {
        match self {
            Matcher::Regex(_) => regex_answer,
            Matcher::Literal(literal) => contains(contents, literal.as_str()),
        }
    }

    /// Whether the pane's contents match: scrollback and viewport joined with
    /// newlines, so that a pattern may span what the terminal has wrapped.
    pub fn matches(&self, contents: &str) -> (r: bool)
        ensures
            r == answers(self@, contents@),
    {
        let regex_answer = match self {
            Matcher::Regex(pattern) => is_match(pattern, contents),
            Matcher::Literal(_) => false,
        };
        self.judge(contents, regex_answer)
    }

    /// What is waited for, in messages.
    pub fn description(&self) -> (r: String)
        ensures
            r@ == described(self@),
    {
        let mut out = String::new();
        match self {
            Matcher::Regex(pattern) => {
                out.push('/');
                out.append(pattern.as_str());
                out.push('/');
            },
            Matcher::Literal(literal) => {
                out.push('\'');
                out.append(literal.as_str());
                out.push('\'');
            },
        }
        assert(out@ =~= described(self@));
        out
    }
}

/// What the server sends.
#[derive(Debug)]
pub enum ServerMsg {
    PaneRenderUpdate { viewport: Vec<String>, scrollback: Option<Vec<String>> },
    SubscribedPaneClosed,
    LogError { lines: Vec<String> },
    /// The session has ended, or the connection has.
    Exit,
    Other,
}

/// What the server is asked to report.
#[derive(Debug)]
pub struct Subscription {
    pub pane_ids: Vec<String>,
    /// How many lines of scrollback.
    pub scrollback: Option<usize>,
    /// Whether with escape sequences.
    pub ansi: bool,
}

/// The renders of one pane: no scrollback, no escape sequences. The pane's current
/// contents are delivered before any new render, so that a pattern that matched
/// already is still seen.
pub fn subscription(pane_id: &str) -> (r: Subscription)
    ensures
        text::texts(r.pane_ids@) == seq![pane_id@],
        r.scrollback == Some(0usize),
        r.ansi == false,
{
    Subscription { pane_ids: one_line(pane_id.to_owned()), scrollback: Some(0), ansi: false }
}

/// How a wait ends.
#[derive(Debug)]
pub struct Exit {
    /// Lines for standard output.
    pub stdout: Vec<String>,
    /// Lines for standard error.
    pub stderr: Vec<String>,
    /// Whether the server is told that the client leaves.
    pub tell_server: bool,
    pub status: i32,
}

#[verifier::ext_equal]
pub ghost struct ExitView {
    pub stdout: Seq<Seq<char>>,
    pub stderr: Seq<Seq<char>>,
    pub tell_server: bool,
    pub status: i32,
}

impl View for Exit {
    type V = ExitView;

    open spec fn view(&self) -> ExitView {
        ExitView {
            stdout: text::texts(self.stdout@),
            stderr: text::texts(self.stderr@),
            tell_server: self.tell_server,
            status: self.status,
        }
    }
}

pub open spec fn exit_view(e: Option<Exit>) -> Option<ExitView> {
    match e {
        Some(e) => Some(e@),
        None => None,
    }
}

/// Lines joined with newlines.
pub open spec fn with_newlines(lines: Seq<Seq<char>>) -> Seq<char>
    decreases lines.len(),
{
    if lines.len() == 0 {
        Seq::empty()
    } else if lines.len() == 1 {
        lines[0]
    } else {
        with_newlines(lines.drop_last()) + seq!['\n'] + lines.last()
    }
}

/// A pane's contents: the scrollback, where there is any, and the viewport.
pub open spec fn contents(viewport: Seq<Seq<char>>, scrollback: Option<Seq<Seq<char>>>) -> Seq<
    Seq<char>,
> {
    match scrollback {
        Some(s) => s + viewport,
        None => viewport,
    }
}

/// The lines for which the answer was yes.
pub open spec fn picked(lines: Seq<Seq<char>>, found: Seq<bool>) -> Seq<Seq<char>>
    decreases lines.len(),
{
    if lines.len() == 0 {
        Seq::empty()
    } else {
        let before = picked(lines.drop_last(), found);
        if found[lines.len() - 1] {
            before.push(lines.last())
        } else {
            before
        }
    }
}

/// How a wait ends on a render, given whether the contents as a whole match and
/// which lines do. The lines are only asked for where they are to be printed.
pub open spec fn after_render(
    lines: Seq<Seq<char>>,
    found: bool,
    line_found: Seq<bool>,
    print_match: bool,
) -> Option<ExitView> {
    if found {
        Some(
            ExitView {
                stdout: if print_match {
                    picked(lines, line_found)
                } else {
                    Seq::empty()
                },
                stderr: Seq::empty(),
                tell_server: true,
                status: MATCHED,
            },
        )
    } else {
        None
    }
}

pub open spec fn failed(stderr: Seq<Seq<char>>) -> ExitView {
    ExitView { stdout: Seq::empty(), stderr, tell_server: false, status: FAILED }
}

pub open spec fn closed_text(pane: Seq<char>, m: MatcherView) -> Seq<char> {
    "Pane "@ + pane + " closed before "@ + described(m) + " matched"@
}

pub open spec fn ended_text(session: Seq<char>, m: MatcherView) -> Seq<char> {
    "Session '"@ + session + "' ended before "@ + described(m) + " matched"@
}

fn join_lines(lines: &Vec<String>) -> (r: String)
    ensures
        r@ == with_newlines(text::texts(lines@)),
{
    let ghost all = text::texts(lines@);
    let mut out = String::new();
    let mut i: usize = 0;
    proof {
        assert(all.take(0) =~= Seq::<Seq<char>>::empty());
        assert(out@ =~= Seq::<char>::empty());
    }
    while i < lines.len()
        invariant
            i <= lines.len(),
            all == text::texts(lines@),
            out@ == with_newlines(all.take(i as int)),
        decreases lines.len() - i,
    {
        proof {
            assert(all.take(i + 1).drop_last() =~= all.take(i as int));
            assert(all[i as int] == lines@[i as int]@);
        }
        let ghost before = out@;
        if i > 0 {
            out.push('\n');
        }
        out.append(lines[i].as_str());
        assert(out@ =~= (if i > 0 {
            before + seq!['\n'] + all[i as int]
        } else {
            all[i as int]
        }));
        i += 1;
    }
    assert(all.take(i as int) =~= all);
    out
}

fn one_line(s: String) -> (r: Vec<String>)
    ensures
        text::texts(r@) == seq![s@],
{
    let ghost t = s@;
    let mut v: Vec<String> = Vec::new();
    v.push(s);
    assert(text::texts(v@) =~= seq![t]);
    v
}

fn no_lines() -> (r: Vec<String>)
    ensures
        text::texts(r@) == Seq::<Seq<char>>::empty(),
{
    let v: Vec<String> = Vec::new();
    assert(text::texts(v@) =~= Seq::<Seq<char>>::empty());
    v
}

/// How a wait ends on a render, given the matcher's answers.
pub fn decide_render(
    lines: &Vec<String>,
    found: bool,
    line_found: &Vec<bool>,
    print_match: bool,
) -> (r: Option<Exit>)
    requires
        print_match && found ==> line_found.len() == lines.len(),
    ensures
        exit_view(r) == after_render(text::texts(lines@), found, line_found@, print_match),
{
    if !found {
        return None;
    }
    let ghost all = text::texts(lines@);
    let mut stdout = no_lines();
    if print_match {
        let mut i: usize = 0;
        assert(all.take(0) =~= Seq::<Seq<char>>::empty());
        while i < lines.len()
            invariant
                i <= lines.len(),
                line_found.len() == lines.len(),
                all == text::texts(lines@),
                text::texts(stdout@) == picked(all.take(i as int), line_found@),
            decreases lines.len() - i,
        {
            proof {
                assert(all.take(i + 1).drop_last() =~= all.take(i as int));
                assert(all[i as int] == lines@[i as int]@);
            }
            if line_found[i] {
                let ghost before = text::texts(stdout@);
                stdout.push(lines[i].clone());
                assert(text::texts(stdout@) =~= before.push(all[i as int]));
            }
            i += 1;
        }
        assert(all.take(i as int) =~= all);
    }
    Some(Exit { stdout, stderr: no_lines(), tell_server: true, status: MATCHED })
}

fn copy_lines(lines: &Vec<String>, out: &mut Vec<String>)
    ensures
        text::texts(final(out)@) == text::texts(old(out)@) + text::texts(lines@),
{
    let ghost all = text::texts(lines@);
    let ghost before = text::texts(out@);
    let mut i: usize = 0;
    assert(before =~= before + all.take(0));
    while i < lines.len()
        invariant
            i <= lines.len(),
            all == text::texts(lines@),
            text::texts(out@) == before + all.take(i as int),
        decreases lines.len() - i,
    {
        let ghost held = text::texts(out@);
        out.push(lines[i].clone());
        proof {
            assert(all[i as int] == lines@[i as int]@);
            assert(text::texts(out@) =~= held.push(all[i as int]));
            assert(all.take(i + 1) =~= all.take(i as int).push(all[i as int]));
            assert(before + all.take(i + 1) =~= (before + all.take(i as int)).push(all[i as int]));
        }
        i += 1;
    }
    assert(all.take(i as int) =~= all);
}

pub open spec fn opt_texts(o: Option<Vec<String>>) -> Option<Seq<Seq<char>>> {
    match o {
        Some(v) => Some(text::texts(v@)),
        None => None,
    }
}

/// How a wait ends on a render, if it does: where the contents as a whole match,
/// with the lines that match by themselves.
pub open spec fn render_end(
    m: MatcherView,
    lines: Seq<Seq<char>>,
    print_match: bool,
) -> Option<ExitView> {
    after_render(
        lines,
        answers(m, with_newlines(lines)),
        Seq::new(lines.len(), |i: int| answers(m, lines[i])),
        print_match,
    )
}

/// Only the answers on the lines there are count.
proof fn picked_by_answers(lines: Seq<Seq<char>>, a: Seq<bool>, b: Seq<bool>)
    requires
        forall|i: int| 0 <= i < lines.len() ==> #[trigger] a[i] == b[i],
    ensures
        picked(lines, a) == picked(lines, b),
    decreases lines.len(),
{
    if lines.len() > 0 {
        picked_by_answers(lines.drop_last(), a, b);
        assert(a[lines.len() - 1] == b[lines.len() - 1]);
    }
}

impl Matcher {
    fn answer_lines(&self, lines: &Vec<String>) -> (r: Vec<bool>)
        ensures
            r.len() == lines.len(),
            forall|i: int| 0 <= i < lines.len() ==> #[trigger] r@[i] == answers(self@, lines@[i]@),
    {
        let mut out: Vec<bool> = Vec::new();
        let mut i: usize = 0;
        while i < lines.len()
            invariant
                i <= lines.len(),
                out.len() == i,
                forall|j: int| 0 <= j < i ==> #[trigger] out@[j] == answers(self@, lines@[j]@),
            decreases lines.len() - i,
        {
            let found = self.matches(lines[i].as_str());
            out.push(found);
            i += 1;
        }
        out
    }

    /// Take in a message from the server; how the wait ends, if it does.
    pub fn on_message(
        &self,
        msg: &ServerMsg,
        session_name: &str,
        pane_id: &str,
        print_match: bool,
    ) -> (r: Option<Exit>)
        ensures
            match *msg {
                ServerMsg::PaneRenderUpdate { viewport, scrollback } => exit_view(r) == render_end(
                    self@,
                    contents(text::texts(viewport@), opt_texts(scrollback)),
                    print_match,
                ),
                ServerMsg::SubscribedPaneClosed => exit_view(r) == Some(
                    failed(seq![closed_text(pane_id@, self@)]),
                ),
                ServerMsg::LogError { lines } => exit_view(r) == Some(
                    failed(text::texts(lines@)),
                ),
                ServerMsg::Exit => exit_view(r) == Some(
                    failed(seq![ended_text(session_name@, self@)]),
                ),
                ServerMsg::Other => r is None,
            },
    {
        match msg {
            ServerMsg::PaneRenderUpdate { viewport, scrollback } => {
                let mut lines = no_lines();
                if let Some(s) = scrollback {
                    copy_lines(s, &mut lines);
                }
                copy_lines(viewport, &mut lines);
                let ghost all = contents(text::texts(viewport@), opt_texts(*scrollback));
                assert(text::texts(lines@) =~= all);
                let found = self.matches(join_lines(&lines).as_str());
                let mut line_found: Vec<bool> = Vec::new();
                if found && print_match {
                    line_found = self.answer_lines(&lines);
                }
                let end = decide_render(&lines, found, &line_found, print_match);
                proof {
                    let by_line = Seq::new(all.len(), |i: int| answers(self@, all[i]));
                    if found && print_match {
                        assert forall|i: int| 0 <= i < all.len() implies #[trigger] line_found@[i]
                            == by_line[i] by {
                            assert(all[i] == lines@[i]@);
                        }
                        picked_by_answers(all, line_found@, by_line);
                    }
                }
                end
            },
            ServerMsg::SubscribedPaneClosed => {
                let mut line = joined("Pane ", pane_id);
                line.append(" closed before ");
                line.append(self.description().as_str());
                line.append(" matched");
                Some(
                    Exit {
                        stdout: no_lines(),
                        stderr: one_line(line),
                        tell_server: false,
                        status: FAILED,
                    },
                )
            },
            ServerMsg::LogError { lines } => {
                let mut stderr = no_lines();
                copy_lines(lines, &mut stderr);
                assert(text::texts(stderr@) =~= text::texts(lines@));
                Some(Exit { stdout: no_lines(), stderr, tell_server: false, status: FAILED })
            },
            ServerMsg::Exit => {
                let mut line = joined("Session '", session_name);
                line.append("' ended before ");
                line.append(self.description().as_str());
                line.append(" matched");
                Some(
                    Exit {
                        stdout: no_lines(),
                        stderr: one_line(line),
                        tell_server: false,
                        status: FAILED,
                    },
                )
            },
            ServerMsg::Other => None,
        }
    }

    /// How the wait ends when its time is up.
    pub fn on_timeout(&self, ms: u64) -> (r: Exit)
        ensures
            r@ == (ExitView {
                stdout: Seq::empty(),
                stderr: seq![
                    "Timed out after "@ + text::decimal(ms as nat) + "ms waiting for "@ + described(
                        self@,
                    ),
                ],
                tell_server: false,
                status: TIMED_OUT,
            }),
    {
        let mut line = "Timed out after ".to_owned();
        push_decimal(&mut line, ms);
        line.append("ms waiting for ");
        line.append(self.description().as_str());
        Exit {
            stdout: no_lines(),
            stderr: one_line(line),
            tell_server: false,
            status: TIMED_OUT,
        }
    }
}

/// What a command line that cannot be used ends with.
pub open spec fn refused_start(
    matcher: Result<MatcherView, Seq<char>>,
    pane_id: Seq<char>,
    pane_error: Option<Seq<char>>,
) -> Option<ExitView> {
    match matcher {
        Err(e) => Some(failed(seq![e])),
        Ok(_) => match pane_error {
            Some(e) => Some(failed(seq!["Invalid pane ID '"@ + pane_id + "': "@ + e])),
            None => None,
        },
    }
}

/// Start a wait, given what is wrong with the pane id, if anything. The pattern
/// is looked at first.
pub fn start(cli: &WaitCli, pane_error: &Option<String>) -> (r: Result<Matcher, Exit>)
    ensures
        exists|compiled: Option<Compiled>|
            {
                let m = #[trigger] chosen(compiled, opt_text(cli.match_text));
                &&& compiles_to(opt_text(cli.regex), compiled)
                &&& match r {
                    Ok(matcher) => refused_start(m, cli.pane_id@, opt_text(*pane_error)) is None && m
                        == Ok::<MatcherView, Seq<char>>(matcher@),
                    Err(exit) => refused_start(m, cli.pane_id@, opt_text(*pane_error)) == Some(
                        exit@,
                    ),
                }
            },
{
    let made = Matcher::new(cli);
    let ghost compiled = choose|compiled: Option<Compiled>|
        compiles_to(opt_text(cli.regex), compiled) && result_view(made) == #[trigger] chosen(
            compiled,
            opt_text(cli.match_text),
        );
    let ghost m = chosen(compiled, opt_text(cli.match_text));
    let matcher = match made {
        Ok(m) => m,
        Err(e) => {
            let exit = Exit {
                stdout: no_lines(),
                stderr: one_line(e),
                tell_server: false,
                status: FAILED,
            };
            assert(refused_start(m, cli.pane_id@, opt_text(*pane_error)) == Some(exit@));
            return Err(exit);
        },
    };
    if let Some(e) = pane_error {
        let mut line = joined("Invalid pane ID '", cli.pane_id.as_str());
        line.append("': ");
        line.append(e.as_str());
        let exit = Exit {
            stdout: no_lines(),
            stderr: one_line(line),
            tell_server: false,
            status: FAILED,
        };
        assert(refused_start(m, cli.pane_id@, opt_text(*pane_error)) == Some(exit@));
        return Err(exit);
    }
    Ok(matcher)
}

/// A render ends the wait exactly where what is waited for is found in the
/// contents joined with newlines. The wait has then succeeded, the server is told,
/// and exactly the lines that match by themselves are printed, where asked for.
pub proof fn a_wait_ends_where_the_pattern_is_found(
    m: MatcherView,
    lines: Seq<Seq<char>>,
    print_match: bool,
)
    ensures
        render_end(m, lines, print_match) is Some <==> answers(m, with_newlines(lines)),
        render_end(m, lines, print_match) matches Some(e) ==> e.status == MATCHED && e.tell_server
            && e.stderr.len() == 0 && e.stdout == (if print_match {
            lines.filter(|l: Seq<char>| answers(m, l))
        } else {
            Seq::empty()
        }),
{
    picked_is_filter(m, lines, lines.len() as int);
    assert(lines.take(lines.len() as int) =~= lines);
}

proof fn picked_is_filter(m: MatcherView, lines: Seq<Seq<char>>, n: int)
    requires
        0 <= n <= lines.len(),
    ensures
        picked(lines.take(n), Seq::new(lines.len(), |i: int| answers(m, lines[i])))
            == lines.take(n).filter(|l: Seq<char>| answers(m, l)),
    decreases n,
{
    let p = |l: Seq<char>| answers(m, l);
    if n == 0 {
        crate::seqs::filter_none(lines, p);
    } else {
        picked_is_filter(m, lines, n - 1);
        crate::seqs::filter_step(lines, p, n - 1);
        assert(lines.take(n).drop_last() =~= lines.take(n - 1));
    }
}

} // verus!
