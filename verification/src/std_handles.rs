//! Pointing a server's standard handles at its own console.
//!
//! A pane's shell inherits console handles, which mean "my console" and resolve
//! to the pane's own. Handles a launching shell has redirected are absolute
//! instead: every shell would read from and write to the same dead pipe.
use vstd::prelude::*;

verus! {

/// What to do next. `H` is a handle.
#[derive(Debug)]
pub enum Step<H> {
    /// Open the console's input and output, then go on with what came of it.
    Open(Repoint),
    /// Close these, try to create a console, then go on with whether that worked.
    CloseAndAllocate(Vec<H>, Allocating),
    /// Make these the standard handles: the first for input, the second for
    /// output and errors. They stay open for the life of the process.
    Use { input: H, output: H },
    /// Close these and leave everything as it is, with a warning.
    GiveUp(Vec<H>, Warning),
}

/// Why nothing was done.
#[derive(Clone, Copy, Debug, PartialEq, Eq, Structural)]
pub enum Warning {
    NoConsole,
    CannotOpen,
}

impl Warning {
    pub open spec fn says(self) -> Seq<char> {
        match self {
            Warning::NoConsole => "no console for the server process; ConPTY panes will inherit the launching shell's standard handles and their shells will exit immediately"@,
            Warning::CannotOpen => "allocated a console but could not open CONIN$/CONOUT$"@,
        }
    }

    pub fn text(&self) -> (r: &'static str)
        ensures
            r@ == self.says(),
    {
        match self {
            Warning::NoConsole => "no console for the server process; ConPTY panes will inherit the launching shell's standard handles and their shells will exit immediately",
            Warning::CannotOpen => "allocated a console but could not open CONIN$/CONOUT$",
        }
    }
}

/// Waiting for the console's handles.
#[derive(Debug)]
pub struct Repoint {
    /// Whether a console has been created for the purpose.
    pub allocated: bool,
}

/// Waiting for a console to be created.
#[derive(Debug)]
pub struct Allocating {}

/// The handles among two.
pub open spec fn opened<H>(a: Option<H>, b: Option<H>) -> Seq<H> {
    (match a {
        Some(h) => seq![h],
        None => Seq::empty(),
    }) + (match b {
        Some(h) => seq![h],
        None => Seq::empty(),
    })
}

fn collect_opened<H>(a: Option<H>, b: Option<H>) -> (r: Vec<H>)
    ensures
        r@ == opened(a, b),
{
    let mut v: Vec<H> = Vec::new();
    if let Some(h) = a {
        v.push(h);
    }
    if let Some(h) = b {
        v.push(h);
    }
    assert(v@ =~= opened(a, b));
    v
}

/// The first step.
pub fn repoint_std_handles_at_own_console<H>() -> (r: Step<H>)
    ensures
        r == Step::<H>::Open(Repoint { allocated: false }),
{
    Step::Open(Repoint { allocated: false })
}

impl Repoint {
    /// Go on with what came of opening the console. With both halves it is used.
    /// With less, what there is is closed, and a console is created once.
    pub fn after_open<H>(self, input: Option<H>, output: Option<H>) -> (r: Step<H>)
        ensures
            match (input, output) {
                (Some(i), Some(o)) => r == (Step::Use { input: i, output: o }),
                _ => if self.allocated {
                    r matches Step::GiveUp(v, w) && v@ == opened(input, output) && w
                        == Warning::CannotOpen
                } else {
                    r matches Step::CloseAndAllocate(v, _) && v@ == opened(input, output)
                },
            },
    {
        match (input, output) {
            (Some(i), Some(o)) => Step::Use { input: i, output: o },
            (i, o) => {
                let held = collect_opened(i, o);
                if self.allocated {
                    Step::GiveUp(held, Warning::CannotOpen)
                } else {
                    Step::CloseAndAllocate(held, Allocating {  })
                }
            },
        }
    }
}

impl Allocating {
    /// Go on with whether a console was created.
    pub fn after_allocate<H>(self, created: bool) -> (r: Step<H>)
        ensures
            if created {
                r == Step::<H>::Open(Repoint { allocated: true })
            } else {
                r matches Step::GiveUp(v, w) && v.len() == 0 && w == Warning::NoConsole
            },
    {
        if created {
            Step::Open(Repoint { allocated: true })
        } else {
            Step::GiveUp(Vec::new(), Warning::NoConsole)
        }
    }
}

/// What was opened is what there is of the two, the input's before the output's.
pub proof fn what_was_opened_is_what_there_is<H>(a: Option<H>, b: Option<H>, h: H)
    ensures
        opened(a, b).contains(h) <==> a == Some(h) || b == Some(h),
        a is Some ==> opened(a, b)[0] == a->0,
        a is Some && b is Some ==> opened(a, b).len() == 2 && opened(a, b)[1] == b->0,
        a is None && b is None ==> opened(a, b).len() == 0,
{
    let v = opened(a, b);
    if a is Some {
        assert(v[0] == a->0);
    }
    if b is Some {
        assert(v[v.len() - 1] == b->0);
    }
}

/// The warnings say what is missing: the console itself, or its handles.
pub proof fn warnings_say_what_is_missing()
    ensures
        Warning::NoConsole.says().take(10) == seq![
            'n', 'o', ' ', 'c', 'o', 'n', 's', 'o', 'l', 'e',
        ],
        Warning::CannotOpen.says() == seq![
            'a', 'l', 'l', 'o', 'c', 'a', 't', 'e', 'd', ' ', 'a', ' ', 'c', 'o', 'n', 's', 'o',
            'l', 'e', ' ', 'b', 'u', 't', ' ', 'c', 'o', 'u', 'l', 'd', ' ', 'n', 'o', 't', ' ',
            'o', 'p', 'e', 'n', ' ', 'C', 'O', 'N', 'I', 'N', '$', '/', 'C', 'O', 'N', 'O', 'U',
            'T', '$',
        ],
{
    reveal_strlit(
        "no console for the server process; ConPTY panes will inherit the launching shell's standard handles and their shells will exit immediately",
    );
    reveal_strlit("allocated a console but could not open CONIN$/CONOUT$");
    assert(Warning::NoConsole.says().take(10) =~= seq![
        'n', 'o', ' ', 'c', 'o', 'n', 's', 'o', 'l', 'e',
    ]);
    assert(Warning::CannotOpen.says() =~= seq![
        'a', 'l', 'l', 'o', 'c', 'a', 't', 'e', 'd', ' ', 'a', ' ', 'c', 'o', 'n', 's', 'o', 'l',
        'e', ' ', 'b', 'u', 't', ' ', 'c', 'o', 'u', 'l', 'd', ' ', 'n', 'o', 't', ' ', 'o', 'p',
        'e', 'n', ' ', 'C', 'O', 'N', 'I', 'N', '$', '/', 'C', 'O', 'N', 'O', 'U', 'T', '$',
    ]);
}

} // verus!
