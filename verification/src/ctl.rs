//! The session a control command goes to.
use crate::host::opt_text;
use vstd::prelude::*;

verus! {

/// The session that was asked for, else the one the environment names. An empty
/// name is none, and one that was asked for is not made up for.
pub open spec fn session_for(requested: Option<Seq<char>>, env: Option<Seq<char>>) -> Option<
    Seq<char>,
> {
    let session = if requested is Some {
        requested
    } else {
        env
    };
    match session {
        Some(s) => if s.len() > 0 {
            session
        } else {
            None
        },
        None => None,
    }
}

/// What is said where there is none.
pub fn no_session_message() -> (r: &'static str)
    ensures
        r@ == "zellijctl: no session (pass --session or set ZELLIJ_SESSION_NAME)"@,
{
    "zellijctl: no session (pass --session or set ZELLIJ_SESSION_NAME)"
}

pub fn target_session(requested: Option<String>, env: Option<String>) -> (r: Option<String>)
    ensures
        opt_text(r) == session_for(opt_text(requested), opt_text(env)),
{
    let session = match requested {
        Some(s) => Some(s),
        None => env,
    };
    match session {
        Some(s) => if s.as_str().is_empty() {
            None
        } else {
            Some(s)
        },
        None => None,
    }
}

/// A session that was asked for by name is taken, whatever the environment says; an
/// empty name asked for is none. Without a request the environment's is taken, unless it
/// is empty.
pub proof fn the_request_goes_before_the_environment(
    requested: Seq<char>,
    env: Option<Seq<char>>,
    other: Option<Seq<char>>,
)
    ensures
        session_for(Some(requested), env) == session_for(Some(requested), other),
        requested.len() > 0 ==> session_for(Some(requested), env) == Some(requested),
        requested.len() == 0 ==> session_for(Some(requested), env) is None,
        env matches Some(s) ==> s.len() > 0 ==> session_for(None, env) == Some(s),
        env matches Some(s) ==> s.len() == 0 ==> session_for(None, env) is None,
        env is None ==> session_for(None, env) is None,
{
}

} // verus!
