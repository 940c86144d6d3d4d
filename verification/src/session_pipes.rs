//! Which session servers are bound right now, from the names in the Windows
//! pipe namespace.
//!
//! A pipe vanishes when its last handle closes, so its presence is proof that a
//! server is serving that session id. A marker file or a word in a registry is
//! none.
use crate::dict::Dict;
use crate::text;
use crate::text::{chars_of, has_prefix, has_suffix};
use vstd::prelude::*;

verus! {

/// The directory that every session's pipe is named under.
pub open spec fn pipe_prefix(sock_dir: Seq<char>) -> Seq<char> {
    if sock_dir.len() > 0 && sock_dir.last() == '\\' {
        sock_dir
    } else {
        sock_dir.push('\\')
    }
}

/// Whether a name in the namespace is that of a session's own pipe. A server
/// binds a second one for its replies, which is not the session's identity.
pub open spec fn names_session(name: Seq<char>, prefix: Seq<char>, id: Seq<char>) -> bool {
    name == prefix + id && !"-reply"@.is_suffix_of(name) && !id.contains('\\')
}

/// The sessions that are bound.
pub open spec fn bound_sessions(names: Seq<Seq<char>>, prefix: Seq<char>) -> Set<Seq<char>> {
    Set::new(
        |id: Seq<char>|
            exists|i: int| 0 <= i < names.len() && names_session(#[trigger] names[i], prefix, id),
    )
}

fn session_of(name: &str, prefix: &str) -> (r: Option<String>)
    ensures
        match r {
            Some(id) => names_session(name@, prefix@, id@),
            None => forall|id: Seq<char>| !names_session(name@, prefix@, id),
        },
{
    let cs = chars_of(name);
    if has_suffix(&cs, "-reply") || !has_prefix(&cs, prefix) {
        proof {
            assert forall|id: Seq<char>| !names_session(name@, prefix@, id) by {
                if name@ == prefix@ + id {
                    assert(prefix@ =~= name@.subrange(0, prefix@.len() as int));
                }
            }
        }
        return None;
    }
    let n = chars_of(prefix).len();
    let ghost rest = name@.skip(n as int);
    assert(name@ =~= prefix@ + rest) by {
        assert(prefix@ =~= name@.subrange(0, prefix@.len() as int));
    }
    let mut tail = String::new();
    let mut i: usize = n;
    while i < cs.len()
        invariant
            n <= i <= cs.len(),
            cs@ == name@,
            rest == name@.skip(n as int),
            n == prefix@.len(),
            name@ == prefix@ + rest,
            tail@ == rest.take(i - n),
            forall|j: int| 0 <= j < i - n ==> rest[j] != '\\',
        decreases cs.len() - i,
    {
        assert(rest[i - n] == cs@[i as int]);
        if cs[i] == '\\' {
            proof {
                assert forall|id: Seq<char>| !names_session(name@, prefix@, id) by {
                    if name@ == prefix@ + id {
                        assert(id =~= rest);
                        assert(id[i - n] == '\\');
                    }
                }
            }
            return None;
        }
        tail.push(cs[i]);
        assert(rest.take(i + 1 - n) =~= rest.take(i - n).push(cs@[i as int]));
        i += 1;
    }
    assert(rest.take(i - n) =~= rest);
    Some(tail)
}

/// Session ids whose server pipe is currently bound. `None` means that the
/// namespace could not be read: unknown, and never that nothing is alive.
pub fn live_session_ids(sock_dir: &str, namespace: &Option<Vec<String>>) -> (r: Option<
    Dict<String, ()>,
>)
    ensures
        match (r, *namespace) {
            (Some(ids), Some(names)) => ids@.dom() == bound_sessions(
                text::texts(names@),
                pipe_prefix(sock_dir@),
            ),
            (None, None) => true,
            _ => false,
        },
{
    let names = match namespace {
        Some(n) => n,
        None => return None,
    };
    let cs = chars_of(sock_dir);
    let mut prefix = sock_dir.to_owned();
    if cs.len() == 0 || cs[cs.len() - 1] != '\\' {
        prefix.push('\\');
    }
    let ghost pre = pipe_prefix(sock_dir@);
    let ghost all = text::texts(names@);
    let mut ids: Dict<String, ()> = Dict::new();
    let mut i: usize = 0;
    while i < names.len()
        invariant
            i <= names.len(),
            all == text::texts(names@),
            prefix@ == pre,
            forall|id: Seq<char>| #[trigger]
                ids@.contains_key(id) <==> exists|j: int|
                    0 <= j < i && names_session(#[trigger] all[j], pre, id),
        decreases names.len() - i,
    {
        let ghost was = ids@;
        assert(all[i as int] == names@[i as int]@);
        let found = session_of(names[i].as_str(), prefix.as_str());
        let ghost hit = found;
        if let Some(id) = found {
            ids.insert(id, ());
        }
        proof {
            assert forall|id: Seq<char>| #[trigger]
                ids@.contains_key(id) <==> exists|j: int|
                    0 <= j < i + 1 && names_session(#[trigger] all[j], pre, id) by {
                if names_session(all[i as int], pre, id) {
                    assert(hit is Some);
                    assert(pre + id == pre + hit->0@);
                    assert((pre + id).skip(pre.len() as int) =~= id);
                    assert((pre + hit->0@).skip(pre.len() as int) =~= hit->0@);
                }
                if was.contains_key(id) {
                    let j = choose|j: int| 0 <= j < i && names_session(#[trigger] all[j], pre, id);
                    assert(names_session(all[j], pre, id));
                }
                if ids@.contains_key(id) && !was.contains_key(id) {
                    assert(names_session(all[i as int], pre, id));
                }
            }
        }
        i += 1;
    }
    proof {
        let want = bound_sessions(all, pre);
        assert forall|id: Seq<char>| ids@.dom().contains(id) <==> want.contains(id) by {
            assert(ids@.contains_key(id) <==> ids@.dom().contains(id));
        }
        assert(ids@.dom() =~= want);
    }
    Some(ids)
}

/// A session is live exactly while a pipe of its name is there: neither a reply
/// pipe nor anything deeper in the namespace stands for one.
pub proof fn a_live_session_has_its_pipe(names: Seq<Seq<char>>, prefix: Seq<char>, id: Seq<char>)
    requires
        bound_sessions(names, prefix).contains(id),
    ensures
        names.contains(prefix + id),
        !id.contains('\\'),
{
    let i = choose|i: int| 0 <= i < names.len() && names_session(#[trigger] names[i], prefix, id);
    assert(names[i] == prefix + id);
}

/// A session is live exactly where a pipe stands in its directory under its very id,
/// which is no reply pipe; whether the directory is given with a backslash at its end
/// does not matter.
pub proof fn a_session_is_live_by_its_pipe(
    names: Seq<Seq<char>>,
    dir: Seq<char>,
    id: Seq<char>,
)
    requires
        dir.len() == 0 || dir.last() != '\\',
    ensures
        bound_sessions(names, pipe_prefix(dir)).contains(id) <==> {
            &&& names.contains(dir + seq!['\\'] + id)
            &&& !id.contains('\\')
            &&& !ends_in_reply(dir + seq!['\\'] + id)
        },
        pipe_prefix(dir.push('\\')) == pipe_prefix(dir),
{
    let prefix = pipe_prefix(dir);
    assert(prefix =~= dir + seq!['\\']);
    reveal_strlit("-reply");
    assert("-reply"@ =~= seq!['-', 'r', 'e', 'p', 'l', 'y']);
    let name = dir + seq!['\\'] + id;
    assert("-reply"@.is_suffix_of(name) <==> ends_in_reply(name));
    if bound_sessions(names, prefix).contains(id) {
        let i = choose|i: int|
            0 <= i < names.len() && names_session(#[trigger] names[i], prefix, id);
        assert(names[i] == name);
    }
    if names.contains(name) && !id.contains('\\') && !ends_in_reply(name) {
        let i = choose|i: int| 0 <= i < names.len() && names[i] == name;
        assert(names_session(names[i], prefix, id));
    }
}

/// Whether a name is that of a pipe for replies.
pub open spec fn ends_in_reply(name: Seq<char>) -> bool {
    name.len() >= 6 && name.subrange(name.len() - 6, name.len() as int) == seq!['-', 'r', 'e', 'p', 'l', 'y']
}

} // verus!
