//! What the readmodel's places and records come to.
use super::{home_in, same_status, seen_times, state_path};
use super::{AgentStatus, SeenRecord};
use vstd::prelude::*;

verus! {

pub open spec fn home_key() -> Seq<char> {
    seq!['H', 'O', 'M', 'E']
}

pub open spec fn profile_key() -> Seq<char> {
    seq!['U', 'S', 'E', 'R', 'P', 'R', 'O', 'F', 'I', 'L', 'E']
}

pub open spec fn readmodel_file() -> Seq<char> {
    seq![
        'a', 'g', 'e', 'n', 't', '-', 'r', 'e', 'a', 'd', 'm', 'o', 'd', 'e', 'l', '.', 'j', 's',
        'o', 'n',
    ]
}

pub open spec fn seen_directory() -> Seq<char> {
    seq!['a', 'g', 'e', 'n', 't', '-', 's', 'e', 'e', 'n', '-', 'e', 'v', 'e', 'n', 't', 's']
}

pub open spec fn dismissed_directory() -> Seq<char> {
    seq![
        'a', 'g', 'e', 'n', 't', '-', 'd', 'i', 's', 'm', 'i', 's', 's', 'e', 'd', '-', 'e', 'v',
        'e', 'n', 't', 's',
    ]
}

/// A name in the state directory, below the folder that is mounted.
pub open spec fn under_the_mount(state_dir: Seq<char>, name: Seq<char>) -> Seq<char> {
    seq!['/', 'h', 'o', 's', 't', '/'] + state_dir + seq!['/'] + name
}

/// The home directory is what the one variable says, else the other; without either
/// there is none.
pub proof fn the_home_is_the_users(env: Map<Seq<char>, String>)
    ensures
        env.contains_key(home_key()) ==> home_in(env) == Some(env[home_key()]@),
        !env.contains_key(home_key()) && env.contains_key(profile_key()) ==> home_in(env) == Some(
            env[profile_key()]@,
        ),
        home_in(env) is None <==> !env.contains_key(home_key()) && !env.contains_key(profile_key()),
{
    reveal_strlit("HOME");
    reveal_strlit("USERPROFILE");
    assert("HOME"@ =~= home_key());
    assert("USERPROFILE"@ =~= profile_key());
}

/// The readmodel, the seen events and the dismissals are in the state directory, each
/// under its own name.
pub proof fn the_files_are_under_the_mount(state_dir: Seq<char>)
    ensures
        state_path(state_dir, "agent-readmodel.json"@) == under_the_mount(state_dir, readmodel_file()),
        state_path(state_dir, "agent-seen-events"@) == under_the_mount(state_dir, seen_directory()),
        state_path(state_dir, "agent-dismissed-events"@) == under_the_mount(
            state_dir,
            dismissed_directory(),
        ),
{
    reveal_strlit("agent-readmodel.json");
    reveal_strlit("agent-seen-events");
    reveal_strlit("agent-dismissed-events");
    reveal_strlit("/host/");
    reveal_strlit("/");
    assert("agent-readmodel.json"@ =~= readmodel_file());
    assert("agent-seen-events"@ =~= seen_directory());
    assert("agent-dismissed-events"@ =~= dismissed_directory());
    assert("/host/"@ =~= seq!['/', 'h', 'o', 's', 't', '/']);
    assert("/"@ =~= seq!['/']);
}

/// Two statuses are the same where they are of one kind, and an unknown one also of
/// one word.
pub proof fn a_status_is_its_kind_and_word(a: AgentStatus, b: AgentStatus)
    ensures
        same_status(a, b) <==> (a is Busy <==> b is Busy) && (a is Idle <==> b is Idle) && (
        a is Waiting <==> b is Waiting) && (a is Unknown && b is Unknown ==> a->Unknown_0@
            == b->Unknown_0@),
{
}

/// An agent was seen exactly where there is a record of it, at the time of the last
/// such record.
pub proof fn the_last_record_counts(records: Seq<SeenRecord>, sid: Seq<char>, k: int)
    requires
        0 <= k < records.len(),
        forall|j: int| k < j < records.len() ==> (#[trigger] records[j]).session_id@ != sid,
    ensures
        records[k].session_id@ == sid ==> seen_times(records).contains_key(sid) && seen_times(
            records,
        )[sid] == records[k].seen_at_ms,
        seen_times(records).contains_key(sid) <==> exists|j: int|
            0 <= j < records.len() && (#[trigger] records[j]).session_id@ == sid,
    decreases records.len(),
{
    only_what_is_recorded_was_seen(records, sid);
    let rest = records.drop_last();
    if k < rest.len() {
        assert(records[records.len() - 1].session_id@ != sid);
        assert forall|j: int| k < j < rest.len() implies (#[trigger] rest[j]).session_id@ != sid by {
            assert(records[j].session_id@ != sid);
        }
        the_last_record_counts(rest, sid, k);
    }
}

/// Without a record an agent was not seen.
pub proof fn only_what_is_recorded_was_seen(records: Seq<SeenRecord>, sid: Seq<char>)
    ensures
        seen_times(records).contains_key(sid) <==> exists|j: int|
            0 <= j < records.len() && (#[trigger] records[j]).session_id@ == sid,
    decreases records.len(),
{
    if records.len() > 0 {
        let rest = records.drop_last();
        only_what_is_recorded_was_seen(rest, sid);
        if exists|j: int| 0 <= j < rest.len() && (#[trigger] rest[j]).session_id@ == sid {
            let j = choose|j: int| 0 <= j < rest.len() && (#[trigger] rest[j]).session_id@ == sid;
            assert(records[j].session_id@ == sid);
        }
        if exists|j: int| 0 <= j < records.len() && (#[trigger] records[j]).session_id@ == sid {
            let j = choose|j: int|
                0 <= j < records.len() && (#[trigger] records[j]).session_id@ == sid;
            if j < rest.len() {
                assert(rest[j].session_id@ == sid);
            }
        }
        assert(records[records.len() - 1] == records.last());
    }
}

} // verus!
