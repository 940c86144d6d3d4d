//! The security descriptor of a session's pipe, as text.
//!
//! A pipe bound without one inherits the default access list of the creating
//! token, and that of an unfiltered administrator's token omits the user: the
//! same user's ordinary processes could not attach. The descriptor names the
//! user, so that the pipe is reachable from any of the user's contexts.
use crate::text;
use crate::text::{joined, push_decimal};
use vstd::prelude::*;
use vstd::string::*;
use widestring::U16CString;

verus! {

/// Full access for the system, for administrators, and for the user.
pub open spec fn descriptor(sid: Seq<char>) -> Seq<char> {
    "D:(A;;FA;;;SY)(A;;FA;;;BA)(A;;FA;;;"@ + sid + ")"@
}

/// A text in UTF-16.
pub open spec fn utf16(s: Seq<char>) -> Seq<u16>
    decreases s.len(),
{
    if s.len() == 0 {
        Seq::empty()
    } else {
        utf16(s.drop_last()) + text::utf16_units(s.last())
    }
}

/// Where the first NUL of a text stands in its UTF-16 form.
pub open spec fn nul_at(s: Seq<char>, position: int) -> bool {
    exists|k: int|
        0 <= k < s.len() && s[k] == '\0' && (forall|j: int| 0 <= j < k ==> s[j] != '\0') && position
            == utf16(#[trigger] s.take(k)).len()
}

/// `U16CString::from_str` of the crate widestring, on a text that does not end in
/// a NUL: the text in UTF-16, without the terminator, unless there is a NUL in
/// it; then the position of the first one.
#[verifier::external_body]
fn to_wide(s: &str) -> (r: Result<Vec<u16>, usize>)
    requires
        s@.len() > 0,
        s@.last() != '\0',
    ensures
        match r {
            Ok(v) => !s@.contains('\0') && v@ == utf16(s@),
            Err(position) => s@.contains('\0') && nul_at(s@, position as int),
        },
{
    U16CString::from_str(s).map(|w| w.into_vec()).map_err(|e| e.nul_position())
}

/// A descriptor that cannot be handed to the system: there is a NUL in it.
#[derive(Debug)]
pub struct InvalidDescriptor {
    pub nul_position: usize,
}

impl InvalidDescriptor {
    pub fn message(&self) -> (r: String)
        ensures
            r@ == "invalid nul value found at position "@ + text::decimal(
                self.nul_position as nat,
            ),
    {
        let mut out = "invalid nul value found at position ".to_owned();
        push_decimal(&mut out, self.nul_position as u64);
        out
    }
}

/// The descriptor that lets a user in, in the form the system takes.
pub fn user_pipe_descriptor(sid: &str) -> (r: Result<Vec<u16>, InvalidDescriptor>)
    ensures
        match r {
            Ok(v) => !descriptor(sid@).contains('\0') && v@ == utf16(descriptor(sid@)),
            Err(e) => descriptor(sid@).contains('\0') && nul_at(
                descriptor(sid@),
                e.nul_position as int,
            ),
        },
{
    let mut sddl = joined("D:(A;;FA;;;SY)(A;;FA;;;BA)(A;;FA;;;", sid);
    sddl.append(")");
    proof {
        reveal_strlit(")");
        assert(sddl@.last() == ')');
    }
    match to_wide(sddl.as_str()) {
        Ok(v) => Ok(v),
        Err(nul_position) => Err(InvalidDescriptor { nul_position }),
    }
}

/// The descriptor is refused exactly where the user's identifier holds a NUL.
pub proof fn only_a_nul_in_the_sid_is_refused(sid: Seq<char>)
    ensures
        descriptor(sid).contains('\0') <==> sid.contains('\0'),
{
    reveal_strlit("D:(A;;FA;;;SY)(A;;FA;;;BA)(A;;FA;;;");
    reveal_strlit(")");
    let head = "D:(A;;FA;;;SY)(A;;FA;;;BA)(A;;FA;;;"@;
    let d = descriptor(sid);
    if sid.contains('\0') {
        let k = choose|k: int| 0 <= k < sid.len() && sid[k] == '\0';
        assert(d[head.len() + k] == '\0');
    }
    if d.contains('\0') {
        let k = choose|k: int| 0 <= k < d.len() && d[k] == '\0';
        assert(head.len() <= k < head.len() + sid.len());
        assert(sid[k - head.len()] == '\0');
    }
}

/// The descriptor allows full access to the system, to administrators and to the user,
/// one entry each, and to nobody else.
pub proof fn the_descriptor_names_three(sid: Seq<char>)
    ensures
        descriptor(sid) == seq!['D', ':'] + entry(seq!['S', 'Y']) + entry(seq!['B', 'A']) + entry(
            sid,
        ),
{
    reveal_strlit("D:(A;;FA;;;SY)(A;;FA;;;BA)(A;;FA;;;");
    reveal_strlit(")");
    assert(descriptor(sid) =~= seq!['D', ':'] + entry(seq!['S', 'Y']) + entry(seq!['B', 'A'])
        + entry(sid));
}

/// An entry that allows full access to one trustee.
pub open spec fn entry(trustee: Seq<char>) -> Seq<char> {
    seq!['(', 'A', ';', ';', 'F', 'A', ';', ';', ';'] + trustee + seq![')']
}

/// A text in UTF-16 is its characters in UTF-16, one behind the other.
pub proof fn utf16_goes_by_character(s: Seq<char>, c: char)
    ensures
        utf16(Seq::empty()).len() == 0,
        utf16(s.push(c)) == utf16(s) + text::utf16_units(c),
{
    assert(s.push(c).drop_last() =~= s);
}

/// The position of a NUL is how many units stand before the first one.
pub proof fn the_first_nul_is_told(s: Seq<char>, k: int, position: int)
    requires
        0 <= k < s.len(),
        s[k] == '\0',
        forall|j: int| 0 <= j < k ==> s[j] != '\0',
    ensures
        nul_at(s, position) <==> position == utf16(s.take(k)).len(),
{
    if nul_at(s, position) {
        let m = choose|m: int|
            0 <= m < s.len() && s[m] == '\0' && (forall|j: int| 0 <= j < m ==> s[j] != '\0')
                && position == utf16(#[trigger] s.take(m)).len();
        if m < k {
            assert(s[m] != '\0');
        } else if k < m {
            assert(s[k] != '\0');
        }
    }
    if position == utf16(s.take(k)).len() {
        let _ = s.take(k);
    }
}

} // verus!
