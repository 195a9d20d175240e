//! Shared error type and the wall clock.

use vstd::prelude::*;
use vstd::string::StrSliceExecFns;

verus! {

/// Which component produced an error.
#[derive(Debug)]
pub enum ErrOrigin {
    Database,
    FileRack,
    Actions,
    Template,
    Web(u16),
}

/// The error type every fallible operation of this crate returns.
#[derive(Debug)]
pub struct PlainchantErr {
    pub origin: ErrOrigin,
    pub msg: String,
}

/// Character-for-character string equality, proved against the string views.
pub fn str_eq(a: &str, b: &str) -> (r: bool)
    ensures
        r == (a@ == b@),
{
    let la = a.unicode_len();
    let lb = b.unicode_len();
    if la != lb {
        return false;
    }
    let mut i: usize = 0;
    while i < la
        invariant
            la == a@.len(),
            la == b@.len(),
            i <= la,
            forall|j: int| 0 <= j < i ==> a@[j] == b@[j],
        decreases la - i,
    {
        if a.get_char(i) != b.get_char(i) {
            return false;
        }
        i += 1;
    }
    proof {
        assert(a@ =~= b@);
    }
    true
}

/// Relies on std::time::SystemTime::now: the current time in seconds since
/// the Unix epoch, or 0 if the system clock reads earlier than the epoch.
/// The value is nondeterministic, so nothing is promised of it.
#[verifier::external_body]
pub fn timestamp() -> u64 {
    std::time::SystemTime::now()
        .duration_since(std::time::UNIX_EPOCH)
        .unwrap_or(std::time::Duration::from_secs(0))
        .as_secs()
}

} // verus!
