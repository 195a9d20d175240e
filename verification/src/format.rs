//! Rendering helpers for post data. Only the feather label lives here; the
//! regex-driven body annotation and time formatting belong to the
//! rendering layer outside this crate.

use vstd::prelude::*;
use vstd::string::StringExecFns;

use crate::site::Feather;

verus! {

/// How a post's identity marker reads next to its name.
pub open spec fn feather_label(feather: Feather) -> Seq<char> {
    match feather {
        Feather::Anonymous => Seq::<char>::empty(),
        Feather::Trip(code) => "# "@ + code@,
        Feather::Moderator => "(Moderator)"@,
        Feather::Admin => "(Admin)"@,
    }
}

pub fn display_feather(feather: &Feather) -> (r: String)
    ensures
        r@ == feather_label(*feather),
{
    match feather {
        Feather::Anonymous => String::new(),
        Feather::Trip(s) => String::from_str("# ").concat(s.as_str()),
        Feather::Moderator => String::from_str("(Moderator)"),
        Feather::Admin => String::from_str("(Admin)"),
    }
}

} // verus!
