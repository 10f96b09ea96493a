//! Reading of settings given as text.
use vstd::prelude::*;

use crate::video::{lower_of, lowercase};

verus! {

/// Text that turns a flag on, compared in lower case.
pub open spec fn is_truthy(s: Seq<char>) -> bool {
    s == "1"@ || s == "true"@ || s == "yes"@ || s == "on"@
}

/// The value of an on/off setting: on when the text is, in any letter case,
/// one of `1`, `true`, `yes`, `on`; off when it is absent or anything else.
pub fn parse_bool_env(value: Option<String>) -> (r: bool)
    ensures
        r == (value is Some && is_truthy(lower_of(value->Some_0@))),
{
    match value {
        Some(v) => {
            let l = lowercase(v.as_str());
            l == String::from_str("1") || l == String::from_str("true") || l == String::from_str(
                "yes",
            ) || l == String::from_str("on")
        },
        None => false,
    }
}

} // verus!
