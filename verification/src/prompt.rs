//! Interpretation of interactive console answers.  Reading the answers
//! is the caller's work; deciding what they mean is done here.

use vstd::prelude::*;

use crate::strutil::{str_eq, trim_spec, trimmed};

verus! {

/// The answers read as a refusal; everything else is assent.
pub open spec fn negative_answer(s: Seq<char>) -> bool {
    s == "n"@ || s == "N"@ || s == "f"@ || s == "false"@ || s == "False"@
}

/// Interprets a yes/no answer: a refusal only on the recognized negative
/// forms, assent on anything else, the empty answer included.
pub fn get_input_as_bool(raw_input: &str) -> (r: bool)
    ensures
        r == !negative_answer(trim_spec(raw_input@)),
{
    let buffer = trimmed(raw_input);
    let b = buffer.as_str();
    !(str_eq(b, "n") || str_eq(b, "N") || str_eq(b, "f") || str_eq(b, "false") || str_eq(
        b,
        "False",
    ))
}

/// Reads a stored boolean flag: exactly `true` or `false`, anything else
/// is no boolean.
pub fn parse_bool_str(s: &str) -> (r: Option<bool>)
    ensures
        s@ == "true"@ ==> r == Some(true),
        s@ == "false"@ ==> r == Some(false),
        s@ != "true"@ && s@ != "false"@ ==> r is None,
{
    proof {
        reveal_strlit("true");
        reveal_strlit("false");
        assert("true"@.len() == 4);
        assert("false"@.len() == 5);
    }
    if str_eq(s, "true") {
        Some(true)
    } else if str_eq(s, "false") {
        Some(false)
    } else {
        None
    }
}

} // verus!
