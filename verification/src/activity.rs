//! Setting the owl's activity.

use vstd::prelude::*;
use crate::text::opt_view;

verus! {

/// What `{:?}` writes for a string: the string quoted, with its special
/// characters escaped.
pub uninterp spec fn debug_str(s: Seq<char>) -> Seq<char>;

/// Formats a string with `{:?}` (std's `Debug` for `str`); the result is
/// named `debug_str`, whose escaping rules are not written out here.
#[verifier::external_body]
fn debug_quoted(s: &str) -> (r: String)
    ensures
        r@ == debug_str(s@),
{
    format!("{:?}", s)
}

/// How an activity is shown: quoted, or `None` for no activity.
pub open spec fn activity_label(activity: Option<Seq<char>>) -> Seq<char> {
    match activity {
        Some(a) => debug_str(a),
        None => "None"@,
    }
}

/// The label of an activity (see [`activity_label`]).
pub fn activity_text(activity: &Option<String>) -> (label: String)
    ensures
        label@ == activity_label(opt_view(*activity)),
{
    match activity {
        Some(a) => debug_quoted(a.as_str()),
        None => String::from_str("None"),
    }
}

/// The answer to a change of activity.
pub open spec fn activity_reply(activity: Option<Seq<char>>) -> Seq<char> {
    "Set activity to "@ + activity_label(activity) + "."@
}

/// The activity command: the answer confirming the new activity (or that
/// there is none).
pub fn activity(new_activity: &Option<String>) -> (reply: String)
    ensures
        reply@ == activity_reply(opt_view(*new_activity)),
{
    let label = activity_text(new_activity);
    let mut reply = String::from_str("Set activity to ");
    reply.append(label.as_str());
    reply.append(".");
    reply
}

} // verus!
