//! The message with which a host aborts under the `Panic` policy.

use vstd::prelude::*;

verus! {

/// What `bevy_utils::get_short_name` makes of a type name.
pub uninterp spec fn short_name(full_name: Seq<char>) -> Seq<char>;

/// Shortens a type name with `bevy_utils::get_short_name`, which drops the
/// module paths in front of each type in the name. Nothing is proved of it;
/// all that is claimed is that the result depends on the name alone.
#[verifier::external_body]
fn get_short_name(full_name: &str) -> (short: String)
    ensures
        short@ == short_name(full_name@),
{
    bevy_utils::get_short_name(full_name)
}

/// The abort message for an instance and the name of the filter of the
/// check that matched it.
pub fn strictly_invalid(instance: &str, filter_name: &str) -> (message: String)
    ensures
        message@ == instance@ + " is strictly invalid: "@ + filter_name@,
{
    let mut message = String::from_str(instance);
    message.append(" is strictly invalid: ");
    message.append(filter_name);
    message
}

/// The abort message for an instance and the type name of the filter of
/// the check that matched it: the filter is named by its short name.
pub fn abort_message(instance: &str, filter_type: &str) -> (message: String)
    ensures
        message@ == instance@ + " is strictly invalid: "@ + short_name(filter_type@),
{
    let name = get_short_name(filter_type);
    strictly_invalid(instance, name.as_str())
}

} // verus!
