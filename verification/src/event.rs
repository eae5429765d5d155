//! Events that the directory publishes on the message queue, and which of
//! them call for a new synchronisation.

use vstd::prelude::*;
use crate::text::str_eq;

verus! {

/// The body of a queue message: which record changed, how, and its kind.
pub struct QueueEvent {
    pub id: String,
    pub event: String,
    pub resource: String,
}

/// An event calls for a sync when an intercom was created, updated or
/// deleted.
pub open spec fn spec_is_relevant_event(event: Seq<char>, resource: Seq<char>) -> bool {
    &&& resource == "intercom"@
    &&& (event == "create"@ || event == "update"@ || event == "delete"@)
}

/// Whether `event` calls for a sync: its resource is `intercom` and its
/// event is `create`, `update` or `delete`.
pub fn is_relevant_event(event: &QueueEvent) -> (r: bool)
    ensures
        r == spec_is_relevant_event(event.event@, event.resource@),
{
    if !str_eq(event.resource.as_str(), "intercom") {
        return false;
    }
    let e = event.event.as_str();
    str_eq(e, "create") || str_eq(e, "update") || str_eq(e, "delete")
}


/// Only intercom events are relevant, only creations, updates and
/// deletions are, and every creation, update or deletion of an intercom is.
pub proof fn lemma_relevance(event: Seq<char>, resource: Seq<char>)
    ensures
        spec_is_relevant_event(event, resource) ==> resource == "intercom"@,
        spec_is_relevant_event(event, resource) ==> event == "create"@ || event == "update"@
            || event == "delete"@,
        resource == "intercom"@ && (event == "create"@ || event == "update"@ || event == "delete"@)
            ==> spec_is_relevant_event(event, resource),
{
}

} // verus!
