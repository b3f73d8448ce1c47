//! The naming of event loop threads.

use vstd::prelude::*;

verus! {

/// The name of an event loop thread without an id.
pub open spec fn event_loop_base_name() -> Seq<char> {
    "CRUST-Event-Loop"@
}

/// The name given to the thread that runs an event loop: a fixed base, followed by `": "` and
/// the id when there is one.
pub fn event_loop_name(event_loop_id: Option<&str>) -> (name: String)
    ensures
        name@ == match event_loop_id {
            Some(id) => event_loop_base_name() + ": "@ + id@,
            None => event_loop_base_name(),
        },
{
    let mut name = String::from_str("CRUST-Event-Loop");
    if let Some(id) = event_loop_id {
        name.append(": ");
        name.append(id);
    }
    name
}

} // verus!
