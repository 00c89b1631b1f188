//! The notification router: it applies each notification of the transport
//! to the event store, in the order of arrival.
use vstd::prelude::*;
use crate::event::{Event, UserEvent, UserEventAction};
use crate::relay::next_revision;

verus! {

/// The kind of a short text note.
pub const TEXT_NOTE_KIND: u64 = 1;

/// A notification of the transport, as the router reads it.
pub enum Notification {
    /// The transport shut down: the router stops.
    Shutdown,
    /// A relay accepted or refused event `event_id`.
    Accepted { event_id: String, status: bool },
    /// A relay delivered an event.
    Event(Event),
    /// Any other relay message.
    Other,
}

/// Applies `n` to `events`. Returns the new store and whether to go on
/// reading: an acknowledgement sets the event's flag, a delivered text
/// note is stored as shown, anything else leaves the store alone, and a
/// shutdown stops the router.
pub fn route(events: UserEvent, n: Notification) -> (r: (UserEvent, bool))
    requires
        events.wf(),
    ensures
        r.0.wf(),
        r.1 == !(n is Shutdown),
        match n {
            Notification::Accepted { event_id, status } => {
                &&& r.0.messages() == events.reduced_messages(
                    UserEventAction::Visible(event_id, status),
                )
                &&& events.has_id(event_id@) ==> r.0.revision() == next_revision(events.revision())
                &&& !events.has_id(event_id@) ==> r.0.revision() == events.revision()
            },
            Notification::Event(e) => if e.kind == TEXT_NOTE_KIND {
                &&& r.0.messages() == events.reduced_messages(UserEventAction::AddVisible(e))
                &&& r.0.revision() == next_revision(events.revision())
            } else {
                r.0 == events
            },
            _ => r.0 == events,
        },
{
    match n {
        Notification::Shutdown => (events, false),
        Notification::Accepted { event_id, status } => (
            events.reduce(UserEventAction::Visible(event_id, status)),
            true,
        ),
        Notification::Event(e) => {
            if e.kind == TEXT_NOTE_KIND {
                (events.reduce(UserEventAction::AddVisible(e)), true)
            } else {
                (events, true)
            }
        },
        Notification::Other => (events, true),
    }
}

} // verus!
