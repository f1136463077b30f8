use vstd::prelude::*;

use crate::entity::Identity;

verus! {

/// A domain notification, recorded on every successful operation for the
/// host's event-distribution collaborator to drain.
#[derive(Clone, Debug, PartialEq, Eq)]
pub enum Event {
    /// A new entity was minted from `dna`, owned by `caller`.
    Created { dna: Vec<u8>, caller: Identity },
    /// The caller asked for the entity `id` to be handed to `new_owner`.
    Transferred { caller: Identity, id: u32, new_owner: Identity },
}

/// The mathematical value of an [`Event`].
pub enum EventView {
    Created { dna: Seq<u8>, caller: Identity },
    Transferred { caller: Identity, id: u32, new_owner: Identity },
}

impl View for Event {
    type V = EventView;

    open spec fn view(&self) -> EventView {
        match self {
            Event::Created { dna, caller } => EventView::Created { dna: dna@, caller: *caller },
            Event::Transferred { caller, id, new_owner } => EventView::Transferred {
                caller: *caller,
                id: *id,
                new_owner: *new_owner,
            },
        }
    }
}

/// The abstract contents of the event journal.
pub open spec fn events_view(s: Seq<Event>) -> Seq<EventView> {
    s.map_values(|ev: Event| ev@)
}

} // verus!
