use vstd::prelude::*;

use crate::entity::Entity;
use crate::entity::EntityView;

verus! {

/// The canonical store: the single authoritative map from identifier to
/// entity.
///
/// Identifiers are issued densely, starting at 1, and no entity is ever
/// removed, so the store holds exactly the entities with identifiers
/// `1 ..= size()`.  The representation exploits this: the entity with
/// identifier `k` sits at position `k - 1`.
#[derive(Clone, Debug, PartialEq, Eq)]
pub struct EntityStore {
    items: Vec<Entity>,
}

impl EntityStore {
    /// How many entities the store holds.
    pub closed spec fn size(&self) -> nat {
        self.items@.len()
    }

    /// Every entity sits at the position its identifier names.
    pub closed spec fn wf(&self) -> bool {
        forall|i: int| 0 <= i < self.items@.len() ==> (#[trigger] self.items@[i])@.id == i + 1
    }

    /// The abstract map from identifier to entity record.
    pub closed spec fn entities(&self) -> Map<u32, EntityView> {
        Map::new(
            |k: u32| 1 <= k <= self.items@.len(),
            |k: u32| self.items@[k - 1]@,
        )
    }

    /// An empty store.
    pub fn new() -> (r: EntityStore)
        ensures
            r.wf(),
            r.size() == 0,
            r.entities() == Map::<u32, EntityView>::empty(),
    {
        let r = EntityStore { items: Vec::new() };
        proof {
            assert(r.entities() =~= Map::<u32, EntityView>::empty());
        }
        r
    }

    /// Point lookup: the entity carrying `id`, if the store holds one.
    pub fn get(&self, id: u32) -> (r: Option<&Entity>)
        requires
            self.wf(),
        ensures
            match r {
                Some(e) => self.entities().contains_key(id) && e@ == self.entities()[id],
                None => !self.entities().contains_key(id),
            },
    {
        if id >= 1 && (id as usize) <= self.items.len() {
            Some(&self.items[(id - 1) as usize])
        } else {
            None
        }
    }

    /// Inserts or overwrites the entity keyed by its identifier.
    ///
    /// The registry issues identifiers densely, so the entity either
    /// overwrites the record with the same identifier or extends the store
    /// by exactly the next identifier.
    pub fn upsert(&mut self, e: Entity)
        requires
            old(self).wf(),
            1 <= e.id,
            e.id as int <= old(self).size() + 1,
        ensures
            final(self).wf(),
            final(self).size() == if old(self).entities().contains_key(e.id) {
                old(self).size()
            } else {
                old(self).size() + 1
            },
            final(self).entities() == old(self).entities().insert(e.id, e@),
    {
        let idx = (e.id - 1) as usize;
        if idx == self.items.len() {
            self.items.push(e);
        } else {
            self.items.set(idx, e);
        }
        proof {
            assert(self.entities() =~= old(self).entities().insert(e.id, e@));
        }
    }
}

} // verus!
