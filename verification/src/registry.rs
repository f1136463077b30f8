use vstd::prelude::*;

use crate::allocator::IdAllocator;
use crate::entity::clone_bytes;
use crate::entity::first_id_index;
use crate::entity::has_id;
use crate::entity::lemma_first_id_index_of;
use crate::entity::seq_view;
use crate::entity::Entity;
use crate::entity::EntityView;
use crate::entity::Identity;
use crate::error::Error;
use crate::event::events_view;
use crate::event::Event;
use crate::event::EventView;
use crate::gender::derive_gender;
use crate::gender::gender_of;
use crate::owner_index::OwnerIndex;
use crate::store::EntityStore;

verus! {

/// The bucket `b` after its first entry carrying `id` has been removed by
/// swapping the last entry into its place (meaningful only when [`has_id`]
/// holds of `b`).
pub open spec fn swap_removed(b: Seq<EntityView>, id: u32) -> Seq<EntityView> {
    b.update(first_id_index(b, id), b.last()).drop_last()
}

/// The ownership registry.
///
/// It owns the canonical store, the owner index and the identifier
/// allocator, and is the only component that mutates them.  Its
/// well-formedness invariant [`Registry::wf`] states the consistency
/// discipline: the two views of the data never diverge.
///
/// Authorization policy: any caller may transfer any entity to any new
/// owner.  The registry records the caller in the emitted notification but
/// deliberately does not require the caller to be the current owner; the
/// host decides who may submit operations.
#[derive(Clone, Debug, PartialEq, Eq)]
pub struct Registry {
    ids: IdAllocator,
    store: EntityStore,
    index: OwnerIndex,
    events: Vec<Event>,
}

impl Registry {
    /// The last identifier handed out; also how many entities exist.
    pub closed spec fn next_id(&self) -> u32 {
        self.ids.next_id
    }

    /// The canonical map from identifier to entity record.
    pub closed spec fn entities(&self) -> Map<u32, EntityView> {
        self.store.entities()
    }

    /// The entities the owner index currently groups under `o`.
    pub closed spec fn owned_by(&self, o: Identity) -> Seq<EntityView> {
        self.index.bucket_of(o)
    }

    /// The total count of entities across all owner buckets.
    pub closed spec fn indexed_count(&self) -> nat {
        self.index.total()
    }

    /// The notifications emitted so far, oldest first.
    pub closed spec fn journal(&self) -> Seq<EventView> {
        events_view(self.events@)
    }

    /// The consistency discipline between the two views:
    ///
    /// - identifiers are dense: exactly `1 ..= next_id()` are in use;
    /// - every record's gender is the one its dna derives, and every record
    ///   carries the identifier it is keyed by;
    /// - every indexed entry sits in the bucket of its own owner and equals
    ///   the canonical record, byte for byte;
    /// - no bucket carries an identifier twice;
    /// - every canonical record appears in its owner's bucket;
    /// - the buckets together hold exactly one entry per entity.
    pub closed spec fn wf(&self) -> bool {
        &&& self.store.wf()
        &&& self.index.wf()
        &&& self.store.size() == self.ids.next_id as nat
        &&& forall|k: u32| (#[trigger] self.entities().contains_key(k)) <==> 1 <= k
            <= self.ids.next_id
        &&& forall|k: u32| #[trigger] self.entities().contains_key(k) ==> self.entities()[k].id
            == k && self.entities()[k].gender == gender_of(self.entities()[k].dna)
        &&& forall|o: Identity, j: int| 0 <= j < self.owned_by(o).len() ==> {
            &&& (#[trigger] self.owned_by(o)[j]).owner == o
            &&& self.entities().contains_key(self.owned_by(o)[j].id)
            &&& self.entities()[self.owned_by(o)[j].id] == self.owned_by(o)[j]
        }
        &&& forall|o: Identity, j1: int, j2: int| 0 <= j1 < j2 < self.owned_by(o).len()
            ==> (#[trigger] self.owned_by(o)[j1]).id != (#[trigger] self.owned_by(o)[j2]).id
        &&& forall|k: u32| #[trigger] self.entities().contains_key(k)
            ==> has_id(self.owned_by(self.entities()[k].owner), k)
        &&& self.indexed_count() == self.store.size()
    }

    /// A fresh, empty registry.
    pub fn new() -> (r: Registry)
        ensures
            r.wf(),
            r.next_id() == 0,
            r.entities() == Map::<u32, EntityView>::empty(),
            forall|o: Identity| r.owned_by(o) == Seq::<EntityView>::empty(),
            r.indexed_count() == 0,
            r.journal() == Seq::<EventView>::empty(),
    {
        let r = Registry {
            ids: IdAllocator::new(),
            store: EntityStore::new(),
            index: OwnerIndex::new(),
            events: Vec::new(),
        };
        proof {
            assert(events_view(r.events@) =~= Seq::<EventView>::empty());
        }
        r
    }

    /// Mints a new entity from `dna`, owned by the caller.
    ///
    /// Derives the gender, allocates the next identifier, records the entity
    /// in the canonical store and in the caller's bucket, and emits a
    /// `Created` notification.  Fails with `Overflow` — mutating nothing —
    /// once identifiers are exhausted; assigned identifiers are exactly
    /// `1, 2, 3, …` in call order.
    pub fn create_entity(&mut self, caller: Identity, dna: Vec<u8>, price: u32) -> (r: Result<
        u32,
        Error,
    >)
        requires
            old(self).wf(),
        ensures
            final(self).wf(),
            old(self).next_id() == u32::MAX ==> {
                &&& r == Err::<u32, Error>(Error::Overflow)
                &&& *final(self) == *old(self)
            },
            old(self).next_id() < u32::MAX ==> {
                let k = (old(self).next_id() + 1) as u32;
                let minted = EntityView {
                    id: k,
                    dna: dna@,
                    price: price,
                    gender: gender_of(dna@),
                    owner: caller,
                };
                &&& r == Ok::<u32, Error>(k)
                &&& !old(self).entities().contains_key(k)
                &&& final(self).next_id() == k
                &&& final(self).entities() == old(self).entities().insert(k, minted)
                &&& final(self).owned_by(caller) == old(self).owned_by(caller).push(minted)
                &&& forall|o: Identity| o != caller ==> final(self).owned_by(o) == old(
                    self,
                ).owned_by(o)
                &&& final(self).indexed_count() == old(self).indexed_count() + 1
                &&& final(self).journal() == old(self).journal().push(
                    EventView::Created { dna: dna@, caller },
                )
            },
    {
        let gender = derive_gender(&dna);
        let id = match self.ids.allocate() {
            Ok(id) => id,
            Err(e) => {
                return Err(e);
            },
        };
        let event_dna = clone_bytes(&dna);
        let ghost dv = dna@;
        let entity = Entity { id, dna, price, gender, owner: caller };
        let ghost minted = entity@;
        let copy = entity.duplicate();
        self.store.upsert(entity);
        self.index.append(caller, copy);
        self.events.push(Event::Created { dna: event_dna, caller });
        proof {
            let k = id;
            let pre = *old(self);
            assert(!pre.entities().contains_key(k));
            assert(events_view(self.events@) =~= events_view(pre.events@).push(
                EventView::Created { dna: dv, caller },
            ));
            assert forall|o: Identity, j: int| 0 <= j < self.owned_by(o).len() implies {
                &&& (#[trigger] self.owned_by(o)[j]).owner == o
                &&& self.entities().contains_key(self.owned_by(o)[j].id)
                &&& self.entities()[self.owned_by(o)[j].id] == self.owned_by(o)[j]
            } by {
                if o == caller && j == self.owned_by(o).len() - 1 {
                    assert(self.owned_by(o)[j] == minted);
                } else {
                    assert(self.owned_by(o)[j] == pre.owned_by(o)[j]);
                    assert(pre.owned_by(o)[j].id != k);
                }
            }
            assert forall|o: Identity, j1: int, j2: int|
                0 <= j1 < j2 < self.owned_by(o).len() implies (#[trigger] self.owned_by(o)[j1]).id
                != (#[trigger] self.owned_by(o)[j2]).id by {
                if o == caller && j2 == self.owned_by(o).len() - 1 {
                    assert(pre.owned_by(o)[j1].id != k);
                } else {
                    assert(self.owned_by(o)[j1] == pre.owned_by(o)[j1]);
                    assert(self.owned_by(o)[j2] == pre.owned_by(o)[j2]);
                }
            }
            assert forall|k2: u32| #[trigger] self.entities().contains_key(k2) implies has_id(
                self.owned_by(self.entities()[k2].owner),
                k2,
            ) by {
                if k2 == k {
                    let n = self.owned_by(caller).len();
                    assert(self.owned_by(caller)[n - 1] == minted);
                } else {
                    let owner2 = pre.entities()[k2].owner;
                    assert(has_id(pre.owned_by(owner2), k2));
                    let j = choose|j: int|
                        0 <= j < pre.owned_by(owner2).len() && pre.owned_by(owner2)[j].id == k2;
                    assert(self.owned_by(owner2)[j].id == k2);
                    assert(self.entities()[k2] == pre.entities()[k2]);
                }
            }
        }
        Ok(id)
    }

    /// Reassigns the entity carrying `id` to `new_owner`.
    ///
    /// Updates the canonical record, removes the stale copy from the prior
    /// owner's bucket, adds the updated copy to the new owner's bucket, and
    /// emits a `Transferred` notification.  An unknown identifier fails with
    /// `NotFound`, leaving the registry untouched.  A self-transfer leaves
    /// exactly one copy in the owner's bucket.
    pub fn transfer_entity(&mut self, caller: Identity, id: u32, new_owner: Identity) -> (r:
        Result<(), Error>)
        requires
            old(self).wf(),
        ensures
            final(self).wf(),
            final(self).next_id() == old(self).next_id(),
            !old(self).entities().contains_key(id) ==> {
                &&& r == Err::<(), Error>(Error::NotFound(id))
                &&& *final(self) == *old(self)
            },
            old(self).entities().contains_key(id) ==> {
                let prior = old(self).entities()[id];
                let moved = EntityView {
                    id: prior.id,
                    dna: prior.dna,
                    price: prior.price,
                    gender: prior.gender,
                    owner: new_owner,
                };
                &&& r == Ok::<(), Error>(())
                &&& final(self).entities() == old(self).entities().insert(id, moved)
                &&& has_id(final(self).owned_by(new_owner), id)
                &&& prior.owner != new_owner ==> {
                    &&& final(self).owned_by(prior.owner) == swap_removed(
                        old(self).owned_by(prior.owner),
                        id,
                    )
                    &&& !has_id(final(self).owned_by(prior.owner), id)
                    &&& final(self).owned_by(new_owner) == old(self).owned_by(new_owner).push(
                        moved,
                    )
                }
                &&& prior.owner == new_owner ==> {
                    &&& final(self).owned_by(new_owner) == swap_removed(
                        old(self).owned_by(new_owner),
                        id,
                    ).push(moved)
                    &&& final(self).entities() == old(self).entities()
                }
                &&& forall|o: Identity| o != prior.owner && o != new_owner
                    ==> final(self).owned_by(o) == old(self).owned_by(o)
                &&& final(self).indexed_count() == old(self).indexed_count()
                &&& final(self).journal() == old(self).journal().push(
                    EventView::Transferred { caller, id, new_owner },
                )
            },
    {
        let (price, gender, old_owner, dna) = match self.store.get(id) {
            None => {
                return Err(Error::NotFound(id));
            },
            Some(e) => (e.price, e.gender, e.owner, clone_bytes(&e.dna)),
        };
        let ghost pre = *old(self);
        let ghost prior = pre.entities()[id];
        let ghost moved = EntityView {
            id: prior.id,
            dna: prior.dna,
            price: prior.price,
            gender: prior.gender,
            owner: new_owner,
        };
        let entity = Entity { id, dna, price, gender, owner: new_owner };
        proof {
            assert(entity@ == moved);
        }
        let copy = entity.duplicate();
        self.store.upsert(entity);
        let ghost bv = pre.owned_by(prior.owner);
        proof {
            assert(has_id(bv, id));
            lemma_first_id_index_of(bv, id);
        }
        let found = self.index.remove_by_id(old_owner, id);
        proof {
            assert(found);
        }
        self.index.append(new_owner, copy);
        self.events.push(Event::Transferred { caller, id, new_owner });
        proof {
            let j = first_id_index(bv, id);
            let removed = swap_removed(bv, id);
            assert(events_view(self.events@) =~= events_view(pre.events@).push(
                EventView::Transferred { caller, id, new_owner },
            ));
            // Every entry that survives the swap removal is an entry of the
            // old bucket at a position other than j, so it carries an
            // identifier other than `id`.
            assert forall|p: int| 0 <= p < removed.len() implies #[trigger] removed[p].id
                != id by {
                if p == j {
                    assert(removed[p] == pre.owned_by(prior.owner)[bv.len() - 1]);
                    assert(pre.owned_by(prior.owner)[j].id != pre.owned_by(prior.owner)[bv.len()
                        - 1].id);
                } else {
                    assert(removed[p] == pre.owned_by(prior.owner)[p]);
                    if p < j {
                        assert(pre.owned_by(prior.owner)[p].id != pre.owned_by(prior.owner)[j].id);
                    } else {
                        assert(pre.owned_by(prior.owner)[j].id != pre.owned_by(prior.owner)[p].id);
                    }
                }
            }
            // The consistency clauses, case by case over the buckets.
            assert forall|o: Identity, j2: int| 0 <= j2 < self.owned_by(o).len() implies {
                &&& (#[trigger] self.owned_by(o)[j2]).owner == o
                &&& self.entities().contains_key(self.owned_by(o)[j2].id)
                &&& self.entities()[self.owned_by(o)[j2].id] == self.owned_by(o)[j2]
            } by {
                if o == new_owner && j2 == self.owned_by(o).len() - 1 {
                    assert(self.owned_by(o)[j2] == moved);
                } else {
                    let entry = self.owned_by(o)[j2];
                    if o == prior.owner {
                        assert(entry == removed[j2]);
                    } else {
                        assert(entry == pre.owned_by(o)[j2]);
                    }
                    assert(entry.id != id);
                    assert(pre.entities().contains_key(entry.id));
                    assert(self.entities()[entry.id] == pre.entities()[entry.id]);
                }
            }
            assert forall|o: Identity, j1: int, j2: int|
                0 <= j1 < j2 < self.owned_by(o).len() implies (#[trigger] self.owned_by(o)[j1]).id
                != (#[trigger] self.owned_by(o)[j2]).id by {
                if o == new_owner && j2 == self.owned_by(o).len() - 1 {
                    if o == prior.owner {
                        assert(self.owned_by(o)[j1] == removed[j1]);
                        assert(removed[j1].id != id);
                    } else {
                        assert(self.owned_by(o)[j1] == pre.owned_by(o)[j1]);
                        assert(pre.owned_by(o)[j1].id != id);
                    }
                } else {
                    if o == prior.owner {
                        assert(self.owned_by(o)[j1] == removed[j1]);
                        assert(self.owned_by(o)[j2] == removed[j2]);
                    } else {
                        assert(self.owned_by(o)[j1] == pre.owned_by(o)[j1]);
                        assert(self.owned_by(o)[j2] == pre.owned_by(o)[j2]);
                    }
                }
            }
            assert(moved.id == id);
            assert(self.owned_by(new_owner)[self.owned_by(new_owner).len() - 1] == moved);
            assert(has_id(self.owned_by(new_owner), id));
            if prior.owner == new_owner {
                assert(moved == prior);
                assert(self.entities() =~= pre.entities());
            }
            assert forall|k2: u32| #[trigger] self.entities().contains_key(k2) implies has_id(
                self.owned_by(self.entities()[k2].owner),
                k2,
            ) by {
                if k2 == id {
                    let n = self.owned_by(new_owner).len();
                    assert(self.owned_by(new_owner)[n - 1] == moved);
                } else {
                    let owner2 = pre.entities()[k2].owner;
                    assert(self.entities()[k2] == pre.entities()[k2]);
                    assert(has_id(pre.owned_by(owner2), k2));
                    let w = choose|w: int|
                        0 <= w < pre.owned_by(owner2).len() && pre.owned_by(owner2)[w].id == k2;
                    if owner2 == prior.owner {
                        // The witness survives the swap removal, at its old
                        // position or at j if it was the last entry.
                        assert(w != j);
                        if w == bv.len() - 1 {
                            assert(j < bv.len() - 1);
                            assert(removed[j] == bv[w]);
                            assert(self.owned_by(owner2)[j] == removed[j]);
                            assert(self.owned_by(owner2)[j].id == k2);
                        } else {
                            assert(removed[w] == bv[w]);
                            assert(self.owned_by(owner2)[w].id == k2);
                        }
                    } else {
                        assert(self.owned_by(owner2)[w] == pre.owned_by(owner2)[w]);
                    }
                }
            }
        }
        Ok(())
    }

    /// Point lookup of the canonical record carrying `id`.
    pub fn get_entity(&self, id: u32) -> (r: Option<&Entity>)
        requires
            self.wf(),
        ensures
            match r {
                Some(e) => self.entities().contains_key(id) && e@ == self.entities()[id],
                None => !self.entities().contains_key(id),
            },
    {
        self.store.get(id)
    }

    /// Copies of the entities currently owned by `owner`; the empty
    /// collection for an owner that never held one.
    pub fn entities_of(&self, owner: Identity) -> (r: Vec<Entity>)
        ensures
            seq_view(r@) == self.owned_by(owner),
    {
        self.index.bucket_clone(owner)
    }

    /// How many entities have been minted; also the last identifier issued.
    pub fn minted(&self) -> (n: u32)
        ensures
            n == self.next_id(),
    {
        self.ids.next_id
    }

    /// The notifications emitted so far, oldest first.
    pub fn events(&self) -> (r: &Vec<Event>)
        ensures
            events_view(r@) == self.journal(),
    {
        &self.events
    }
}

/// Identifiers in use are exactly `1 ..= next_id()`: no gaps, no repeats,
/// none ever reused.
pub proof fn lemma_identifiers_dense(r: Registry)
    requires
        r.wf(),
    ensures
        forall|k: u32| #[trigger] r.entities().contains_key(k) <==> 1 <= k <= r.next_id(),
{
}

/// No owner's bucket carries the same identifier twice.
pub proof fn lemma_bucket_ids_unique(r: Registry, o: Identity, j1: int, j2: int)
    requires
        r.wf(),
        0 <= j1 < j2 < r.owned_by(o).len(),
    ensures
        r.owned_by(o)[j1].id != r.owned_by(o)[j2].id,
{
}

/// The two views agree: the entity carrying `k` appears in the bucket of its
/// current owner, every bucket entry carrying `k` equals the canonical
/// record, and no other owner's bucket mentions `k`.
pub proof fn lemma_views_agree(r: Registry, k: u32)
    requires
        r.wf(),
        r.entities().contains_key(k),
    ensures
        has_id(r.owned_by(r.entities()[k].owner), k),
        forall|o: Identity, j: int|
            0 <= j < r.owned_by(o).len() && (#[trigger] r.owned_by(o)[j]).id == k
                ==> o == r.entities()[k].owner && r.owned_by(o)[j] == r.entities()[k],
{
}

/// An identifier not in use appears in no owner's bucket; together with
/// [`lemma_views_agree`] and [`lemma_bucket_ids_unique`], a freshly assigned
/// identifier is indexed exactly once, in its owner's bucket alone.
pub proof fn lemma_absent_everywhere(r: Registry, k: u32)
    requires
        r.wf(),
        !r.entities().contains_key(k),
    ensures
        forall|o: Identity| !has_id(r.owned_by(o), k),
{
    assert forall|o: Identity| !has_id(r.owned_by(o), k) by {
        if has_id(r.owned_by(o), k) {
            let j = choose|j: int| 0 <= j < r.owned_by(o).len() && r.owned_by(o)[j].id == k;
            assert(r.entities().contains_key(r.owned_by(o)[j].id));
        }
    }
}

/// The owner buckets together hold exactly one entry per minted entity.
pub proof fn lemma_index_counts_all(r: Registry)
    requires
        r.wf(),
    ensures
        r.indexed_count() == r.next_id() as nat,
{
}

} // verus!
