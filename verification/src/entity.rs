use vstd::prelude::*;

use crate::gender::Gender;

verus! {

/// A principal that can own entities or submit operations.
///
/// The registry treats identities as opaque: it only ever compares them for
/// equality.  The host maps whatever notion of account it has onto this
/// value before calling in.
pub type Identity = u64;

/// A uniquely identified, owned record.
///
/// The identifier, dna, price and gender are fixed at minting time; the
/// owner is the only field that changes afterwards.
#[derive(Clone, Debug, PartialEq, Eq)]
pub struct Entity {
    pub id: u32,
    pub dna: Vec<u8>,
    pub price: u32,
    pub gender: Gender,
    pub owner: Identity,
}

/// The mathematical value of an [`Entity`]: the same record with the dna
/// abstracted to a sequence.
pub struct EntityView {
    pub id: u32,
    pub dna: Seq<u8>,
    pub price: u32,
    pub gender: Gender,
    pub owner: Identity,
}

impl View for Entity {
    type V = EntityView;

    open spec fn view(&self) -> EntityView {
        EntityView {
            id: self.id,
            dna: self.dna@,
            price: self.price,
            gender: self.gender,
            owner: self.owner,
        }
    }
}

/// The abstract contents of a sequence of entities.
pub open spec fn seq_view(s: Seq<Entity>) -> Seq<EntityView> {
    s.map_values(|e: Entity| e@)
}

/// Whether some entry of `b` carries the identifier `id`.
pub open spec fn has_id(b: Seq<EntityView>, id: u32) -> bool {
    exists|j: int| 0 <= j < b.len() && b[j].id == id
}

/// The position of the first entry of `b` carrying the identifier `id`
/// (meaningful only when [`has_id`] holds).
pub open spec fn first_id_index(b: Seq<EntityView>, id: u32) -> int
    decreases b.len(),
{
    if b.len() == 0 {
        0
    } else if b[0].id == id {
        0
    } else {
        1 + first_id_index(b.drop_first(), id)
    }
}

/// A position that carries `id` and is preceded by no position carrying `id`
/// is exactly [`first_id_index`].
pub proof fn lemma_first_id_index(b: Seq<EntityView>, id: u32, j: int)
    requires
        0 <= j < b.len(),
        b[j].id == id,
        forall|p: int| 0 <= p < j ==> b[p].id != id,
    ensures
        first_id_index(b, id) == j,
    decreases b.len(),
{
    if j > 0 {
        lemma_first_id_index(b.drop_first(), id, j - 1);
    }
}

/// When some entry carries `id`, [`first_id_index`] names a real position:
/// the first one carrying `id`.
pub proof fn lemma_first_id_index_of(b: Seq<EntityView>, id: u32)
    requires
        has_id(b, id),
    ensures
        0 <= first_id_index(b, id) < b.len(),
        b[first_id_index(b, id)].id == id,
        forall|p: int| 0 <= p < first_id_index(b, id) ==> b[p].id != id,
    decreases b.len(),
{
    if b[0].id == id {
    } else {
        let w = choose|j: int| 0 <= j < b.len() && b[j].id == id;
        assert(b.drop_first()[w - 1].id == id);
        lemma_first_id_index_of(b.drop_first(), id);
        assert forall|p: int| 0 <= p < first_id_index(b, id) implies b[p].id != id by {
            if p > 0 {
                assert(b.drop_first()[p - 1].id != id);
            }
        }
    }
}

/// An equal copy of the given bytes.
pub(crate) fn clone_bytes(v: &Vec<u8>) -> (r: Vec<u8>)
    ensures
        r@ == v@,
{
    let r = v.clone();
    proof {
        assert(r@ =~= v@);
    }
    r
}

impl Entity {
    /// An exact copy of the entity; the copy has the same abstract value.
    pub fn duplicate(&self) -> (r: Entity)
        ensures
            r@ == self@,
    {
        Entity {
            id: self.id,
            dna: clone_bytes(&self.dna),
            price: self.price,
            gender: self.gender,
            owner: self.owner,
        }
    }
}

} // verus!
