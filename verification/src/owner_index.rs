use vstd::prelude::*;

use crate::entity::first_id_index;
use crate::entity::has_id;
use crate::entity::lemma_first_id_index;
use crate::entity::seq_view;
use crate::entity::Entity;
use crate::entity::EntityView;
use crate::entity::Identity;

verus! {

/// The entities currently grouped under one owner.
///
/// The order of a bucket carries no meaning: removal swaps the last entry
/// into the vacated slot rather than shifting.
#[derive(Clone, Debug, PartialEq, Eq)]
struct Bucket {
    owner: Identity,
    entities: Vec<Entity>,
}

/// Each owner has at most one bucket.
spec fn keys_unique(s: Seq<Bucket>) -> bool {
    forall|i: int, j: int| 0 <= i < j < s.len() ==> s[i].owner != s[j].owner
}

/// The contents of the first bucket keyed by `o`, or the empty sequence if
/// no bucket is.
spec fn bucket_in(s: Seq<Bucket>, o: Identity) -> Seq<EntityView>
    decreases s.len(),
{
    if s.len() == 0 {
        Seq::empty()
    } else if s[0].owner == o {
        seq_view(s[0].entities@)
    } else {
        bucket_in(s.drop_first(), o)
    }
}

/// How many entities all buckets hold together.
spec fn total_in(s: Seq<Bucket>) -> nat
    decreases s.len(),
{
    if s.len() == 0 {
        0
    } else {
        s[0].entities@.len() + total_in(s.drop_first())
    }
}

proof fn lemma_bucket_in_absent(s: Seq<Bucket>, o: Identity)
    requires
        forall|i: int| 0 <= i < s.len() ==> s[i].owner != o,
    ensures
        bucket_in(s, o) == Seq::<EntityView>::empty(),
    decreases s.len(),
{
    if s.len() > 0 {
        lemma_bucket_in_absent(s.drop_first(), o);
    }
}

proof fn lemma_bucket_in_found(s: Seq<Bucket>, o: Identity, i: int)
    requires
        0 <= i < s.len(),
        s[i].owner == o,
        forall|p: int| 0 <= p < i ==> s[p].owner != o,
    ensures
        bucket_in(s, o) == seq_view(s[i].entities@),
    decreases s.len(),
{
    if i > 0 {
        lemma_bucket_in_found(s.drop_first(), o, i - 1);
    }
}

proof fn lemma_bucket_in_update(s: Seq<Bucket>, i: int, b: Bucket, o: Identity)
    requires
        keys_unique(s),
        0 <= i < s.len(),
        b.owner == s[i].owner,
    ensures
        bucket_in(s.update(i, b), o) == if o == s[i].owner {
            seq_view(b.entities@)
        } else {
            bucket_in(s, o)
        },
    decreases s.len(),
{
    if i == 0 {
        assert(s.update(0, b).drop_first() =~= s.drop_first());
    } else {
        assert(s.update(i, b).drop_first() =~= s.drop_first().update(i - 1, b));
        lemma_bucket_in_update(s.drop_first(), i - 1, b, o);
    }
}

proof fn lemma_bucket_in_push(s: Seq<Bucket>, b: Bucket, o: Identity)
    requires
        forall|i: int| 0 <= i < s.len() ==> s[i].owner != b.owner,
    ensures
        bucket_in(s.push(b), o) == if o == b.owner {
            seq_view(b.entities@)
        } else {
            bucket_in(s, o)
        },
    decreases s.len(),
{
    if s.len() == 0 {
        assert(s.push(b)[0] == b);
        assert(s.push(b).drop_first() =~= Seq::<Bucket>::empty());
        assert(bucket_in(Seq::<Bucket>::empty(), o) == Seq::<EntityView>::empty());
    } else {
        assert(s.push(b)[0] == s[0]);
        assert(s.push(b).drop_first() =~= s.drop_first().push(b));
        lemma_bucket_in_push(s.drop_first(), b, o);
    }
}

proof fn lemma_total_in_update(s: Seq<Bucket>, i: int, b: Bucket)
    requires
        0 <= i < s.len(),
    ensures
        total_in(s.update(i, b)) + s[i].entities@.len() == total_in(s) + b.entities@.len(),
    decreases s.len(),
{
    if i == 0 {
        assert(s.update(0, b).drop_first() =~= s.drop_first());
    } else {
        assert(s.update(i, b).drop_first() =~= s.drop_first().update(i - 1, b));
        lemma_total_in_update(s.drop_first(), i - 1, b);
    }
}

proof fn lemma_total_in_push(s: Seq<Bucket>, b: Bucket)
    ensures
        total_in(s.push(b)) == total_in(s) + b.entities@.len(),
    decreases s.len(),
{
    if s.len() == 0 {
        assert(s.push(b)[0] == b);
        assert(s.push(b).drop_first() =~= Seq::<Bucket>::empty());
        assert(total_in(Seq::<Bucket>::empty()) == 0);
    } else {
        assert(s.push(b)[0] == s[0]);
        assert(s.push(b).drop_first() =~= s.drop_first().push(b));
        lemma_total_in_push(s.drop_first(), b);
    }
}

/// Finds the first position of `v` whose entity carries `id`.
fn find_pos(v: &Vec<Entity>, id: u32) -> (r: Option<usize>)
    ensures
        match r {
            Some(j) => j < v@.len() && v@[j as int]@.id == id && forall|p: int|
                0 <= p < j ==> v@[p]@.id != id,
            None => forall|p: int| 0 <= p < v@.len() ==> v@[p]@.id != id,
        },
{
    let mut j: usize = 0;
    while j < v.len()
        invariant
            j <= v@.len(),
            forall|p: int| 0 <= p < j ==> v@[p]@.id != id,
        decreases v@.len() - j,
    {
        if v[j].id == id {
            return Some(j);
        }
        j = j + 1;
    }
    None
}

/// The owner index: the secondary map grouping entities by their current
/// owner.
///
/// It holds full copies of the entity records; the registry keeps those
/// copies in step with the canonical store.
#[derive(Clone, Debug, PartialEq, Eq)]
pub struct OwnerIndex {
    buckets: Vec<Bucket>,
}

impl OwnerIndex {
    /// Each owner is keyed by at most one bucket.
    pub closed spec fn wf(&self) -> bool {
        keys_unique(self.buckets@)
    }

    /// The bucket of `o`: the entities the index currently groups under
    /// that owner, empty for an owner the index has never seen.
    pub closed spec fn bucket_of(&self, o: Identity) -> Seq<EntityView> {
        bucket_in(self.buckets@, o)
    }

    /// How many entities all buckets hold together.
    pub closed spec fn total(&self) -> nat {
        total_in(self.buckets@)
    }

    /// An empty index.
    pub fn new() -> (r: OwnerIndex)
        ensures
            r.wf(),
            forall|o: Identity| r.bucket_of(o) == Seq::<EntityView>::empty(),
            r.total() == 0,
    {
        OwnerIndex { buckets: Vec::new() }
    }

    /// The position of the bucket keyed by `o`, if one exists.
    fn find_bucket(&self, o: Identity) -> (r: Option<usize>)
        ensures
            match r {
                Some(i) => i < self.buckets@.len() && self.buckets@[i as int].owner == o
                    && forall|p: int| 0 <= p < i ==> self.buckets@[p].owner != o,
                None => forall|i: int| 0 <= i < self.buckets@.len()
                    ==> self.buckets@[i].owner != o,
            },
    {
        let mut i: usize = 0;
        while i < self.buckets.len()
            invariant
                i <= self.buckets@.len(),
                forall|p: int| 0 <= p < i ==> self.buckets@[p].owner != o,
            decreases self.buckets@.len() - i,
        {
            if self.buckets[i].owner == o {
                return Some(i);
            }
            i = i + 1;
        }
        None
    }

    /// Adds the entity to the owner's bucket, creating the bucket if the
    /// owner is new to the index.
    pub fn append(&mut self, o: Identity, e: Entity)
        requires
            old(self).wf(),
        ensures
            final(self).wf(),
            final(self).bucket_of(o) == old(self).bucket_of(o).push(e@),
            forall|o2: Identity| o2 != o ==> final(self).bucket_of(o2) == old(self).bucket_of(o2),
            final(self).total() == old(self).total() + 1,
    {
        let ghost s0 = self.buckets@;
        let ghost ev = e@;
        match self.find_bucket(o) {
            Some(i) => {
                let mut b = self.buckets.remove(i);
                b.entities.push(e);
                self.buckets.insert(i, b);
                proof {
                    let bnew = self.buckets@[i as int];
                    assert(self.buckets@ =~= s0.update(i as int, bnew));
                    lemma_bucket_in_found(s0, o, i as int);
                    assert(seq_view(bnew.entities@) =~= seq_view(s0[i as int].entities@).push(ev));
                    assert forall|o2: Identity| #[trigger] bucket_in(self.buckets@, o2)
                        == if o2 == o { bucket_in(s0, o2).push(ev) } else { bucket_in(s0, o2) } by {
                        lemma_bucket_in_update(s0, i as int, bnew, o2);
                    }
                    lemma_total_in_update(s0, i as int, bnew);
                }
            },
            None => {
                let mut v: Vec<Entity> = Vec::new();
                v.push(e);
                self.buckets.push(Bucket { owner: o, entities: v });
                proof {
                    let bnew = self.buckets@.last();
                    assert(self.buckets@ =~= s0.push(bnew));
                    lemma_bucket_in_absent(s0, o);
                    assert(seq_view(bnew.entities@) =~= Seq::<EntityView>::empty().push(ev));
                    assert forall|o2: Identity| #[trigger] bucket_in(self.buckets@, o2)
                        == if o2 == o { bucket_in(s0, o2).push(ev) } else { bucket_in(s0, o2) } by {
                        lemma_bucket_in_push(s0, bnew, o2);
                    }
                    lemma_total_in_push(s0, bnew);
                }
            },
        }
    }

    /// Removes the first entity of the owner's bucket carrying `id`, by
    /// swapping the bucket's last entry into its place; reports whether a
    /// match was found.  An absent owner or identifier leaves the index
    /// untouched.
    pub fn remove_by_id(&mut self, o: Identity, id: u32) -> (found: bool)
        requires
            old(self).wf(),
        ensures
            final(self).wf(),
            found <==> has_id(old(self).bucket_of(o), id),
            !found ==> *final(self) == *old(self),
            found ==> {
                let b = old(self).bucket_of(o);
                let j = first_id_index(b, id);
                &&& final(self).bucket_of(o) == b.update(j, b.last()).drop_last()
                &&& forall|o2: Identity| o2 != o
                    ==> final(self).bucket_of(o2) == old(self).bucket_of(o2)
                &&& final(self).total() + 1 == old(self).total()
            },
    {
        let ghost s0 = self.buckets@;
        match self.find_bucket(o) {
            None => {
                proof {
                    lemma_bucket_in_absent(s0, o);
                }
                false
            },
            Some(i) => {
                let ghost bv = bucket_in(s0, o);
                proof {
                    lemma_bucket_in_found(s0, o, i as int);
                }
                match find_pos(&self.buckets[i].entities, id) {
                    None => {
                        proof {
                            assert forall|p: int| 0 <= p < bv.len() implies bv[p].id != id by {
                                assert(bv[p] == s0[i as int].entities@[p]@);
                            }
                        }
                        false
                    },
                    Some(j) => {
                        let mut b = self.buckets.remove(i);
                        b.entities.swap_remove(j);
                        self.buckets.insert(i, b);
                        proof {
                            let bnew = self.buckets@[i as int];
                            assert(self.buckets@ =~= s0.update(i as int, bnew));
                            assert(bv[j as int].id == id);
                            lemma_first_id_index(bv, id, j as int);
                            assert(seq_view(bnew.entities@)
                                =~= bv.update(j as int, bv.last()).drop_last());
                            assert forall|o2: Identity| #[trigger] bucket_in(self.buckets@, o2)
                                == if o2 == o {
                                    bv.update(j as int, bv.last()).drop_last()
                                } else {
                                    bucket_in(s0, o2)
                                } by {
                                lemma_bucket_in_update(s0, i as int, bnew, o2);
                            }
                            lemma_total_in_update(s0, i as int, bnew);
                        }
                        true
                    },
                }
            },
        }
    }

    /// Copies of the entities in the owner's bucket, for read access; an
    /// unknown owner yields the empty collection.
    pub fn bucket_clone(&self, o: Identity) -> (r: Vec<Entity>)
        ensures
            seq_view(r@) == self.bucket_of(o),
    {
        match self.find_bucket(o) {
            None => {
                proof {
                    lemma_bucket_in_absent(self.buckets@, o);
                    assert(seq_view(Seq::<Entity>::empty()) =~= Seq::<EntityView>::empty());
                }
                Vec::new()
            },
            Some(i) => {
                proof {
                    lemma_bucket_in_found(self.buckets@, o, i as int);
                }
                let n = self.buckets[i].entities.len();
                let mut r: Vec<Entity> = Vec::new();
                let mut j: usize = 0;
                while j < n
                    invariant
                        j <= n,
                        i < self.buckets@.len(),
                        n == self.buckets@[i as int].entities@.len(),
                        r@.len() == j,
                        forall|p: int| 0 <= p < j
                            ==> r@[p]@ == self.buckets@[i as int].entities@[p]@,
                    decreases n - j,
                {
                    r.push(self.buckets[i].entities[j].duplicate());
                    j = j + 1;
                }
                proof {
                    assert(seq_view(r@) =~= seq_view(self.buckets@[i as int].entities@));
                }
                r
            },
        }
    }
}

} // verus!
