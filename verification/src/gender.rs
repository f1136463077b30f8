use vstd::prelude::*;

verus! {

/// The two-valued attribute derived from an entity's dna.
///
/// The attribute is computed once, when the entity is minted, and is never
/// recomputed afterwards.
#[derive(Clone, Copy, Debug, PartialEq, Eq)]
pub enum Gender {
    Male,
    Female,
}

/// The attribute an entity with the given dna carries: `Female` iff the byte
/// length of the dna is odd, else `Male`.  The empty dna derives `Male`.
pub open spec fn gender_of(dna: Seq<u8>) -> Gender {
    if dna.len() % 2 == 1 {
        Gender::Female
    } else {
        Gender::Male
    }
}

impl Default for Gender {
    /// The default attribute is `Male`, agreeing with the derivation for the
    /// empty dna.
    fn default() -> (g: Gender)
        ensures
            g == Gender::Male,
    {
        Gender::Male
    }
}

/// Derives the gender attribute from raw dna bytes.
///
/// This is a pure function of the dna's length alone: `Male` exactly when the
/// length is even (including the empty dna), `Female` otherwise.
pub fn derive_gender(dna: &Vec<u8>) -> (g: Gender)
    ensures
        g == gender_of(dna@),
        g == Gender::Male <==> dna@.len() % 2 == 0,
{
    if dna.len() % 2 == 1 {
        Gender::Female
    } else {
        Gender::Male
    }
}

} // verus!
