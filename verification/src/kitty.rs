//! The record type and its derived classification.

use vstd::prelude::*;

verus! {

/// Accounts are opaque identities handed in by the caller boundary, which has
/// already authenticated them; an unsigned integer stands for one here.
pub type AccountId = u64;

/// Two-valued classification of a record, derived from the parity of the
/// length of its identifier.
#[derive(Clone, Copy, Debug, PartialEq, Eq, Structural)]
pub enum Gender {
    Male,
    Female,
}

impl Default for Gender {
    fn default() -> (g: Gender)
        ensures
            g == Gender::Male,
    {
        Gender::Male
    }
}

/// The classification an identifier determines: odd length is `Female`,
/// even length is `Male`. A pure function of the identifier alone.
pub open spec fn gender_of(dna: Seq<u8>) -> Gender {
    if dna.len() % 2 == 1 {
        Gender::Female
    } else {
        Gender::Male
    }
}

/// Computes the classification of an identifier.
pub fn get_gender(dna: &Vec<u8>) -> (g: Gender)
    ensures
        g == gender_of(dna@),
{
    if dna.len() % 2 != 0 {
        Gender::Female
    } else {
        Gender::Male
    }
}

/// A stored record: an immutable identifier and price, a reassignable owner,
/// and the classification derived from the identifier.
#[derive(Debug)]
pub struct Kitty {
    pub dna: Vec<u8>,
    pub owner: AccountId,
    pub price: u32,
    pub gender: Gender,
}

/// The mathematical value of a [`Kitty`].
pub ghost struct KittyView {
    pub dna: Seq<u8>,
    pub owner: AccountId,
    pub price: u32,
    pub gender: Gender,
}

impl View for Kitty {
    type V = KittyView;

    open spec fn view(&self) -> KittyView {
        KittyView { dna: self.dna@, owner: self.owner, price: self.price, gender: self.gender }
    }
}

} // verus!
