//! Notifications the store records for the caller boundary to deliver.
//! An event is appended only after the mutation it describes has been applied.

use vstd::prelude::*;
use crate::kitty::AccountId;

verus! {

#[derive(Debug, PartialEq, Eq)]
pub enum Event {
    /// A record with the given identifier and price was created.
    KittyStored(Vec<u8>, u32),
    /// The record with the given identifier was transferred to the account.
    KittyTransferedTo(AccountId, Vec<u8>),
}

/// The mathematical value of an [`Event`].
pub ghost enum EventView {
    KittyStored(Seq<u8>, u32),
    KittyTransferedTo(AccountId, Seq<u8>),
}

impl View for Event {
    type V = EventView;

    open spec fn view(&self) -> EventView {
        match self {
            Event::KittyStored(dna, price) => EventView::KittyStored(dna@, *price),
            Event::KittyTransferedTo(account, dna) => EventView::KittyTransferedTo(*account, dna@),
        }
    }
}

} // verus!
