use kitties::error::Error;
use kitties::event::Event;
use kitties::kitty::Gender;
use kitties::store::Pallet;

const ALICE: u64 = 1;
const BOB: u64 = 2;
const CAROL: u64 = 3;
const DAVE: u64 = 4;

#[test]
fn new_store_is_empty() {
    let st = Pallet::new();
    assert_eq!(st.number_kitties(), 0);
    assert!(st.kitties(&b"abcd".to_vec()).is_none());
    assert!(st.owner(ALICE).is_none());
    assert!(st.events().is_empty());
}

#[test]
fn create_stores_record_and_indexes_it() {
    let mut st = Pallet::new();
    let r = st.create_kitty(ALICE, b"abcd".to_vec(), 10);
    assert!(r.is_ok());
    assert_eq!(st.number_kitties(), 1);
    let k = st.kitties(&b"abcd".to_vec()).unwrap();
    assert_eq!(k.dna, b"abcd".to_vec());
    assert_eq!(k.owner, ALICE);
    assert_eq!(k.price, 10);
    assert_eq!(k.gender, Gender::Male);
    assert_eq!(st.owner(ALICE), Some(&vec![b"abcd".to_vec()]));
    assert_eq!(st.events().len(), 1);
    assert_eq!(st.events()[0], Event::KittyStored(b"abcd".to_vec(), 10));
}

#[test]
fn duplicate_create_is_rejected_and_changes_nothing() {
    let mut st = Pallet::new();
    assert!(st.create_kitty(ALICE, b"abcd".to_vec(), 10).is_ok());
    let r = st.create_kitty(ALICE, b"abcd".to_vec(), 5);
    assert!(matches!(r, Err(Error::DuplicateId)));
    assert_eq!(st.number_kitties(), 1);
    let k = st.kitties(&b"abcd".to_vec()).unwrap();
    assert_eq!(k.owner, ALICE);
    assert_eq!(k.price, 10);
    assert_eq!(st.owner(ALICE), Some(&vec![b"abcd".to_vec()]));
    assert_eq!(st.events().len(), 1);
}

#[test]
fn zero_price_is_rejected_and_changes_nothing() {
    let mut st = Pallet::new();
    assert!(st.create_kitty(ALICE, b"abcd".to_vec(), 10).is_ok());
    let r = st.create_kitty(BOB, b"xyz".to_vec(), 0);
    assert!(matches!(r, Err(Error::InvalidPrice)));
    assert_eq!(st.number_kitties(), 1);
    assert!(st.kitties(&b"xyz".to_vec()).is_none());
    assert!(st.owner(BOB).is_none());
    assert_eq!(st.events().len(), 1);
}

#[test]
fn transfer_moves_record_and_both_index_entries() {
    let mut st = Pallet::new();
    assert!(st.create_kitty(ALICE, b"abcd".to_vec(), 10).is_ok());
    let r = st.transfer_kitty(ALICE, BOB, b"abcd".to_vec());
    assert!(r.is_ok());
    let k = st.kitties(&b"abcd".to_vec()).unwrap();
    assert_eq!(k.owner, BOB);
    assert_eq!(k.price, 10);
    let empty: Vec<Vec<u8>> = Vec::new();
    assert_eq!(st.owner(ALICE), Some(&empty));
    assert_eq!(st.owner(BOB), Some(&vec![b"abcd".to_vec()]));
    assert_eq!(st.number_kitties(), 1);
    assert_eq!(st.events().len(), 2);
    assert_eq!(st.events()[1], Event::KittyTransferedTo(BOB, b"abcd".to_vec()));
}

#[test]
fn transfer_by_non_owner_is_rejected_and_changes_nothing() {
    let mut st = Pallet::new();
    assert!(st.create_kitty(ALICE, b"abcd".to_vec(), 10).is_ok());
    let r = st.transfer_kitty(CAROL, DAVE, b"abcd".to_vec());
    assert!(matches!(r, Err(Error::NotOwner)));
    let k = st.kitties(&b"abcd".to_vec()).unwrap();
    assert_eq!(k.owner, ALICE);
    assert_eq!(st.owner(ALICE), Some(&vec![b"abcd".to_vec()]));
    assert!(st.owner(CAROL).is_none());
    assert!(st.owner(DAVE).is_none());
    assert_eq!(st.events().len(), 1);
}

#[test]
fn former_owner_is_no_longer_an_owner() {
    let mut st = Pallet::new();
    assert!(st.create_kitty(ALICE, b"abcd".to_vec(), 10).is_ok());
    assert!(st.transfer_kitty(ALICE, BOB, b"abcd".to_vec()).is_ok());
    let r = st.transfer_kitty(ALICE, CAROL, b"abcd".to_vec());
    assert!(matches!(r, Err(Error::NotOwner)));
    assert_eq!(st.kitties(&b"abcd".to_vec()).unwrap().owner, BOB);
}

#[test]
fn transfer_of_unknown_id_is_rejected() {
    let mut st = Pallet::new();
    assert!(st.create_kitty(ALICE, b"abcd".to_vec(), 10).is_ok());
    let r = st.transfer_kitty(ALICE, DAVE, b"nonexistent".to_vec());
    assert!(matches!(r, Err(Error::RecordNotFound)));
    assert_eq!(st.number_kitties(), 1);
    assert_eq!(st.events().len(), 1);
}

#[test]
fn transfer_to_current_owner_keeps_a_single_entry() {
    let mut st = Pallet::new();
    assert!(st.create_kitty(ALICE, b"abcd".to_vec(), 10).is_ok());
    assert!(st.create_kitty(ALICE, b"ef".to_vec(), 3).is_ok());
    let r = st.transfer_kitty(ALICE, ALICE, b"abcd".to_vec());
    assert!(r.is_ok());
    assert_eq!(st.kitties(&b"abcd".to_vec()).unwrap().owner, ALICE);
    // The id moved to the end of the same list and occurs exactly once.
    assert_eq!(st.owner(ALICE), Some(&vec![b"ef".to_vec(), b"abcd".to_vec()]));
}

#[test]
fn counter_counts_only_successful_creations() {
    let mut st = Pallet::new();
    assert!(st.create_kitty(ALICE, b"a".to_vec(), 1).is_ok());
    assert!(st.create_kitty(ALICE, b"a".to_vec(), 1).is_err());
    assert!(st.create_kitty(BOB, b"b".to_vec(), 0).is_err());
    assert!(st.create_kitty(BOB, b"bc".to_vec(), 7).is_ok());
    assert!(st.transfer_kitty(ALICE, BOB, b"a".to_vec()).is_ok());
    assert_eq!(st.number_kitties(), 2);
}

#[test]
fn owner_lists_keep_insertion_order() {
    let mut st = Pallet::new();
    assert!(st.create_kitty(ALICE, b"a".to_vec(), 1).is_ok());
    assert!(st.create_kitty(ALICE, b"bc".to_vec(), 2).is_ok());
    assert!(st.create_kitty(ALICE, b"def".to_vec(), 3).is_ok());
    assert_eq!(
        st.owner(ALICE),
        Some(&vec![b"a".to_vec(), b"bc".to_vec(), b"def".to_vec()]),
    );
    // Removing from the middle keeps the remaining order.
    assert!(st.transfer_kitty(ALICE, BOB, b"bc".to_vec()).is_ok());
    assert_eq!(st.owner(ALICE), Some(&vec![b"a".to_vec(), b"def".to_vec()]));
    assert_eq!(st.owner(BOB), Some(&vec![b"bc".to_vec()]));
}

#[test]
fn empty_identifier_can_be_created() {
    let mut st = Pallet::new();
    assert!(st.create_kitty(ALICE, Vec::new(), 5).is_ok());
    let k = st.kitties(&Vec::new()).unwrap();
    assert_eq!(k.gender, Gender::Male);
    assert_eq!(k.price, 5);
}

#[test]
fn events_record_the_full_history_in_order() {
    let mut st = Pallet::new();
    assert!(st.create_kitty(ALICE, b"abc".to_vec(), 2).is_ok());
    assert!(st.create_kitty(BOB, b"wxyz".to_vec(), 9).is_ok());
    assert!(st.transfer_kitty(BOB, ALICE, b"wxyz".to_vec()).is_ok());
    assert_eq!(
        st.events(),
        &vec![
            Event::KittyStored(b"abc".to_vec(), 2),
            Event::KittyStored(b"wxyz".to_vec(), 9),
            Event::KittyTransferedTo(ALICE, b"wxyz".to_vec()),
        ],
    );
}
