//! The record store: three collections kept consistent by two operations.
//!
//! The store owns a creation counter, the records themselves, and a secondary
//! index from each account to the identifiers it owns. `create_kitty` and
//! `transfer_kitty` reject bad input before their first write and otherwise
//! update all three collections together.

use vstd::prelude::*;
use crate::error::Error;
use crate::event::Event;
use crate::event::EventView;
use crate::kitty::AccountId;
use crate::kitty::Gender;
use crate::kitty::Kitty;
use crate::kitty::KittyView;
use crate::kitty::gender_of;
use crate::kitty::get_gender;

verus! {

/// One account's entry in the ownership index: the identifiers it owns, in
/// insertion order, each at most once.
struct OwnerEntry {
    account: AccountId,
    ids: Vec<Vec<u8>>,
}

/// The record store. All access goes through its methods; the contracts
/// speak of the abstract views [`Pallet::records`], [`Pallet::owner_map`],
/// [`Pallet::counter`] and [`Pallet::events_view`].
pub struct Pallet {
    number_kitties: u32,
    kitties: Vec<Kitty>,
    owners: Vec<OwnerEntry>,
    events: Vec<Event>,
}

/// How many times `x` occurs in `s`.
pub open spec fn occurrences(s: Seq<Seq<u8>>, x: Seq<u8>) -> nat
    decreases s.len(),
{
    if s.len() == 0 {
        0
    } else {
        occurrences(s.drop_last(), x) + if s.last() == x {
            1nat
        } else {
            0nat
        }
    }
}

/// The identifiers of one index entry, as mathematical sequences.
spec fn ids_of(e: OwnerEntry) -> Seq<Seq<u8>> {
    e.ids@.map_values(|v: Vec<u8>| v@)
}

/// `s` with the first occurrence of `x` removed, if any.
pub open spec fn remove_id(s: Seq<Seq<u8>>, x: Seq<u8>) -> Seq<Seq<u8>> {
    if s.contains(x) {
        s.remove(s.index_of(x))
    } else {
        s
    }
}

/// The ids an account owns according to index `m`: its entry, or the empty
/// sequence where it has none yet.
pub open spec fn ids_or_empty(m: Map<AccountId, Seq<Seq<u8>>>, a: AccountId) -> Seq<Seq<u8>> {
    if m.contains_key(a) {
        m[a]
    } else {
        Seq::empty()
    }
}

/// An owned copy of an identifier, equal to it as a sequence of bytes.
fn clone_dna(dna: &Vec<u8>) -> (r: Vec<u8>)
    ensures
        r@ == dna@,
{
    let r = dna.clone();
    proof {
        assert forall|i: int| 0 <= i < dna@.len() implies r@[i] == dna@[i] by {
            assert(cloned::<u8>(dna@[i], r@[i]));
        }
        assert(r@ =~= dna@);
    }
    r
}

impl Pallet {
    /// Is `d` the identifier of some stored record?
    spec fn has_dna(self, d: Seq<u8>) -> bool {
        exists|i: int| 0 <= i < self.kitties@.len() && self.kitties@[i].dna@ == d
    }

    /// The position of the record with identifier `d`.
    spec fn kitty_index(self, d: Seq<u8>) -> int {
        choose|i: int| 0 <= i < self.kitties@.len() && self.kitties@[i].dna@ == d
    }

    /// Does the index hold an entry for account `a`?
    spec fn has_acct(self, a: AccountId) -> bool {
        exists|i: int| 0 <= i < self.owners@.len() && self.owners@[i].account == a
    }

    /// The position of account `a`'s index entry.
    spec fn acct_index(self, a: AccountId) -> int {
        choose|i: int| 0 <= i < self.owners@.len() && self.owners@[i].account == a
    }

    /// The stored records, as a map from identifier to record value.
    pub closed spec fn records(self) -> Map<Seq<u8>, KittyView> {
        Map::new(|d: Seq<u8>| self.has_dna(d), |d: Seq<u8>| self.kitties@[self.kitty_index(d)]@)
    }

    /// The ownership index, as a map from account to the identifiers it
    /// owns, in insertion order.
    pub closed spec fn owner_map(self) -> Map<AccountId, Seq<Seq<u8>>> {
        Map::new(
            |a: AccountId| self.has_acct(a),
            |a: AccountId| ids_of(self.owners@[self.acct_index(a)]),
        )
    }

    /// How many records have ever been created.
    pub closed spec fn counter(self) -> u32 {
        self.number_kitties
    }

    /// The notifications recorded so far, oldest first.
    pub closed spec fn events_view(self) -> Seq<EventView> {
        self.events@.map_values(|e: Event| e@)
    }

    /// Is `d` the identifier of a record owned by `a`?
    spec fn owned_by(self, d: Seq<u8>, a: AccountId) -> bool {
        exists|i: int|
            0 <= i < self.kitties@.len() && self.kitties@[i].dna@ == d && self.kitties@[i].owner
                == a
    }

    /// Does account `a`'s index entry list `d`?
    spec fn listed(self, d: Seq<u8>, a: AccountId) -> bool {
        exists|oi: int, j: int|
            0 <= oi < self.owners@.len() && 0 <= j < self.owners@[oi].ids@.len()
                && self.owners@[oi].account == a && self.owners@[oi].ids@[j]@ == d
    }

    /// The counter counts the records; records are never removed.
    spec fn wf_counter(self) -> bool {
        self.number_kitties == self.kitties@.len()
    }

    /// No two records share an identifier.
    spec fn wf_dna_unique(self) -> bool {
        forall|i: int, j: int|
            0 <= i < j < self.kitties@.len() ==> #[trigger] self.kitties@[i].dna@
                != #[trigger] self.kitties@[j].dna@
    }

    /// Every record's price is positive.
    spec fn wf_prices(self) -> bool {
        forall|i: int| 0 <= i < self.kitties@.len() ==> #[trigger] self.kitties@[i].price > 0
    }

    /// Every record's classification is the one its identifier determines.
    spec fn wf_genders(self) -> bool {
        forall|i: int|
            0 <= i < self.kitties@.len() ==> #[trigger] self.kitties@[i].gender == gender_of(
                self.kitties@[i].dna@,
            )
    }

    /// No account has two index entries.
    spec fn wf_acct_unique(self) -> bool {
        forall|i: int, j: int|
            0 <= i < j < self.owners@.len() ==> #[trigger] self.owners@[i].account
                != #[trigger] self.owners@[j].account
    }

    /// No index entry lists an identifier twice.
    spec fn wf_lists_nodup(self) -> bool {
        forall|oi: int, j: int, k: int|
            0 <= oi < self.owners@.len() && 0 <= j < k < self.owners@[oi].ids@.len()
                ==> #[trigger] self.owners@[oi].ids@[j]@ != #[trigger] self.owners@[oi].ids@[k]@
    }

    /// Every listed identifier belongs to a record owned by that account.
    spec fn wf_index_sound(self) -> bool {
        forall|oi: int, j: int|
            0 <= oi < self.owners@.len() && 0 <= j < self.owners@[oi].ids@.len()
                ==> self.owned_by(#[trigger] self.owners@[oi].ids@[j]@, self.owners@[oi].account)
    }

    /// Every record's identifier is listed under its owner.
    spec fn wf_index_complete(self) -> bool {
        forall|i: int|
            0 <= i < self.kitties@.len() ==> self.listed(
                #[trigger] self.kitties@[i].dna@,
                self.kitties@[i].owner,
            )
    }

    /// Well-formedness: the internal consistency that every operation
    /// preserves — the counter counts the records, identifiers and index
    /// entries are unique, prices are positive, and the ownership index and
    /// the records cross-check exactly.
    pub closed spec fn wf(self) -> bool {
        &&& self.wf_counter()
        &&& self.wf_dna_unique()
        &&& self.wf_prices()
        &&& self.wf_genders()
        &&& self.wf_acct_unique()
        &&& self.wf_lists_nodup()
        &&& self.wf_index_sound()
        &&& self.wf_index_complete()
    }

    /// An empty store: no records, no index entries, counter at zero.
    pub fn new() -> (s: Pallet)
        ensures
            s.wf(),
            s.counter() == 0,
            s.records() == Map::<Seq<u8>, KittyView>::empty(),
            s.owner_map() == Map::<AccountId, Seq<Seq<u8>>>::empty(),
            s.events_view() == Seq::<EventView>::empty(),
    {
        let s = Pallet {
            number_kitties: 0,
            kitties: Vec::new(),
            owners: Vec::new(),
            events: Vec::new(),
        };
        proof {
            assert(s.records() =~= Map::<Seq<u8>, KittyView>::empty());
            assert(s.owner_map() =~= Map::<AccountId, Seq<Seq<u8>>>::empty());
            assert(s.events_view() =~= Seq::<EventView>::empty());
        }
        s
    }

    /// How many records have ever been created.
    pub fn number_kitties(&self) -> (n: u32)
        ensures
            n == self.counter(),
    {
        self.number_kitties
    }

    /// The position of the record with the given identifier, if any.
    fn find_kitty(&self, dna: &Vec<u8>) -> (r: Option<usize>)
        ensures
            match r {
                Some(i) => i < self.kitties@.len() && self.kitties@[i as int].dna@ == dna@,
                None => !self.has_dna(dna@),
            },
    {
        let n = self.kitties.len();
        for i in 0..n
            invariant
                n == self.kitties@.len(),
                forall|k: int| 0 <= k < i ==> #[trigger] self.kitties@[k].dna@ != dna@,
        {
            if self.kitties[i].dna == *dna {
                proof {
                    assert(self.kitties@[i as int].dna@ =~= dna@);
                }
                return Some(i);
            }
            proof {
                assert(self.kitties@[i as int].dna@ != dna@) by {
                    if self.kitties@[i as int].dna@ == dna@ {
                        assert(self.kitties@[i as int].dna@ =~= dna@);
                    }
                }
            }
        }
        None
    }

    /// The position of the given account's index entry, if any.
    fn find_owner(&self, account: AccountId) -> (r: Option<usize>)
        ensures
            match r {
                Some(i) => i < self.owners@.len() && self.owners@[i as int].account == account,
                None => !self.has_acct(account),
            },
    {
        let n = self.owners.len();
        for i in 0..n
            invariant
                n == self.owners@.len(),
                forall|k: int| 0 <= k < i ==> #[trigger] self.owners@[k].account != account,
        {
            if self.owners[i].account == account {
                return Some(i);
            }
        }
        None
    }

    /// The record with the given identifier, if any.
    pub fn kitties(&self, dna: &Vec<u8>) -> (r: Option<&Kitty>)
        requires
            self.wf(),
        ensures
            match r {
                Some(k) => self.records().contains_key(dna@) && k@ == self.records()[dna@],
                None => !self.records().contains_key(dna@),
            },
    {
        match self.find_kitty(dna) {
            Some(i) => {
                proof {
                    self.lemma_kitty_index(dna@);
                }
                Some(&self.kitties[i])
            },
            None => None,
        }
    }

    /// The identifiers the given account owns, in insertion order, if it has
    /// ever owned one.
    pub fn owner(&self, account: AccountId) -> (r: Option<&Vec<Vec<u8>>>)
        requires
            self.wf(),
        ensures
            match r {
                Some(ids) => self.owner_map().contains_key(account) && ids@.map_values(
                    |v: Vec<u8>| v@,
                ) == self.owner_map()[account],
                None => !self.owner_map().contains_key(account),
            },
    {
        match self.find_owner(account) {
            Some(i) => {
                proof {
                    self.lemma_acct_index(account);
                }
                Some(&self.owners[i].ids)
            },
            None => None,
        }
    }

    /// The notifications recorded so far, oldest first.
    pub fn events(&self) -> (r: &Vec<Event>)
        ensures
            r@.map_values(|e: Event| e@) == self.events_view(),
    {
        &self.events
    }

    /// On which stores a creation succeeds: the price is positive, the
    /// identifier is fresh, and the counter can still count one more.
    pub open spec fn create_ok(self, dna: Seq<u8>, price: u32) -> bool {
        &&& price > 0
        &&& !self.records().contains_key(dna)
        &&& self.counter() < u32::MAX
    }

    /// Creates a record with the given identifier and price, owned by `who`.
    ///
    /// All checks precede the first write: a rejected call leaves the store
    /// exactly as it was. On success the counter, the record map, the
    /// ownership index and the event log are all updated together.
    pub fn create_kitty(&mut self, who: AccountId, dna: Vec<u8>, price: u32) -> (r: Result<
        (),
        Error,
    >)
        requires
            old(self).wf(),
        ensures
            final(self).wf(),
            r is Ok <==> old(self).create_ok(dna@, price),
            r == Err::<(), Error>(Error::InvalidPrice) <==> price == 0,
            r == Err::<(), Error>(Error::DuplicateId) <==> price > 0 && old(
                self,
            ).records().contains_key(dna@),
            r == Err::<(), Error>(Error::StorageOverflow) <==> price > 0 && !old(
                self,
            ).records().contains_key(dna@) && old(self).counter() == u32::MAX,
            r is Err ==> *final(self) == *old(self),
            r is Ok ==> final(self).counter() == old(self).counter() + 1,
            r is Ok ==> final(self).records() == old(self).records().insert(
                dna@,
                KittyView { dna: dna@, owner: who, price, gender: gender_of(dna@) },
            ),
            r is Ok ==> final(self).owner_map() == old(self).owner_map().insert(
                who,
                ids_or_empty(old(self).owner_map(), who).push(dna@),
            ),
            r is Ok ==> final(self).events_view() == old(self).events_view().push(
                EventView::KittyStored(dna@, price),
            ),
            forall|d: Seq<u8>|
                old(self).records().contains_key(d) ==> final(self).records().contains_key(d),
    {
        if price == 0 {
            return Err(Error::InvalidPrice);
        }
        match self.find_kitty(&dna) {
            Some(_) => {
                return Err(Error::DuplicateId);
            },
            None => {},
        }
        if self.number_kitties == u32::MAX {
            return Err(Error::StorageOverflow);
        }
        let ghost o = *self;
        let gender = get_gender(&dna);
        let kitty = Kitty { dna: clone_dna(&dna), owner: who, price, gender };
        self.number_kitties = self.number_kitties + 1;
        self.kitties.push(kitty);
        match self.find_owner(who) {
            Some(oi) => {
                proof {
                    o.lemma_acct_index(who);
                }
                let mut entry = self.owners.remove(oi);
                entry.ids.push(clone_dna(&dna));
                let ghost ne = entry;
                self.owners.insert(oi, entry);
                proof {
                    assert(self.owners@ =~= o.owners@.update(oi as int, ne));
                    assert(ids_of(ne) =~= ids_of(o.owners@[oi as int]).push(dna@));
                    assert(create_index_shape(o, *self, who, dna@));
                }
            },
            None => {
                let mut ids: Vec<Vec<u8>> = Vec::new();
                ids.push(clone_dna(&dna));
                let e = OwnerEntry { account: who, ids };
                let ghost ne = e;
                self.owners.push(e);
                proof {
                    assert(ids_of(ne) =~= seq![dna@]);
                    assert(create_index_shape(o, *self, who, dna@));
                }
            },
        }
        self.events.push(Event::KittyStored(dna, price));
        proof {
            lemma_create_post(o, *self, who, dna@, price);
        }
        Ok(())
    }

    /// On which stores a transfer by `who` succeeds: the record exists and
    /// `who` currently owns it. The destination does not matter: every
    /// account is a valid destination, oneself included.
    pub open spec fn transfer_ok(self, who: AccountId, dna: Seq<u8>) -> bool {
        &&& self.records().contains_key(dna)
        &&& self.records()[dna].owner == who
    }

    /// Transfers the record named `dna` from `who` to `account`.
    ///
    /// Ownership is checked against the index entry of `who`, which the
    /// well-formedness invariant keeps in exact agreement with the record's
    /// own owner field. All checks precede the first write: a rejected call
    /// leaves the store exactly as it was. On success the record's owner
    /// field, both index entries and the event log are updated together; the
    /// counter does not move.
    pub fn transfer_kitty(&mut self, who: AccountId, account: AccountId, dna: Vec<u8>) -> (r:
        Result<(), Error>)
        requires
            old(self).wf(),
        ensures
            final(self).wf(),
            r == Err::<(), Error>(Error::RecordNotFound) <==> !old(self).records().contains_key(
                dna@,
            ),
            r == Err::<(), Error>(Error::NotOwner) <==> old(self).records().contains_key(dna@)
                && old(self).records()[dna@].owner != who,
            r is Ok <==> old(self).transfer_ok(who, dna@),
            r is Err ==> *final(self) == *old(self),
            r is Ok ==> final(self).counter() == old(self).counter(),
            r is Ok ==> final(self).records() == old(self).records().insert(
                dna@,
                KittyView {
                    dna: dna@,
                    owner: account,
                    price: old(self).records()[dna@].price,
                    gender: old(self).records()[dna@].gender,
                },
            ),
            r is Ok ==> final(self).owner_map() == transferred_index(
                old(self).owner_map(),
                who,
                account,
                dna@,
            ),
            r is Ok ==> final(self).events_view() == old(self).events_view().push(
                EventView::KittyTransferedTo(account, dna@),
            ),
            forall|d: Seq<u8>|
                old(self).records().contains_key(d) ==> #[trigger] final(self).records().contains_key(d),
    {
        let ki = match self.find_kitty(&dna) {
            None => {
                return Err(Error::RecordNotFound);
            },
            Some(i) => i,
        };
        proof {
            self.lemma_kitty_index(dna@);
            assert(self.kitty_index(dna@) == ki);
        }
        let oi = match self.find_owner(who) {
            None => {
                proof {
                    lemma_record_listed(*self, dna@);
                }
                return Err(Error::NotOwner);
            },
            Some(i) => i,
        };
        proof {
            assert(self.has_acct(who));
            self.lemma_acct_index(who);
            assert(self.acct_index(who) == oi);
        }
        let j = match find_id(&self.owners[oi].ids, &dna) {
            None => {
                proof {
                    lemma_record_listed(*self, dna@);
                    if self.records()[dna@].owner == who {
                        assert(self.acct_index(self.records()[dna@].owner) == oi);
                    }
                }
                return Err(Error::NotOwner);
            },
            Some(j) => j,
        };
        proof {
            assert(self.owned_by(dna@, who)) by {
                assert(self.owners@[oi as int].ids@[j as int]@ == dna@);
            }
            lemma_owned_by(*self, dna@, who);
            assert(self.records()[dna@].owner == who);
        }
        let ghost o = *self;
        // Take `dna` out of the sender's list.
        let mut entry = self.owners.remove(oi);
        let _removed_id = entry.ids.remove(j);
        let ghost ne = entry;
        self.owners.insert(oi, entry);
        proof {
            assert(self.owners@ =~= o.owners@.update(oi as int, ne));
            assert(ids_of(ne) =~= ids_of(o.owners@[oi as int]).remove(j as int));
        }
        // Hand it to the receiver's list, creating the entry if absent.
        match self.find_owner(account) {
            Some(ri) => {
                let ghost mid = *self;
                let mut e2 = self.owners.remove(ri);
                e2.ids.push(clone_dna(&dna));
                let ghost ne2 = e2;
                self.owners.insert(ri, e2);
                proof {
                    assert(self.owners@ =~= mid.owners@.update(ri as int, ne2));
                    assert(ids_of(ne2) =~= ids_of(mid.owners@[ri as int]).push(dna@));
                    if ri == oi {
                        assert(account == who);
                        assert(ids_of(ne2) =~= ids_of(o.owners@[oi as int]).remove(
                            j as int,
                        ).push(dna@));
                        assert(self.owners@ =~= o.owners@.update(oi as int, ne2));
                    } else {
                        assert(mid.owners@[ri as int] == o.owners@[ri as int]);
                        assert(o.owners@[ri as int].account == account);
                        assert(o.has_acct(account));
                        o.lemma_acct_index(account);
                        assert(o.acct_index(account) == ri);
                        assert(account != who);
                    }
                    assert(transfer_index_shape(o, *self, who, account, dna@, j as int));
                }
            },
            None => {
                let mut ids: Vec<Vec<u8>> = Vec::new();
                ids.push(clone_dna(&dna));
                let e2 = OwnerEntry { account, ids };
                let ghost ne2 = e2;
                self.owners.push(e2);
                proof {
                    assert(ids_of(ne2) =~= seq![dna@]);
                    assert(account != who) by {
                        assert(self.owners@[oi as int].account == who);
                    }
                    assert(!o.has_acct(account)) by {
                        if o.has_acct(account) {
                            let i = choose|i: int|
                                0 <= i < o.owners@.len() && o.owners@[i].account == account;
                            if i == oi {
                                assert(o.owners@[oi as int].account == who);
                            } else {
                                assert(self.owners@[i].account == account);
                            }
                        }
                    }
                    assert(transfer_index_shape(o, *self, who, account, dna@, j as int));
                }
            },
        }
        // Point the record itself at its new owner.
        let k = self.kitties.remove(ki);
        let k2 = Kitty { dna: k.dna, owner: account, price: k.price, gender: k.gender };
        self.kitties.insert(ki, k2);
        proof {
            assert(self.kitties@ =~= o.kitties@.update(ki as int, self.kitties@[ki as int]));
        }
        // Record the notification.
        self.events.push(Event::KittyTransferedTo(account, dna));
        proof {
            lemma_transfer_post(o, *self, who, account, dna@, ki as int, j as int);
        }
        Ok(())
    }

    /// Where a record with identifier `d` exists, its position is the unique
    /// index holding `d`, and the record map hands back the record there.
    proof fn lemma_kitty_index(self, d: Seq<u8>)
        requires
            self.wf_dna_unique(),
            self.has_dna(d),
        ensures
            0 <= self.kitty_index(d) < self.kitties@.len(),
            self.kitties@[self.kitty_index(d)].dna@ == d,
            forall|i: int|
                0 <= i < self.kitties@.len() && #[trigger] self.kitties@[i].dna@ == d ==> i
                    == self.kitty_index(d),
            self.records().contains_key(d),
            self.records()[d] == self.kitties@[self.kitty_index(d)]@,
    {
        let idx = self.kitty_index(d);
        assert(0 <= idx < self.kitties@.len() && self.kitties@[idx].dna@ == d);
        assert forall|i: int|
            0 <= i < self.kitties@.len() && #[trigger] self.kitties@[i].dna@ == d implies i
            == idx by {
            if i < idx {
                assert(self.kitties@[i].dna@ != self.kitties@[idx].dna@);
            } else if idx < i {
                assert(self.kitties@[idx].dna@ != self.kitties@[i].dna@);
            }
        }
    }

    /// Where an account `a` has an index entry, its position is the unique
    /// index holding `a`, and the index map hands back the ids there.
    proof fn lemma_acct_index(self, a: AccountId)
        requires
            self.wf_acct_unique(),
            self.has_acct(a),
        ensures
            0 <= self.acct_index(a) < self.owners@.len(),
            self.owners@[self.acct_index(a)].account == a,
            forall|i: int|
                0 <= i < self.owners@.len() && #[trigger] self.owners@[i].account == a ==> i
                    == self.acct_index(a),
            self.owner_map().contains_key(a),
            self.owner_map()[a] == ids_of(self.owners@[self.acct_index(a)]),
    {
        let idx = self.acct_index(a);
        assert(0 <= idx < self.owners@.len() && self.owners@[idx].account == a);
        assert forall|i: int|
            0 <= i < self.owners@.len() && #[trigger] self.owners@[i].account == a implies i
            == idx by {
            if i < idx {
                assert(self.owners@[i].account != self.owners@[idx].account);
            } else if idx < i {
                assert(self.owners@[idx].account != self.owners@[i].account);
            }
        }
    }
}

/// The two shapes the ownership index can take right after a creation by
/// `who`: the account's existing entry extended by `dna` at the end, or a
/// fresh entry holding exactly `dna`, all other entries untouched.
spec fn create_index_shape(o: Pallet, n: Pallet, who: AccountId, dna: Seq<u8>) -> bool {
    ||| {
        &&& o.has_acct(who)
        &&& n.owners@.len() == o.owners@.len()
        &&& forall|i: int|
            0 <= i < o.owners@.len() && i != o.acct_index(who) ==> #[trigger] n.owners@[i]
                == o.owners@[i]
        &&& n.owners@[o.acct_index(who)].account == who
        &&& ids_of(n.owners@[o.acct_index(who)]) == ids_of(o.owners@[o.acct_index(who)]).push(dna)
    }
    ||| {
        &&& !o.has_acct(who)
        &&& n.owners@.len() == o.owners@.len() + 1
        &&& forall|i: int|
            0 <= i < o.owners@.len() ==> #[trigger] n.owners@[i] == o.owners@[i]
        &&& n.owners@[o.owners@.len() as int].account == who
        &&& ids_of(n.owners@[o.owners@.len() as int]) == seq![dna]
    }
}

/// A record owned by `a` in `o` is still owned by `a` in `n` when `n`'s
/// records extend `o`'s without disturbing them.
proof fn lemma_owned_prefix(o: Pallet, n: Pallet, d: Seq<u8>, a: AccountId)
    requires
        o.kitties@.len() <= n.kitties@.len(),
        forall|i: int| 0 <= i < o.kitties@.len() ==> #[trigger] n.kitties@[i] == o.kitties@[i],
        o.owned_by(d, a),
    ensures
        n.owned_by(d, a),
{
    let ki = choose|i: int|
        0 <= i < o.kitties@.len() && o.kitties@[i].dna@ == d && o.kitties@[i].owner == a;
    assert(n.kitties@[ki].dna@ == d && n.kitties@[ki].owner == a);
}

/// An identifier owned by `a` names a record, whose position holds a record
/// owned by `a`.
proof fn lemma_owned_by(o: Pallet, d: Seq<u8>, a: AccountId)
    requires
        o.wf_dna_unique(),
        o.owned_by(d, a),
    ensures
        o.has_dna(d),
        o.kitties@[o.kitty_index(d)].owner == a,
{
    let ki = choose|i: int|
        0 <= i < o.kitties@.len() && o.kitties@[i].dna@ == d && o.kitties@[i].owner == a;
    assert(o.has_dna(d));
    o.lemma_kitty_index(d);
    assert(ki == o.kitty_index(d));
}

/// An identifier listed under `a` before a creation is still listed under
/// `a` after it: the creation only appends to lists.
proof fn lemma_listed_lift_create(
    o: Pallet,
    n: Pallet,
    who: AccountId,
    dna: Seq<u8>,
    d: Seq<u8>,
    a: AccountId,
)
    requires
        create_index_shape(o, n, who, dna),
        o.listed(d, a),
    ensures
        n.listed(d, a),
{
    let (oi2, j): (int, int) = choose|oi2: int, j: int|
        0 <= oi2 < o.owners@.len() && 0 <= j < o.owners@[oi2].ids@.len() && o.owners@[oi2].account
            == a && o.owners@[oi2].ids@[j]@ == d;
    if o.has_acct(who) {
        let oi = o.acct_index(who);
        if oi2 == oi {
            let oids = ids_of(o.owners@[oi]);
            let nids = ids_of(n.owners@[oi]);
            assert(nids == oids.push(dna));
            assert(n.owners@[oi].ids@.len() == nids.len());
            assert(j < oids.len());
            assert(n.owners@[oi].ids@[j]@ == nids[j]);
            assert(nids[j] == oids[j]);
            assert(oids[j] == o.owners@[oi].ids@[j]@);
            assert(n.owners@[oi2].ids@[j]@ == d);
            assert(n.owners@[oi2].account == o.owners@[oi2].account);
            assert(n.listed(d, a));
        } else {
            assert(n.owners@[oi2] == o.owners@[oi2]);
            assert(n.listed(d, a));
        }
    } else {
        assert(n.owners@[oi2] == o.owners@[oi2]);
        assert(n.listed(d, a));
    }
}

/// What the ownership index looks like after a transfer of `dna` from `who`
/// to `to`: `dna` leaves `who`'s list and is appended to `to`'s list, which
/// is created if absent; transferring to oneself re-appends at the end.
pub open spec fn transferred_index(
    m: Map<AccountId, Seq<Seq<u8>>>,
    who: AccountId,
    to: AccountId,
    dna: Seq<u8>,
) -> Map<AccountId, Seq<Seq<u8>>> {
    let removed = remove_id(m[who], dna);
    if to == who {
        m.insert(who, removed.push(dna))
    } else {
        m.insert(who, removed).insert(to, ids_or_empty(m, to).push(dna))
    }
}

/// The position of `dna` in one entry's list, if it is there.
fn find_id(ids: &Vec<Vec<u8>>, dna: &Vec<u8>) -> (r: Option<usize>)
    ensures
        match r {
            Some(j) => j < ids@.len() && ids@[j as int]@ == dna@,
            None => forall|j: int| 0 <= j < ids@.len() ==> #[trigger] ids@[j]@ != dna@,
        },
{
    let n = ids.len();
    for j in 0..n
        invariant
            n == ids@.len(),
            forall|k: int| 0 <= k < j ==> #[trigger] ids@[k]@ != dna@,
    {
        if ids[j] == *dna {
            proof {
                assert(ids@[j as int]@ =~= dna@);
            }
            return Some(j);
        }
        proof {
            assert(ids@[j as int]@ != dna@) by {
                if ids@[j as int]@ == dna@ {
                    assert(ids@[j as int]@ =~= dna@);
                }
            }
        }
    }
    None
}

/// Removing the element at `j` from a list of distinct elements leaves the
/// others distinct, and leaves no copy of the removed one behind.
proof fn lemma_remove_keeps_distinct(s: Seq<Seq<u8>>, j: int)
    requires
        0 <= j < s.len(),
        forall|a: int, b: int| 0 <= a < b < s.len() ==> s[a] != s[b],
    ensures
        forall|a: int, b: int| 0 <= a < b < s.remove(j).len() ==> s.remove(j)[a] != s.remove(j)[b],
        forall|a: int| 0 <= a < s.remove(j).len() ==> s.remove(j)[a] != s[j],
        forall|a: int|
            0 <= a < s.remove(j).len() ==> s.remove(j)[a] == s[if a < j {
                a
            } else {
                a + 1
            }],
{
    assert forall|a: int| 0 <= a < s.remove(j).len() implies s.remove(j)[a] == s[if a < j {
        a
    } else {
        a + 1
    }] by {}
    assert forall|a: int, b: int| 0 <= a < b < s.remove(j).len() implies s.remove(j)[a]
        != s.remove(j)[b] by {
        let a0 = if a < j { a } else { a + 1 };
        let b0 = if b < j { b } else { b + 1 };
        assert(a0 < b0 < s.len());
        assert(s[a0] != s[b0]);
    }
    assert forall|a: int| 0 <= a < s.remove(j).len() implies s.remove(j)[a] != s[j] by {
        let a0 = if a < j { a } else { a + 1 };
        assert(a0 != j);
        if a0 < j {
            assert(s[a0] != s[j]);
        } else {
            assert(s[j] != s[a0]);
        }
    }
}

/// The record named `dna` is listed, at exactly one place, in its owner's
/// index entry.
proof fn lemma_record_listed(s: Pallet, dna: Seq<u8>)
    requires
        s.wf(),
        s.has_dna(dna),
    ensures
        s.has_acct(s.records()[dna].owner),
        exists|j: int|
            0 <= j < s.owners@[s.acct_index(s.records()[dna].owner)].ids@.len()
                && #[trigger] s.owners@[s.acct_index(s.records()[dna].owner)].ids@[j]@ == dna,
{
    s.lemma_kitty_index(dna);
    let ki = s.kitty_index(dna);
    let a = s.kitties@[ki].owner;
    assert(s.records()[dna].owner == a);
    assert(s.listed(s.kitties@[ki].dna@, s.kitties@[ki].owner));
    let (oi2, j): (int, int) = choose|oi2: int, j: int|
        0 <= oi2 < s.owners@.len() && 0 <= j < s.owners@[oi2].ids@.len() && s.owners@[oi2].account
            == a && s.owners@[oi2].ids@[j]@ == dna;
    assert(s.has_acct(a));
    s.lemma_acct_index(a);
    assert(oi2 == s.acct_index(a));
    assert(s.owners@[s.acct_index(a)].ids@[j]@ == dna);
}

/// The three shapes the ownership index can take right after a transfer of
/// `dna` from `who` to `to`: back into `who`'s own list, into another
/// account's existing list, or into a fresh entry at the end; every other
/// entry is untouched.
spec fn transfer_index_shape(
    o: Pallet,
    n: Pallet,
    who: AccountId,
    to: AccountId,
    dna: Seq<u8>,
    j: int,
) -> bool {
    let oi = o.acct_index(who);
    let wids = ids_of(o.owners@[oi]);
    &&& o.has_acct(who)
    &&& 0 <= j < wids.len()
    &&& wids[j] == dna
    &&& ({
        ||| {
            &&& to == who
            &&& n.owners@.len() == o.owners@.len()
            &&& forall|i: int|
                0 <= i < o.owners@.len() && i != oi ==> #[trigger] n.owners@[i] == o.owners@[i]
            &&& n.owners@[oi].account == who
            &&& ids_of(n.owners@[oi]) == wids.remove(j).push(dna)
        }
        ||| {
            &&& to != who
            &&& o.has_acct(to)
            &&& n.owners@.len() == o.owners@.len()
            &&& forall|i: int|
                0 <= i < o.owners@.len() && i != oi && i != o.acct_index(to)
                    ==> #[trigger] n.owners@[i] == o.owners@[i]
            &&& n.owners@[oi].account == who
            &&& ids_of(n.owners@[oi]) == wids.remove(j)
            &&& n.owners@[o.acct_index(to)].account == to
            &&& ids_of(n.owners@[o.acct_index(to)]) == ids_of(o.owners@[o.acct_index(to)]).push(
                dna,
            )
        }
        ||| {
            &&& to != who
            &&& !o.has_acct(to)
            &&& n.owners@.len() == o.owners@.len() + 1
            &&& forall|i: int|
                0 <= i < o.owners@.len() && i != oi ==> #[trigger] n.owners@[i] == o.owners@[i]
            &&& n.owners@[oi].account == who
            &&& ids_of(n.owners@[oi]) == wids.remove(j)
            &&& n.owners@[o.owners@.len() as int].account == to
            &&& ids_of(n.owners@[o.owners@.len() as int]) == seq![dna]
        }
    })
}

/// A record other than the one at `ki` keeps its owner when only the record
/// at `ki` changes.
proof fn lemma_owned_lift_transfer(o: Pallet, n: Pallet, ki: int, d: Seq<u8>, a: AccountId)
    requires
        0 <= ki < o.kitties@.len(),
        n.kitties@.len() == o.kitties@.len(),
        forall|i: int| 0 <= i < o.kitties@.len() && i != ki ==> #[trigger] n.kitties@[i] == o.kitties@[i],
        o.kitties@[ki].dna@ != d,
        o.owned_by(d, a),
    ensures
        n.owned_by(d, a),
{
    let ki2 = choose|i: int|
        0 <= i < o.kitties@.len() && o.kitties@[i].dna@ == d && o.kitties@[i].owner == a;
    assert(ki2 != ki);
    assert(n.kitties@[ki2].dna@ == d && n.kitties@[ki2].owner == a);
}

/// Relates the store after a successful transfer to the one before it: the
/// reassigned owner field and the moved index entry show up in the views as
/// one record-map insertion and one index reshuffle, and every
/// well-formedness clause carries over.
proof fn lemma_transfer_post(
    o: Pallet,
    n: Pallet,
    who: AccountId,
    to: AccountId,
    dna: Seq<u8>,
    ki: int,
    j: int,
)
    requires
        o.wf(),
        0 <= ki < o.kitties@.len(),
        o.kitties@[ki].dna@ == dna,
        o.kitties@[ki].owner == who,
        n.number_kitties == o.number_kitties,
        n.kitties@.len() == o.kitties@.len(),
        forall|i: int| 0 <= i < o.kitties@.len() && i != ki ==> #[trigger] n.kitties@[i] == o.kitties@[i],
        n.kitties@[ki]@ == (KittyView {
            dna,
            owner: to,
            price: o.kitties@[ki].price,
            gender: o.kitties@[ki].gender,
        }),
        transfer_index_shape(o, n, who, to, dna, j),
        n.events@.len() == o.events@.len() + 1,
        forall|i: int| 0 <= i < o.events@.len() ==> #[trigger] n.events@[i] == o.events@[i],
        n.events@.last()@ == (EventView::KittyTransferedTo(to, dna)),
    ensures
        n.wf(),
        n.records() == o.records().insert(
            dna,
            KittyView {
                dna,
                owner: to,
                price: o.records()[dna].price,
                gender: o.records()[dna].gender,
            },
        ),
        n.owner_map() == transferred_index(o.owner_map(), who, to, dna),
        n.events_view() == o.events_view().push(EventView::KittyTransferedTo(to, dna)),
        forall|d: Seq<u8>|
            o.records().contains_key(d) ==> #[trigger] n.records().contains_key(d),
{
    // The record part: identifiers are untouched, one owner field changed.
    assert forall|i: int| 0 <= i < n.kitties@.len() implies #[trigger] n.kitties@[i].dna@
        == o.kitties@[i].dna@ by {
        if i == ki {
            assert(n.kitties@[ki]@.dna == dna);
        }
    }
    assert forall|a: int, b: int| 0 <= a < b < n.kitties@.len() implies n.kitties@[a].dna@
        != n.kitties@[b].dna@ by {
        assert(n.kitties@[a].dna@ == o.kitties@[a].dna@);
        assert(n.kitties@[b].dna@ == o.kitties@[b].dna@);
        assert(o.kitties@[a].dna@ != o.kitties@[b].dna@);
    }
    assert(n.wf_dna_unique());
    assert forall|i: int| 0 <= i < n.kitties@.len() implies #[trigger] n.kitties@[i].price
        > 0 by {
        if i == ki {
            assert(n.kitties@[ki]@.price == o.kitties@[ki].price);
            assert(o.kitties@[ki].price > 0);
        } else {
            assert(o.kitties@[i].price > 0);
        }
    }
    assert(n.wf_prices());
    assert forall|i: int| 0 <= i < n.kitties@.len() implies #[trigger] n.kitties@[i].gender
        == gender_of(n.kitties@[i].dna@) by {
        if i == ki {
            assert(o.kitties@[ki].gender == gender_of(dna));
        } else {
            assert(o.kitties@[i].gender == gender_of(o.kitties@[i].dna@));
        }
    }
    assert(n.wf_genders());
    assert(n.wf_counter());
    // The record map: same domain, one value reassigned.
    assert forall|d: Seq<u8>| #[trigger] n.has_dna(d) implies o.has_dna(d) by {
        let i = choose|i: int| 0 <= i < n.kitties@.len() && n.kitties@[i].dna@ == d;
        assert(o.kitties@[i].dna@ == d);
    }
    assert forall|d: Seq<u8>| #[trigger] o.has_dna(d) implies n.has_dna(d) by {
        let i = choose|i: int| 0 <= i < o.kitties@.len() && o.kitties@[i].dna@ == d;
        assert(n.kitties@[i].dna@ == d);
    }
    o.lemma_kitty_index(dna);
    assert(o.kitty_index(dna) == ki);
    n.lemma_kitty_index(dna);
    assert(n.kitty_index(dna) == ki);
    let kv = KittyView {
        dna,
        owner: to,
        price: o.records()[dna].price,
        gender: o.records()[dna].gender,
    };
    assert(o.records()[dna] == o.kitties@[ki]@);
    assert(n.records()[dna] == kv);
    assert forall|d: Seq<u8>| #[trigger] o.has_dna(d) && d != dna implies n.records()[d]
        == o.records()[d] by {
        o.lemma_kitty_index(d);
        let i = o.kitty_index(d);
        assert(n.kitties@[i].dna@ == d);
        n.lemma_kitty_index(d);
        assert(n.kitty_index(d) == i);
        assert(i != ki);
        assert(n.kitties@[i] == o.kitties@[i]);
    }
    assert(n.records().dom() =~= o.records().insert(dna, kv).dom());
    assert(n.records() =~= o.records().insert(dna, kv));
    assert forall|d: Seq<u8>|
        o.records().contains_key(d) implies #[trigger] n.records().contains_key(d) by {}
    // The sender's entry and its list.
    o.lemma_acct_index(who);
    let oi = o.acct_index(who);
    let wids = ids_of(o.owners@[oi]);
    assert(o.owners@[oi].ids@.len() == wids.len());
    assert forall|a: int, b: int| 0 <= a < b < wids.len() implies wids[a] != wids[b] by {
        assert(o.owners@[oi].ids@[a]@ != o.owners@[oi].ids@[b]@);
    }
    lemma_remove_keeps_distinct(wids, j);
    let removed = wids.remove(j);
    // `dna` is listed exactly once in the whole index: at `(oi, j)`.
    assert forall|oi2: int, j2: int|
        0 <= oi2 < o.owners@.len() && 0 <= j2 < o.owners@[oi2].ids@.len() && (#[trigger] o.owners@[oi2].ids@[j2]@) == dna implies oi2 == oi && j2 == j by {
        assert(o.owned_by(o.owners@[oi2].ids@[j2]@, o.owners@[oi2].account));
        lemma_owned_by(o, dna, o.owners@[oi2].account);
        assert(o.owners@[oi2].account == who);
        assert(oi2 == oi);
        assert(wids[j2] == dna);
        if j2 != j {
            if j2 < j {
                assert(wids[j2] != wids[j]);
            } else {
                assert(wids[j] != wids[j2]);
            }
        }
    }
    // The index, in its three shapes.
    if to == who {
        let nids = removed.push(dna);
        assert(ids_of(n.owners@[oi]) == nids);
        assert(n.owners@[oi].ids@.len() == nids.len());
        assert forall|i: int| 0 <= i < n.owners@.len() implies #[trigger] n.owners@[i].account
            == o.owners@[i].account by {
            if i != oi {
                assert(n.owners@[i] == o.owners@[i]);
            }
        }
        assert forall|a: int, b: int| 0 <= a < b < n.owners@.len() implies n.owners@[a].account
            != n.owners@[b].account by {
            assert(o.owners@[a].account != o.owners@[b].account);
        }
        assert(n.wf_acct_unique());
        assert forall|oi2: int, a: int, b: int|
            0 <= oi2 < n.owners@.len() && 0 <= a < b < n.owners@[oi2].ids@.len() implies n.owners@[oi2].ids@[a]@ != n.owners@[oi2].ids@[b]@ by {
            if oi2 != oi {
                assert(n.owners@[oi2] == o.owners@[oi2]);
                assert(o.owners@[oi2].ids@[a]@ != o.owners@[oi2].ids@[b]@);
            } else {
                assert(n.owners@[oi2].ids@[a]@ == nids[a]);
                assert(n.owners@[oi2].ids@[b]@ == nids[b]);
                if b < removed.len() {
                    assert(removed[a] != removed[b]);
                } else {
                    assert(b == removed.len());
                    assert(nids[b] == dna);
                    assert(removed[a] != wids[j]);
                }
            }
        }
        assert(n.wf_lists_nodup());
        assert forall|oi2: int, j2: int|
            0 <= oi2 < n.owners@.len() && 0 <= j2 < n.owners@[oi2].ids@.len() implies n.owned_by(
            #[trigger] n.owners@[oi2].ids@[j2]@,
            n.owners@[oi2].account,
        ) by {
            if oi2 != oi {
                assert(n.owners@[oi2] == o.owners@[oi2]);
                let id = o.owners@[oi2].ids@[j2]@;
                assert(o.owned_by(id, o.owners@[oi2].account));
                assert(id != dna);
                lemma_owned_lift_transfer(o, n, ki, id, o.owners@[oi2].account);
            } else {
                let id = nids[j2];
                assert(n.owners@[oi2].ids@[j2]@ == id);
                if j2 < removed.len() {
                    let j0 = if j2 < j { j2 } else { j2 + 1 };
                    assert(id == wids[j0]);
                    assert(id == o.owners@[oi].ids@[j0]@);
                    assert(o.owned_by(id, who));
                    assert(id != wids[j]);
                    lemma_owned_lift_transfer(o, n, ki, id, who);
                } else {
                    assert(id == dna);
                    assert(n.kitties@[ki].dna@ == dna && n.kitties@[ki].owner == to);
                    assert(n.owned_by(dna, who));
                }
            }
        }
        assert(n.wf_index_sound());
        assert forall|i: int| 0 <= i < n.kitties@.len() implies n.listed(
            #[trigger] n.kitties@[i].dna@,
            n.kitties@[i].owner,
        ) by {
            if i == ki {
                assert(n.owners@[oi].ids@[removed.len() as int]@ == nids[removed.len() as int]);
                assert(n.owners@[oi].ids@[removed.len() as int]@ == dna);
                assert(n.owners@[oi].account == to);
                assert(n.listed(dna, to));
            } else {
                let d = o.kitties@[i].dna@;
                let a = o.kitties@[i].owner;
                assert(o.listed(d, a));
                let (oi2, j2): (int, int) = choose|oi2: int, j2: int|
                    0 <= oi2 < o.owners@.len() && 0 <= j2 < o.owners@[oi2].ids@.len()
                        && o.owners@[oi2].account == a && o.owners@[oi2].ids@[j2]@ == d;
                assert(d != dna);
                if oi2 == oi {
                    assert(wids[j2] == d);
                    assert(j2 != j);
                    let j3 = if j2 < j { j2 } else { j2 - 1 };
                    assert(removed[j3] == wids[j2]);
                    assert(n.owners@[oi].ids@[j3]@ == nids[j3]);
                    assert(nids[j3] == d);
                    assert(n.owners@[oi].account == a);
                    assert(n.listed(d, a));
                } else {
                    assert(n.owners@[oi2] == o.owners@[oi2]);
                    assert(n.listed(d, a));
                }
            }
        }
        assert(n.wf_index_complete());
        assert(n.wf());
        // The index map: one entry reshuffled in place.
        assert(o.owner_map().contains_key(who));
        assert(o.owner_map()[who] == wids);
        assert(wids.contains(dna)) by {
            assert(wids[j] == dna);
        }
        assert(wids.index_of(dna) == j) by {
            let i0 = wids.index_of(dna);
            assert(wids[i0] == dna);
            if i0 != j {
                if i0 < j {
                    assert(wids[i0] != wids[j]);
                } else {
                    assert(wids[j] != wids[i0]);
                }
            }
        }
        assert(remove_id(o.owner_map()[who], dna) == removed);
        let target = transferred_index(o.owner_map(), who, to, dna);
        assert(target == o.owner_map().insert(who, removed.push(dna)));
        assert forall|a: AccountId| #[trigger] n.has_acct(a) <==> o.has_acct(a) by {
            if n.has_acct(a) {
                let i = choose|i: int| 0 <= i < n.owners@.len() && n.owners@[i].account == a;
                assert(o.owners@[i].account == a);
            }
            if o.has_acct(a) {
                let i = choose|i: int| 0 <= i < o.owners@.len() && o.owners@[i].account == a;
                assert(n.owners@[i].account == a);
            }
        }
        assert forall|a: AccountId| #[trigger] n.has_acct(a) implies n.owner_map()[a]
            == target[a] by {
            o.lemma_acct_index(a);
            n.lemma_acct_index(a);
            let ia = o.acct_index(a);
            assert(n.owners@[ia].account == a);
            assert(n.acct_index(a) == ia);
            if a == who {
                assert(ia == oi);
                assert(n.owner_map()[a] == nids);
            } else {
                assert(ia != oi);
                assert(n.owners@[ia] == o.owners@[ia]);
            }
        }
        assert(n.owner_map().dom() =~= target.dom());
        assert(n.owner_map() =~= target);
    } else if o.has_acct(to) {
        o.lemma_acct_index(to);
        let ri = o.acct_index(to);
        assert(ri != oi);
        let tids = ids_of(o.owners@[ri]);
        assert(o.owners@[ri].ids@.len() == tids.len());
        let nids = tids.push(dna);
        assert(ids_of(n.owners@[oi]) == removed);
        assert(n.owners@[oi].ids@.len() == removed.len());
        assert(ids_of(n.owners@[ri]) == nids);
        assert(n.owners@[ri].ids@.len() == nids.len());
        assert forall|i: int| 0 <= i < n.owners@.len() implies #[trigger] n.owners@[i].account
            == o.owners@[i].account by {
            if i != oi && i != ri {
                assert(n.owners@[i] == o.owners@[i]);
            }
        }
        assert forall|a: int, b: int| 0 <= a < b < n.owners@.len() implies n.owners@[a].account
            != n.owners@[b].account by {
            assert(o.owners@[a].account != o.owners@[b].account);
        }
        assert(n.wf_acct_unique());
        assert forall|oi2: int, a: int, b: int|
            0 <= oi2 < n.owners@.len() && 0 <= a < b < n.owners@[oi2].ids@.len() implies n.owners@[oi2].ids@[a]@ != n.owners@[oi2].ids@[b]@ by {
            if oi2 == oi {
                assert(n.owners@[oi2].ids@[a]@ == removed[a]);
                assert(n.owners@[oi2].ids@[b]@ == removed[b]);
                assert(removed[a] != removed[b]);
            } else if oi2 == ri {
                assert(n.owners@[oi2].ids@[a]@ == nids[a]);
                assert(n.owners@[oi2].ids@[b]@ == nids[b]);
                if b < tids.len() {
                    assert(o.owners@[ri].ids@[a]@ != o.owners@[ri].ids@[b]@);
                } else {
                    assert(b == tids.len());
                    assert(nids[b] == dna);
                    if nids[a] == dna {
                        assert(o.owners@[ri].ids@[a]@ == dna);
                    }
                }
            } else {
                assert(n.owners@[oi2] == o.owners@[oi2]);
                assert(o.owners@[oi2].ids@[a]@ != o.owners@[oi2].ids@[b]@);
            }
        }
        assert(n.wf_lists_nodup());
        assert forall|oi2: int, j2: int|
            0 <= oi2 < n.owners@.len() && 0 <= j2 < n.owners@[oi2].ids@.len() implies n.owned_by(
            #[trigger] n.owners@[oi2].ids@[j2]@,
            n.owners@[oi2].account,
        ) by {
            if oi2 == oi {
                let id = removed[j2];
                assert(n.owners@[oi2].ids@[j2]@ == id);
                let j0 = if j2 < j { j2 } else { j2 + 1 };
                assert(id == wids[j0]);
                assert(id == o.owners@[oi].ids@[j0]@);
                assert(o.owned_by(id, who));
                assert(id != wids[j]);
                lemma_owned_lift_transfer(o, n, ki, id, who);
            } else if oi2 == ri {
                let id = nids[j2];
                assert(n.owners@[oi2].ids@[j2]@ == id);
                if j2 < tids.len() {
                    assert(id == o.owners@[ri].ids@[j2]@);
                    assert(o.owned_by(id, to));
                    assert(id != dna);
                    lemma_owned_lift_transfer(o, n, ki, id, to);
                } else {
                    assert(id == dna);
                    assert(n.kitties@[ki].dna@ == dna && n.kitties@[ki].owner == to);
                    assert(n.owned_by(dna, to));
                }
            } else {
                assert(n.owners@[oi2] == o.owners@[oi2]);
                let id = o.owners@[oi2].ids@[j2]@;
                assert(o.owned_by(id, o.owners@[oi2].account));
                assert(id != dna);
                lemma_owned_lift_transfer(o, n, ki, id, o.owners@[oi2].account);
            }
        }
        assert(n.wf_index_sound());
        assert forall|i: int| 0 <= i < n.kitties@.len() implies n.listed(
            #[trigger] n.kitties@[i].dna@,
            n.kitties@[i].owner,
        ) by {
            if i == ki {
                assert(n.owners@[ri].ids@[tids.len() as int]@ == nids[tids.len() as int]);
                assert(n.owners@[ri].ids@[tids.len() as int]@ == dna);
                assert(n.owners@[ri].account == to);
                assert(n.listed(dna, to));
            } else {
                let d = o.kitties@[i].dna@;
                let a = o.kitties@[i].owner;
                assert(o.listed(d, a));
                let (oi2, j2): (int, int) = choose|oi2: int, j2: int|
                    0 <= oi2 < o.owners@.len() && 0 <= j2 < o.owners@[oi2].ids@.len()
                        && o.owners@[oi2].account == a && o.owners@[oi2].ids@[j2]@ == d;
                assert(d != dna);
                if oi2 == oi {
                    assert(wids[j2] == d);
                    assert(j2 != j);
                    let j3 = if j2 < j { j2 } else { j2 - 1 };
                    assert(removed[j3] == wids[j2]);
                    assert(n.owners@[oi].ids@[j3]@ == removed[j3]);
                    assert(n.owners@[oi].account == a);
                    assert(n.listed(d, a));
                } else if oi2 == ri {
                    assert(tids[j2] == d);
                    assert(n.owners@[ri].ids@[j2]@ == nids[j2]);
                    assert(nids[j2] == d);
                    assert(n.owners@[ri].account == a);
                    assert(n.listed(d, a));
                } else {
                    assert(n.owners@[oi2] == o.owners@[oi2]);
                    assert(n.listed(d, a));
                }
            }
        }
        assert(n.wf_index_complete());
        assert(n.wf());
        // The index map: the sender's entry loses the id, the receiver's
        // entry gains it at the end.
        assert(o.owner_map().contains_key(who));
        assert(o.owner_map()[who] == wids);
        assert(o.owner_map().contains_key(to));
        assert(o.owner_map()[to] == tids);
        assert(wids.contains(dna)) by {
            assert(wids[j] == dna);
        }
        assert(wids.index_of(dna) == j) by {
            let i0 = wids.index_of(dna);
            assert(wids[i0] == dna);
            if i0 != j {
                if i0 < j {
                    assert(wids[i0] != wids[j]);
                } else {
                    assert(wids[j] != wids[i0]);
                }
            }
        }
        assert(remove_id(o.owner_map()[who], dna) == removed);
        let target = transferred_index(o.owner_map(), who, to, dna);
        assert(target == o.owner_map().insert(who, removed).insert(to, tids.push(dna)));
        assert forall|a: AccountId| #[trigger] n.has_acct(a) <==> o.has_acct(a) by {
            if n.has_acct(a) {
                let i = choose|i: int| 0 <= i < n.owners@.len() && n.owners@[i].account == a;
                assert(o.owners@[i].account == a);
            }
            if o.has_acct(a) {
                let i = choose|i: int| 0 <= i < o.owners@.len() && o.owners@[i].account == a;
                assert(n.owners@[i].account == a);
            }
        }
        assert forall|a: AccountId| #[trigger] n.has_acct(a) implies n.owner_map()[a]
            == target[a] by {
            o.lemma_acct_index(a);
            n.lemma_acct_index(a);
            let ia = o.acct_index(a);
            assert(n.owners@[ia].account == a);
            assert(n.acct_index(a) == ia);
            if a == who {
                assert(ia == oi);
                assert(n.owner_map()[a] == removed);
            } else if a == to {
                assert(ia == ri);
                assert(n.owner_map()[a] == nids);
            } else {
                assert(ia != oi && ia != ri);
                assert(n.owners@[ia] == o.owners@[ia]);
            }
        }
        assert(n.owner_map().dom() =~= target.dom());
        assert(n.owner_map() =~= target);
    } else {
        let ri = o.owners@.len() as int;
        assert(n.owners@[ri].account == to);
        let nids = ids_of(n.owners@[ri]);
        assert(nids == seq![dna]);
        assert(n.owners@[ri].ids@.len() == nids.len());
        assert(ids_of(n.owners@[oi]) == removed);
        assert(n.owners@[oi].ids@.len() == removed.len());
        assert forall|a: int, b: int| 0 <= a < b < n.owners@.len() implies n.owners@[a].account
            != n.owners@[b].account by {
            if b < ri {
                if a != oi && b != oi {
                    assert(n.owners@[a] == o.owners@[a]);
                    assert(n.owners@[b] == o.owners@[b]);
                }
                assert(n.owners@[a].account == o.owners@[a].account);
                assert(n.owners@[b].account == o.owners@[b].account);
                assert(o.owners@[a].account != o.owners@[b].account);
            } else {
                assert(n.owners@[b].account == to);
                assert(n.owners@[a].account == o.owners@[a].account);
                if o.owners@[a].account == to {
                    assert(o.has_acct(to));
                }
            }
        }
        assert(n.wf_acct_unique());
        assert forall|oi2: int, a: int, b: int|
            0 <= oi2 < n.owners@.len() && 0 <= a < b < n.owners@[oi2].ids@.len() implies n.owners@[oi2].ids@[a]@ != n.owners@[oi2].ids@[b]@ by {
            if oi2 == oi {
                assert(n.owners@[oi2].ids@[a]@ == removed[a]);
                assert(n.owners@[oi2].ids@[b]@ == removed[b]);
                assert(removed[a] != removed[b]);
            } else if oi2 == ri {
                assert(n.owners@[oi2].ids@.len() == 1);
            } else {
                assert(n.owners@[oi2] == o.owners@[oi2]);
                assert(o.owners@[oi2].ids@[a]@ != o.owners@[oi2].ids@[b]@);
            }
        }
        assert(n.wf_lists_nodup());
        assert forall|oi2: int, j2: int|
            0 <= oi2 < n.owners@.len() && 0 <= j2 < n.owners@[oi2].ids@.len() implies n.owned_by(
            #[trigger] n.owners@[oi2].ids@[j2]@,
            n.owners@[oi2].account,
        ) by {
            if oi2 == oi {
                let id = removed[j2];
                assert(n.owners@[oi2].ids@[j2]@ == id);
                let j0 = if j2 < j { j2 } else { j2 + 1 };
                assert(id == wids[j0]);
                assert(id == o.owners@[oi].ids@[j0]@);
                assert(o.owned_by(id, who));
                assert(id != wids[j]);
                lemma_owned_lift_transfer(o, n, ki, id, who);
            } else if oi2 == ri {
                assert(n.owners@[oi2].ids@[j2]@ == nids[j2]);
                assert(nids[j2] == dna);
                assert(n.kitties@[ki].dna@ == dna && n.kitties@[ki].owner == to);
                assert(n.owned_by(dna, to));
            } else {
                assert(n.owners@[oi2] == o.owners@[oi2]);
                let id = o.owners@[oi2].ids@[j2]@;
                assert(o.owned_by(id, o.owners@[oi2].account));
                assert(id != dna);
                lemma_owned_lift_transfer(o, n, ki, id, o.owners@[oi2].account);
            }
        }
        assert(n.wf_index_sound());
        assert forall|i: int| 0 <= i < n.kitties@.len() implies n.listed(
            #[trigger] n.kitties@[i].dna@,
            n.kitties@[i].owner,
        ) by {
            if i == ki {
                assert(n.owners@[ri].ids@[0]@ == nids[0]);
                assert(n.owners@[ri].ids@[0]@ == dna);
                assert(n.owners@[ri].account == to);
                assert(n.listed(dna, to));
            } else {
                let d = o.kitties@[i].dna@;
                let a = o.kitties@[i].owner;
                assert(o.listed(d, a));
                let (oi2, j2): (int, int) = choose|oi2: int, j2: int|
                    0 <= oi2 < o.owners@.len() && 0 <= j2 < o.owners@[oi2].ids@.len()
                        && o.owners@[oi2].account == a && o.owners@[oi2].ids@[j2]@ == d;
                assert(d != dna);
                if oi2 == oi {
                    assert(wids[j2] == d);
                    assert(j2 != j);
                    let j3 = if j2 < j { j2 } else { j2 - 1 };
                    assert(removed[j3] == wids[j2]);
                    assert(n.owners@[oi].ids@[j3]@ == removed[j3]);
                    assert(n.owners@[oi].account == a);
                    assert(n.listed(d, a));
                } else {
                    assert(n.owners@[oi2] == o.owners@[oi2]);
                    assert(n.listed(d, a));
                }
            }
        }
        assert(n.wf_index_complete());
        assert(n.wf());
        // The index map: the sender's entry loses the id, a fresh entry at
        // the end holds exactly it.
        assert(o.owner_map().contains_key(who));
        assert(o.owner_map()[who] == wids);
        assert(!o.owner_map().contains_key(to));
        assert(wids.contains(dna)) by {
            assert(wids[j] == dna);
        }
        assert(wids.index_of(dna) == j) by {
            let i0 = wids.index_of(dna);
            assert(wids[i0] == dna);
            if i0 != j {
                if i0 < j {
                    assert(wids[i0] != wids[j]);
                } else {
                    assert(wids[j] != wids[i0]);
                }
            }
        }
        assert(remove_id(o.owner_map()[who], dna) == removed);
        let target = transferred_index(o.owner_map(), who, to, dna);
        assert(ids_or_empty(o.owner_map(), to) =~= Seq::<Seq<u8>>::empty());
        assert(ids_or_empty(o.owner_map(), to).push(dna) =~= nids);
        assert(target == o.owner_map().insert(who, removed).insert(to, nids));
        assert forall|a: AccountId| #[trigger] n.has_acct(a) <==> (o.has_acct(a) || a
            == to) by {
            if n.has_acct(a) {
                let i = choose|i: int| 0 <= i < n.owners@.len() && n.owners@[i].account == a;
                if i < ri {
                    assert(n.owners@[i].account == o.owners@[i].account);
                    assert(o.owners@[i].account == a);
                } else {
                    assert(n.owners@[i].account == to);
                }
            }
            if o.has_acct(a) {
                let i = choose|i: int| 0 <= i < o.owners@.len() && o.owners@[i].account == a;
                assert(n.owners@[i].account == o.owners@[i].account);
                assert(n.owners@[i].account == a);
            }
            assert(n.owners@[ri].account == to);
        }
        assert forall|a: AccountId| #[trigger] n.has_acct(a) implies n.owner_map()[a]
            == target[a] by {
            n.lemma_acct_index(a);
            if a == to {
                assert(n.acct_index(a) == ri);
                assert(n.owner_map()[a] == nids);
            } else {
                o.lemma_acct_index(a);
                let ia = o.acct_index(a);
                assert(n.owners@[ia].account == o.owners@[ia].account);
                assert(n.acct_index(a) == ia);
                if a == who {
                    assert(ia == oi);
                    assert(n.owner_map()[a] == removed);
                } else {
                    assert(ia != oi);
                    assert(n.owners@[ia] == o.owners@[ia]);
                }
            }
        }
        assert(n.owner_map().dom() =~= target.dom());
        assert(n.owner_map() =~= target);
    }
    // The event log: one notification appended.
    assert forall|i: int| 0 <= i < n.events@.len() implies #[trigger] n.events_view()[i]
        == o.events_view().push(EventView::KittyTransferedTo(to, dna))[i] by {
        if i < o.events@.len() {
            assert(n.events@[i] == o.events@[i]);
        }
    }
    assert(n.events_view() =~= o.events_view().push(EventView::KittyTransferedTo(to, dna)));
}

/// Relates the store after a successful creation to the one before it: the
/// pushed record and the appended index entry show up in the views as one
/// insertion each, and every well-formedness clause carries over.
proof fn lemma_create_post(o: Pallet, n: Pallet, who: AccountId, dna: Seq<u8>, price: u32)
    requires
        o.wf(),
        !o.has_dna(dna),
        price > 0,
        o.number_kitties < u32::MAX,
        n.number_kitties == o.number_kitties + 1,
        n.kitties@.len() == o.kitties@.len() + 1,
        forall|i: int| 0 <= i < o.kitties@.len() ==> #[trigger] n.kitties@[i] == o.kitties@[i],
        n.kitties@.last()@ == (KittyView { dna, owner: who, price, gender: gender_of(dna) }),
        create_index_shape(o, n, who, dna),
        n.events@.len() == o.events@.len() + 1,
        forall|i: int| 0 <= i < o.events@.len() ==> #[trigger] n.events@[i] == o.events@[i],
        n.events@.last()@ == (EventView::KittyStored(dna, price)),
    ensures
        n.wf(),
        !o.records().contains_key(dna),
        n.records() == o.records().insert(
            dna,
            KittyView { dna, owner: who, price, gender: gender_of(dna) },
        ),
        n.owner_map() == o.owner_map().insert(who, ids_or_empty(o.owner_map(), who).push(dna)),
        n.events_view() == o.events_view().push(EventView::KittyStored(dna, price)),
        forall|d: Seq<u8>|
            o.records().contains_key(d) ==> #[trigger] n.records().contains_key(d),
{
    let kv = KittyView { dna, owner: who, price, gender: gender_of(dna) };
    let ol = o.kitties@.len() as int;
    assert(n.kitties@[ol]@ == kv);
    assert(n.kitties@[ol].dna@ == dna);
    // Records: identifiers stay unique, prices stay positive.
    assert forall|i: int, j: int| 0 <= i < j < n.kitties@.len() implies n.kitties@[i].dna@
        != n.kitties@[j].dna@ by {
        if j < ol {
            assert(o.kitties@[i].dna@ != o.kitties@[j].dna@);
        } else {
            assert(n.kitties@[j].dna@ == dna);
            if n.kitties@[i].dna@ == dna {
                assert(o.kitties@[i].dna@ == dna);
                assert(o.has_dna(dna));
            }
        }
    }
    assert(n.wf_dna_unique());
    assert forall|i: int| 0 <= i < n.kitties@.len() implies #[trigger] n.kitties@[i].price
        > 0 by {
        if i < ol {
            assert(o.kitties@[i].price > 0);
        } else {
            assert(n.kitties@[i]@ == kv);
        }
    }
    assert(n.wf_prices());
    assert forall|i: int| 0 <= i < n.kitties@.len() implies #[trigger] n.kitties@[i].gender
        == gender_of(n.kitties@[i].dna@) by {
        if i < ol {
            assert(o.kitties@[i].gender == gender_of(o.kitties@[i].dna@));
        } else {
            assert(n.kitties@[i]@ == kv);
        }
    }
    assert(n.wf_genders());
    assert(n.wf_counter());
    // Records as a map: the old ones keep their places, the new one is at
    // the end.
    assert forall|d: Seq<u8>| #[trigger] n.has_dna(d) implies o.has_dna(d) || d == dna by {
        let i = choose|i: int| 0 <= i < n.kitties@.len() && n.kitties@[i].dna@ == d;
        if i < ol {
            assert(o.kitties@[i].dna@ == d);
        } else {
            assert(n.kitties@[i].dna@ == dna);
        }
    }
    assert forall|d: Seq<u8>| #[trigger] o.has_dna(d) implies n.has_dna(d) by {
        let i = choose|i: int| 0 <= i < o.kitties@.len() && o.kitties@[i].dna@ == d;
        assert(n.kitties@[i].dna@ == d);
    }
    assert(n.has_dna(dna));
    n.lemma_kitty_index(dna);
    assert(n.kitty_index(dna) == ol);
    assert(n.records()[dna] == kv);
    assert forall|d: Seq<u8>| #[trigger] o.has_dna(d) implies n.records()[d]
        == o.records()[d] by {
        o.lemma_kitty_index(d);
        let i = o.kitty_index(d);
        assert(n.kitties@[i].dna@ == d);
        n.lemma_kitty_index(d);
        assert(n.kitty_index(d) == i);
        assert(n.kitties@[i]@ == o.kitties@[i]@);
    }
    assert(n.records().dom() =~= o.records().insert(dna, kv).dom());
    assert(n.records() =~= o.records().insert(dna, kv));
    assert forall|d: Seq<u8>|
        o.records().contains_key(d) implies #[trigger] n.records().contains_key(d) by {}
    // The ownership index, in its two shapes.
    if o.has_acct(who) {
        o.lemma_acct_index(who);
        let oi = o.acct_index(who);
        let oids = ids_of(o.owners@[oi]);
        let nids = ids_of(n.owners@[oi]);
        assert(nids == oids.push(dna));
        assert forall|i: int| 0 <= i < n.owners@.len() implies #[trigger] n.owners@[i].account
            == o.owners@[i].account by {
            if i != oi {
                assert(n.owners@[i] == o.owners@[i]);
            }
        }
        assert forall|i: int, j: int| 0 <= i < j < n.owners@.len() implies n.owners@[i].account
            != n.owners@[j].account by {
            assert(o.owners@[i].account != o.owners@[j].account);
        }
        assert(n.wf_acct_unique());
        // No list picks up a duplicate: `dna` was no record's identifier.
        assert forall|oi2: int, j: int, k: int|
            0 <= oi2 < n.owners@.len() && 0 <= j < k < n.owners@[oi2].ids@.len() implies n.owners@[oi2].ids@[j]@ != n.owners@[oi2].ids@[k]@ by {
            if oi2 != oi {
                assert(n.owners@[oi2] == o.owners@[oi2]);
                assert(o.owners@[oi2].ids@[j]@ != o.owners@[oi2].ids@[k]@);
            } else {
                assert(n.owners@[oi2].ids@[j]@ == nids[j]);
                assert(n.owners@[oi2].ids@[k]@ == nids[k]);
                assert(n.owners@[oi2].ids@.len() == nids.len());
                assert(nids.len() == oids.len() + 1);
                if k < oids.len() {
                    assert(o.owners@[oi].ids@[j]@ != o.owners@[oi].ids@[k]@);
                } else {
                    assert(k == oids.len());
                    assert(nids[k] == dna);
                    if nids[j] == dna {
                        assert(o.owners@[oi].ids@[j]@ == dna);
                        assert(o.owned_by(dna, o.owners@[oi].account));
                        lemma_owned_by(o, dna, o.owners@[oi].account);
                    }
                }
            }
        }
        assert(n.wf_lists_nodup());
        assert forall|oi2: int, j: int|
            0 <= oi2 < n.owners@.len() && 0 <= j < n.owners@[oi2].ids@.len() implies n.owned_by(
            #[trigger] n.owners@[oi2].ids@[j]@,
            n.owners@[oi2].account,
        ) by {
            if oi2 != oi {
                assert(n.owners@[oi2] == o.owners@[oi2]);
                assert(o.owned_by(o.owners@[oi2].ids@[j]@, o.owners@[oi2].account));
                lemma_owned_prefix(o, n, o.owners@[oi2].ids@[j]@, o.owners@[oi2].account);
            } else {
                assert(n.owners@[oi2].ids@.len() == nids.len());
                assert(nids.len() == oids.len() + 1);
                assert(n.owners@[oi2].ids@[j]@ == nids[j]);
                if j < oids.len() {
                    assert(nids[j] == o.owners@[oi].ids@[j]@);
                    assert(o.owned_by(o.owners@[oi].ids@[j]@, o.owners@[oi].account));
                    lemma_owned_prefix(o, n, o.owners@[oi].ids@[j]@, o.owners@[oi].account);
                } else {
                    assert(j == oids.len());
                    assert(nids[j] == dna);
                    assert(n.kitties@[ol].dna@ == dna && n.kitties@[ol].owner == who);
                    assert(n.owned_by(dna, who));
                }
            }
        }
        assert(n.wf_index_sound());
        assert forall|i: int| 0 <= i < n.kitties@.len() implies n.listed(
            #[trigger] n.kitties@[i].dna@,
            n.kitties@[i].owner,
        ) by {
            if i < ol {
                assert(o.listed(o.kitties@[i].dna@, o.kitties@[i].owner));
                lemma_listed_lift_create(o, n, who, dna, o.kitties@[i].dna@, o.kitties@[i].owner);
                assert(n.kitties@[i] == o.kitties@[i]);
            } else {
                assert(n.owners@[oi].ids@.len() == nids.len());
                assert(nids.len() == oids.len() + 1);
                assert(n.owners@[oi].ids@[oids.len() as int]@ == nids[oids.len() as int]);
                assert(n.owners@[oi].ids@[oids.len() as int]@ == dna);
                assert(n.listed(dna, who));
            }
        }
        assert(n.wf_index_complete());
        assert(n.wf());
        // The index map: one entry replaced, the rest untouched.
        assert(o.owner_map().contains_key(who));
        let target = o.owner_map().insert(who, ids_or_empty(o.owner_map(), who).push(dna));
        assert(ids_or_empty(o.owner_map(), who) == oids);
        assert forall|a: AccountId| #[trigger] n.has_acct(a) <==> o.has_acct(a) by {
            if n.has_acct(a) {
                let i = choose|i: int| 0 <= i < n.owners@.len() && n.owners@[i].account == a;
                assert(o.owners@[i].account == a);
            }
            if o.has_acct(a) {
                let i = choose|i: int| 0 <= i < o.owners@.len() && o.owners@[i].account == a;
                assert(n.owners@[i].account == a);
            }
        }
        assert forall|a: AccountId| #[trigger] n.has_acct(a) implies n.owner_map()[a]
            == target[a] by {
            o.lemma_acct_index(a);
            n.lemma_acct_index(a);
            let ia = o.acct_index(a);
            assert(n.owners@[ia].account == a);
            assert(n.acct_index(a) == ia);
            if a == who {
                assert(ia == oi);
                assert(n.owner_map()[a] == nids);
            } else {
                assert(ia != oi);
                assert(n.owners@[ia] == o.owners@[ia]);
            }
        }
        assert(n.owner_map().dom() =~= target.dom());
        assert(n.owner_map() =~= target);
    } else {
        let oi = o.owners@.len() as int;
        assert(n.owners@[oi].account == who);
        let nids = ids_of(n.owners@[oi]);
        assert(nids == seq![dna]);
        assert forall|i: int, j: int| 0 <= i < j < n.owners@.len() implies n.owners@[i].account
            != n.owners@[j].account by {
            if j < oi {
                assert(o.owners@[i].account != o.owners@[j].account);
            } else {
                assert(n.owners@[j].account == who);
                if n.owners@[i].account == who {
                    assert(o.owners@[i].account == who);
                    assert(o.has_acct(who));
                }
            }
        }
        assert(n.wf_acct_unique());
        assert forall|oi2: int, j: int, k: int|
            0 <= oi2 < n.owners@.len() && 0 <= j < k < n.owners@[oi2].ids@.len() implies n.owners@[oi2].ids@[j]@ != n.owners@[oi2].ids@[k]@ by {
            if oi2 < oi {
                assert(n.owners@[oi2] == o.owners@[oi2]);
                assert(o.owners@[oi2].ids@[j]@ != o.owners@[oi2].ids@[k]@);
            } else {
                assert(n.owners@[oi2].ids@.len() == 1);
            }
        }
        assert(n.wf_lists_nodup());
        assert forall|oi2: int, j: int|
            0 <= oi2 < n.owners@.len() && 0 <= j < n.owners@[oi2].ids@.len() implies n.owned_by(
            #[trigger] n.owners@[oi2].ids@[j]@,
            n.owners@[oi2].account,
        ) by {
            if oi2 < oi {
                assert(n.owners@[oi2] == o.owners@[oi2]);
                assert(o.owned_by(o.owners@[oi2].ids@[j]@, o.owners@[oi2].account));
                lemma_owned_prefix(o, n, o.owners@[oi2].ids@[j]@, o.owners@[oi2].account);
            } else {
                assert(n.owners@[oi2].ids@[j]@ == nids[j]);
                assert(nids[j] == dna);
                assert(n.kitties@[ol].dna@ == dna && n.kitties@[ol].owner == who);
                assert(n.owned_by(dna, who));
            }
        }
        assert(n.wf_index_sound());
        assert forall|i: int| 0 <= i < n.kitties@.len() implies n.listed(
            #[trigger] n.kitties@[i].dna@,
            n.kitties@[i].owner,
        ) by {
            if i < ol {
                assert(o.listed(o.kitties@[i].dna@, o.kitties@[i].owner));
                lemma_listed_lift_create(o, n, who, dna, o.kitties@[i].dna@, o.kitties@[i].owner);
                assert(n.kitties@[i] == o.kitties@[i]);
            } else {
                assert(n.owners@[oi].ids@.len() == nids.len());
                assert(nids.len() == 1);
                assert(n.owners@[oi].ids@[0]@ == nids[0]);
                assert(n.owners@[oi].ids@[0]@ == dna);
                assert(n.listed(dna, who));
            }
        }
        assert(n.wf_index_complete());
        assert(n.wf());
        // The index map: every old entry untouched, one new entry at the end.
        assert(!o.owner_map().contains_key(who));
        let target = o.owner_map().insert(who, ids_or_empty(o.owner_map(), who).push(dna));
        assert(ids_or_empty(o.owner_map(), who) =~= Seq::<Seq<u8>>::empty());
        assert(ids_or_empty(o.owner_map(), who).push(dna) =~= nids);
        assert forall|a: AccountId| #[trigger] n.has_acct(a) <==> (o.has_acct(a) || a
            == who) by {
            if n.has_acct(a) {
                let i = choose|i: int| 0 <= i < n.owners@.len() && n.owners@[i].account == a;
                if i < oi {
                    assert(o.owners@[i].account == a);
                } else {
                    assert(n.owners@[i].account == who);
                }
            }
            if o.has_acct(a) {
                let i = choose|i: int| 0 <= i < o.owners@.len() && o.owners@[i].account == a;
                assert(n.owners@[i].account == a);
            }
            assert(n.owners@[oi].account == who);
        }
        assert forall|a: AccountId| #[trigger] n.has_acct(a) implies n.owner_map()[a]
            == target[a] by {
            n.lemma_acct_index(a);
            if a == who {
                assert(n.acct_index(a) == oi);
                assert(n.owner_map()[a] == nids);
            } else {
                o.lemma_acct_index(a);
                let ia = o.acct_index(a);
                assert(n.owners@[ia].account == a);
                assert(n.acct_index(a) == ia);
                assert(n.owners@[ia] == o.owners@[ia]);
            }
        }
        assert(n.owner_map().dom() =~= target.dom());
        assert(n.owner_map() =~= target);
    }
    // The event log: one notification appended.
    assert forall|i: int| 0 <= i < n.events@.len() implies #[trigger] n.events_view()[i]
        == o.events_view().push(EventView::KittyStored(dna, price))[i] by {
        if i < o.events@.len() {
            assert(n.events@[i] == o.events@[i]);
        }
    }
    assert(n.events_view() =~= o.events_view().push(EventView::KittyStored(dna, price)));
}

/// A list in which no element occurs twice and none equals `x` counts no
/// occurrence of `x`.
proof fn lemma_occurrences_zero(s: Seq<Seq<u8>>, x: Seq<u8>)
    requires
        forall|i: int| 0 <= i < s.len() ==> s[i] != x,
    ensures
        occurrences(s, x) == 0,
    decreases s.len(),
{
    if s.len() > 0 {
        assert(s.last() != x);
        lemma_occurrences_zero(s.drop_last(), x);
    }
}

/// A list of distinct elements holding `x` at position `j` counts exactly
/// one occurrence of `x`.
proof fn lemma_occurrences_one(s: Seq<Seq<u8>>, x: Seq<u8>, j: int)
    requires
        0 <= j < s.len(),
        s[j] == x,
        forall|a: int, b: int| 0 <= a < b < s.len() ==> s[a] != s[b],
    ensures
        occurrences(s, x) == 1,
    decreases s.len(),
{
    if j == s.len() - 1 {
        assert(s.last() == x);
        assert forall|i: int| 0 <= i < s.drop_last().len() implies s.drop_last()[i] != x by {
            assert(s[i] != s[j]);
        }
        lemma_occurrences_zero(s.drop_last(), x);
    } else {
        assert(s.last() != x) by {
            assert(s[j] != s[s.len() - 1]);
        }
        lemma_occurrences_one(s.drop_last(), x, j);
    }
}

/// Uniqueness of creation. Both operations only ever grow the set of
/// identifiers — their contracts carry the domain of the record map along —
/// so once a creation for `dna` has succeeded, `dna` is in the record map
/// of every later store, and the success condition of a second creation for
/// `dna`, which requires the identifier to be absent, can never hold again.
pub proof fn lemma_create_unique(s: Pallet, t: Pallet, dna: Seq<u8>, price: u32)
    requires
        s.records().contains_key(dna),
        s.records().dom().subset_of(t.records().dom()),
    ensures
        !t.create_ok(dna, price),
{
    assert(t.records().dom().contains(dna));
}

/// Index consistency. An existing record's identifier is listed exactly
/// once in its owner's index entry, and never in any other account's entry.
pub proof fn lemma_index_consistency(s: Pallet, dna: Seq<u8>)
    requires
        s.wf(),
        s.records().contains_key(dna),
    ensures
        s.owner_map().contains_key(s.records()[dna].owner),
        occurrences(s.owner_map()[s.records()[dna].owner], dna) == 1,
        forall|a: AccountId|
            s.owner_map().contains_key(a) && a != s.records()[dna].owner ==> occurrences(
                #[trigger] s.owner_map()[a],
                dna,
            ) == 0,
{
    lemma_record_listed(s, dna);
    let a0 = s.records()[dna].owner;
    s.lemma_acct_index(a0);
    let oi = s.acct_index(a0);
    let wids = ids_of(s.owners@[oi]);
    assert(s.owners@[oi].ids@.len() == wids.len());
    let j = choose|j: int| 0 <= j < s.owners@[oi].ids@.len() && s.owners@[oi].ids@[j]@ == dna;
    assert(wids[j] == dna);
    assert forall|a: int, b: int| 0 <= a < b < wids.len() implies wids[a] != wids[b] by {
        assert(s.owners@[oi].ids@[a]@ != s.owners@[oi].ids@[b]@);
    }
    lemma_occurrences_one(wids, dna, j);
    assert(s.owner_map()[a0] == wids);
    s.lemma_kitty_index(dna);
    assert forall|a: AccountId|
        s.owner_map().contains_key(a) && a != a0 implies occurrences(
        #[trigger] s.owner_map()[a],
        dna,
    ) == 0 by {
        s.lemma_acct_index(a);
        let ia = s.acct_index(a);
        let aids = ids_of(s.owners@[ia]);
        assert(s.owners@[ia].ids@.len() == aids.len());
        assert forall|i: int| 0 <= i < aids.len() implies aids[i] != dna by {
            if aids[i] == dna {
                assert(s.owners@[ia].ids@[i]@ == dna);
                assert(s.owned_by(dna, a));
                lemma_owned_by(s, dna, a);
            }
        }
        lemma_occurrences_zero(aids, dna);
        assert(s.owner_map()[a] == aids);
    }
}

/// Counter correctness. The counter moves only with a successful creation,
/// and records are never removed, so it always equals the number of stored
/// records.
pub proof fn lemma_counter_is_record_count(s: Pallet)
    requires
        s.wf(),
    ensures
        s.records().dom().finite(),
        s.counter() == s.records().dom().len(),
{
    let dnas = s.kitties@.map_values(|k: Kitty| k.dna@);
    assert(dnas.no_duplicates()) by {
        assert forall|i: int, j: int|
            0 <= i < dnas.len() && 0 <= j < dnas.len() && i != j implies dnas[i] != dnas[j] by {
            if i < j {
                assert(s.kitties@[i].dna@ != s.kitties@[j].dna@);
            } else {
                assert(s.kitties@[j].dna@ != s.kitties@[i].dna@);
            }
        }
    }
    dnas.unique_seq_to_set();
    vstd::seq_lib::seq_to_set_is_finite::<Seq<u8>>(dnas);
    assert(s.records().dom() =~= dnas.to_set()) by {
        assert forall|d: Seq<u8>| #[trigger] s.has_dna(d) implies dnas.to_set().contains(d) by {
            let i = choose|i: int| 0 <= i < s.kitties@.len() && s.kitties@[i].dna@ == d;
            assert(dnas[i] == d);
            assert(dnas.contains(d));
        }
        assert forall|d: Seq<u8>| #[trigger] dnas.to_set().contains(d) implies s.has_dna(d) by {
            let i = choose|i: int| 0 <= i < dnas.len() && dnas[i] == d;
            assert(s.kitties@[i].dna@ == d);
        }
    }
}

/// Price positivity. No stored record ever has a price of zero.
pub proof fn lemma_price_positive(s: Pallet, dna: Seq<u8>)
    requires
        s.wf(),
        s.records().contains_key(dna),
    ensures
        s.records()[dna].price > 0,
{
    s.lemma_kitty_index(dna);
}

/// Classification correctness. A stored record's classification is the one
/// its identifier determines, at every moment of its life.
pub proof fn lemma_gender_derived(s: Pallet, dna: Seq<u8>)
    requires
        s.wf(),
        s.records().contains_key(dna),
    ensures
        s.records()[dna].gender == gender_of(dna),
        s.records()[dna].dna == dna,
{
    s.lemma_kitty_index(dna);
}

/// Transfer to the current owner. Such a transfer is not rejected — the
/// success condition does not exclude the owner as destination — and any
/// store its contract describes afterwards shows the same owner holding the
/// record exactly once, with no duplicate entry.
pub proof fn lemma_transfer_to_self(s: Pallet, t: Pallet, dna: Seq<u8>, who: AccountId)
    requires
        s.wf(),
        s.records().contains_key(dna),
        s.records()[dna].owner == who,
        t.wf(),
        t.records() == s.records().insert(
            dna,
            KittyView {
                dna,
                owner: who,
                price: s.records()[dna].price,
                gender: s.records()[dna].gender,
            },
        ),
    ensures
        s.transfer_ok(who, dna),
        t.records().contains_key(dna),
        t.records()[dna].owner == who,
        t.owner_map().contains_key(who),
        occurrences(t.owner_map()[who], dna) == 1,
{
    assert(t.records().contains_key(dna));
    assert(t.records()[dna].owner == who);
    lemma_index_consistency(t, dna);
}

} // verus!
