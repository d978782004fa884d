//! The record store: create, read, resize, and delete of the three
//! record kinds, each held in a slot of exactly its serialized size at
//! its deterministic address. The store is viewed as a map from address
//! bytes to record views.

use vstd::prelude::*;
use crate::address::Address;
use crate::state::{MarkerEntry, MarkerEntryView, MarkerTile, MarkerTileView, MarkerAuthor, MarkerAuthorView};
use crate::layout::{spec_marker_entry_space, MARKER_TILE_SPACE, MARKER_AUTHOR_SPACE};

verus! {

/// One record of the registry.
pub enum Record {
    Entry(MarkerEntry),
    TileIndex(MarkerTile),
    AuthorIndex(MarkerAuthor),
}

/// Mathematical view of a [`Record`].
pub enum RecordView {
    Entry(MarkerEntryView),
    TileIndex(MarkerTileView),
    AuthorIndex(MarkerAuthorView),
}

impl View for Record {
    type V = RecordView;

    open spec fn view(&self) -> RecordView {
        match self {
            Record::Entry(e) => RecordView::Entry(e@),
            Record::TileIndex(t) => RecordView::TileIndex(t@),
            Record::AuthorIndex(a) => RecordView::AuthorIndex(a@),
        }
    }
}

/// The exact slot size of a record: variable for a marker entry, a
/// closed-form constant for the two fixed-capacity index records.
pub open spec fn spec_record_space(r: RecordView) -> int {
    match r {
        RecordView::Entry(e) => spec_marker_entry_space(e.description),
        RecordView::TileIndex(_) => MARKER_TILE_SPACE as int,
        RecordView::AuthorIndex(_) => MARKER_AUTHOR_SPACE as int,
    }
}

/// A keyed store of records in pre-sized, individually addressable
/// slots. Addresses are unique; each slot's size is exactly the size of
/// the record it holds.
pub struct Store {
    slots: Vec<(Address, Record, usize)>,
}

impl View for Store {
    type V = Map<Seq<u8>, RecordView>;

    closed spec fn view(&self) -> Map<Seq<u8>, RecordView> {
        Map::new(|k: Seq<u8>| self.contains_addr(k), |k: Seq<u8>| self.record_at(k))
    }
}

impl Store {
    /// Whether a record lives at the given address bytes.
    pub closed spec fn contains_addr(&self, k: Seq<u8>) -> bool {
        exists|i: int| 0 <= i < self.slots@.len() && self.slots@[i].0@ == k
    }

    spec fn index_of(&self, k: Seq<u8>) -> int {
        choose|i: int| 0 <= i < self.slots@.len() && self.slots@[i].0@ == k
    }

    spec fn record_at(&self, k: Seq<u8>) -> RecordView {
        self.slots@[self.index_of(k)].1@
    }

    /// The allocated size of the slot at the given address bytes.
    pub closed spec fn space_of(&self, k: Seq<u8>) -> int {
        self.slots@[self.index_of(k)].2 as int
    }

    /// Addresses are unique and every slot is exactly as large as the
    /// record it holds.
    pub closed spec fn wf(&self) -> bool {
        &&& forall|i: int, j: int|
            0 <= i < j < self.slots@.len() ==> self.slots@[i].0@ != self.slots@[j].0@
        &&& forall|i: int| #![trigger self.slots@[i]]
            0 <= i < self.slots@.len() ==> self.slots@[i].2 as int == spec_record_space(self.slots@[i].1@)
    }

    /// In a well-formed store, every slot is exactly as large as the
    /// record it holds.
    pub proof fn lemma_exact_space(&self, k: Seq<u8>)
        requires
            self.wf(),
            self@.dom().contains(k),
        ensures
            self.space_of(k) == spec_record_space(self@[k]),
            0 <= spec_record_space(self@[k]) <= usize::MAX,
    {
    }

    /// An empty store.
    pub fn new() -> (s: Store)
        ensures
            s.wf(),
            s@ == Map::<Seq<u8>, RecordView>::empty(),
    {
        let s = Store { slots: Vec::new() };
        proof {
            assert(s@ =~= Map::<Seq<u8>, RecordView>::empty());
        }
        s
    }

    fn find(&self, a: &Address) -> (r: Option<usize>)
        ensures
            match r {
                Some(i) => i < self.slots@.len() && self.slots@[i as int].0@ == a@,
                None => !self.contains_addr(a@),
            },
    {
        let mut i: usize = 0;
        while i < self.slots.len()
            invariant
                i <= self.slots@.len(),
                forall|j: int| 0 <= j < i ==> self.slots@[j].0@ != a@,
            decreases self.slots@.len() - i,
        {
            if self.slots[i].0.equals(a) {
                return Some(i);
            }
            i = i + 1;
        }
        None
    }

    proof fn lemma_found_index(&self, i: int, k: Seq<u8>)
        requires
            self.wf(),
            0 <= i < self.slots@.len(),
            self.slots@[i].0@ == k,
        ensures
            self.contains_addr(k),
            self.index_of(k) == i,
    {
        assert(self.contains_addr(k));
        let j = self.index_of(k);
        assert(0 <= j < self.slots@.len() && self.slots@[j].0@ == k);
        if i != j {
            assert(self.slots@[i].0@ != self.slots@[j].0@);
        }
    }

    /// Reads the record at an address, if one lives there.
    pub fn get(&self, a: &Address) -> (r: Option<&Record>)
        requires
            self.wf(),
        ensures
            match r {
                Some(rec) => self@.dom().contains(a@) && rec@ == self@[a@],
                None => !self@.dom().contains(a@),
            },
    {
        match self.find(a) {
            Some(i) => {
                proof {
                    self.lemma_found_index(i as int, a@);
                }
                Some(&self.slots[i].1)
            },
            None => None,
        }
    }

    /// Whether a record lives at an address.
    pub fn contains(&self, a: &Address) -> (r: bool)
        requires
            self.wf(),
        ensures
            r == self@.dom().contains(a@),
    {
        match self.find(a) {
            Some(i) => {
                proof {
                    self.lemma_found_index(i as int, a@);
                }
                true
            },
            None => false,
        }
    }

    /// Creates a record at a free address, in a slot of exactly the
    /// given size.
    pub fn create(&mut self, a: Address, r: Record, space: usize)
        requires
            old(self).wf(),
            !old(self)@.dom().contains(a@),
            space as int == spec_record_space(r@),
        ensures
            final(self).wf(),
            final(self)@ == old(self)@.insert(a@, r@),
            final(self).space_of(a@) == space as int,
    {
        let ghost k = a@;
        let ghost rv = r@;
        let ghost n = self.slots@.len() as int;
        self.slots.push((a, r, space));
        proof {
            assert forall|q: Seq<u8>| self.contains_addr(q) implies
                (old(self).contains_addr(q) || q == k) by {
                let i = choose|i: int| 0 <= i < self.slots@.len() && self.slots@[i].0@ == q;
                if i < n {
                    assert(old(self).slots@[i].0@ == q);
                }
            }
            assert forall|q: Seq<u8>| old(self).contains_addr(q) || q == k implies
                self.contains_addr(q) by {
                if old(self).contains_addr(q) {
                    let i = choose|i: int| 0 <= i < old(self).slots@.len() && old(self).slots@[i].0@ == q;
                    assert(self.slots@[i].0@ == q);
                } else {
                    assert(self.slots@[n].0@ == q);
                }
            }
            self.lemma_found_index(n, k);
            assert forall|q: Seq<u8>| old(self).contains_addr(q) && q != k implies
                self.record_at(q) == old(self).record_at(q) && self.space_of(q) == old(self).space_of(q) by {
                let i = old(self).index_of(q);
                assert(old(self).slots@[i].0@ == q);
                assert(self.slots@[i].0@ == q);
                self.lemma_found_index(i, q);
            }
            assert(self@ =~= old(self)@.insert(k, rv));
        }
    }

    /// Replaces the record at an occupied address, resizing its slot to
    /// exactly the given size.
    pub fn replace(&mut self, a: &Address, r: Record, space: usize)
        requires
            old(self).wf(),
            old(self)@.dom().contains(a@),
            space as int == spec_record_space(r@),
        ensures
            final(self).wf(),
            final(self)@ == old(self)@.insert(a@, r@),
            final(self).space_of(a@) == space as int,
    {
        let ghost k = a@;
        let ghost rv = r@;
        match self.find(a) {
            Some(i) => {
                proof {
                    self.lemma_found_index(i as int, k);
                }
                let addr = self.slots[i].0.clone();
                self.slots[i] = (addr, r, space);
                proof {
                    assert forall|q: Seq<u8>| self.contains_addr(q) implies old(self).contains_addr(q) by {
                        let j = choose|j: int| 0 <= j < self.slots@.len() && self.slots@[j].0@ == q;
                        assert(old(self).slots@[j].0@ == q);
                    }
                    assert forall|q: Seq<u8>| old(self).contains_addr(q) implies self.contains_addr(q) by {
                        let j = old(self).index_of(q);
                        assert(self.slots@[j].0@ == q);
                    }
                    self.lemma_found_index(i as int, k);
                    assert forall|q: Seq<u8>| old(self).contains_addr(q) && q != k implies
                        self.record_at(q) == old(self).record_at(q) && self.space_of(q) == old(self).space_of(q) by {
                        let j = old(self).index_of(q);
                        assert(old(self).slots@[j].0@ == q);
                        assert(self.slots@[j].0@ == q);
                        self.lemma_found_index(j, q);
                    }
                    assert(self@ =~= old(self)@.insert(k, rv));
                }
            },
            None => {
                proof {
                    assert(false);
                }
            },
        }
    }

    /// Deletes the record at an occupied address, returning its slot's
    /// storage.
    pub fn delete(&mut self, a: &Address)
        requires
            old(self).wf(),
            old(self)@.dom().contains(a@),
        ensures
            final(self).wf(),
            final(self)@ == old(self)@.remove(a@),
    {
        let ghost k = a@;
        match self.find(a) {
            Some(i) => {
                proof {
                    self.lemma_found_index(i as int, k);
                }
                self.slots.swap_remove(i);
                proof {
                    let ghost n = self.slots@.len() as int;
                    assert forall|q: Seq<u8>| self.contains_addr(q) implies
                        (old(self).contains_addr(q) && q != k) by {
                        let j = choose|j: int| 0 <= j < self.slots@.len() && self.slots@[j].0@ == q;
                        if j == i {
                            assert(self.slots@[j] == old(self).slots@[n]);
                            assert(old(self).slots@[n].0@ == q);
                        } else {
                            assert(self.slots@[j] == old(self).slots@[j]);
                            assert(old(self).slots@[j].0@ == q);
                        }
                        if q == k {
                            let ii = choose|ii: int| 0 <= ii < old(self).slots@.len() && old(self).slots@[ii].0@ == q;
                            assert(old(self).index_of(q) == ii);
                            old(self).lemma_found_index(i as int, k);
                        }
                    }
                    assert forall|q: Seq<u8>| old(self).contains_addr(q) && q != k implies
                        (self.contains_addr(q) && self.record_at(q) == old(self).record_at(q)
                            && self.space_of(q) == old(self).space_of(q)) by {
                        let j = old(self).index_of(q);
                        assert(old(self).slots@[j].0@ == q);
                        old(self).lemma_found_index(i as int, k);
                        assert(j != i);
                        if j < n {
                            assert(self.slots@[j] == old(self).slots@[j]);
                            self.lemma_found_index(j, q);
                        } else {
                            assert(j == n);
                            assert(self.slots@[i as int] == old(self).slots@[n]);
                            self.lemma_found_index(i as int, q);
                        }
                    }
                    assert(self@ =~= old(self)@.remove(k));
                }
            },
            None => {
                proof {
                    assert(false);
                }
            },
        }
    }
}

} // verus!
