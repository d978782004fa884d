//! The marker lifecycle operations: add, update, delete, like. Each is
//! one atomic unit of work against the record store: every failure is
//! checked before the first mutation, so an operation either applies
//! completely or leaves the registry untouched. Each operation's
//! contract is exactly the mathematical model in [`crate::model`], and
//! each preserves the registry invariant [`consistent`].

use vstd::prelude::*;
use crate::state::{Position, Tile, Pubkey, MarkerDescription, MarkerEntry, MarkerTile, MarkerAuthor, MAX_MARKERS_IN_TILE, MAX_MARKERS_PER_AUTHOR, TILE_RESOLUTION, spec_owning_tile};
use crate::address::{Address, entry_address, tile_address, author_address, entry_address_bytes, tile_address_bytes, author_address_bytes, lemma_entry_tile_distinct, lemma_entry_author_distinct, lemma_tile_author_distinct};
use crate::layout::{spec_marker_entry_space, marker_entry_space, MARKER_TILE_SPACE, MARKER_AUTHOR_SPACE};
use crate::store::{Store, Record, RecordView};
use crate::model::{spec_add_marker, spec_update_marker, spec_delete_marker, spec_like_marker, without_address, tile_index_at, author_index_at, tile_ok, author_ok, entry_ok, consistent, unbound_author};
use crate::consistency::{lemma_add_marker_consistent, lemma_update_marker_consistent, lemma_delete_marker_consistent, lemma_like_marker_consistent};
use crate::errors::ErrorCode;

verus! {

broadcast use vstd::array::group_array_axioms;

/// A fresh, empty registry.
pub fn new_registry() -> (s: Store)
    ensures
        s.wf(),
        consistent(s@),
        s@ == Map::<Seq<u8>, RecordView>::empty(),
{
    let s = Store::new();
    proof {
        crate::model::lemma_empty_consistent();
    }
    s
}

/// The view of a list of addresses: its sequence of address bytes.
pub open spec fn addresses_view(s: Seq<Address>) -> Seq<Seq<u8>> {
    s.map_values(|x: Address| x@)
}

fn clone_addresses(src: &Vec<Address>) -> (out: Vec<Address>)
    ensures
        addresses_view(out@) == addresses_view(src@),
{
    let mut out: Vec<Address> = Vec::new();
    let mut i: usize = 0;
    while i < src.len()
        invariant
            i <= src@.len(),
            out@.len() == i,
            forall|j: int| 0 <= j < i ==> out@[j]@ == src@[j]@,
        decreases src@.len() - i,
    {
        out.push(src[i].clone());
        i = i + 1;
    }
    proof {
        assert(addresses_view(out@) =~= addresses_view(src@));
    }
    out
}

fn contains_address(list: &Vec<Address>, x: &Address) -> (r: bool)
    ensures
        r == addresses_view(list@).contains(x@),
{
    let mut i: usize = 0;
    while i < list.len()
        invariant
            i <= list@.len(),
            forall|j: int| 0 <= j < i ==> list@[j]@ != x@,
        decreases list@.len() - i,
    {
        if list[i].equals(x) {
            proof {
                assert(addresses_view(list@)[i as int] == x@);
            }
            return true;
        }
        i = i + 1;
    }
    proof {
        if addresses_view(list@).contains(x@) {
            let j = choose|j: int| 0 <= j < addresses_view(list@).len() && addresses_view(list@)[j] == x@;
            assert(list@[j]@ == x@);
        }
    }
    false
}

fn remove_address(list: &Vec<Address>, x: &Address) -> (out: Vec<Address>)
    ensures
        addresses_view(out@) == crate::model::without_address(addresses_view(list@), x@),
{
    let ghost lv = addresses_view(list@);
    let mut out: Vec<Address> = Vec::new();
    let mut i: usize = 0;
    while i < list.len()
        invariant
            i <= list@.len(),
            lv == addresses_view(list@),
            addresses_view(out@) == without_address(lv.take(i as int), x@),
        decreases list@.len() - i,
    {
        let ghost prev = addresses_view(out@);
        if !list[i].equals(x) {
            out.push(list[i].clone());
        }
        proof {
            assert(lv.take(i + 1).drop_last() =~= lv.take(i as int));
            assert(lv.take(i + 1).last() == lv[i as int]);
            if list@[i as int]@ != x@ {
                assert(addresses_view(out@) =~= prev.push(lv[i as int]));
            }
        }
        i = i + 1;
    }
    proof {
        assert(lv.take(list@.len() as int) =~= lv);
    }
    out
}

fn pubkey_eq(a: &Pubkey, b: &Pubkey) -> (r: bool)
    ensures
        r == (a@ == b@),
{
    let mut i: usize = 0;
    while i < 32
        invariant
            i <= 32,
            a@.len() == 32 && b@.len() == 32,
            forall|j: int| 0 <= j < i ==> a@[j] == b@[j],
        decreases 32 - i,
    {
        if a[i] != b[i] {
            return false;
        }
        i = i + 1;
    }
    proof {
        assert(a@ =~= b@);
    }
    true
}

/// Adds a marker: creates the entry record at the position's address
/// with both timestamps set to `now` and zero likes, and records the
/// entry's address once in the position's tile index and once in the
/// author's index, creating either index if absent. One atomic unit of
/// work: on any failure the registry is untouched. Fails with
/// `DuplicatePosition` when the position is already taken, and with
/// `CapacityExceeded` when a full index would have to grow.
pub fn add_marker(
    store: &mut Store,
    description: MarkerDescription,
    position: Position,
    author: Pubkey,
    now: i64,
) -> (r: Result<(), ErrorCode>)
    requires
        old(store).wf(),
        consistent(old(store)@),
        spec_marker_entry_space(description@) <= usize::MAX,
    ensures
        final(store).wf(),
        consistent(final(store)@),
        (match spec_add_marker(old(store)@, description@, position, author@, now) {
            Ok(m2) => r is Ok && final(store)@ == m2,
            Err(e) => r == Err::<(), ErrorCode>(e) && final(store)@ == old(store)@,
        }),
{
    let ghost m = store@;
    let addr = entry_address(position);
    if store.contains(&addr) {
        return Err(ErrorCode::DuplicatePosition);
    }
    let tile = position.tile(TILE_RESOLUTION);
    proof {
        assert(tile == spec_owning_tile(position));
    }
    let taddr = tile_address(tile);
    let aaddr = author_address(author.as_slice());
    let ghost tk = tile_address_bytes(spec_owning_tile(position));
    let ghost ak = author_address_bytes(author@);

    let (mut tile_rec, tile_present): (MarkerTile, bool) = match store.get(&taddr) {
        Some(Record::TileIndex(t)) => (MarkerTile { tile: t.tile, markers: clone_addresses(&t.markers) }, true),
        Some(_) => {
            proof {
                assert(tile_ok(m, tile));
                assert(false);
            }
            (MarkerTile { tile: Tile { x: 0, y: 0 }, markers: Vec::new() }, true)
        },
        None => (MarkerTile { tile: Tile { x: 0, y: 0 }, markers: Vec::new() }, false),
    };
    proof {
        if !tile_present {
            assert(addresses_view(tile_rec.markers@) =~= Seq::<Seq<u8>>::empty());
        }
        assert(tile_rec@ == tile_index_at(m, tk));
    }
    let (mut author_rec, author_present): (MarkerAuthor, bool) = match store.get(&aaddr) {
        Some(Record::AuthorIndex(w)) => (MarkerAuthor { author: w.author, markers: clone_addresses(&w.markers) }, true),
        Some(_) => {
            proof {
                assert(author_ok(m, author@));
                assert(false);
            }
            (MarkerAuthor { author: [0u8; 32], markers: Vec::new() }, true)
        },
        None => (MarkerAuthor { author: [0u8; 32], markers: Vec::new() }, false),
    };
    proof {
        if !author_present {
            assert(addresses_view(author_rec.markers@) =~= Seq::<Seq<u8>>::empty());
            assert(author_rec.author@ =~= unbound_author());
        }
        assert(author_rec@ == author_index_at(m, ak));
    }

    let is_tile_member = contains_address(&tile_rec.markers, &addr);
    if !is_tile_member && tile_rec.markers.len() >= MAX_MARKERS_IN_TILE {
        return Err(ErrorCode::CapacityExceeded);
    }
    let is_author_member = contains_address(&author_rec.markers, &addr);
    if !is_author_member && author_rec.markers.len() >= MAX_MARKERS_PER_AUTHOR {
        return Err(ErrorCode::CapacityExceeded);
    }

    let addr_for_tile = addr.clone();
    let addr_for_author = addr.clone();
    let entry = MarkerEntry {
        author: author,
        description: description,
        position: position,
        created_at: now,
        updated_at: now,
        likes: 0,
    };
    let space = marker_entry_space(&entry.description);
    proof {
        lemma_entry_tile_distinct(position, spec_owning_tile(position));
        lemma_entry_author_distinct(position, author@);
        lemma_tile_author_distinct(spec_owning_tile(position), author@);
    }
    store.create(addr, Record::Entry(entry), space);

    let ghost t0 = tile_index_at(m, tk);
    if !is_tile_member {
        tile_rec.markers.push(addr_for_tile);
        proof {
            assert(addresses_view(tile_rec.markers@) =~= t0.markers.push(entry_address_bytes(position)));
        }
        if tile_rec.markers.len() == 1 {
            tile_rec.tile = tile;
        }
    }
    if tile_present {
        store.replace(&taddr, Record::TileIndex(tile_rec), MARKER_TILE_SPACE);
    } else {
        store.create(taddr, Record::TileIndex(tile_rec), MARKER_TILE_SPACE);
    }

    let ghost a0 = author_index_at(m, ak);
    if author_rec.markers.is_empty() {
        author_rec.author = author;
    }
    if !is_author_member {
        author_rec.markers.push(addr_for_author);
        proof {
            assert(addresses_view(author_rec.markers@) =~= a0.markers.push(entry_address_bytes(position)));
        }
    }
    if author_present {
        store.replace(&aaddr, Record::AuthorIndex(author_rec), MARKER_AUTHOR_SPACE);
    } else {
        store.create(aaddr, Record::AuthorIndex(author_rec), MARKER_AUTHOR_SPACE);
    }

    proof {
        lemma_add_marker_consistent(m, description@, position, author@, now);
    }
    Ok(())
}

/// Updates a marker's description: resizes the entry's slot to exactly
/// the new description's size, replaces the description, and sets
/// `updated_at` to `now`. The position, creation time, like counter,
/// and both indexes are untouched. Fails with `NotFound` when no entry
/// lives at the position, and with `Unauthorized` when the caller is
/// not the entry's author; on failure the registry is untouched.
pub fn update_marker(
    store: &mut Store,
    new_description: MarkerDescription,
    position: Position,
    author: Pubkey,
    now: i64,
) -> (r: Result<(), ErrorCode>)
    requires
        old(store).wf(),
        consistent(old(store)@),
        spec_marker_entry_space(new_description@) <= usize::MAX,
    ensures
        final(store).wf(),
        consistent(final(store)@),
        (match spec_update_marker(old(store)@, new_description@, position, author@, now) {
            Ok(m2) => r is Ok && final(store)@ == m2,
            Err(e) => r == Err::<(), ErrorCode>(e) && final(store)@ == old(store)@,
        }),
{
    let ghost m = store@;
    let addr = entry_address(position);
    let found: Option<(Pubkey, Position, i64, u64)> = match store.get(&addr) {
        Some(Record::Entry(e)) => Some((e.author, e.position, e.created_at, e.likes)),
        Some(_) => {
            proof {
                assert(entry_ok(m, position));
                assert(false);
            }
            None
        },
        None => None,
    };
    match found {
        None => Err(ErrorCode::NotFound),
        Some((e_author, e_position, e_created, e_likes)) => {
            if !pubkey_eq(&e_author, &author) {
                return Err(ErrorCode::Unauthorized);
            }
            let entry = MarkerEntry {
                author: e_author,
                description: new_description,
                position: e_position,
                created_at: e_created,
                updated_at: now,
                likes: e_likes,
            };
            let space = marker_entry_space(&entry.description);
            store.replace(&addr, Record::Entry(entry), space);
            proof {
                lemma_update_marker_consistent(m, new_description@, position, author@, now);
            }
            Ok(())
        },
    }
}

/// Deletes a marker: removes its address from the tile index and from
/// the caller's author index, then deallocates the entry record. The
/// two index records persist, even once empty. Fails with `NotFound`
/// when no entry lives at the position, and with `Unauthorized` when
/// the caller is not the entry's author; on failure the registry is
/// untouched.
pub fn delete_marker(store: &mut Store, position: Position, author: Pubkey) -> (r: Result<
    (),
    ErrorCode,
>)
    requires
        old(store).wf(),
        consistent(old(store)@),
    ensures
        final(store).wf(),
        consistent(final(store)@),
        (match spec_delete_marker(old(store)@, position, author@) {
            Ok(m2) => r is Ok && final(store)@ == m2,
            Err(e) => r == Err::<(), ErrorCode>(e) && final(store)@ == old(store)@,
        }),
{
    let ghost m = store@;
    let addr = entry_address(position);
    let found: Option<Pubkey> = match store.get(&addr) {
        Some(Record::Entry(e)) => Some(e.author),
        Some(_) => {
            proof {
                assert(entry_ok(m, position));
                assert(false);
            }
            None
        },
        None => None,
    };
    let e_author = match found {
        None => {
            return Err(ErrorCode::NotFound);
        },
        Some(e_author) => e_author,
    };
    if !pubkey_eq(&e_author, &author) {
        return Err(ErrorCode::Unauthorized);
    }
    let tile = position.tile(TILE_RESOLUTION);
    proof {
        assert(tile == spec_owning_tile(position));
        assert(entry_ok(m, position));
        lemma_entry_tile_distinct(position, spec_owning_tile(position));
        lemma_entry_author_distinct(position, author@);
        lemma_tile_author_distinct(spec_owning_tile(position), author@);
    }
    let taddr = tile_address(tile);
    let aaddr = author_address(author.as_slice());

    let tile_update: Option<MarkerTile> = match store.get(&taddr) {
        Some(Record::TileIndex(t)) => Some(MarkerTile {
            tile: t.tile,
            markers: remove_address(&t.markers, &addr),
        }),
        Some(_) => None,
        None => None,
    };
    match tile_update {
        Some(t) => {
            store.replace(&taddr, Record::TileIndex(t), MARKER_TILE_SPACE);
        },
        None => {
            proof {
                assert(tile_ok(m, tile));
                assert(false);
            }
        },
    }

    let author_update: Option<MarkerAuthor> = match store.get(&aaddr) {
        Some(Record::AuthorIndex(w)) => Some(MarkerAuthor {
            author: w.author,
            markers: remove_address(&w.markers, &addr),
        }),
        Some(_) => None,
        None => None,
    };
    match author_update {
        Some(w) => {
            store.replace(&aaddr, Record::AuthorIndex(w), MARKER_AUTHOR_SPACE);
        },
        None => {
            proof {
                assert(author_ok(m, author@));
                assert(false);
            }
        },
    }

    store.delete(&addr);
    proof {
        lemma_delete_marker_consistent(m, position, author@);
    }
    Ok(())
}

/// Likes a marker: increments its like counter by one. There is no
/// uniqueness check and no unlike: any caller may like any entry any
/// number of times. Fails with `NotFound` when no marker entry lives at
/// the target address; on failure the registry is untouched.
pub fn like_marker(store: &mut Store, target: &Address) -> (r: Result<(), ErrorCode>)
    requires
        old(store).wf(),
        consistent(old(store)@),
        (old(store)@.dom().contains(target@) && old(store)@[target@] is Entry)
            ==> old(store)@[target@]->Entry_0.likes < u64::MAX,
    ensures
        final(store).wf(),
        consistent(final(store)@),
        (match spec_like_marker(old(store)@, target@) {
            Ok(m2) => r is Ok && final(store)@ == m2,
            Err(e) => r == Err::<(), ErrorCode>(e) && final(store)@ == old(store)@,
        }),
{
    let ghost m = store@;
    proof {
        if m.dom().contains(target@) {
            store.lemma_exact_space(target@);
        }
    }
    let entry: Option<MarkerEntry> = match store.get(target) {
        Some(Record::Entry(e)) => Some(MarkerEntry {
            author: e.author,
            description: clone_description(&e.description),
            position: e.position,
            created_at: e.created_at,
            updated_at: e.updated_at,
            likes: e.likes + 1,
        }),
        Some(_) => None,
        None => None,
    };
    match entry {
        None => Err(ErrorCode::NotFound),
        Some(e) => {
            let space = marker_entry_space(&e.description);
            store.replace(target, Record::Entry(e), space);
            proof {
                lemma_like_marker_consistent(m, target@);
            }
            Ok(())
        },
    }
}

fn clone_description(d: &MarkerDescription) -> (r: MarkerDescription)
    ensures
        r@ == d@,
{
    MarkerDescription {
        name: d.name.clone(),
        details: d.details.clone(),
        marker_type: d.marker_type,
    }
}

/// Reads the marker entry at a position, if one lives there.
pub fn get_marker<'a>(store: &'a Store, position: Position) -> (r: Option<&'a MarkerEntry>)
    requires
        store.wf(),
        consistent(store@),
    ensures
        (match r {
            Some(e) => store@.dom().contains(entry_address_bytes(position))
                && store@[entry_address_bytes(position)] == RecordView::Entry(e@),
            None => !store@.dom().contains(entry_address_bytes(position)),
        }),
{
    let addr = entry_address(position);
    match store.get(&addr) {
        Some(Record::Entry(e)) => Some(e),
        Some(_) => {
            proof {
                assert(entry_ok(store@, position));
                assert(false);
            }
            None
        },
        None => None,
    }
}

/// Reads the tile index record of a tile, if one has been created.
pub fn get_tile_index<'a>(store: &'a Store, tile: Tile) -> (r: Option<&'a MarkerTile>)
    requires
        store.wf(),
        consistent(store@),
    ensures
        (match r {
            Some(t) => store@.dom().contains(tile_address_bytes(tile))
                && store@[tile_address_bytes(tile)] == RecordView::TileIndex(t@),
            None => !store@.dom().contains(tile_address_bytes(tile)),
        }),
{
    let addr = tile_address(tile);
    match store.get(&addr) {
        Some(Record::TileIndex(t)) => Some(t),
        Some(_) => {
            proof {
                assert(tile_ok(store@, tile));
                assert(false);
            }
            None
        },
        None => None,
    }
}

/// Reads the author index record of an author, if one has been created.
pub fn get_author_index<'a>(store: &'a Store, author: &Pubkey) -> (r: Option<&'a MarkerAuthor>)
    requires
        store.wf(),
        consistent(store@),
    ensures
        (match r {
            Some(w) => store@.dom().contains(author_address_bytes(author@))
                && store@[author_address_bytes(author@)] == RecordView::AuthorIndex(w@),
            None => !store@.dom().contains(author_address_bytes(author@)),
        }),
{
    let addr = author_address(author.as_slice());
    match store.get(&addr) {
        Some(Record::AuthorIndex(w)) => Some(w),
        Some(_) => {
            proof {
                assert(author_ok(store@, author@));
                assert(false);
            }
            None
        },
        None => None,
    }
}

} // verus!
