//! The mathematical model of the registry: what each lifecycle
//! operation does to the map from address bytes to records, when it
//! fails, and the consistency invariant every operation preserves.

use vstd::prelude::*;
use crate::state::{Position, Tile, MarkerDescriptionView, MarkerEntryView, MarkerTileView, MarkerAuthorView, MAX_MARKERS_IN_TILE, MAX_MARKERS_PER_AUTHOR, spec_owning_tile};
use crate::address::{entry_address_bytes, tile_address_bytes, author_address_bytes};
use crate::store::RecordView;
use crate::errors::ErrorCode;

verus! {

/// The registry as a whole: records keyed by their address bytes.
pub type RegistryMap = Map<Seq<u8>, RecordView>;

/// The author field of a freshly created, still unbound author index.
pub open spec fn unbound_author() -> Seq<u8> {
    Seq::new(32, |i: int| 0u8)
}

/// The tile field of a freshly created, still empty tile index.
pub open spec fn unbound_tile() -> Tile {
    Tile { x: 0, y: 0 }
}

/// The tile index held at key `k`, or a fresh empty one where none is.
pub open spec fn tile_index_at(m: RegistryMap, k: Seq<u8>) -> MarkerTileView {
    if m.dom().contains(k) && m[k] is TileIndex {
        m[k]->TileIndex_0
    } else {
        MarkerTileView { tile: unbound_tile(), markers: Seq::empty() }
    }
}

/// The author index held at key `k`, or a fresh unbound one where none
/// is.
pub open spec fn author_index_at(m: RegistryMap, k: Seq<u8>) -> MarkerAuthorView {
    if m.dom().contains(k) && m[k] is AuthorIndex {
        m[k]->AuthorIndex_0
    } else {
        MarkerAuthorView { author: unbound_author(), markers: Seq::empty() }
    }
}

/// What adding a marker does. It fails with `DuplicatePosition` exactly
/// when a record already lives at the position's entry address, and
/// with `CapacityExceeded` exactly when the entry's address would have
/// to be appended to a full tile index (checked first) or a full author
/// index. Otherwise it creates the entry with both timestamps equal to
/// `now` and zero likes, appends its address to the two indexes unless
/// already present, sets the tile index's tile on the list's first
/// transition to non-empty, and binds the author index's author when
/// its list was empty.
pub open spec fn spec_add_marker(
    m: RegistryMap,
    description: MarkerDescriptionView,
    position: Position,
    author: Seq<u8>,
    now: i64,
) -> Result<RegistryMap, ErrorCode> {
    let a = entry_address_bytes(position);
    let tk = tile_address_bytes(spec_owning_tile(position));
    let ak = author_address_bytes(author);
    if m.dom().contains(a) {
        Err(ErrorCode::DuplicatePosition)
    } else {
        let t0 = tile_index_at(m, tk);
        let a0 = author_index_at(m, ak);
        if !t0.markers.contains(a) && t0.markers.len() >= MAX_MARKERS_IN_TILE {
            Err(ErrorCode::CapacityExceeded)
        } else if !a0.markers.contains(a) && a0.markers.len() >= MAX_MARKERS_PER_AUTHOR {
            Err(ErrorCode::CapacityExceeded)
        } else {
            let e = MarkerEntryView {
                author: author,
                description: description,
                position: position,
                created_at: now,
                updated_at: now,
                likes: 0,
            };
            let t1 = if t0.markers.contains(a) {
                t0
            } else {
                MarkerTileView {
                    tile: if t0.markers.len() == 0 { spec_owning_tile(position) } else { t0.tile },
                    markers: t0.markers.push(a),
                }
            };
            let a1 = if a0.markers.len() == 0 {
                MarkerAuthorView { author: author, markers: a0.markers }
            } else {
                a0
            };
            let a2 = if a1.markers.contains(a) {
                a1
            } else {
                MarkerAuthorView { author: a1.author, markers: a1.markers.push(a) }
            };
            Ok(m.insert(a, RecordView::Entry(e))
                .insert(tk, RecordView::TileIndex(t1))
                .insert(ak, RecordView::AuthorIndex(a2)))
        }
    }
}

/// What updating a marker does. It fails with `NotFound` exactly when
/// no marker entry lives at the position's entry address, and with
/// `Unauthorized` exactly when one does but its author is not the
/// caller. Otherwise it replaces the description and sets `updated_at`
/// to `now`; everything else, and every other record, is untouched.
pub open spec fn spec_update_marker(
    m: RegistryMap,
    new_description: MarkerDescriptionView,
    position: Position,
    author: Seq<u8>,
    now: i64,
) -> Result<RegistryMap, ErrorCode> {
    let a = entry_address_bytes(position);
    if !(m.dom().contains(a) && m[a] is Entry) {
        Err(ErrorCode::NotFound)
    } else {
        let e = m[a]->Entry_0;
        if e.author != author {
            Err(ErrorCode::Unauthorized)
        } else {
            let e1 = MarkerEntryView {
                author: e.author,
                description: new_description,
                position: e.position,
                created_at: e.created_at,
                updated_at: now,
                likes: e.likes,
            };
            Ok(m.insert(a, RecordView::Entry(e1)))
        }
    }
}

/// A membership list with every occurrence of one address removed,
/// other members kept in order.
pub open spec fn without_address(s: Seq<Seq<u8>>, a: Seq<u8>) -> Seq<Seq<u8>>
    decreases s.len(),
{
    if s.len() == 0 {
        s
    } else {
        let rest = without_address(s.drop_last(), a);
        if s.last() == a {
            rest
        } else {
            rest.push(s.last())
        }
    }
}

/// What deleting a marker does. It fails with `NotFound` exactly when
/// no marker entry lives at the position's entry address, and with
/// `Unauthorized` exactly when one does but its author is not the
/// caller. Otherwise it removes the entry's address from the tile index
/// and from the caller's author index and deallocates the entry record.
/// The two index records themselves persist, even once empty.
pub open spec fn spec_delete_marker(
    m: RegistryMap,
    position: Position,
    author: Seq<u8>,
) -> Result<RegistryMap, ErrorCode> {
    let a = entry_address_bytes(position);
    let tk = tile_address_bytes(spec_owning_tile(position));
    let ak = author_address_bytes(author);
    if !(m.dom().contains(a) && m[a] is Entry) {
        Err(ErrorCode::NotFound)
    } else if m[a]->Entry_0.author != author {
        Err(ErrorCode::Unauthorized)
    } else {
        let m1 = if m.dom().contains(tk) && m[tk] is TileIndex {
            let t = m[tk]->TileIndex_0;
            m.insert(tk, RecordView::TileIndex(MarkerTileView {
                tile: t.tile,
                markers: without_address(t.markers, a),
            }))
        } else {
            m
        };
        let m2 = if m1.dom().contains(ak) && m1[ak] is AuthorIndex {
            let w = m1[ak]->AuthorIndex_0;
            m1.insert(ak, RecordView::AuthorIndex(MarkerAuthorView {
                author: w.author,
                markers: without_address(w.markers, a),
            }))
        } else {
            m1
        };
        Ok(m2.remove(a))
    }
}

/// What liking a marker does. It fails with `NotFound` exactly when no
/// marker entry lives at the target address. Otherwise it increments
/// the entry's like counter by one; everything else is untouched. There
/// is no uniqueness check: the same caller may like the same marker any
/// number of times.
pub open spec fn spec_like_marker(m: RegistryMap, k: Seq<u8>) -> Result<RegistryMap, ErrorCode> {
    if m.dom().contains(k) && m[k] is Entry {
        let e = m[k]->Entry_0;
        let e1 = MarkerEntryView {
            author: e.author,
            description: e.description,
            position: e.position,
            created_at: e.created_at,
            updated_at: e.updated_at,
            likes: (e.likes + 1) as u64,
        };
        Ok(m.insert(k, RecordView::Entry(e1)))
    } else {
        Err(ErrorCode::NotFound)
    }
}

/// A live marker entry is well placed: it sits at the address derived
/// from its own position, and its address is a member of both the tile
/// index owning its position and the author index of its author.
pub open spec fn entry_ok(m: RegistryMap, p: Position) -> bool {
    let a = entry_address_bytes(p);
    let r = m[a];
    let tk = tile_address_bytes(spec_owning_tile(p));
    &&& r is Entry
    &&& r->Entry_0.position == p
    &&& m.dom().contains(tk)
    &&& m[tk] is TileIndex
    &&& m[tk]->TileIndex_0.markers.contains(a)
    &&& m.dom().contains(author_address_bytes(r->Entry_0.author))
    &&& m[author_address_bytes(r->Entry_0.author)] is AuthorIndex
    &&& m[author_address_bytes(r->Entry_0.author)]->AuthorIndex_0.markers.contains(a)
}

/// A tile index is well formed: duplicate-free, within capacity, and
/// naming its own tile whenever its list is non-empty.
pub open spec fn tile_ok(m: RegistryMap, t: Tile) -> bool {
    let r = m[tile_address_bytes(t)];
    &&& r is TileIndex
    &&& r->TileIndex_0.markers.no_duplicates()
    &&& r->TileIndex_0.markers.len() <= MAX_MARKERS_IN_TILE
    &&& r->TileIndex_0.markers.len() > 0 ==> r->TileIndex_0.tile == t
}

/// An author index is well formed: duplicate-free, within capacity, and
/// bound to its own author whenever its list is non-empty.
pub open spec fn author_ok(m: RegistryMap, who: Seq<u8>) -> bool {
    let r = m[author_address_bytes(who)];
    &&& r is AuthorIndex
    &&& r->AuthorIndex_0.markers.no_duplicates()
    &&& r->AuthorIndex_0.markers.len() <= MAX_MARKERS_PER_AUTHOR
    &&& r->AuthorIndex_0.markers.len() > 0 ==> r->AuthorIndex_0.author == who
}

/// The registry invariant: every record of each kind found at a derived
/// address is well formed and mutually consistent with its indexes.
/// Every operation requires and preserves it; the empty registry has it.
pub open spec fn consistent(m: RegistryMap) -> bool {
    &&& forall|p: Position| #[trigger] m.dom().contains(entry_address_bytes(p)) ==> entry_ok(m, p)
    &&& forall|t: Tile| #[trigger] m.dom().contains(tile_address_bytes(t)) ==> tile_ok(m, t)
    &&& forall|w: Seq<u8>| #[trigger] m.dom().contains(author_address_bytes(w)) ==> author_ok(m, w)
}

/// The empty registry is consistent.
pub proof fn lemma_empty_consistent()
    ensures
        consistent(Map::<Seq<u8>, RecordView>::empty()),
{
}

} // verus!
