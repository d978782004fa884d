//! Laws of the registry: properties that relate several operations,
//! stated over the model in [`crate::model`] and proved for every
//! input the model allows.

use vstd::prelude::*;
use crate::state::{Position, MarkerDescriptionView, spec_owning_tile, MAX_MARKERS_IN_TILE, MAX_MARKERS_PER_AUTHOR};
use crate::address::{entry_address_bytes, tile_address_bytes, author_address_bytes, lemma_entry_tile_distinct, lemma_entry_author_distinct, lemma_tile_author_distinct};
use crate::store::RecordView;
use crate::model::{RegistryMap, spec_add_marker, spec_update_marker, spec_delete_marker, spec_like_marker, without_address, tile_index_at, author_index_at, entry_ok, tile_ok, author_ok, consistent};
use crate::consistency::{lemma_add_marker_consistent, lemma_without_address_membership};
use crate::errors::ErrorCode;

verus! {

/// How many times an address occurs in a membership list.
pub open spec fn occurrences(s: Seq<Seq<u8>>, a: Seq<u8>) -> nat
    decreases s.len(),
{
    if s.len() == 0 {
        0
    } else {
        occurrences(s.drop_last(), a) + (if s.last() == a { 1nat } else { 0nat })
    }
}

proof fn lemma_occurrences_zero(s: Seq<Seq<u8>>, a: Seq<u8>)
    requires
        !s.contains(a),
    ensures
        occurrences(s, a) == 0,
    decreases s.len(),
{
    if s.len() != 0 {
        let rest = s.drop_last();
        if rest.contains(a) {
            let i = choose|i: int| 0 <= i < rest.len() && rest[i] == a;
            assert(s[i] == a);
            assert(false);
        }
        lemma_occurrences_zero(rest, a);
        if s.last() == a {
            assert(s[s.len() - 1] == a);
            assert(false);
        }
    }
}

proof fn lemma_occurrences_once(s: Seq<Seq<u8>>, a: Seq<u8>)
    requires
        s.no_duplicates(),
        s.contains(a),
    ensures
        occurrences(s, a) == 1,
    decreases s.len(),
{
    let rest = s.drop_last();
    assert(rest.no_duplicates());
    if s.last() == a {
        if rest.contains(a) {
            let i = choose|i: int| 0 <= i < rest.len() && rest[i] == a;
            assert(s[i] == s[s.len() - 1]);
            assert(false);
        }
        lemma_occurrences_zero(rest, a);
    } else {
        let i = choose|i: int| 0 <= i < s.len() && s[i] == a;
        assert(i < s.len() - 1);
        assert(rest[i] == a);
        lemma_occurrences_once(rest, a);
    }
}

/// Removing an address from a list that holds it strictly shrinks the
/// list.
proof fn lemma_without_address_shrinks(s: Seq<Seq<u8>>, a: Seq<u8>)
    requires
        s.contains(a),
    ensures
        without_address(s, a).len() < s.len(),
    decreases s.len(),
{
    let rest = s.drop_last();
    if s.last() == a {
        lemma_without_address_membership(rest, a, a);
    } else {
        let i = choose|i: int| 0 <= i < s.len() && s[i] == a;
        assert(i < s.len() - 1);
        assert(rest[i] == a);
        lemma_without_address_shrinks(rest, a);
    }
}

/// Adding a marker and then reading the position back yields exactly
/// what was put in: the given description, position, and author, both
/// timestamps equal to the add's `now`, and a like counter of zero.
pub proof fn lemma_add_then_read(
    m: RegistryMap,
    description: MarkerDescriptionView,
    position: Position,
    author: Seq<u8>,
    now: i64,
)
    requires
        spec_add_marker(m, description, position, author, now) is Ok,
    ensures
        ({
            let m2 = spec_add_marker(m, description, position, author, now)->Ok_0;
            let a = entry_address_bytes(position);
            &&& m2.dom().contains(a)
            &&& m2[a] is Entry
            &&& m2[a]->Entry_0.description == description
            &&& m2[a]->Entry_0.position == position
            &&& m2[a]->Entry_0.author == author
            &&& m2[a]->Entry_0.created_at == now
            &&& m2[a]->Entry_0.updated_at == now
            &&& m2[a]->Entry_0.likes == 0
        }),
{
    lemma_entry_tile_distinct(position, spec_owning_tile(position));
    lemma_entry_author_distinct(position, author);
}

/// Adding twice at the same position: the second add fails with
/// `DuplicatePosition`, whoever calls it and whatever it carries, and
/// (failures returning the registry unchanged) the first entry stands.
pub proof fn lemma_add_duplicate_rejected(
    m: RegistryMap,
    d1: MarkerDescriptionView,
    position: Position,
    author1: Seq<u8>,
    now1: i64,
    d2: MarkerDescriptionView,
    author2: Seq<u8>,
    now2: i64,
)
    requires
        spec_add_marker(m, d1, position, author1, now1) is Ok,
    ensures
        ({
            let m2 = spec_add_marker(m, d1, position, author1, now1)->Ok_0;
            spec_add_marker(m2, d2, position, author2, now2)
                == Err::<RegistryMap, ErrorCode>(ErrorCode::DuplicatePosition)
        }),
{
    lemma_entry_tile_distinct(position, spec_owning_tile(position));
    lemma_entry_author_distinct(position, author1);
}

/// After an add, the new entry's address stands exactly once in its
/// tile's index and exactly once in its author's index.
pub proof fn lemma_indexed_exactly_once(
    m: RegistryMap,
    description: MarkerDescriptionView,
    position: Position,
    author: Seq<u8>,
    now: i64,
)
    requires
        consistent(m),
        spec_add_marker(m, description, position, author, now) is Ok,
    ensures
        ({
            let m2 = spec_add_marker(m, description, position, author, now)->Ok_0;
            let a = entry_address_bytes(position);
            let tk = tile_address_bytes(spec_owning_tile(position));
            let ak = author_address_bytes(author);
            &&& m2.dom().contains(tk) && m2[tk] is TileIndex
            &&& occurrences(m2[tk]->TileIndex_0.markers, a) == 1
            &&& m2.dom().contains(ak) && m2[ak] is AuthorIndex
            &&& occurrences(m2[ak]->AuthorIndex_0.markers, a) == 1
        }),
{
    let m2 = spec_add_marker(m, description, position, author, now)->Ok_0;
    let a = entry_address_bytes(position);
    let tl = spec_owning_tile(position);
    let tk = tile_address_bytes(tl);
    let ak = author_address_bytes(author);
    lemma_add_marker_consistent(m, description, position, author, now);
    lemma_entry_tile_distinct(position, tl);
    lemma_entry_author_distinct(position, author);
    lemma_tile_author_distinct(tl, author);
    assert(m2.dom().contains(a));
    assert(entry_ok(m2, position));
    assert(tile_ok(m2, tl));
    assert(author_ok(m2, author));
    lemma_occurrences_once(m2[tk]->TileIndex_0.markers, a);
    lemma_occurrences_once(m2[ak]->AuthorIndex_0.markers, a);
}

/// Deleting a marker removes the entry record and its address from both
/// indexes; the index records themselves persist, and re-adding at the
/// same position by the same author afterwards succeeds, reusing them.
pub proof fn lemma_delete_then_readd(
    m: RegistryMap,
    position: Position,
    author: Seq<u8>,
    d2: MarkerDescriptionView,
    now2: i64,
)
    requires
        consistent(m),
        spec_delete_marker(m, position, author) is Ok,
    ensures
        ({
            let m2 = spec_delete_marker(m, position, author)->Ok_0;
            let a = entry_address_bytes(position);
            let tk = tile_address_bytes(spec_owning_tile(position));
            let ak = author_address_bytes(author);
            &&& !m2.dom().contains(a)
            &&& m2.dom().contains(tk) && m2[tk] is TileIndex
            &&& !m2[tk]->TileIndex_0.markers.contains(a)
            &&& m2.dom().contains(ak) && m2[ak] is AuthorIndex
            &&& !m2[ak]->AuthorIndex_0.markers.contains(a)
            &&& spec_add_marker(m2, d2, position, author, now2) is Ok
        }),
{
    let m2 = spec_delete_marker(m, position, author)->Ok_0;
    let a = entry_address_bytes(position);
    let tl = spec_owning_tile(position);
    let tk = tile_address_bytes(tl);
    let ak = author_address_bytes(author);
    assert(entry_ok(m, position));
    assert(tile_ok(m, tl));
    assert(author_ok(m, author));
    lemma_entry_tile_distinct(position, tl);
    lemma_entry_author_distinct(position, author);
    lemma_tile_author_distinct(tl, author);
    let t = m[tk]->TileIndex_0;
    let w = m[ak]->AuthorIndex_0;
    lemma_without_address_membership(t.markers, a, a);
    lemma_without_address_membership(w.markers, a, a);
    lemma_without_address_shrinks(t.markers, a);
    lemma_without_address_shrinks(w.markers, a);
    assert(tile_index_at(m2, tk).markers.len() < MAX_MARKERS_IN_TILE);
    assert(author_index_at(m2, ak).markers.len() < MAX_MARKERS_PER_AUTHOR);
}

/// Updating a marker changes its description and `updated_at` only:
/// the position, creation time, like counter, author, and every other
/// record of the registry are identical before and after.
pub proof fn lemma_update_changes_description_only(
    m: RegistryMap,
    new_description: MarkerDescriptionView,
    position: Position,
    author: Seq<u8>,
    now: i64,
)
    requires
        spec_update_marker(m, new_description, position, author, now) is Ok,
    ensures
        ({
            let m2 = spec_update_marker(m, new_description, position, author, now)->Ok_0;
            let a = entry_address_bytes(position);
            let e0 = m[a]->Entry_0;
            let e1 = m2[a]->Entry_0;
            &&& m2.dom() == m.dom()
            &&& m2[a] is Entry
            &&& e1.description == new_description
            &&& e1.updated_at == now
            &&& e1.position == e0.position
            &&& e1.created_at == e0.created_at
            &&& e1.likes == e0.likes
            &&& e1.author == e0.author
            &&& forall|k: Seq<u8>| #![auto] m.dom().contains(k) && k != a ==> m2[k] == m[k]
        }),
{
    let a = entry_address_bytes(position);
    let m2 = spec_update_marker(m, new_description, position, author, now)->Ok_0;
    assert(m2.dom() =~= m.dom());
}

/// Liking the same marker `n` times adds `n` to its like counter and
/// changes nothing else; the like operation does not depend on who
/// calls it, so distinct callers all increment alike.
pub open spec fn spec_like_n(m: RegistryMap, k: Seq<u8>, n: nat) -> Result<RegistryMap, ErrorCode>
    decreases n,
{
    if n == 0 {
        Ok(m)
    } else {
        match spec_like_marker(m, k) {
            Ok(m1) => spec_like_n(m1, k, (n - 1) as nat),
            Err(e) => Err(e),
        }
    }
}

/// Like applied `n` times to an entry whose counter stays in range
/// succeeds and yields exactly `n` more likes, leaving every other
/// field and every other record unchanged.
pub proof fn lemma_like_n_accumulates(m: RegistryMap, k: Seq<u8>, n: nat)
    requires
        m.dom().contains(k),
        m[k] is Entry,
        m[k]->Entry_0.likes + n <= u64::MAX,
    ensures
        ({
            let r = spec_like_n(m, k, n);
            &&& r is Ok
            &&& r->Ok_0.dom() == m.dom()
            &&& r->Ok_0[k] is Entry
            &&& r->Ok_0[k]->Entry_0.likes == m[k]->Entry_0.likes + n
            &&& r->Ok_0[k]->Entry_0.description == m[k]->Entry_0.description
            &&& r->Ok_0[k]->Entry_0.position == m[k]->Entry_0.position
            &&& r->Ok_0[k]->Entry_0.author == m[k]->Entry_0.author
            &&& r->Ok_0[k]->Entry_0.created_at == m[k]->Entry_0.created_at
            &&& r->Ok_0[k]->Entry_0.updated_at == m[k]->Entry_0.updated_at
            &&& forall|k2: Seq<u8>| #![auto] m.dom().contains(k2) && k2 != k ==> r->Ok_0[k2] == m[k2]
        }),
    decreases n,
{
    if n == 0 {
    } else {
        let m1 = spec_like_marker(m, k)->Ok_0;
        assert(m1.dom() =~= m.dom());
        lemma_like_n_accumulates(m1, k, (n - 1) as nat);
        let r = spec_like_n(m, k, n);
        assert(r == spec_like_n(m1, k, (n - 1) as nat));
        assert forall|k2: Seq<u8>| #![auto] m.dom().contains(k2) && k2 != k
            implies r->Ok_0[k2] == m[k2] by {
            assert(m1.dom().contains(k2));
            assert(m1[k2] == m[k2]);
        }
    }
}

} // verus!
