//! Proofs that every lifecycle operation preserves the registry
//! invariant [`consistent`].

use vstd::prelude::*;
use crate::state::{Position, Tile, MarkerDescriptionView, MarkerEntryView, MarkerTileView, MarkerAuthorView, spec_owning_tile, MAX_MARKERS_IN_TILE, MAX_MARKERS_PER_AUTHOR};
use crate::address::{entry_address_bytes, tile_address_bytes, author_address_bytes, lemma_entry_address_injective, lemma_tile_address_injective, lemma_entry_tile_distinct, lemma_entry_author_distinct, lemma_tile_author_distinct};
use crate::store::RecordView;
use crate::model::{RegistryMap, tile_index_at, author_index_at, spec_add_marker, spec_update_marker, spec_delete_marker, spec_like_marker, without_address, entry_ok, tile_ok, author_ok, consistent};

verus! {

/// Pushing a fresh element keeps a list duplicate-free.
proof fn lemma_push_no_duplicates(s: Seq<Seq<u8>>, x: Seq<u8>)
    requires
        s.no_duplicates(),
        !s.contains(x),
    ensures
        s.push(x).no_duplicates(),
{
    assert forall|i: int, j: int|
        0 <= i < s.push(x).len() && 0 <= j < s.push(x).len() && i != j
        implies s.push(x)[i] != s.push(x)[j] by {
        if i < s.len() && j < s.len() {
            assert(s[i] != s[j]);
        } else if j == s.len() && i < s.len() {
            assert(s.push(x)[i] == s[i]);
            if s[i] == x {
                assert(s.contains(x));
            }
        } else if i == s.len() && j < s.len() {
            if s[j] == x {
                assert(s.contains(x));
            }
        }
    }
}

/// A membership list shrunk by [`without_address`] holds exactly the
/// old members other than the removed address, and cannot have grown.
pub proof fn lemma_without_address_membership(s: Seq<Seq<u8>>, a: Seq<u8>, x: Seq<u8>)
    ensures
        without_address(s, a).contains(x) <==> (s.contains(x) && x != a),
        without_address(s, a).len() <= s.len(),
    decreases s.len(),
{
    if s.len() != 0 {
        let rest = s.drop_last();
        lemma_without_address_membership(rest, a, x);
        assert(s.contains(x) <==> (rest.contains(x) || s.last() == x)) by {
            if s.contains(x) {
                let i = choose|i: int| 0 <= i < s.len() && s[i] == x;
                if i < s.len() - 1 {
                    assert(rest[i] == x);
                }
            }
            if rest.contains(x) {
                let i = choose|i: int| 0 <= i < rest.len() && rest[i] == x;
                assert(s[i] == x);
            }
        }
        let out = without_address(s, a);
        let rout = without_address(rest, a);
        if s.last() != a {
            assert(out.contains(x) <==> (rout.contains(x) || s.last() == x)) by {
                assert(out == rout.push(s.last()));
                if out.contains(x) {
                    let i = choose|i: int| 0 <= i < out.len() && out[i] == x;
                    if i < out.len() - 1 {
                        assert(rout[i] == x);
                        assert(rout.contains(x));
                    } else {
                        assert(x == s.last());
                    }
                }
                if rout.contains(x) {
                    let i = choose|i: int| 0 <= i < rout.len() && rout[i] == x;
                    assert(out[i] == x);
                    assert(out.contains(x));
                } else if s.last() == x {
                    assert(out[out.len() - 1] == x);
                    assert(out.contains(x));
                }
            }
        }
    }
}

/// [`without_address`] keeps a duplicate-free list duplicate-free.
pub proof fn lemma_without_address_no_duplicates(s: Seq<Seq<u8>>, a: Seq<u8>)
    requires
        s.no_duplicates(),
    ensures
        without_address(s, a).no_duplicates(),
    decreases s.len(),
{
    if s.len() != 0 {
        let rest = s.drop_last();
        assert(rest.no_duplicates());
        lemma_without_address_no_duplicates(rest, a);
        if s.last() != a {
            if without_address(rest, a).contains(s.last()) {
                lemma_without_address_membership(rest, a, s.last());
                let i = choose|i: int| 0 <= i < rest.len() && rest[i] == s.last();
                assert(s[i] == s[s.len() - 1]);
                assert(false);
            }
            lemma_push_no_duplicates(without_address(rest, a), s.last());
        }
    }
}

/// Adding a marker preserves the registry invariant.
pub proof fn lemma_add_marker_consistent(
    m: RegistryMap,
    description: MarkerDescriptionView,
    position: Position,
    author: Seq<u8>,
    now: i64,
)
    requires
        consistent(m),
        spec_add_marker(m, description, position, author, now) is Ok,
    ensures
        consistent(spec_add_marker(m, description, position, author, now)->Ok_0),
{
    let a = entry_address_bytes(position);
    let tl = spec_owning_tile(position);
    let tk = tile_address_bytes(tl);
    let ak = author_address_bytes(author);
    let t0 = tile_index_at(m, tk);
    let a0 = author_index_at(m, ak);
    let e = MarkerEntryView {
        author: author,
        description: description,
        position: position,
        created_at: now,
        updated_at: now,
        likes: 0,
    };
    let t1 = if t0.markers.contains(a) {
        t0
    } else {
        MarkerTileView {
            tile: if t0.markers.len() == 0 { tl } else { t0.tile },
            markers: t0.markers.push(a),
        }
    };
    let a1 = if a0.markers.len() == 0 {
        MarkerAuthorView { author: author, markers: a0.markers }
    } else {
        a0
    };
    let a2 = if a1.markers.contains(a) {
        a1
    } else {
        MarkerAuthorView { author: a1.author, markers: a1.markers.push(a) }
    };
    let m2 = m.insert(a, RecordView::Entry(e))
        .insert(tk, RecordView::TileIndex(t1))
        .insert(ak, RecordView::AuthorIndex(a2));
    assert(spec_add_marker(m, description, position, author, now)->Ok_0 == m2);
    lemma_entry_tile_distinct(position, tl);
    lemma_entry_author_distinct(position, author);
    lemma_tile_author_distinct(tl, author);
    if m.dom().contains(tk) {
        assert(tile_ok(m, tl));
    }
    if m.dom().contains(ak) {
        assert(author_ok(m, author));
    }
    assert(t1.markers.contains(a)) by {
        if t0.markers.contains(a) {
        } else {
            assert(t1.markers[t1.markers.len() - 1] == a);
        }
    }
    assert(a2.markers.contains(a)) by {
        if a1.markers.contains(a) {
        } else {
            assert(a2.markers[a2.markers.len() - 1] == a);
        }
    }

    assert forall|q: Position| #[trigger] m2.dom().contains(entry_address_bytes(q))
        implies entry_ok(m2, q) by {
        let aq = entry_address_bytes(q);
        let tq = spec_owning_tile(q);
        lemma_entry_tile_distinct(q, tl);
        lemma_entry_author_distinct(q, author);
        if aq == a {
            lemma_entry_address_injective(q, position);
            assert(m2[a] == RecordView::Entry(e));
        } else {
            assert(m.dom().contains(aq));
            assert(entry_ok(m, q));
            let eq = m[aq]->Entry_0;
            let tkq = tile_address_bytes(tq);
            let akq = author_address_bytes(eq.author);
            assert(m2[aq] == m[aq]);
            lemma_entry_tile_distinct(position, tq);
            lemma_tile_author_distinct(tq, author);
            lemma_entry_author_distinct(position, eq.author);
            if tkq == tk {
                assert(m.dom().contains(tk));
                assert(t0 == m[tk]->TileIndex_0);
                if !t0.markers.contains(a) {
                    let i = choose|i: int| 0 <= i < t0.markers.len() && t0.markers[i] == aq;
                    assert(t1.markers[i] == aq);
                }
                assert(m2[tkq] == RecordView::TileIndex(t1));
                assert(t1.markers.contains(aq));
            } else {
                assert(m2[tkq] == m[tkq]);
            }
            if akq == ak {
                assert(m.dom().contains(ak));
                assert(a0 == m[ak]->AuthorIndex_0);
                assert(a1.markers == a0.markers);
                if !a1.markers.contains(a) {
                    let i = choose|i: int| 0 <= i < a1.markers.len() && a1.markers[i] == aq;
                    assert(a2.markers[i] == aq);
                }
                assert(m2[akq] == RecordView::AuthorIndex(a2));
                assert(a2.markers.contains(aq));
            } else {
                assert(m2[akq] == m[akq]);
            }
        }
    }

    assert forall|t: Tile| #[trigger] m2.dom().contains(tile_address_bytes(t))
        implies tile_ok(m2, t) by {
        let kt = tile_address_bytes(t);
        lemma_entry_tile_distinct(position, t);
        lemma_tile_author_distinct(t, author);
        if kt == tk {
            lemma_tile_address_injective(t, tl);
            assert(m2[kt] == RecordView::TileIndex(t1));
            if t0.markers.contains(a) {
                assert(m.dom().contains(tk));
            } else {
                assert(t0.markers.len() < MAX_MARKERS_IN_TILE);
                if m.dom().contains(tk) {
                    assert(t0.markers.no_duplicates());
                } else {
                    assert(t0.markers =~= Seq::<Seq<u8>>::empty());
                }
                lemma_push_no_duplicates(t0.markers, a);
                if t0.markers.len() != 0 {
                    assert(m.dom().contains(tk));
                    assert(t1.tile == tl);
                }
            }
        } else {
            assert(m2[kt] == m[kt]);
            assert(m.dom().contains(kt));
            assert(tile_ok(m, t));
        }
    }

    assert forall|who: Seq<u8>| #[trigger] m2.dom().contains(author_address_bytes(who))
        implies author_ok(m2, who) by {
        let kw = author_address_bytes(who);
        lemma_entry_author_distinct(position, who);
        lemma_tile_author_distinct(tl, who);
        if kw == ak {
            crate::address::lemma_author_address_injective(who, author);
            assert(m2[kw] == RecordView::AuthorIndex(a2));
            if a0.markers.len() == 0 {
                assert(a1.author == author);
            } else {
                assert(m.dom().contains(ak));
                assert(a0.markers.no_duplicates());
                assert(a1.author == author);
            }
            if !a1.markers.contains(a) {
                if m.dom().contains(ak) {
                    assert(a1.markers.no_duplicates());
                } else {
                    assert(a1.markers =~= Seq::<Seq<u8>>::empty());
                }
                assert(a1.markers.len() < MAX_MARKERS_PER_AUTHOR);
                lemma_push_no_duplicates(a1.markers, a);
            }
        } else {
            assert(m2[kw] == m[kw]);
            assert(m.dom().contains(kw));
            assert(author_ok(m, who));
        }
    }
}

/// Updating a marker preserves the registry invariant.
pub proof fn lemma_update_marker_consistent(
    m: RegistryMap,
    new_description: MarkerDescriptionView,
    position: Position,
    author: Seq<u8>,
    now: i64,
)
    requires
        consistent(m),
        spec_update_marker(m, new_description, position, author, now) is Ok,
    ensures
        consistent(spec_update_marker(m, new_description, position, author, now)->Ok_0),
{
    let a = entry_address_bytes(position);
    let e = m[a]->Entry_0;
    let e1 = MarkerEntryView {
        author: e.author,
        description: new_description,
        position: e.position,
        created_at: e.created_at,
        updated_at: now,
        likes: e.likes,
    };
    let m2 = m.insert(a, RecordView::Entry(e1));
    assert(spec_update_marker(m, new_description, position, author, now)->Ok_0 == m2);
    assert(entry_ok(m, position));
    assert forall|q: Position| #[trigger] m2.dom().contains(entry_address_bytes(q))
        implies entry_ok(m2, q) by {
        let aq = entry_address_bytes(q);
        assert(m.dom().contains(aq));
        assert(entry_ok(m, q));
        let eq = m2[aq]->Entry_0;
        lemma_entry_tile_distinct(position, spec_owning_tile(q));
        lemma_entry_author_distinct(position, eq.author);
        if aq == a {
            lemma_entry_address_injective(q, position);
        }
    }
    assert forall|t: Tile| #[trigger] m2.dom().contains(tile_address_bytes(t))
        implies tile_ok(m2, t) by {
        lemma_entry_tile_distinct(position, t);
        assert(tile_ok(m, t));
    }
    assert forall|who: Seq<u8>| #[trigger] m2.dom().contains(author_address_bytes(who))
        implies author_ok(m2, who) by {
        lemma_entry_author_distinct(position, who);
        assert(author_ok(m, who));
    }
}

/// Liking a marker preserves the registry invariant.
pub proof fn lemma_like_marker_consistent(m: RegistryMap, k: Seq<u8>)
    requires
        consistent(m),
        spec_like_marker(m, k) is Ok,
    ensures
        consistent(spec_like_marker(m, k)->Ok_0),
{
    let e = m[k]->Entry_0;
    let e1 = MarkerEntryView {
        author: e.author,
        description: e.description,
        position: e.position,
        created_at: e.created_at,
        updated_at: e.updated_at,
        likes: (e.likes + 1) as u64,
    };
    let m2 = m.insert(k, RecordView::Entry(e1));
    assert(spec_like_marker(m, k)->Ok_0 == m2);
    assert forall|q: Position| #[trigger] m2.dom().contains(entry_address_bytes(q))
        implies entry_ok(m2, q) by {
        let aq = entry_address_bytes(q);
        assert(m.dom().contains(aq));
        assert(entry_ok(m, q));
        let tkq = tile_address_bytes(spec_owning_tile(q));
        let akq = author_address_bytes(m[aq]->Entry_0.author);
        if tkq == k {
            assert(tile_ok(m, spec_owning_tile(q)));
            assert(false);
        }
        if akq == k {
            assert(author_ok(m, m[aq]->Entry_0.author));
            assert(false);
        }
    }
    assert forall|t: Tile| #[trigger] m2.dom().contains(tile_address_bytes(t))
        implies tile_ok(m2, t) by {
        assert(m.dom().contains(tile_address_bytes(t)));
        assert(tile_ok(m, t));
        if tile_address_bytes(t) == k {
            assert(false);
        }
    }
    assert forall|who: Seq<u8>| #[trigger] m2.dom().contains(author_address_bytes(who))
        implies author_ok(m2, who) by {
        assert(m.dom().contains(author_address_bytes(who)));
        assert(author_ok(m, who));
        if author_address_bytes(who) == k {
            assert(false);
        }
    }
}

/// Deleting a marker preserves the registry invariant.
pub proof fn lemma_delete_marker_consistent(m: RegistryMap, position: Position, author: Seq<u8>)
    requires
        consistent(m),
        spec_delete_marker(m, position, author) is Ok,
    ensures
        consistent(spec_delete_marker(m, position, author)->Ok_0),
{
    let a = entry_address_bytes(position);
    let tl = spec_owning_tile(position);
    let tk = tile_address_bytes(tl);
    let ak = author_address_bytes(author);
    assert(entry_ok(m, position));
    assert(tile_ok(m, tl));
    assert(author_ok(m, author));
    lemma_entry_tile_distinct(position, tl);
    lemma_entry_author_distinct(position, author);
    lemma_tile_author_distinct(tl, author);
    let t = m[tk]->TileIndex_0;
    let mA = m.insert(tk, RecordView::TileIndex(MarkerTileView {
        tile: t.tile,
        markers: without_address(t.markers, a),
    }));
    let w = m[ak]->AuthorIndex_0;
    let mB = mA.insert(ak, RecordView::AuthorIndex(MarkerAuthorView {
        author: w.author,
        markers: without_address(w.markers, a),
    }));
    let m2 = mB.remove(a);
    assert(mA[ak] == m[ak]);
    assert(spec_delete_marker(m, position, author)->Ok_0 == m2);
    lemma_without_address_no_duplicates(t.markers, a);
    lemma_without_address_no_duplicates(w.markers, a);
    lemma_without_address_membership(t.markers, a, a);
    lemma_without_address_membership(w.markers, a, a);

    assert forall|q: Position| #[trigger] m2.dom().contains(entry_address_bytes(q))
        implies entry_ok(m2, q) by {
        let aq = entry_address_bytes(q);
        lemma_entry_tile_distinct(q, tl);
        lemma_entry_author_distinct(q, author);
        assert(aq != a);
        assert(m.dom().contains(aq));
        assert(entry_ok(m, q));
        let eq = m[aq]->Entry_0;
        let tkq = tile_address_bytes(spec_owning_tile(q));
        let akq = author_address_bytes(eq.author);
        lemma_entry_tile_distinct(position, spec_owning_tile(q));
        lemma_tile_author_distinct(spec_owning_tile(q), author);
        lemma_entry_author_distinct(position, eq.author);
        assert(m2[aq] == m[aq]);
        if tkq == tk {
            lemma_without_address_membership(t.markers, a, aq);
            assert(m2[tkq]->TileIndex_0.markers.contains(aq));
        } else {
            assert(m2[tkq] == m[tkq]);
        }
        if akq == ak {
            lemma_without_address_membership(w.markers, a, aq);
            assert(m2[akq]->AuthorIndex_0.markers.contains(aq));
        } else {
            assert(m2[akq] == m[akq]);
        }
    }

    assert forall|tt: Tile| #[trigger] m2.dom().contains(tile_address_bytes(tt))
        implies tile_ok(m2, tt) by {
        let kt = tile_address_bytes(tt);
        lemma_entry_tile_distinct(position, tt);
        lemma_tile_author_distinct(tt, author);
        if kt == tk {
            lemma_tile_address_injective(tt, tl);
            if without_address(t.markers, a).len() > 0 {
                assert(t.markers.len() > 0);
            }
        } else {
            assert(m2[kt] == m[kt]);
            assert(m.dom().contains(kt));
            assert(tile_ok(m, tt));
        }
    }

    assert forall|who: Seq<u8>| #[trigger] m2.dom().contains(author_address_bytes(who))
        implies author_ok(m2, who) by {
        let kw = author_address_bytes(who);
        lemma_entry_author_distinct(position, who);
        lemma_tile_author_distinct(tl, who);
        if kw == ak {
            crate::address::lemma_author_address_injective(who, author);
            if without_address(w.markers, a).len() > 0 {
                assert(w.markers.len() > 0);
            }
        } else {
            assert(m2[kw] == m[kw]);
            assert(m.dom().contains(kw));
            assert(author_ok(m, who));
        }
    }
}

} // verus!
