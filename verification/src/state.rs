//! Core data types of the registry: coordinates, tiles, marker records,
//! and the two index records, together with their mathematical views.

use vstd::prelude::*;
use vstd::arithmetic::div_mod::{lemma_fundamental_div_mod, lemma_mod_division_less_than_divisor};
use crate::address::Address;

verus! {

/// Maximum number of marker addresses a single tile index can hold.
pub const MAX_MARKERS_IN_TILE: usize = 319;

/// Maximum number of marker addresses a single author index can hold.
pub const MAX_MARKERS_PER_AUTHOR: usize = 310;

/// Size of a tile in microdegrees (degrees * 1e6). Each tile covers
/// 0.1 degrees by 0.1 degrees of geodetic space.
pub const TILE_RESOLUTION: i32 = 100_000;

/// An author identity: a 32-byte public key.
pub type Pubkey = [u8; 32];

/// A geographical point in the WGS84 coordinate system, with latitude
/// and longitude in microdegrees (degrees * 1e6). Immutable once a
/// marker entry is created at it.
#[derive(Clone, Copy, Debug, PartialEq, Eq, Structural)]
pub struct Position {
    pub lat: i32,
    pub lon: i32,
}

/// A fixed-size square region of the map, keyed by integer cell
/// coordinates. A position's tile is obtained by floor-dividing each
/// coordinate by the resolution, so that negative coordinates map
/// consistently (toward negative infinity, not toward zero).
#[derive(Clone, Copy, Debug, PartialEq, Eq, Structural)]
pub struct Tile {
    pub x: i32,
    pub y: i32,
}

/// The category of a marker.
#[derive(Clone, Copy, Debug, PartialEq, Eq, Structural)]
pub enum MarkerType {
    Basic,
    Park,
    Beach,
    MountainPeak,
    Historical,
    Restaurant,
    Hazard,
}

/// Metadata about a marker: its name, free-form details, and category.
/// The two strings are arbitrary-length text.
#[derive(Clone, Debug, PartialEq, Eq)]
pub struct MarkerDescription {
    pub name: String,
    pub details: String,
    pub marker_type: MarkerType,
}

/// Mathematical view of a [`MarkerDescription`].
pub struct MarkerDescriptionView {
    pub name: Seq<char>,
    pub details: Seq<char>,
    pub marker_type: MarkerType,
}

impl View for MarkerDescription {
    type V = MarkerDescriptionView;

    open spec fn view(&self) -> MarkerDescriptionView {
        MarkerDescriptionView {
            name: self.name@,
            details: self.details@,
            marker_type: self.marker_type,
        }
    }
}

/// One marker record: its author, metadata, fixed position, the two
/// timestamps, and a like counter.
#[derive(Clone, Debug, PartialEq, Eq)]
pub struct MarkerEntry {
    pub author: Pubkey,
    pub description: MarkerDescription,
    pub position: Position,
    pub created_at: i64,
    pub updated_at: i64,
    pub likes: u64,
}

/// Mathematical view of a [`MarkerEntry`].
pub struct MarkerEntryView {
    pub author: Seq<u8>,
    pub description: MarkerDescriptionView,
    pub position: Position,
    pub created_at: i64,
    pub updated_at: i64,
    pub likes: u64,
}

impl View for MarkerEntry {
    type V = MarkerEntryView;

    open spec fn view(&self) -> MarkerEntryView {
        MarkerEntryView {
            author: self.author@,
            description: self.description@,
            position: self.position,
            created_at: self.created_at,
            updated_at: self.updated_at,
            likes: self.likes,
        }
    }
}

/// The tile index record: the addresses of the marker entries inside
/// one tile. Created lazily on the first add into the tile and never
/// destroyed, even once its list empties again; the `tile` field is set
/// when the list first becomes non-empty and is never recomputed.
pub struct MarkerTile {
    pub tile: Tile,
    pub markers: Vec<Address>,
}

/// Mathematical view of a [`MarkerTile`].
pub struct MarkerTileView {
    pub tile: Tile,
    pub markers: Seq<Seq<u8>>,
}

impl View for MarkerTile {
    type V = MarkerTileView;

    open spec fn view(&self) -> MarkerTileView {
        MarkerTileView {
            tile: self.tile,
            markers: self.markers@.map_values(|a: Address| a@),
        }
    }
}

/// The author index record: the addresses of the marker entries one
/// author placed. Created lazily on the author's first add and never
/// destroyed; the `author` field is bound when the list first becomes
/// non-empty.
pub struct MarkerAuthor {
    pub author: Pubkey,
    pub markers: Vec<Address>,
}

/// Mathematical view of a [`MarkerAuthor`].
pub struct MarkerAuthorView {
    pub author: Seq<u8>,
    pub markers: Seq<Seq<u8>>,
}

impl View for MarkerAuthor {
    type V = MarkerAuthorView;

    open spec fn view(&self) -> MarkerAuthorView {
        MarkerAuthorView {
            author: self.author@,
            markers: self.markers@.map_values(|a: Address| a@),
        }
    }
}

/// The tile owning a position at the registry's tile size: each cell
/// coordinate is the floor quotient of the matching coordinate by
/// [`TILE_RESOLUTION`].
pub open spec fn spec_owning_tile(p: Position) -> Tile {
    Tile {
        x: (p.lat as int / (TILE_RESOLUTION as int)) as i32,
        y: (p.lon as int / (TILE_RESOLUTION as int)) as i32,
    }
}

impl Position {
    /// The tile owning this position, for the given tile size.
    ///
    /// Both cell coordinates are floor divisions: in the view, `/` on
    /// `int` with a positive divisor rounds toward negative infinity,
    /// so for example latitude -2_934_364 at resolution 100_000 lands
    /// in cell -30, not -29.
    pub fn tile(&self, resolution: i32) -> (t: Tile)
        requires
            resolution > 0,
        ensures
            t.x as int == self.lat as int / resolution as int,
            t.y as int == self.lon as int / resolution as int,
    {
        proof {
            lemma_div_euclid_in_range(self.lat as int, resolution as int);
            lemma_div_euclid_in_range(self.lon as int, resolution as int);
        }
        let x: i32 = match self.lat.checked_div_euclid(resolution) {
            Some(q) => q,
            None => 0,
        };
        let y: i32 = match self.lon.checked_div_euclid(resolution) {
            Some(q) => q,
            None => 0,
        };
        Tile { x, y }
    }
}

/// The floor quotient of an `i32` value by a positive `i32` divisor is
/// itself in `i32` range.
proof fn lemma_div_euclid_in_range(x: int, d: int)
    requires
        i32::MIN <= x <= i32::MAX,
        0 < d <= i32::MAX,
    ensures
        i32::MIN <= x / d <= i32::MAX,
{
    let q = x / d;
    let r = x % d;
    lemma_fundamental_div_mod(x, d);
    lemma_mod_division_less_than_divisor(x, d);
    assert(x == q * d + r);
    assert(0 <= r < d);
    if x >= 0 {
        assert(q * d >= 0 ==> q >= 0) by (nonlinear_arith)
            requires d > 0;
        assert(q <= q * d) by (nonlinear_arith)
            requires q >= 0 && d >= 1;
    } else {
        assert(q * d < 0 ==> q < 0) by (nonlinear_arith)
            requires d > 0;
        assert(q < 0);
        assert(q - q * d >= d - 1) by (nonlinear_arith)
            requires q <= -1 && d >= 1;
        assert(q >= q * d + r);
    }
}

} // verus!
