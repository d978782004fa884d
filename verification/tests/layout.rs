use zeeweg::layout::{marker_entry_space, serialize_marker_entry, MARKER_TILE_SPACE, MARKER_AUTHOR_SPACE};
use zeeweg::state::{MarkerDescription, MarkerEntry, MarkerType, Position};

fn entry_with(name: &str, details: &str) -> MarkerEntry {
    MarkerEntry {
        author: [7u8; 32],
        description: MarkerDescription {
            name: name.to_string(),
            details: details.to_string(),
            marker_type: MarkerType::Park,
        },
        position: Position { lat: 43_160_889, lon: -2_934_364 },
        created_at: 1_700_000_000,
        updated_at: 1_700_000_001,
        likes: 3,
    }
}

#[test]
fn entry_space_is_fixed_fields_plus_string_bytes() {
    // 81 fixed bytes plus one byte per string byte.
    let e = entry_with("abc", "de");
    assert_eq!(marker_entry_space(&e.description), 86);
    let empty = entry_with("", "");
    assert_eq!(marker_entry_space(&empty.description), 81);
}

#[test]
fn entry_space_counts_utf8_bytes_not_chars() {
    // A two-byte character counts as two bytes.
    let e = entry_with("é", "");
    assert_eq!(marker_entry_space(&e.description), 83);
}

#[test]
fn serializer_writes_exactly_the_computed_size() {
    for (name, details) in [("", ""), ("abc", "de"), ("é", "über"), ("a name", "details text")] {
        let e = entry_with(name, details);
        let bytes = serialize_marker_entry(&e);
        assert_eq!(bytes.len(), marker_entry_space(&e.description));
    }
}

#[test]
fn serialized_entry_layout() {
    let e = entry_with("ab", "c");
    let bytes = serialize_marker_entry(&e);
    // discriminator: first eight bytes of "marker_entry"
    assert_eq!(&bytes[0..8], b"marker_e");
    // author
    assert_eq!(&bytes[8..40], &[7u8; 32]);
    // name: 4-byte little-endian length prefix, then the bytes
    assert_eq!(&bytes[40..44], &[2, 0, 0, 0]);
    assert_eq!(&bytes[44..46], b"ab");
    // details
    assert_eq!(&bytes[46..50], &[1, 0, 0, 0]);
    assert_eq!(&bytes[50..51], b"c");
    // marker type tag: Park is second in declaration order
    assert_eq!(bytes[51], 1);
    // position, little endian
    assert_eq!(&bytes[52..56], &43_160_889i32.to_le_bytes());
    assert_eq!(&bytes[56..60], &(-2_934_364i32).to_le_bytes());
    // timestamps and likes
    assert_eq!(&bytes[60..68], &1_700_000_000i64.to_le_bytes());
    assert_eq!(&bytes[68..76], &1_700_000_001i64.to_le_bytes());
    assert_eq!(&bytes[76..84], &3u64.to_le_bytes());
    assert_eq!(bytes.len(), 84);
}

#[test]
fn index_record_sizes_are_closed_form() {
    // discriminator + fixed fields + 4-byte length prefix + capacity * address width
    assert_eq!(MARKER_TILE_SPACE, 8 + 8 + 4 + 319 * 20);
    assert_eq!(MARKER_AUTHOR_SPACE, 8 + 32 + 4 + 310 * 20);
}
