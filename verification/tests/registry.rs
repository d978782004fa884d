use zeeweg::address::{entry_address, Address};
use zeeweg::errors::ErrorCode;
use zeeweg::ops::{add_marker, delete_marker, get_author_index, get_marker, get_tile_index, like_marker, new_registry, update_marker};
use zeeweg::state::{MarkerDescription, MarkerType, Position, MAX_MARKERS_IN_TILE, MAX_MARKERS_PER_AUTHOR, TILE_RESOLUTION};

fn desc(name: &str, details: &str, marker_type: MarkerType) -> MarkerDescription {
    MarkerDescription { name: name.to_string(), details: details.to_string(), marker_type }
}

fn count_in(list: &[Address], a: &Address) -> usize {
    let mut n: usize = 0;
    for m in list {
        if m.equals(a) {
            n += 1;
        }
    }
    n
}

#[test]
fn add_then_read_returns_what_was_put_in() {
    let mut store = new_registry();
    let position = Position { lat: 43_160_889, lon: -2_934_364 };
    let author = [5u8; 32];
    let d = desc("lighthouse", "white tower on the cliff", MarkerType::Historical);
    assert_eq!(add_marker(&mut store, d.clone(), position, author, 1000), Ok(()));
    let entry = get_marker(&store, position).expect("entry must exist");
    assert_eq!(entry.description, d);
    assert_eq!(entry.position, position);
    assert_eq!(entry.author, author);
    assert_eq!(entry.created_at, 1000);
    assert_eq!(entry.updated_at, 1000);
    assert_eq!(entry.likes, 0);
}

#[test]
fn add_twice_at_same_position_fails_and_keeps_first() {
    let mut store = new_registry();
    let position = Position { lat: 1_000, lon: 2_000 };
    let first = desc("first", "original", MarkerType::Basic);
    assert_eq!(add_marker(&mut store, first.clone(), position, [1u8; 32], 10), Ok(()));
    let second = desc("second", "intruder", MarkerType::Hazard);
    assert_eq!(
        add_marker(&mut store, second, position, [2u8; 32], 20),
        Err(ErrorCode::DuplicatePosition)
    );
    let entry = get_marker(&store, position).expect("first entry must survive");
    assert_eq!(entry.description, first);
    assert_eq!(entry.author, [1u8; 32]);
    assert_eq!(entry.created_at, 10);
}

#[test]
fn added_entry_is_indexed_exactly_once() {
    let mut store = new_registry();
    let position = Position { lat: 250_000, lon: -50_000 };
    let author = [9u8; 32];
    assert_eq!(
        add_marker(&mut store, desc("a", "b", MarkerType::Beach), position, author, 7),
        Ok(())
    );
    let addr = entry_address(position);
    let tile = position.tile(TILE_RESOLUTION);
    let tile_index = get_tile_index(&store, tile).expect("tile index must exist");
    assert_eq!(count_in(&tile_index.markers, &addr), 1);
    assert_eq!(tile_index.tile, tile);
    let author_index = get_author_index(&store, &author).expect("author index must exist");
    assert_eq!(count_in(&author_index.markers, &addr), 1);
    assert_eq!(author_index.author, author);
}

#[test]
fn delete_removes_entry_and_memberships_and_readd_succeeds() {
    let mut store = new_registry();
    let position = Position { lat: -123_456, lon: 654_321 };
    let author = [3u8; 32];
    let tile = position.tile(TILE_RESOLUTION);
    assert_eq!(
        add_marker(&mut store, desc("gone", "soon", MarkerType::Park), position, author, 1),
        Ok(())
    );
    assert_eq!(delete_marker(&mut store, position, author), Ok(()));
    assert!(get_marker(&store, position).is_none());
    let addr = entry_address(position);
    // the index records persist as empty shells
    let tile_index = get_tile_index(&store, tile).expect("tile index persists");
    assert_eq!(count_in(&tile_index.markers, &addr), 0);
    assert_eq!(tile_index.markers.len(), 0);
    let author_index = get_author_index(&store, &author).expect("author index persists");
    assert_eq!(count_in(&author_index.markers, &addr), 0);
    // re-adding at the same position reuses the same records
    assert_eq!(
        add_marker(&mut store, desc("back", "again", MarkerType::Park), position, author, 2),
        Ok(())
    );
    let tile_index = get_tile_index(&store, tile).expect("tile index reused");
    assert_eq!(count_in(&tile_index.markers, &addr), 1);
    let author_index = get_author_index(&store, &author).expect("author index reused");
    assert_eq!(count_in(&author_index.markers, &addr), 1);
}

#[test]
fn update_changes_description_and_updated_at_only() {
    let mut store = new_registry();
    let position = Position { lat: 77, lon: -77 };
    let author = [8u8; 32];
    let tile = position.tile(TILE_RESOLUTION);
    assert_eq!(
        add_marker(&mut store, desc("old", "old details", MarkerType::Restaurant), position, author, 100),
        Ok(())
    );
    let addr = entry_address(position);
    like_marker(&mut store, &addr).unwrap();
    let before_tile_len = get_tile_index(&store, tile).unwrap().markers.len();
    let new_d = desc("new", "fresh and much longer details", MarkerType::MountainPeak);
    assert_eq!(update_marker(&mut store, new_d.clone(), position, author, 200), Ok(()));
    let entry = get_marker(&store, position).unwrap();
    assert_eq!(entry.description, new_d);
    assert_eq!(entry.updated_at, 200);
    assert_eq!(entry.created_at, 100);
    assert_eq!(entry.position, position);
    assert_eq!(entry.likes, 1);
    assert_eq!(entry.author, author);
    // memberships untouched
    let tile_index = get_tile_index(&store, tile).unwrap();
    assert_eq!(tile_index.markers.len(), before_tile_len);
    assert_eq!(count_in(&tile_index.markers, &addr), 1);
    assert_eq!(count_in(&get_author_index(&store, &author).unwrap().markers, &addr), 1);
}

#[test]
fn like_n_times_yields_n_likes() {
    let mut store = new_registry();
    let position = Position { lat: 4, lon: 2 };
    assert_eq!(
        add_marker(&mut store, desc("likeable", "", MarkerType::Basic), position, [1u8; 32], 5),
        Ok(())
    );
    let addr = entry_address(position);
    for _ in 0..5 {
        assert_eq!(like_marker(&mut store, &addr), Ok(()));
    }
    assert_eq!(get_marker(&store, position).unwrap().likes, 5);
}

#[test]
fn update_and_delete_require_the_author() {
    let mut store = new_registry();
    let position = Position { lat: 10, lon: 20 };
    let owner = [1u8; 32];
    let stranger = [2u8; 32];
    assert_eq!(
        add_marker(&mut store, desc("mine", "", MarkerType::Basic), position, owner, 1),
        Ok(())
    );
    assert_eq!(
        update_marker(&mut store, desc("theirs", "", MarkerType::Basic), position, stranger, 2),
        Err(ErrorCode::Unauthorized)
    );
    assert_eq!(delete_marker(&mut store, position, stranger), Err(ErrorCode::Unauthorized));
    // the entry is untouched
    let entry = get_marker(&store, position).unwrap();
    assert_eq!(entry.description.name, "mine");
    assert_eq!(entry.updated_at, 1);
}

#[test]
fn missing_entries_are_not_found() {
    let mut store = new_registry();
    let position = Position { lat: 1, lon: 1 };
    assert_eq!(
        update_marker(&mut store, desc("x", "", MarkerType::Basic), position, [0u8; 32], 1),
        Err(ErrorCode::NotFound)
    );
    assert_eq!(delete_marker(&mut store, position, [0u8; 32]), Err(ErrorCode::NotFound));
    let addr = entry_address(position);
    assert_eq!(like_marker(&mut store, &addr), Err(ErrorCode::NotFound));
    assert!(get_marker(&store, position).is_none());
}

#[test]
fn tile_index_capacity_is_enforced() {
    let mut store = new_registry();
    // distinct positions inside one tile, each by a distinct author
    for i in 0..MAX_MARKERS_IN_TILE {
        let position = Position { lat: i as i32, lon: 0 };
        let mut author = [0u8; 32];
        author[0] = (i % 256) as u8;
        author[1] = (i / 256) as u8;
        assert_eq!(
            add_marker(&mut store, desc("m", "", MarkerType::Basic), position, author, 1),
            Ok(())
        );
    }
    let position = Position { lat: MAX_MARKERS_IN_TILE as i32, lon: 0 };
    assert_eq!(
        add_marker(&mut store, desc("m", "", MarkerType::Basic), position, [255u8; 32], 1),
        Err(ErrorCode::CapacityExceeded)
    );
    // nothing was committed for the failed add
    assert!(get_marker(&store, position).is_none());
    let tile = Position { lat: 0, lon: 0 }.tile(TILE_RESOLUTION);
    assert_eq!(get_tile_index(&store, tile).unwrap().markers.len(), MAX_MARKERS_IN_TILE);
}

#[test]
fn author_index_capacity_is_enforced() {
    let mut store = new_registry();
    let author = [4u8; 32];
    // distinct tiles, one author
    for i in 0..MAX_MARKERS_PER_AUTHOR {
        let position = Position { lat: (i as i32) * TILE_RESOLUTION, lon: 0 };
        assert_eq!(
            add_marker(&mut store, desc("m", "", MarkerType::Basic), position, author, 1),
            Ok(())
        );
    }
    let position = Position { lat: (MAX_MARKERS_PER_AUTHOR as i32) * TILE_RESOLUTION, lon: 0 };
    assert_eq!(
        add_marker(&mut store, desc("m", "", MarkerType::Basic), position, author, 1),
        Err(ErrorCode::CapacityExceeded)
    );
    assert!(get_marker(&store, position).is_none());
    assert_eq!(
        get_author_index(&store, &author).unwrap().markers.len(),
        MAX_MARKERS_PER_AUTHOR
    );
}

#[test]
fn distinct_positions_in_one_tile_share_the_tile_index() {
    let mut store = new_registry();
    let author = [6u8; 32];
    let p1 = Position { lat: 10, lon: 10 };
    let p2 = Position { lat: 20, lon: 20 };
    add_marker(&mut store, desc("a", "", MarkerType::Basic), p1, author, 1).unwrap();
    add_marker(&mut store, desc("b", "", MarkerType::Basic), p2, author, 2).unwrap();
    let tile = p1.tile(TILE_RESOLUTION);
    assert_eq!(p2.tile(TILE_RESOLUTION), tile);
    let tile_index = get_tile_index(&store, tile).unwrap();
    assert_eq!(tile_index.markers.len(), 2);
    assert_eq!(count_in(&tile_index.markers, &entry_address(p1)), 1);
    assert_eq!(count_in(&tile_index.markers, &entry_address(p2)), 1);
    let author_index = get_author_index(&store, &author).unwrap();
    assert_eq!(author_index.markers.len(), 2);
}
