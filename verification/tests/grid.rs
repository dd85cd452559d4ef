use micropolis::map::{GameMap, MapError, AIR, MAX_TILES, SURFACE, THRESHOLD_UNIT, UNDERGROUND};
use micropolis::tile::TileType;

fn blank(width: u32, height: u32) -> GameMap {
    let samples = vec![0u32; (width * height) as usize];
    match GameMap::new(width, height, 0, &samples) {
        Ok(map) => map,
        Err(e) => panic!("{}", e.describe()),
    }
}

#[test]
fn set_then_get_returns_the_tile() {
    let mut map = blank(7, 5);
    for z in 0..5 {
        for x in 0..7 {
            assert!(map.set(SURFACE, x, z, TileType::Road));
            assert_eq!(map.get(SURFACE, x, z), Some(TileType::Road));
        }
    }
    assert!(map.set(AIR, 6, 4, TileType::PowerLine));
    assert_eq!(map.get(AIR, 6, 4), Some(TileType::PowerLine));
    assert_eq!(map.get(SURFACE, 6, 4), Some(TileType::Road));
    assert_eq!(map.get(UNDERGROUND, 6, 4), Some(TileType::Empty));
}

#[test]
fn set_of_the_same_tile_reports_unchanged() {
    let mut map = blank(4, 4);
    assert!(map.set(SURFACE, 1, 2, TileType::Residential));
    assert!(!map.set(SURFACE, 1, 2, TileType::Residential));
    assert!(!map.set(SURFACE, 0, 0, TileType::Dirt));
    assert_eq!(map.get(SURFACE, 1, 2), Some(TileType::Residential));
}

#[test]
fn set_touches_no_other_cell() {
    let mut map = blank(3, 3);
    assert!(map.set(SURFACE, 1, 1, TileType::PowerPlant));
    for z in 0..3 {
        for x in 0..3 {
            let expected = if x == 1 && z == 1 { TileType::PowerPlant } else { TileType::Dirt };
            assert_eq!(map.get(SURFACE, x, z), Some(expected));
            assert_eq!(map.get(AIR, x, z), Some(TileType::Empty));
        }
    }
}

#[test]
fn cells_are_stored_row_by_row() {
    let mut map = blank(3, 2);
    assert!(map.set(SURFACE, 2, 1, TileType::Water));
    assert_eq!(map.index_of(2, 1), 5);
    assert_eq!(map.layer(SURFACE).map(|tiles| tiles[5]), Some(TileType::Water));
    assert_eq!(map.layer(SURFACE).map(|tiles| tiles.len()), Some(6));
}

#[test]
fn off_the_map_there_is_no_tile() {
    let mut map = blank(3, 2);
    assert_eq!(map.get(SURFACE, -1, 0), None);
    assert_eq!(map.get(SURFACE, 0, -1), None);
    assert_eq!(map.get(SURFACE, 3, 0), None);
    assert_eq!(map.get(SURFACE, 0, 2), None);
    assert!(!map.set(SURFACE, 3, 0, TileType::Road));
    assert!(!map.set(SURFACE, -1, 1, TileType::Road));
    assert!(!map.contains(3, 1));
    assert!(map.contains(2, 1));
}

#[test]
fn a_missing_layer_has_no_tile() {
    let mut map = GameMap::default();
    assert_eq!(map.get(AIR, 0, 0), None);
    assert_eq!(map.get(UNDERGROUND, 0, 0), None);
    assert_eq!(map.get(7, 0, 0), None);
    assert!(!map.set(AIR, 0, 0, TileType::PowerLine));
    assert!(map.layer(AIR).is_none());
}

#[test]
fn default_map_is_bare_ground() {
    let map = GameMap::default();
    assert_eq!(map.width(), 64);
    assert_eq!(map.height(), 64);
    assert_eq!(map.get(SURFACE, 0, 0), Some(TileType::Dirt));
    assert_eq!(map.get(SURFACE, 63, 63), Some(TileType::Dirt));
    assert_eq!(map.get(SURFACE, 64, 0), None);
    assert_eq!(map.layer(SURFACE).map(|tiles| tiles.len()), Some(4096));
}

#[test]
fn water_lies_where_the_sample_is_below_the_threshold() {
    let samples = vec![0, 499_999, 500_000, 500_001, 1_000_000, 250_000];
    let map = match GameMap::new(3, 2, 500_000, &samples) {
        Ok(map) => map,
        Err(e) => panic!("{}", e.describe()),
    };
    assert_eq!(map.get(SURFACE, 0, 0), Some(TileType::Water));
    assert_eq!(map.get(SURFACE, 1, 0), Some(TileType::Water));
    assert_eq!(map.get(SURFACE, 2, 0), Some(TileType::Dirt));
    assert_eq!(map.get(SURFACE, 0, 1), Some(TileType::Dirt));
    assert_eq!(map.get(SURFACE, 1, 1), Some(TileType::Dirt));
    assert_eq!(map.get(SURFACE, 2, 1), Some(TileType::Water));
    for z in 0..2 {
        for x in 0..3 {
            assert_eq!(map.get(UNDERGROUND, x, z), Some(TileType::Empty));
            assert_eq!(map.get(AIR, x, z), Some(TileType::Empty));
        }
    }
}

#[test]
fn threshold_of_one_floods_all_but_full_samples() {
    let samples = vec![999_999, 1_000_000];
    let map = GameMap::new(2, 1, THRESHOLD_UNIT, &samples).ok().unwrap();
    assert_eq!(map.get(SURFACE, 0, 0), Some(TileType::Water));
    assert_eq!(map.get(SURFACE, 1, 0), Some(TileType::Dirt));
}

#[test]
fn generation_rejects_bad_settings() {
    let none: Vec<u32> = Vec::new();
    assert_eq!(GameMap::new(0, 4, 0, &none).err(), Some(MapError::ZeroDimension));
    assert_eq!(GameMap::new(4, 0, 0, &none).err(), Some(MapError::ZeroDimension));
    assert_eq!(GameMap::new(65536, 65536, 0, &none).err(), Some(MapError::TooLarge));
    assert_eq!(GameMap::new(MAX_TILES as u32 + 1, 1, 0, &none).err(), Some(MapError::TooLarge));
    let four = vec![0u32; 4];
    assert_eq!(
        GameMap::new(2, 2, THRESHOLD_UNIT + 1, &four).err(),
        Some(MapError::ThresholdOutOfRange)
    );
    assert_eq!(GameMap::new(2, 3, 10, &four).err(), Some(MapError::SampleCountMismatch));
    assert_eq!(GameMap::new(2, 1, 10, &four).err(), Some(MapError::SampleCountMismatch));
    assert!(GameMap::new(2, 2, THRESHOLD_UNIT, &four).is_ok());
}

#[test]
fn errors_describe_themselves() {
    assert_eq!(MapError::ZeroDimension.describe(), "map width and height must be positive");
    assert_eq!(MapError::TooLarge.describe(), "map has too many tiles");
    assert_eq!(
        MapError::ThresholdOutOfRange.describe(),
        "water threshold must lie between 0 and 1"
    );
    assert_eq!(
        MapError::SampleCountMismatch.describe(),
        "terrain needs one sample for each tile"
    );
}
