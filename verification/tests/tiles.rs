use micropolis::tile::{census_weight, get_power_consumption, is_conductor, TileType, ZoneFamily};

const ALL: [TileType; 18] = [
    TileType::Empty,
    TileType::Dirt,
    TileType::Water,
    TileType::Road,
    TileType::Residential,
    TileType::ResidentialOccupied1,
    TileType::ResidentialOccupied2,
    TileType::ResidentialOccupied3,
    TileType::Commercial,
    TileType::CommercialOccupied1,
    TileType::CommercialOccupied2,
    TileType::CommercialOccupied3,
    TileType::Industrial,
    TileType::IndustrialOccupied1,
    TileType::IndustrialOccupied2,
    TileType::IndustrialOccupied3,
    TileType::PowerLine,
    TileType::PowerPlant,
];

#[test]
fn default_tile_is_empty() {
    assert_eq!(TileType::default(), TileType::Empty);
}

#[test]
fn power_consumption_table() {
    let expected = [0, 0, 0, 0, 0, 1, 2, 3, 0, 2, 4, 6, 0, 4, 8, 12, 0, 0];
    for (tile, units) in ALL.iter().zip(expected.iter()) {
        assert_eq!(get_power_consumption(*tile), *units, "{:?}", tile);
    }
}

#[test]
fn conductors_are_plants_lines_and_buildings() {
    let expected = [
        false, false, false, false, false, true, true, true, false, true, true, true, false, true,
        true, true, true, true,
    ];
    for (tile, conducts) in ALL.iter().zip(expected.iter()) {
        assert_eq!(is_conductor(*tile), *conducts, "{:?}", tile);
    }
}

#[test]
fn census_weights() {
    assert_eq!(census_weight(TileType::ResidentialOccupied1), (8, 0));
    assert_eq!(census_weight(TileType::ResidentialOccupied2), (16, 0));
    assert_eq!(census_weight(TileType::ResidentialOccupied3), (24, 0));
    assert_eq!(census_weight(TileType::CommercialOccupied1), (0, 8));
    assert_eq!(census_weight(TileType::CommercialOccupied2), (0, 16));
    assert_eq!(census_weight(TileType::CommercialOccupied3), (0, 24));
    assert_eq!(census_weight(TileType::IndustrialOccupied1), (0, 8));
    assert_eq!(census_weight(TileType::IndustrialOccupied2), (0, 16));
    assert_eq!(census_weight(TileType::IndustrialOccupied3), (0, 24));
    assert_eq!(census_weight(TileType::Residential), (0, 0));
    assert_eq!(census_weight(TileType::Commercial), (0, 0));
    assert_eq!(census_weight(TileType::Industrial), (0, 0));
    assert_eq!(census_weight(TileType::Road), (0, 0));
    assert_eq!(census_weight(TileType::PowerPlant), (0, 0));
}

#[test]
fn decompose_and_compose_agree() {
    for tile in ALL.iter() {
        match tile.decompose() {
            Some((family, stage)) => assert_eq!(TileType::compose(family, stage), *tile),
            None => assert!(matches!(
                tile,
                TileType::Empty
                    | TileType::Dirt
                    | TileType::Water
                    | TileType::Road
                    | TileType::PowerLine
                    | TileType::PowerPlant
            )),
        }
    }
    assert_eq!(
        TileType::IndustrialOccupied2.decompose(),
        Some((ZoneFamily::Industrial, 2))
    );
    assert_eq!(TileType::Commercial.decompose(), Some((ZoneFamily::Commercial, 0)));
    assert_eq!(
        TileType::compose(ZoneFamily::Residential, 3),
        TileType::ResidentialOccupied3
    );
}
