//! The tile enumeration and the fixed tables keyed by it.
//!
//! A tile is a flat enumeration. The three zone families (residential,
//! commercial, industrial) each form a ladder of four stages: stage 0 is the
//! undeveloped zone, stages 1 to 3 are occupied buildings of growing size.
//! [`TileType::zone`] decomposes a tile into family and stage, and
//! [`TileType::of_zone`] composes it again.

use vstd::prelude::*;

verus! {

/// The land use or infrastructure of one grid cell.
#[derive(Debug, Clone, Copy, PartialEq, Eq, Structural)]
pub enum TileType {
    Empty,
    Dirt,
    Water,
    Road,
    Residential,
    ResidentialOccupied1,
    ResidentialOccupied2,
    ResidentialOccupied3,
    Commercial,
    CommercialOccupied1,
    CommercialOccupied2,
    CommercialOccupied3,
    Industrial,
    IndustrialOccupied1,
    IndustrialOccupied2,
    IndustrialOccupied3,
    PowerLine,
    PowerPlant,
}

/// One of the three parallel development ladders.
#[derive(Debug, Clone, Copy, PartialEq, Eq, Structural)]
pub enum ZoneFamily {
    Residential,
    Commercial,
    Industrial,
}

impl Default for TileType {
    fn default() -> (t: TileType)
        ensures
            t == TileType::Empty,
    {
        TileType::Empty
    }
}

impl TileType {
    /// Family and stage of a zone tile; `None` for every other tile.
    pub open spec fn zone(self) -> Option<(ZoneFamily, nat)> {
        match self {
            TileType::Residential => Some((ZoneFamily::Residential, 0nat)),
            TileType::ResidentialOccupied1 => Some((ZoneFamily::Residential, 1nat)),
            TileType::ResidentialOccupied2 => Some((ZoneFamily::Residential, 2nat)),
            TileType::ResidentialOccupied3 => Some((ZoneFamily::Residential, 3nat)),
            TileType::Commercial => Some((ZoneFamily::Commercial, 0nat)),
            TileType::CommercialOccupied1 => Some((ZoneFamily::Commercial, 1nat)),
            TileType::CommercialOccupied2 => Some((ZoneFamily::Commercial, 2nat)),
            TileType::CommercialOccupied3 => Some((ZoneFamily::Commercial, 3nat)),
            TileType::Industrial => Some((ZoneFamily::Industrial, 0nat)),
            TileType::IndustrialOccupied1 => Some((ZoneFamily::Industrial, 1nat)),
            TileType::IndustrialOccupied2 => Some((ZoneFamily::Industrial, 2nat)),
            TileType::IndustrialOccupied3 => Some((ZoneFamily::Industrial, 3nat)),
            _ => None,
        }
    }

    /// The tile of a family at a stage; stages above 3 count as stage 3.
    pub open spec fn of_zone(family: ZoneFamily, stage: nat) -> TileType {
        match family {
            ZoneFamily::Residential => if stage == 0 {
                TileType::Residential
            } else if stage == 1 {
                TileType::ResidentialOccupied1
            } else if stage == 2 {
                TileType::ResidentialOccupied2
            } else {
                TileType::ResidentialOccupied3
            },
            ZoneFamily::Commercial => if stage == 0 {
                TileType::Commercial
            } else if stage == 1 {
                TileType::CommercialOccupied1
            } else if stage == 2 {
                TileType::CommercialOccupied2
            } else {
                TileType::CommercialOccupied3
            },
            ZoneFamily::Industrial => if stage == 0 {
                TileType::Industrial
            } else if stage == 1 {
                TileType::IndustrialOccupied1
            } else if stage == 2 {
                TileType::IndustrialOccupied2
            } else {
                TileType::IndustrialOccupied3
            },
        }
    }

    /// An occupied building: a zone tile of stage 1, 2 or 3.
    pub open spec fn is_building(self) -> bool {
        match self.zone() {
            Some((_, stage)) => stage >= 1,
            None => false,
        }
    }

    /// Splits a tile into family and stage.
    pub fn decompose(self) -> (r: Option<(ZoneFamily, u8)>)
        ensures
            match r {
                Some((family, stage)) => self.zone() == Some((family, stage as nat)) && stage <= 3,
                None => self.zone().is_none(),
            },
    {
        match self {
            TileType::Residential => Some((ZoneFamily::Residential, 0u8)),
            TileType::ResidentialOccupied1 => Some((ZoneFamily::Residential, 1u8)),
            TileType::ResidentialOccupied2 => Some((ZoneFamily::Residential, 2u8)),
            TileType::ResidentialOccupied3 => Some((ZoneFamily::Residential, 3u8)),
            TileType::Commercial => Some((ZoneFamily::Commercial, 0u8)),
            TileType::CommercialOccupied1 => Some((ZoneFamily::Commercial, 1u8)),
            TileType::CommercialOccupied2 => Some((ZoneFamily::Commercial, 2u8)),
            TileType::CommercialOccupied3 => Some((ZoneFamily::Commercial, 3u8)),
            TileType::Industrial => Some((ZoneFamily::Industrial, 0u8)),
            TileType::IndustrialOccupied1 => Some((ZoneFamily::Industrial, 1u8)),
            TileType::IndustrialOccupied2 => Some((ZoneFamily::Industrial, 2u8)),
            TileType::IndustrialOccupied3 => Some((ZoneFamily::Industrial, 3u8)),
            _ => None,
        }
    }

    /// Builds the tile of a family at a stage.
    pub fn compose(family: ZoneFamily, stage: u8) -> (t: TileType)
        requires
            stage <= 3,
        ensures
            t == TileType::of_zone(family, stage as nat),
            t.zone() == Some((family, stage as nat)),
    {
        match family {
            ZoneFamily::Residential => if stage == 0 {
                TileType::Residential
            } else if stage == 1 {
                TileType::ResidentialOccupied1
            } else if stage == 2 {
                TileType::ResidentialOccupied2
            } else {
                TileType::ResidentialOccupied3
            },
            ZoneFamily::Commercial => if stage == 0 {
                TileType::Commercial
            } else if stage == 1 {
                TileType::CommercialOccupied1
            } else if stage == 2 {
                TileType::CommercialOccupied2
            } else {
                TileType::CommercialOccupied3
            },
            ZoneFamily::Industrial => if stage == 0 {
                TileType::Industrial
            } else if stage == 1 {
                TileType::IndustrialOccupied1
            } else if stage == 2 {
                TileType::IndustrialOccupied2
            } else {
                TileType::IndustrialOccupied3
            },
        }
    }
}

/// A tile that carries electricity onward: a plant, a line, or a building.
pub open spec fn conducts(t: TileType) -> bool {
    t == TileType::PowerPlant || t == TileType::PowerLine || t.is_building()
}

/// Units of power a tile draws: the stage for a residential building, twice
/// the stage for a commercial one, four times the stage for an industrial
/// one, and nothing for any other tile.
pub open spec fn power_consumption(t: TileType) -> int {
    match t.zone() {
        Some((ZoneFamily::Residential, stage)) => stage as int,
        Some((ZoneFamily::Commercial, stage)) => 2 * (stage as int),
        Some((ZoneFamily::Industrial, stage)) => 4 * (stage as int),
        None => 0,
    }
}

/// People (for a residential tile) or jobs (for a commercial or industrial
/// one) that a tile holds: eight per stage.
pub open spec fn occupancy(t: TileType) -> int {
    match t.zone() {
        Some((_, stage)) => 8 * (stage as int),
        None => 0,
    }
}

/// People living on a tile.
pub open spec fn residents(t: TileType) -> int {
    match t.zone() {
        Some((ZoneFamily::Residential, _)) => occupancy(t),
        _ => 0,
    }
}

/// Jobs offered on a tile.
pub open spec fn workplaces(t: TileType) -> int {
    match t.zone() {
        Some((ZoneFamily::Commercial, _)) | Some((ZoneFamily::Industrial, _)) => occupancy(t),
        _ => 0,
    }
}

pub fn is_conductor(t: TileType) -> (r: bool)
    ensures
        r == conducts(t),
{
    match t {
        TileType::PowerPlant | TileType::PowerLine => true,
        _ => match t.decompose() {
            Some((_, stage)) => stage >= 1,
            None => false,
        },
    }
}

pub fn get_power_consumption(t: TileType) -> (units: i32)
    ensures
        units == power_consumption(t),
        0 <= units <= 12,
        units > 0 <==> t.is_building(),
{
    match t.decompose() {
        Some((ZoneFamily::Residential, stage)) => {
            let s: i32 = stage as i32;
            s
        },
        Some((ZoneFamily::Commercial, stage)) => {
            let s: i32 = stage as i32;
            2 * s
        },
        Some((ZoneFamily::Industrial, stage)) => {
            let s: i32 = stage as i32;
            4 * s
        },
        None => 0,
    }
}

/// Residents and jobs of one tile, as the census counts them.
pub fn census_weight(t: TileType) -> (r: (u32, u32))
    ensures
        r.0 == residents(t),
        r.1 == workplaces(t),
        r.0 <= 24,
        r.1 <= 24,
{
    match t.decompose() {
        Some((ZoneFamily::Residential, stage)) => {
            let s: u32 = stage as u32;
            (8 * s, 0)
        },
        Some((_, stage)) => {
            let s: u32 = stage as u32;
            (0, 8 * s)
        },
        None => (0, 0),
    }
}

} // verus!
