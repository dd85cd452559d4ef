//! The layered tile grid.
//!
//! A [`GameMap`] is a rectangle of `width` by `height` cells. Each layer of
//! it is a dense row-major array of tiles: the cell `(x, z)` sits at index
//! `z * width + x`. The layers are kept in a hash table keyed by the layer's
//! number; every layer present has exactly `width * height` tiles.

use crate::tile::TileType;
use vstd::prelude::*;

verus! {

/// Number of the layer that holds terrain, roads, zones and plants.
pub const SURFACE: i32 = 0;

/// Number of the layer below the surface. Nothing is built there so far.
pub const UNDERGROUND: i32 = -1;

/// Number of the layer above the surface, where power lines run.
pub const AIR: i32 = 1;

/// The most cells a map may have. A map covered in power plants then still
/// has a supply that fits an `i32`, and its census fits a `u32`.
pub const MAX_TILES: usize = 4_294_967;

/// The value that stands for 1.0 in a water threshold and in a terrain sample.
pub const THRESHOLD_UNIT: u32 = 1_000_000;

/// The hash table of layers, keyed by layer number. It is
/// `bevy::utils::HashMap<i32, Vec<TileType>>`, whose type has an allocator
/// parameter that cannot be named from outside its crate, so it is held here
/// in a field that the verifier does not look into. What it holds is
/// [`layer_contents`].
#[verifier::external_body]
pub struct LayerTable {
    inner: bevy::utils::HashMap<i32, Vec<TileType>>,
}

/// The layers that a table holds, each as the sequence of its tiles.
pub uninterp spec fn layer_contents(table: LayerTable) -> Map<i32, Seq<TileType>>;

impl View for LayerTable {
    type V = Map<i32, Seq<TileType>>;

    open spec fn view(&self) -> Map<i32, Seq<TileType>> {
        layer_contents(*self)
    }
}

/// `hashbrown::HashMap::new`, through bevy's alias: a table with no layer.
#[verifier::external_body]
fn table_new() -> (fresh: LayerTable)
    ensures
        layer_contents(fresh) =~= Map::empty(),
{
    LayerTable { inner: bevy::utils::HashMap::new() }
}

/// `hashbrown::HashMap::insert`: afterwards the table maps `layer` to
/// `tiles` and is otherwise as before. Returns the tiles that `layer` had
/// before, if it had any.
#[verifier::external_body]
fn table_insert(table: &mut LayerTable, layer: i32, tiles: Vec<TileType>) -> (previous: Option<
    Vec<TileType>,
>)
    ensures
        layer_contents(*final(table)) == layer_contents(*old(table)).insert(layer, tiles@),
        match previous {
            Some(v) => layer_contents(*old(table)).contains_key(layer) && v@ == layer_contents(
                *old(table),
            )[layer],
            None => !layer_contents(*old(table)).contains_key(layer),
        },
{
    table.inner.insert(layer, tiles)
}

/// `hashbrown::HashMap::get`: the tiles of `layer`, or `None` where the
/// table has no such layer.
#[verifier::external_body]
fn table_get(table: &LayerTable, layer: i32) -> (found: Option<&Vec<TileType>>)
    ensures
        match found {
            Some(v) => layer_contents(*table).contains_key(layer) && v@ == layer_contents(
                *table,
            )[layer],
            None => !layer_contents(*table).contains_key(layer),
        },
{
    table.inner.get(&layer)
}

/// `hashbrown::HashMap::remove`: takes `layer` out of the table and returns
/// its tiles, or returns `None` and leaves the table as it was where it has
/// no such layer.
#[verifier::external_body]
fn table_remove(table: &mut LayerTable, layer: i32) -> (taken: Option<Vec<TileType>>)
    ensures
        layer_contents(*final(table)) == layer_contents(*old(table)).remove(layer),
        match taken {
            Some(v) => layer_contents(*old(table)).contains_key(layer) && v@ == layer_contents(
                *old(table),
            )[layer],
            None => !layer_contents(*old(table)).contains_key(layer),
        },
{
    table.inner.remove(&layer)
}

/// Why a map could not be generated.
#[derive(Debug, Clone, Copy, PartialEq, Eq, Structural)]
pub enum MapError {
    /// The width or the height is zero.
    ZeroDimension,
    /// The map would have more than [`MAX_TILES`] cells.
    TooLarge,
    /// The water threshold is above [`THRESHOLD_UNIT`].
    ThresholdOutOfRange,
    /// There is not exactly one terrain sample for each cell.
    SampleCountMismatch,
}

impl MapError {
    /// A sentence that says what was wrong.
    pub fn describe(&self) -> (text: String)
        ensures
            text@ == MapError::description(*self),
    {
        match self {
            MapError::ZeroDimension => {
                proof {
                    reveal_strlit("map width and height must be positive");
                }
                "map width and height must be positive".to_string()
            },
            MapError::TooLarge => {
                proof {
                    reveal_strlit("map has too many tiles");
                }
                "map has too many tiles".to_string()
            },
            MapError::ThresholdOutOfRange => {
                proof {
                    reveal_strlit("water threshold must lie between 0 and 1");
                }
                "water threshold must lie between 0 and 1".to_string()
            },
            MapError::SampleCountMismatch => {
                proof {
                    reveal_strlit("terrain needs one sample for each tile");
                }
                "terrain needs one sample for each tile".to_string()
            },
        }
    }

    pub open spec fn description(e: MapError) -> Seq<char> {
        match e {
            MapError::ZeroDimension => "map width and height must be positive"@,
            MapError::TooLarge => "map has too many tiles"@,
            MapError::ThresholdOutOfRange => "water threshold must lie between 0 and 1"@,
            MapError::SampleCountMismatch => "terrain needs one sample for each tile"@,
        }
    }
}

/// The world: a rectangle of cells in several layers.
pub struct GameMap {
    width: u32,
    height: u32,
    layers: LayerTable,
}

/// The surface that terrain samples give: water where the sample is below
/// the threshold, bare ground elsewhere.
pub open spec fn terrain(samples: Seq<u32>, water_threshold: u32) -> Seq<TileType> {
    Seq::new(
        samples.len(),
        |i: int|
            if samples[i] < water_threshold {
                TileType::Water
            } else {
                TileType::Dirt
            },
    )
}

/// A layer of `n` cells that all hold `tile`.
pub open spec fn uniform(tile: TileType, n: nat) -> Seq<TileType> {
    Seq::new(n, |i: int| tile)
}

/// The first reason, if any, for which a map cannot be generated from these
/// settings.
pub open spec fn generation_error(
    width: u32,
    height: u32,
    water_threshold: u32,
    samples: Seq<u32>,
) -> Option<MapError> {
    if width == 0 || height == 0 {
        Some(MapError::ZeroDimension)
    } else if width * height > MAX_TILES {
        Some(MapError::TooLarge)
    } else if water_threshold > THRESHOLD_UNIT {
        Some(MapError::ThresholdOutOfRange)
    } else if samples.len() != width * height {
        Some(MapError::SampleCountMismatch)
    } else {
        None
    }
}

/// A cell index stays inside the area.
pub proof fn lemma_index_in_area(width: int, height: int, x: int, z: int)
    requires
        0 <= x < width,
        0 <= z < height,
    ensures
        0 <= z * width + x < width * height,
        0 <= z * width <= width * height,
{
    assert(0 <= z * width) by (nonlinear_arith)
        requires
            0 <= z,
            0 <= width,
    ;
    assert((z + 1) * width <= height * width) by (nonlinear_arith)
        requires
            z + 1 <= height,
            0 <= width,
    ;
    assert((z + 1) * width == z * width + width) by (nonlinear_arith);
    assert(height * width == width * height) by (nonlinear_arith);
}

/// Row and column of a cell index.
pub proof fn lemma_index_split(width: int, height: int, i: int)
    requires
        0 < width,
        0 <= i < width * height,
    ensures
        0 <= i % width < width,
        0 <= i / width < height,
        (i / width) * width + i % width == i,
{
    assert(i == width * (i / width) + i % width && 0 <= i % width < width) by (nonlinear_arith)
        requires
            0 < width,
    ;
    assert(0 <= i / width) by (nonlinear_arith)
        requires
            0 < width,
            0 <= i,
    ;
    assert(i / width < height) by (nonlinear_arith)
        requires
            0 < width,
            i < width * height,
            i == width * (i / width) + i % width,
            0 <= i % width,
    ;
    assert((i / width) * width == width * (i / width)) by (nonlinear_arith);
}

/// Two cells with the same index are the same cell.
pub proof fn lemma_index_unique(width: int, x1: int, z1: int, x2: int, z2: int)
    requires
        0 <= x1 < width,
        0 <= x2 < width,
        z1 * width + x1 == z2 * width + x2,
    ensures
        x1 == x2,
        z1 == z2,
{
    assert(z1 == z2) by (nonlinear_arith)
        requires
            0 <= x1 < width,
            0 <= x2 < width,
            z1 * width + x1 == z2 * width + x2,
    ;
}

fn filled(tile: TileType, n: usize) -> (v: Vec<TileType>)
    ensures
        v@ == uniform(tile, n as nat),
{
    let mut v: Vec<TileType> = Vec::with_capacity(n);
    let mut i: usize = 0;
    while i < n
        invariant
            i <= n,
            v@.len() == i,
            forall|k: int| 0 <= k < i ==> v@[k] == tile,
        decreases n - i,
    {
        v.push(tile);
        i = i + 1;
    }
    assert(v@ =~= uniform(tile, n as nat));
    v
}

impl GameMap {
    /// Number of columns.
    pub closed spec fn spec_width(&self) -> int {
        self.width as int
    }

    /// Number of rows.
    pub closed spec fn spec_height(&self) -> int {
        self.height as int
    }

    /// The layers, each as the row-major sequence of its tiles.
    pub closed spec fn grids(&self) -> Map<i32, Seq<TileType>> {
        self.layers@
    }

    /// Number of cells in each layer.
    pub open spec fn area(&self) -> int {
        self.spec_width() * self.spec_height()
    }

    /// The invariant of a map: both dimensions are positive, the area is at
    /// most [`MAX_TILES`], and every layer has one tile for each cell.
    pub open spec fn wf(&self) -> bool {
        &&& 0 < self.spec_width() <= u32::MAX
        &&& 0 < self.spec_height() <= u32::MAX
        &&& self.area() <= MAX_TILES
        &&& forall|layer: i32| #[trigger]
            self.grids().contains_key(layer) ==> self.grids()[layer].len() == self.area()
    }

    /// Neither side of a map is longer than its area.
    pub proof fn lemma_sides_fit(&self)
        requires
            self.wf(),
        ensures
            self.spec_width() <= self.area() <= MAX_TILES,
            self.spec_height() <= self.area() <= MAX_TILES,
    {
        let w = self.spec_width();
        let h = self.spec_height();
        assert(w <= w * h && h <= w * h) by (nonlinear_arith)
            requires
                0 < w,
                0 < h,
        ;
    }

    /// A tile that was written is the tile that is read: after `tile` has
    /// been written to a cell of a layer, the cell holds `tile`, and every
    /// other cell of every layer holds what it held before.
    pub proof fn lemma_write_is_local(
        &self,
        after: &GameMap,
        layer: i32,
        x: int,
        z: int,
        tile: TileType,
    )
        requires
            self.wf(),
            self.tile_at(layer, x, z).is_some(),
            after.spec_width() == self.spec_width(),
            after.spec_height() == self.spec_height(),
            after.grids() == self.grids().insert(
                layer,
                self.grids()[layer].update(self.index(x, z), tile),
            ),
        ensures
            after.wf(),
            after.tile_at(layer, x, z) == Some(tile),
            forall|l: i32, a: int, b: int|
                l != layer || a != x || b != z ==> #[trigger] after.tile_at(l, a, b)
                    == self.tile_at(l, a, b),
    {
        let w = self.spec_width();
        let h = self.spec_height();
        lemma_index_in_area(w, h, x, z);
        assert forall|l: i32, a: int, b: int| l != layer || a != x || b != z implies #[trigger]
            after.tile_at(l, a, b) == self.tile_at(l, a, b) by {
            if self.in_bounds(a, b) && l == layer {
                lemma_index_in_area(w, h, a, b);
                if self.index(a, b) == self.index(x, z) {
                    lemma_index_unique(w, a, b, x, z);
                }
            }
        }
    }

    /// Whether `(x, z)` names a cell of the map.
    pub open spec fn in_bounds(&self, x: int, z: int) -> bool {
        0 <= x < self.spec_width() && 0 <= z < self.spec_height()
    }

    /// The index of cell `(x, z)` within a layer.
    pub open spec fn index(&self, x: int, z: int) -> int {
        z * self.spec_width() + x
    }

    /// The tile at `(x, z)` in `layer`: `None` where the map has no such
    /// layer or no such cell.
    pub open spec fn tile_at(&self, layer: i32, x: int, z: int) -> Option<TileType> {
        if self.grids().contains_key(layer) && self.in_bounds(x, z) {
            Some(self.grids()[layer][self.index(x, z)])
        } else {
            None
        }
    }

    /// The tile at `(x, z)` in `layer`, with [`TileType::Empty`] standing
    /// for a missing layer or cell.
    pub open spec fn tile_or_empty(&self, layer: i32, x: int, z: int) -> TileType {
        match self.tile_at(layer, x, z) {
            Some(t) => t,
            None => TileType::Empty,
        }
    }

    /// Generates a map from terrain samples, one for each cell in row-major
    /// order. The threshold and the samples are fractions of
    /// [`THRESHOLD_UNIT`]. A cell whose sample is below the threshold is
    /// water; the others are bare ground. The underground and the air start
    /// empty.
    pub fn new(width: u32, height: u32, water_threshold: u32, samples: &Vec<u32>) -> (r: Result<
        GameMap,
        MapError,
    >)
        ensures
            match r {
                Ok(m) => {
                    &&& generation_error(width, height, water_threshold, samples@).is_none()
                    &&& m.wf()
                    &&& m.spec_width() == width
                    &&& m.spec_height() == height
                    &&& m.grids().dom() =~= set![SURFACE, UNDERGROUND, AIR]
                    &&& m.grids()[SURFACE] == terrain(samples@, water_threshold)
                    &&& m.grids()[UNDERGROUND] == uniform(TileType::Empty, samples@.len())
                    &&& m.grids()[AIR] == uniform(TileType::Empty, samples@.len())
                },
                Err(e) => generation_error(width, height, water_threshold, samples@) == Some(e),
            },
    {
        if width == 0 || height == 0 {
            return Err(MapError::ZeroDimension);
        }
        assert(width * height <= 0xFFFF_FFFF * 0xFFFF_FFFF) by (nonlinear_arith)
            requires
                0 <= width <= 0xFFFF_FFFF,
                0 <= height <= 0xFFFF_FFFF,
        ;
        let cells: u64 = (width as u64) * (height as u64);
        if cells > MAX_TILES as u64 {
            return Err(MapError::TooLarge);
        }
        if water_threshold > THRESHOLD_UNIT {
            return Err(MapError::ThresholdOutOfRange);
        }
        let area: usize = cells as usize;
        if samples.len() != area {
            return Err(MapError::SampleCountMismatch);
        }
        let mut surface: Vec<TileType> = Vec::with_capacity(area);
        let mut i: usize = 0;
        while i < area
            invariant
                i <= area,
                area == samples@.len(),
                surface@.len() == i,
                forall|k: int|
                    0 <= k < i ==> surface@[k] == terrain(samples@, water_threshold)[k],
            decreases area - i,
        {
            if samples[i] < water_threshold {
                surface.push(TileType::Water);
            } else {
                surface.push(TileType::Dirt);
            }
            i = i + 1;
        }
        assert(surface@ =~= terrain(samples@, water_threshold));
        let mut layers = table_new();
        let _ = table_insert(&mut layers, SURFACE, surface);
        let _ = table_insert(&mut layers, UNDERGROUND, filled(TileType::Empty, area));
        let _ = table_insert(&mut layers, AIR, filled(TileType::Empty, area));
        Ok(GameMap { width, height, layers })
    }

    /// Number of columns.
    pub fn width(&self) -> (w: u32)
        ensures
            w == self.spec_width(),
    {
        self.width
    }

    /// Number of rows.
    pub fn height(&self) -> (h: u32)
        ensures
            h == self.spec_height(),
    {
        self.height
    }

    /// The tiles of a layer in row-major order, or `None` where the map has
    /// no such layer.
    pub fn layer(&self, layer: i32) -> (r: Option<&Vec<TileType>>)
        ensures
            match r {
                Some(tiles) => self.grids().contains_key(layer) && tiles@ == self.grids()[layer],
                None => !self.grids().contains_key(layer),
            },
    {
        table_get(&self.layers, layer)
    }

    /// Whether `(x, z)` names a cell of the map.
    pub fn contains(&self, x: i32, z: i32) -> (r: bool)
        ensures
            r == self.in_bounds(x as int, z as int),
    {
        x >= 0 && z >= 0 && (x as u32) < self.width && (z as u32) < self.height
    }

    /// The index of a cell within a layer.
    pub fn index_of(&self, x: i32, z: i32) -> (i: usize)
        requires
            self.wf(),
            self.in_bounds(x as int, z as int),
        ensures
            i == self.index(x as int, z as int),
            i < self.area(),
    {
        proof {
            lemma_index_in_area(self.spec_width(), self.spec_height(), x as int, z as int);
        }
        (z as usize) * (self.width as usize) + (x as usize)
    }

    /// The tile at `(x, z)` in `layer`.
    pub fn get(&self, layer: i32, x: i32, z: i32) -> (r: Option<TileType>)
        requires
            self.wf(),
        ensures
            r == self.tile_at(layer, x as int, z as int),
    {
        if !self.contains(x, z) {
            return None;
        }
        match table_get(&self.layers, layer) {
            Some(tiles) => {
                let i = self.index_of(x, z);
                Some(tiles[i])
            },
            None => None,
        }
    }

    /// Puts `tile` at `(x, z)` in `layer` and says whether that changed the
    /// map. Nothing changes where the map has no such layer or cell, or
    /// where the cell holds `tile` already.
    pub fn set(&mut self, layer: i32, x: i32, z: i32, tile: TileType) -> (changed: bool)
        requires
            old(self).wf(),
        ensures
            final(self).wf(),
            final(self).spec_width() == old(self).spec_width(),
            final(self).spec_height() == old(self).spec_height(),
            changed == (old(self).tile_at(layer, x as int, z as int).is_some() && old(
                self,
            ).tile_at(layer, x as int, z as int) != Some(tile)),
            final(self).grids() == match old(self).tile_at(layer, x as int, z as int) {
                Some(_) => old(self).grids().insert(
                    layer,
                    old(self).grids()[layer].update(old(self).index(x as int, z as int), tile),
                ),
                None => old(self).grids(),
            },
            final(self).tile_at(layer, x as int, z as int) == match old(self).tile_at(
                layer,
                x as int,
                z as int,
            ) {
                Some(_) => Some(tile),
                None => None,
            },
            forall|l: i32, a: int, b: int|
                l != layer || a != x || b != z ==> #[trigger] final(self).tile_at(l, a, b) == old(
                    self,
                ).tile_at(l, a, b),
    {
        if !self.contains(x, z) {
            return false;
        }
        let i = self.index_of(x, z);
        let current = match table_get(&self.layers, layer) {
            Some(tiles) => tiles[i],
            None => {
                return false;
            },
        };
        if current == tile {
            assert(old(self).grids()[layer].update(i as int, tile) =~= old(self).grids()[layer]);
            assert(old(self).grids().insert(layer, old(self).grids()[layer]) =~= old(
                self,
            ).grids());
            return false;
        }
        match table_remove(&mut self.layers, layer) {
            Some(mut tiles) => {
                tiles.set(i, tile);
                let _ = table_insert(&mut self.layers, layer, tiles);
                proof {
                    assert(self.grids() =~= old(self).grids().insert(
                        layer,
                        old(self).grids()[layer].update(i as int, tile),
                    ));
                    old(self).lemma_write_is_local(self, layer, x as int, z as int, tile);
                }
            },
            None => {},
        }
        true
    }
}

impl Default for GameMap {
    /// A map of 64 by 64 cells of bare ground, with a surface and no other
    /// layer.
    fn default() -> (m: GameMap)
        ensures
            m.wf(),
            m.spec_width() == 64,
            m.spec_height() == 64,
            m.grids() =~= Map::<i32, Seq<TileType>>::empty().insert(
                SURFACE,
                uniform(TileType::Dirt, 4096),
            ),
    {
        let mut layers = table_new();
        let _ = table_insert(&mut layers, SURFACE, filled(TileType::Dirt, 4096));
        GameMap { width: 64, height: 64, layers }
    }
}

} // verus!
