//! Chunks: squares of 32 by 32 cells, the unit in which changes to the map
//! are announced.

use vstd::prelude::*;

verus! {

/// Cells along one side of a chunk.
pub const CHUNK_SIZE: i32 = 32;

/// Says that some cell of a chunk has changed.
#[derive(Debug, Clone, Copy, PartialEq, Eq, Structural)]
pub struct ChunkUpdateEvent {
    pub chunk_x: u32,
    pub chunk_z: u32,
}

/// The chunk that holds the cell `(x, z)`.
pub open spec fn chunk_containing(x: int, z: int) -> ChunkUpdateEvent {
    ChunkUpdateEvent {
        chunk_x: (x / (CHUNK_SIZE as int)) as u32,
        chunk_z: (z / (CHUNK_SIZE as int)) as u32,
    }
}

/// The chunk that holds the cell `(x, z)`.
pub fn chunk_of(x: i32, z: i32) -> (event: ChunkUpdateEvent)
    requires
        0 <= x,
        0 <= z,
    ensures
        event == chunk_containing(x as int, z as int),
{
    ChunkUpdateEvent { chunk_x: (x / CHUNK_SIZE) as u32, chunk_z: (z / CHUNK_SIZE) as u32 }
}

/// How many chunks it takes to cover `cells` cells in a row.
pub open spec fn chunks_to_cover(cells: int) -> int {
    (cells + CHUNK_SIZE - 1) / (CHUNK_SIZE as int)
}

/// How many chunks it takes to cover `cells` cells in a row.
pub fn chunks_across(cells: u32) -> (count: u32)
    ensures
        count == chunks_to_cover(cells as int),
        count * CHUNK_SIZE >= cells,
        cells > 0 ==> (count - 1) * CHUNK_SIZE < cells,
{
    let count = cells / 32 + if cells % 32 == 0 {
        0
    } else {
        1
    };
    count
}

/// The first cell of a chunk and the cell after its last, along an axis
/// that is `cells` cells long. Both are at most `cells`: a chunk at the
/// edge is cut short, and one beyond the edge is empty.
pub open spec fn chunk_span(chunk: int, cells: int) -> (int, int) {
    let first = chunk * CHUNK_SIZE;
    (
        if first < cells {
            first
        } else {
            cells
        },
        if first + CHUNK_SIZE < cells {
            first + CHUNK_SIZE
        } else {
            cells
        },
    )
}

/// The first cell of a chunk and the cell after its last, along an axis
/// that is `cells` cells long.
pub fn chunk_bounds(chunk: u32, cells: u32) -> (span: (u32, u32))
    ensures
        (span.0 as int, span.1 as int) == chunk_span(chunk as int, cells as int),
        span.0 <= span.1 <= cells,
        span.1 - span.0 <= CHUNK_SIZE,
{
    let first: u64 = chunk as u64 * 32;
    let limit: u64 = cells as u64;
    let start = if first < limit {
        first
    } else {
        limit
    };
    let end = if first + 32 < limit {
        first + 32
    } else {
        limit
    };
    (start as u32, end as u32)
}

} // verus!
