use vstd::prelude::*;
use vstd::arithmetic::div_mod::{lemma_fundamental_div_mod, lemma_div_denominator, lemma_mod_bound, lemma_div_pos_is_pos};
use crate::chunk::{Chunk, CHUNK_SIZE, CHUNK_VOLUME, in_chunk, local_index, lemma_local_index};
use crate::world::ChunkPos;

verus! {

/// Number of terrain columns in a chunk: one per local `(x, z)`.
pub const COLUMN_COUNT: usize = 1024;

/// Position of column `(x, z)` in a chunk's heightfield.
pub open spec fn column_index(x: int, z: int) -> int {
    z * 32 + x
}

/// Block of generated terrain: solid (1) where the block's world height is at
/// most the top of its column, air (0) above. `heights` holds, per column,
/// the highest world `y` that is solid.
pub open spec fn terrain_block(pos: ChunkPos, heights: Seq<i64>, x: int, y: int, z: int) -> u8 {
    if pos.y * 32 + y <= heights[column_index(x, z)] {
        1
    } else {
        0
    }
}

/// `blocks` is the terrain of chunk `pos` under heightfield `heights`.
pub open spec fn is_terrain(blocks: Seq<u8>, pos: ChunkPos, heights: Seq<i64>) -> bool {
    &&& blocks.len() == CHUNK_VOLUME
    &&& forall|x: int, y: int, z: int|
        in_chunk(x, y, z) ==> #[trigger] blocks[local_index(x, y, z)] == terrain_block(
            pos,
            heights,
            x,
            y,
            z,
        )
}

/// Every cell of the block array is addressed by some local coordinates.
pub proof fn lemma_index_decompose(i: int)
    requires
        0 <= i < CHUNK_VOLUME,
    ensures
        in_chunk(i % 32, (i / 32) % 32, i / 1024),
        local_index(i % 32, (i / 32) % 32, i / 1024) == i,
{
    lemma_fundamental_div_mod(i, 32);
    lemma_fundamental_div_mod(i / 32, 32);
    lemma_div_denominator(i, 32, 32);
    lemma_mod_bound(i, 32);
    lemma_mod_bound(i / 32, 32);
    lemma_div_pos_is_pos(i, 32);
    lemma_div_pos_is_pos(i, 1024);
    assert(i / 1024 < 32) by (nonlinear_arith)
        requires
            0 <= i < 32768,
    ;
}

/// Terrain is determined by the chunk position and heightfield alone: two
/// chunks generated from the same ones hold identical blocks.
pub proof fn lemma_terrain_deterministic(a: Seq<u8>, b: Seq<u8>, pos: ChunkPos, heights: Seq<i64>)
    requires
        is_terrain(a, pos, heights),
        is_terrain(b, pos, heights),
    ensures
        a == b,
{
    assert forall|i: int| 0 <= i < a.len() implies a[i] == b[i] by {
        lemma_index_decompose(i);
        let x = i % 32;
        let y = (i / 32) % 32;
        let z = i / 1024;
        assert(a[local_index(x, y, z)] == terrain_block(pos, heights, x, y, z));
        assert(b[local_index(x, y, z)] == terrain_block(pos, heights, x, y, z));
    }
    assert(a =~= b);
}

/// Cell `(x, y, z)` has been filled once columns before `(cx, cz)` and the
/// first `cy` blocks of column `(cx, cz)` are done; columns go by `x`, then `z`.
pub open spec fn filled_before(cx: int, cz: int, cy: int, x: int, y: int, z: int) -> bool {
    x < cx || (x == cx && z < cz) || (x == cx && z == cz && y < cy)
}

/// Fills `chunk` with the terrain of chunk `pos`: for each column `(x, z)`,
/// solid up to `heights[z * 32 + x]` in world height and air above it.
pub fn fill_terrain(chunk: &mut Chunk, pos: ChunkPos, heights: &Vec<i64>)
    requires
        old(chunk)@.len() == CHUNK_VOLUME,
        heights@.len() == COLUMN_COUNT,
    ensures
        is_terrain(final(chunk)@, pos, heights@),
{
    let mut x: usize = 0;
    while x < CHUNK_SIZE
        invariant
            x <= CHUNK_SIZE,
            chunk@.len() == CHUNK_VOLUME,
            heights@.len() == COLUMN_COUNT,
            forall|px: int, py: int, pz: int|
                in_chunk(px, py, pz) && px < x ==> #[trigger] chunk@[local_index(px, py, pz)]
                    == terrain_block(pos, heights@, px, py, pz),
        decreases CHUNK_SIZE - x,
    {
        let mut z: usize = 0;
        while z < CHUNK_SIZE
            invariant
                x < CHUNK_SIZE,
                z <= CHUNK_SIZE,
                chunk@.len() == CHUNK_VOLUME,
                heights@.len() == COLUMN_COUNT,
                forall|px: int, py: int, pz: int|
                    in_chunk(px, py, pz) && filled_before(x as int, z as int, 0, px, py, pz)
                        ==> #[trigger] chunk@[local_index(px, py, pz)] == terrain_block(
                        pos,
                        heights@,
                        px,
                        py,
                        pz,
                    ),
            decreases CHUNK_SIZE - z,
        {
            let top = heights[z * CHUNK_SIZE + x];
            let mut y: usize = 0;
            while y < CHUNK_SIZE
                invariant
                    x < CHUNK_SIZE,
                    z < CHUNK_SIZE,
                    y <= CHUNK_SIZE,
                    chunk@.len() == CHUNK_VOLUME,
                    heights@.len() == COLUMN_COUNT,
                    top == heights@[column_index(x as int, z as int)],
                    forall|px: int, py: int, pz: int|
                        in_chunk(px, py, pz) && filled_before(
                            x as int,
                            z as int,
                            y as int,
                            px,
                            py,
                            pz,
                        ) ==> #[trigger] chunk@[local_index(px, py, pz)] == terrain_block(
                            pos,
                            heights@,
                            px,
                            py,
                            pz,
                        ),
                decreases CHUNK_SIZE - y,
            {
                let world_y: i64 = pos.y as i64 * 32 + y as i64;
                let block: u8 = if world_y <= top {
                    1
                } else {
                    0
                };
                let ghost before = chunk@;
                chunk.set_block(x, y, z, block);
                proof {
                    assert forall|px: int, py: int, pz: int|
                        in_chunk(px, py, pz) && filled_before(
                            x as int,
                            z as int,
                            y + 1,
                            px,
                            py,
                            pz,
                        ) implies #[trigger] chunk@[local_index(px, py, pz)] == terrain_block(
                        pos,
                        heights@,
                        px,
                        py,
                        pz,
                    ) by {
                        lemma_local_index(px, py, pz, x as int, y as int, z as int);
                        if !(px == x && py == y && pz == z) {
                            assert(before[local_index(px, py, pz)] == terrain_block(
                                pos,
                                heights@,
                                px,
                                py,
                                pz,
                            ));
                        }
                    }
                }
                y = y + 1;
            }
            z = z + 1;
        }
        x = x + 1;
    }
}

} // verus!
