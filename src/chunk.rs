use vstd::prelude::*;

verus! {

/// Edge length of a chunk, in blocks.
pub const CHUNK_SIZE: usize = 32;

/// Number of blocks held by one chunk.
pub const CHUNK_VOLUME: usize = 32768;

/// Local coordinates lie inside one chunk.
pub open spec fn in_chunk(x: int, y: int, z: int) -> bool {
    0 <= x < CHUNK_SIZE && 0 <= y < CHUNK_SIZE && 0 <= z < CHUNK_SIZE
}

/// Position of a local coordinate in the dense block array.
pub open spec fn local_index(x: int, y: int, z: int) -> int {
    z * 1024 + y * 32 + x
}

/// Distinct local coordinates occupy distinct cells, all inside the array.
pub proof fn lemma_local_index(x1: int, y1: int, z1: int, x2: int, y2: int, z2: int)
    requires
        in_chunk(x1, y1, z1),
        in_chunk(x2, y2, z2),
    ensures
        0 <= local_index(x1, y1, z1) < CHUNK_VOLUME,
        local_index(x1, y1, z1) == local_index(x2, y2, z2) ==> (x1 == x2 && y1 == y2 && z1
            == z2),
{
    assert(0 <= local_index(x1, y1, z1) < CHUNK_VOLUME) by (nonlinear_arith)
        requires
            0 <= x1 < 32,
            0 <= y1 < 32,
            0 <= z1 < 32,
    ;
    assert(local_index(x1, y1, z1) == local_index(x2, y2, z2) ==> (x1 == x2 && y1 == y2 && z1
        == z2)) by (nonlinear_arith)
        requires
            0 <= x1 < 32,
            0 <= y1 < 32,
            0 <= z1 < 32,
            0 <= x2 < 32,
            0 <= y2 < 32,
            0 <= z2 < 32,
    ;
}

/// A cube of `CHUNK_SIZE` cubed block ids; 0 is air, anything else is solid.
#[derive(Clone, Debug)]
pub struct Chunk {
    blocks: Vec<u8>,
}

impl View for Chunk {
    type V = Seq<u8>;

    closed spec fn view(&self) -> Seq<u8> {
        self.blocks@
    }
}

impl Chunk {
    /// A chunk made entirely of air.
    pub fn new() -> (c: Chunk)
        ensures
            c@ == Seq::new(CHUNK_VOLUME as nat, |i: int| 0u8),
    {
        let blocks = vec![0u8; CHUNK_VOLUME];
        assert(blocks@ =~= Seq::new(CHUNK_VOLUME as nat, |i: int| 0u8));
        Chunk { blocks }
    }

    /// Index of local coordinates in the dense block array.
    fn block_index(x: usize, y: usize, z: usize) -> (i: usize)
        requires
            in_chunk(x as int, y as int, z as int),
        ensures
            i == local_index(x as int, y as int, z as int),
            i < CHUNK_VOLUME,
    {
        proof {
            lemma_local_index(x as int, y as int, z as int, x as int, y as int, z as int);
        }
        z * CHUNK_SIZE * CHUNK_SIZE + y * CHUNK_SIZE + x
    }

    /// The block at local coordinates.
    pub fn get_block(&self, x: usize, y: usize, z: usize) -> (b: u8)
        requires
            self@.len() == CHUNK_VOLUME,
            in_chunk(x as int, y as int, z as int),
        ensures
            b == self@[local_index(x as int, y as int, z as int)],
    {
        self.blocks[Self::block_index(x, y, z)]
    }

    /// Overwrites the block at local coordinates, leaving every other cell as it was.
    pub fn set_block(&mut self, x: usize, y: usize, z: usize, block: u8)
        requires
            old(self)@.len() == CHUNK_VOLUME,
            in_chunk(x as int, y as int, z as int),
        ensures
            final(self)@ == old(self)@.update(local_index(x as int, y as int, z as int), block),
    {
        let idx = Self::block_index(x, y, z);
        self.blocks.set(idx, block);
    }

    /// The block at local coordinates given as signed integers, or `None`
    /// where they fall outside the chunk.
    pub fn get_block_checked(&self, x: i64, y: i64, z: i64) -> (b: Option<u8>)
        requires
            self@.len() == CHUNK_VOLUME,
        ensures
            b == (if in_chunk(x as int, y as int, z as int) {
                Some(self@[local_index(x as int, y as int, z as int)])
            } else {
                None
            }),
    {
        if 0 <= x && x < 32 && 0 <= y && y < 32 && 0 <= z && z < 32 {
            Some(self.get_block(x as usize, y as usize, z as usize))
        } else {
            None
        }
    }
}

/// Writing a block and reading it back at the same local coordinates gives
/// the written block, and every other cell keeps its value.
pub proof fn lemma_set_get_round_trip(
    blocks: Seq<u8>,
    x: int,
    y: int,
    z: int,
    v: u8,
    ox: int,
    oy: int,
    oz: int,
)
    requires
        blocks.len() == CHUNK_VOLUME,
        in_chunk(x, y, z),
        in_chunk(ox, oy, oz),
    ensures
        blocks.update(local_index(x, y, z), v)[local_index(x, y, z)] == v,
        !(ox == x && oy == y && oz == z) ==> blocks.update(local_index(x, y, z), v)[local_index(
            ox,
            oy,
            oz,
        )] == blocks[local_index(ox, oy, oz)],
{
    lemma_local_index(x, y, z, ox, oy, oz);
    lemma_local_index(ox, oy, oz, x, y, z);
}

} // verus!
