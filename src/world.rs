use vstd::prelude::*;
use vstd::arithmetic::div_mod::lemma_fundamental_div_mod_converse;
use std::collections::HashMap;
use crate::chunk::{Chunk, CHUNK_VOLUME, local_index};
use crate::terrain::{COLUMN_COUNT, fill_terrain, is_terrain};

verus! {

broadcast use vstd::std_specs::hash::group_hash_axioms;

/// Position of a chunk, in chunk units.
#[derive(Clone, Copy, Debug, PartialEq, Eq, Hash, Structural)]
pub struct ChunkPos {
    pub x: i32,
    pub y: i32,
    pub z: i32,
}

/// The chunk holding world block coordinates `(x, y, z)`: each coordinate
/// divided by the chunk edge, rounded towards negative infinity.
pub open spec fn chunk_of(x: int, y: int, z: int) -> ChunkPos {
    ChunkPos { x: (x / 32) as i32, y: (y / 32) as i32, z: (z / 32) as i32 }
}

/// Floor division of a world coordinate by the chunk edge.
fn chunk_coord(v: i32) -> (c: i32)
    ensures
        c == v as int / 32,
{
    match v.checked_div_euclid(32) {
        Some(q) => q,
        None => 0,
    }
}

/// Non-negative remainder of a world coordinate by the chunk edge.
fn local_coord(v: i32) -> (c: usize)
    ensures
        c == v as int % 32,
        c < 32,
{
    match v.checked_rem_euclid(32) {
        Some(r) => r as usize,
        None => 0,
    }
}

impl ChunkPos {
    /// The chunk holding world block `(x, y, z)`.
    pub fn from_world(x: i32, y: i32, z: i32) -> (p: ChunkPos)
        ensures
            p == chunk_of(x as int, y as int, z as int),
            p.x == x as int / 32,
            p.y == y as int / 32,
            p.z == z as int / 32,
    {
        ChunkPos { x: chunk_coord(x), y: chunk_coord(y), z: chunk_coord(z) }
    }
}

/// Key of a chunk position in the registry's table.
pub open spec fn key_of(p: ChunkPos) -> u128 {
    ((p.x + 0x8000_0000) * 0x1_0000_0000_0000_0000 + (p.y + 0x8000_0000) * 0x1_0000_0000 + (p.z
        + 0x8000_0000)) as u128
}

proof fn lemma_key_split(p: ChunkPos)
    ensures
        key_of(p) as int == ((p.x + 0x8000_0000) * 0x1_0000_0000 + (p.y + 0x8000_0000))
            * 0x1_0000_0000 + (p.z + 0x8000_0000),
        key_of(p) as int % 0x1_0000_0000 == p.z + 0x8000_0000,
        (key_of(p) as int / 0x1_0000_0000) % 0x1_0000_0000 == p.y + 0x8000_0000,
        (key_of(p) as int / 0x1_0000_0000) / 0x1_0000_0000 == p.x + 0x8000_0000,
{
    let a = p.x + 0x8000_0000;
    let b = p.y + 0x8000_0000;
    let c = p.z + 0x8000_0000;
    assert(a * 0x1_0000_0000_0000_0000 + b * 0x1_0000_0000 + c == (a * 0x1_0000_0000 + b)
        * 0x1_0000_0000 + c) by (nonlinear_arith);
    assert(0 <= (a * 0x1_0000_0000 + b) * 0x1_0000_0000 + c < 0x1_0000_0000_0000_0000_0000_0000)
        by (nonlinear_arith)
        requires
            0 <= a < 0x1_0000_0000,
            0 <= b < 0x1_0000_0000,
            0 <= c < 0x1_0000_0000,
    ;
    let k = (a * 0x1_0000_0000 + b) * 0x1_0000_0000 + c;
    lemma_fundamental_div_mod_converse(k, 0x1_0000_0000, a * 0x1_0000_0000 + b, c);
    lemma_fundamental_div_mod_converse(a * 0x1_0000_0000 + b, 0x1_0000_0000, a, b);
}

/// Distinct chunk positions have distinct keys.
proof fn lemma_key_injective(p: ChunkPos, q: ChunkPos)
    ensures
        key_of(p) == key_of(q) ==> p == q,
{
    lemma_key_split(p);
    lemma_key_split(q);
}

fn key(p: ChunkPos) -> (k: u128)
    ensures
        k == key_of(p),
{
    proof {
        lemma_key_split(p);
    }
    let a = (p.x as i64 + 0x8000_0000) as u128;
    let b = (p.y as i64 + 0x8000_0000) as u128;
    let c = (p.z as i64 + 0x8000_0000) as u128;
    proof {
        assert(a * 0x1_0000_0000 + b <= 0xFFFF_FFFF_FFFF_FFFF) by (nonlinear_arith)
            requires
                a < 0x1_0000_0000,
                b < 0x1_0000_0000,
        ;
        assert((a * 0x1_0000_0000 + b) * 0x1_0000_0000 + c == a * 0x1_0000_0000_0000_0000 + b
            * 0x1_0000_0000 + c) by (nonlinear_arith);
    }
    (a * 0x1_0000_0000 + b) * 0x1_0000_0000 + c
}

/// Block id at world coordinates in a registry: air (0) where the chunk has
/// not been generated, else the block at the coordinates' remainders by the
/// chunk edge.
pub open spec fn block_at(chunks: Map<ChunkPos, Seq<u8>>, x: int, y: int, z: int) -> u8 {
    let p = chunk_of(x, y, z);
    if chunks.contains_key(p) {
        chunks[p][local_index(x % 32, y % 32, z % 32)]
    } else {
        0
    }
}

/// Registry of generated chunks, keyed by position, with the world's seed.
/// A chunk is added by generation or insertion and never removed; inserting
/// at a position that already holds a chunk replaces it (the last write
/// wins, which loses nothing when the chunk was generated from the same
/// heightfield).
pub struct World {
    chunks: HashMap<u128, Chunk>,
    seed: u32,
}

impl View for World {
    type V = Map<ChunkPos, Seq<u8>>;

    closed spec fn view(&self) -> Map<ChunkPos, Seq<u8>> {
        Map::new(
            |p: ChunkPos| self.chunks@.contains_key(key_of(p)),
            |p: ChunkPos| self.chunks@[key_of(p)]@,
        )
    }
}

impl World {
    /// Every stored chunk is complete.
    pub closed spec fn wf(&self) -> bool {
        forall|k: u128| #[trigger]
            self.chunks@.contains_key(k) ==> self.chunks@[k]@.len() == CHUNK_VOLUME
    }

    pub closed spec fn spec_seed(&self) -> u32 {
        self.seed
    }

    /// An empty world with the given seed.
    pub fn new(seed: u32) -> (w: World)
        ensures
            w.wf(),
            w@ == Map::<ChunkPos, Seq<u8>>::empty(),
            w.spec_seed() == seed,
    {
        let w = World { chunks: HashMap::new(), seed };
        assert(w@ =~= Map::<ChunkPos, Seq<u8>>::empty());
        w
    }

    /// The seed the world was created with.
    pub fn seed(&self) -> (s: u32)
        ensures
            s == self.spec_seed(),
    {
        self.seed
    }

    /// Whether the chunk at `pos` has been generated.
    pub fn has_chunk(&self, pos: ChunkPos) -> (b: bool)
        ensures
            b == self@.contains_key(pos),
    {
        self.chunks.contains_key(&key(pos))
    }

    /// The chunk stored at `pos`, if it has been generated.
    pub fn get_chunk(&self, pos: ChunkPos) -> (c: Option<&Chunk>)
        requires
            self.wf(),
        ensures
            c is Some <==> self@.contains_key(pos),
            c matches Some(chunk) ==> chunk@ == self@[pos] && chunk@.len() == CHUNK_VOLUME,
    {
        self.chunks.get(&key(pos))
    }

    /// Block id at world coordinates; unloaded space is air.
    pub fn get_block(&self, x: i32, y: i32, z: i32) -> (b: u8)
        requires
            self.wf(),
        ensures
            b == block_at(self@, x as int, y as int, z as int),
    {
        let pos = ChunkPos::from_world(x, y, z);
        match self.chunks.get(&key(pos)) {
            Some(chunk) => chunk.get_block(local_coord(x), local_coord(y), local_coord(z)),
            None => 0,
        }
    }

    /// Stores `chunk` at `pos`, replacing any chunk already there.
    pub fn insert_chunk(&mut self, pos: ChunkPos, chunk: Chunk)
        requires
            old(self).wf(),
            chunk@.len() == CHUNK_VOLUME,
        ensures
            final(self).wf(),
            final(self)@ == old(self)@.insert(pos, chunk@),
            final(self).spec_seed() == old(self).spec_seed(),
    {
        let ghost cv = chunk@;
        self.chunks.insert(key(pos), chunk);
        proof {
            assert forall|p: ChunkPos| #![auto] key_of(p) == key_of(pos) <==> p == pos by {
                lemma_key_injective(p, pos);
            }
            assert(self@ =~= old(self)@.insert(pos, cv));
        }
    }

    /// Generates the chunk at `pos` from the column tops in `heights` (see
    /// `fill_terrain`) and stores it, replacing any chunk already there.
    pub fn generate_chunk(&mut self, pos: ChunkPos, heights: &Vec<i64>)
        requires
            old(self).wf(),
            heights@.len() == COLUMN_COUNT,
        ensures
            final(self).wf(),
            final(self)@.dom() == old(self)@.dom().insert(pos),
            forall|p: ChunkPos| p != pos && old(self)@.contains_key(p) ==> #[trigger] final(self)@[p]
                == old(self)@[p],
            is_terrain(final(self)@[pos], pos, heights@),
            final(self).spec_seed() == old(self).spec_seed(),
    {
        let mut chunk = Chunk::new();
        fill_terrain(&mut chunk, pos, heights);
        self.insert_chunk(pos, chunk);
    }
}

/// Querying a chunk that has not been generated yields air.
pub proof fn lemma_unloaded_is_air(chunks: Map<ChunkPos, Seq<u8>>, x: int, y: int, z: int)
    requires
        !chunks.contains_key(chunk_of(x, y, z)),
    ensures
        block_at(chunks, x, y, z) == 0,
{
}

} // verus!
