use vstd::prelude::*;
use crate::chunk::{Chunk, CHUNK_VOLUME, in_chunk, local_index};

verus! {

/// Largest time value (and voxel magnitude) that a grid ray may carry; it
/// leaves room for every step of the traversal to stay inside 64 bits.
pub const MAX_GRID_T: u64 = 0x4000_0000_0000_0000;

/// Integer voxel coordinates, local to the chunk being traversed.
#[derive(Clone, Copy, Debug, PartialEq, Eq, Structural)]
pub struct Voxel {
    pub x: i64,
    pub y: i64,
    pub z: i64,
}

/// Face normal of a hit: each component is -1, 0 or 1.
#[derive(Clone, Copy, Debug, PartialEq, Eq, Structural)]
pub struct Normal {
    pub x: i8,
    pub y: i8,
    pub z: i8,
}

/// How a ray advances along one axis. Times are fixed-point ray parameters.
/// `step` is the sign of the direction component; a zero step marks an axis
/// the ray never crosses, whose times are then ignored.
#[derive(Clone, Copy, Debug, PartialEq, Eq, Structural)]
pub struct AxisStep {
    /// -1, 0 or 1.
    pub step: i8,
    /// Time at which the ray first crosses a voxel boundary on this axis.
    pub t_max: u64,
    /// Time needed to cross one whole voxel on this axis.
    pub t_delta: u64,
}

/// A ray prepared for grid traversal: its starting voxel, how it moves along
/// each axis, and the time at which it ends.
#[derive(Clone, Copy, Debug, PartialEq, Eq, Structural)]
pub struct GridRay {
    pub start: Voxel,
    pub x: AxisStep,
    pub y: AxisStep,
    pub z: AxisStep,
    pub max_t: u64,
}

/// First solid voxel met by a ray.
#[derive(Clone, Copy, Debug, PartialEq, Eq, Structural)]
pub struct GridHit {
    pub voxel: Voxel,
    /// Time at which the ray entered the voxel.
    pub t: u64,
    /// Opposite of the step taken to enter the voxel; zero for the start voxel.
    pub normal: Normal,
    pub block: u8,
}

/// State of the traversal after some number of boundary crossings.
pub struct WalkState {
    pub x: int,
    pub y: int,
    pub z: int,
    pub mx: int,
    pub my: int,
    pub mz: int,
    pub t: int,
    /// Axis crossed last (0, 1 or 2), or -1 before the first crossing.
    pub entered: int,
}

pub open spec fn axis_valid(a: AxisStep) -> bool {
    &&& -1 <= a.step <= 1
    &&& a.step != 0 ==> a.t_delta >= 1
    &&& a.t_delta <= MAX_GRID_T
    &&& a.t_max <= MAX_GRID_T
}

pub open spec fn coord_valid(c: i64) -> bool {
    -(MAX_GRID_T as int) < c < MAX_GRID_T
}

/// A grid ray whose quantities keep every step of the traversal in range.
pub open spec fn ray_valid(r: GridRay) -> bool {
    &&& axis_valid(r.x)
    &&& axis_valid(r.y)
    &&& axis_valid(r.z)
    &&& coord_valid(r.start.x)
    &&& coord_valid(r.start.y)
    &&& coord_valid(r.start.z)
    &&& r.max_t <= MAX_GRID_T
}

pub open spec fn axis_of(r: GridRay, i: int) -> AxisStep {
    if i == 0 {
        r.x
    } else if i == 1 {
        r.y
    } else {
        r.z
    }
}

pub open spec fn start_coord(r: GridRay, i: int) -> int {
    if i == 0 {
        r.start.x as int
    } else if i == 1 {
        r.start.y as int
    } else {
        r.start.z as int
    }
}

pub open spec fn coord(s: WalkState, i: int) -> int {
    if i == 0 {
        s.x
    } else if i == 1 {
        s.y
    } else {
        s.z
    }
}

pub open spec fn tmax(s: WalkState, i: int) -> int {
    if i == 0 {
        s.mx
    } else if i == 1 {
        s.my
    } else {
        s.mz
    }
}

pub open spec fn active(a: AxisStep) -> bool {
    a.step != 0
}

/// The axis crossed next: among the axes the ray moves along, the one whose
/// boundary comes first, x before y before z on ties; -1 if there is none.
pub open spec fn next_axis(r: GridRay, s: WalkState) -> int {
    if active(r.x) && (!active(r.y) || s.mx <= s.my) && (!active(r.z) || s.mx <= s.mz) {
        0
    } else if active(r.y) && (!active(r.z) || s.my <= s.mz) {
        1
    } else if active(r.z) {
        2
    } else {
        -1
    }
}

pub open spec fn walk_start(r: GridRay) -> WalkState {
    WalkState {
        x: r.start.x as int,
        y: r.start.y as int,
        z: r.start.z as int,
        mx: r.x.t_max as int,
        my: r.y.t_max as int,
        mz: r.z.t_max as int,
        t: 0,
        entered: -1,
    }
}

/// One boundary crossing: time advances to the crossed boundary, the voxel
/// moves one step along that axis, and the axis's next boundary moves on by
/// one voxel width.
pub open spec fn advance(r: GridRay, s: WalkState) -> WalkState {
    let a = next_axis(r, s);
    if a == 0 {
        WalkState { x: s.x + r.x.step, mx: s.mx + r.x.t_delta, t: s.mx, entered: 0, ..s }
    } else if a == 1 {
        WalkState { y: s.y + r.y.step, my: s.my + r.y.t_delta, t: s.my, entered: 1, ..s }
    } else if a == 2 {
        WalkState { z: s.z + r.z.step, mz: s.mz + r.z.t_delta, t: s.mz, entered: 2, ..s }
    } else {
        s
    }
}

/// The traversal state after `n` crossings.
pub open spec fn walk(r: GridRay, n: nat) -> WalkState
    decreases n,
{
    if n == 0 {
        walk_start(r)
    } else {
        advance(r, walk(r, (n - 1) as nat))
    }
}

pub open spec fn solid_at(blocks: Seq<u8>, s: WalkState) -> bool {
    in_chunk(s.x, s.y, s.z) && blocks[local_index(s.x, s.y, s.z)] != 0
}

/// The `n`-th voxel visited is the first solid one, and it is entered before
/// the ray ends.
pub open spec fn first_hit(blocks: Seq<u8>, r: GridRay, n: nat) -> bool {
    &&& walk(r, n).t < r.max_t
    &&& solid_at(blocks, walk(r, n))
    &&& forall|m: nat| m < n ==> !solid_at(blocks, #[trigger] walk(r, m))
}

pub open spec fn normal_of(r: GridRay, entered: int) -> Normal {
    if entered == 0 {
        Normal { x: (-r.x.step) as i8, y: 0, z: 0 }
    } else if entered == 1 {
        Normal { x: 0, y: (-r.y.step) as i8, z: 0 }
    } else if entered == 2 {
        Normal { x: 0, y: 0, z: (-r.z.step) as i8 }
    } else {
        Normal { x: 0, y: 0, z: 0 }
    }
}

pub open spec fn hit_of(blocks: Seq<u8>, r: GridRay, s: WalkState) -> GridHit {
    GridHit {
        voxel: Voxel { x: s.x as i64, y: s.y as i64, z: s.z as i64 },
        t: s.t as u64,
        normal: normal_of(r, s.entered),
        block: blocks[local_index(s.x, s.y, s.z)],
    }
}

/// What a traversal of `blocks` along `r` reports: the first solid voxel
/// visited before the ray ends, if any.
pub open spec fn march_outcome(blocks: Seq<u8>, r: GridRay) -> Option<GridHit> {
    if exists|n: nat| first_hit(blocks, r, n) {
        let n = choose|n: nat| first_hit(blocks, r, n);
        Some(hit_of(blocks, r, walk(r, n)))
    } else {
        None
    }
}


/// Crossings made along axis `i` so far, counted in the direction of travel.
pub open spec fn crossings(r: GridRay, s: WalkState, i: int) -> int {
    if axis_of(r, i).step > 0 {
        coord(s, i) - start_coord(r, i)
    } else {
        start_coord(r, i) - coord(s, i)
    }
}

pub open spec fn axis_inv(r: GridRay, s: WalkState, i: int) -> bool {
    let a = axis_of(r, i);
    let k = crossings(r, s, i);
    if a.step == 0 {
        coord(s, i) == start_coord(r, i) && tmax(s, i) == a.t_max
    } else {
        &&& k >= 0
        &&& tmax(s, i) == a.t_max + k * a.t_delta
        &&& k >= 1 ==> s.t >= a.t_max + (k - 1) * a.t_delta
        &&& s.t <= tmax(s, i)
    }
}

pub open spec fn walk_inv(r: GridRay, s: WalkState) -> bool {
    &&& axis_inv(r, s, 0)
    &&& axis_inv(r, s, 1)
    &&& axis_inv(r, s, 2)
    &&& s.t >= 0
    &&& (s.entered == -1 || (0 <= s.entered <= 2 && active(axis_of(r, s.entered))))
}

proof fn lemma_advance_inv(r: GridRay, s: WalkState)
    requires
        -1 <= r.x.step <= 1,
        -1 <= r.y.step <= 1,
        -1 <= r.z.step <= 1,
        walk_inv(r, s),
    ensures
        walk_inv(r, advance(r, s)),
        advance(r, s).t >= s.t,
{
    let a = next_axis(r, s);
    if a >= 0 {
        let d = axis_of(r, a).t_delta as int;
        let k = crossings(r, s, a);
        assert((k + 1) * d == k * d + d) by (nonlinear_arith);
    }
}

/// Every state of a walk satisfies the walk invariant.
proof fn lemma_walk_inv(r: GridRay, n: nat)
    requires
        -1 <= r.x.step <= 1,
        -1 <= r.y.step <= 1,
        -1 <= r.z.step <= 1,
    ensures
        walk_inv(r, walk(r, n)),
    decreases n,
{
    if n > 0 {
        lemma_walk_inv(r, (n - 1) as nat);
        lemma_advance_inv(r, walk(r, (n - 1) as nat));
    } else {
        assert(0 * (r.x.t_delta as int) == 0);
        assert(0 * (r.y.t_delta as int) == 0);
        assert(0 * (r.z.t_delta as int) == 0);
    }
}

/// Time never runs backwards along a walk.
proof fn lemma_walk_monotone(r: GridRay, a: nat, b: nat)
    requires
        -1 <= r.x.step <= 1,
        -1 <= r.y.step <= 1,
        -1 <= r.z.step <= 1,
        a <= b,
    ensures
        walk(r, a).t <= walk(r, b).t,
    decreases b - a,
{
    if a < b {
        lemma_walk_monotone(r, a, (b - 1) as nat);
        lemma_walk_inv(r, (b - 1) as nat);
        lemma_advance_inv(r, walk(r, (b - 1) as nat));
    }
}

/// Once no axis can be crossed, the walk stays where it is.
proof fn lemma_walk_stuck(r: GridRay, n: nat, m: nat)
    requires
        next_axis(r, walk(r, n)) == -1,
        n <= m,
    ensures
        walk(r, m) == walk(r, n),
    decreases m - n,
{
    if n < m {
        lemma_walk_stuck(r, n, (m - 1) as nat);
    }
}

/// At most one step of a walk is its first hit.
proof fn lemma_first_hit_unique(blocks: Seq<u8>, r: GridRay, n1: nat, n2: nat)
    requires
        first_hit(blocks, r, n1),
        first_hit(blocks, r, n2),
    ensures
        n1 == n2,
{
    if n1 < n2 {
        assert(!solid_at(blocks, walk(r, n1)));
    } else if n2 < n1 {
        assert(!solid_at(blocks, walk(r, n2)));
    }
}

/// The face normal for a hit entered along `entered`.
fn normal_for(r: &GridRay, entered: i8) -> (nv: Normal)
    requires
        -1 <= r.x.step <= 1,
        -1 <= r.y.step <= 1,
        -1 <= r.z.step <= 1,
    ensures
        nv == normal_of(*r, entered as int),
{
    if entered == 0 {
        Normal { x: -r.x.step, y: 0, z: 0 }
    } else if entered == 1 {
        Normal { x: 0, y: -r.y.step, z: 0 }
    } else if entered == 2 {
        Normal { x: 0, y: 0, z: -r.z.step }
    } else {
        Normal { x: 0, y: 0, z: 0 }
    }
}

pub open spec fn remaining(max_t: u64, m: u64) -> nat {
    if m < max_t {
        (max_t - m) as nat
    } else {
        0
    }
}

impl GridRay {
    /// Walks the grid voxel by voxel (3D-DDA) and reports the first solid
    /// block of `chunk` entered before the ray ends. Voxels outside the chunk
    /// are passed through as empty.
    pub fn march(&self, chunk: &Chunk) -> (h: Option<GridHit>)
        requires
            chunk@.len() == CHUNK_VOLUME,
            ray_valid(*self),
        ensures
            h == march_outcome(chunk@, *self),
            h matches Some(hit) ==> hit.block != 0 && hit.t < self.max_t,
    {
        if self.max_t == 0 {
            assert forall|n: nat| !first_hit(chunk@, *self, n) by {
                lemma_walk_inv(*self, n);
            }
            return None;
        }
        let mut vx: i64 = self.start.x;
        let mut vy: i64 = self.start.y;
        let mut vz: i64 = self.start.z;
        let mut mx: u64 = self.x.t_max;
        let mut my: u64 = self.y.t_max;
        let mut mz: u64 = self.z.t_max;
        let mut t: u64 = 0;
        let mut entered: i8 = -1;
        let ghost mut n: nat = 0;
        loop
            invariant
                chunk@.len() == CHUNK_VOLUME,
                ray_valid(*self),
                walk(*self, n) == (WalkState {
                    x: vx as int,
                    y: vy as int,
                    z: vz as int,
                    mx: mx as int,
                    my: my as int,
                    mz: mz as int,
                    t: t as int,
                    entered: entered as int,
                }),
                t < self.max_t,
                forall|m: nat| m < n ==> !solid_at(chunk@, #[trigger] walk(*self, m)),
            decreases remaining(self.max_t, mx) + remaining(self.max_t, my) + remaining(self.max_t, mz),
        {
            let cell = chunk.get_block_checked(vx, vy, vz);
            if let Some(block) = cell {
                if block != 0 {
                    let hit = GridHit {
                        voxel: Voxel { x: vx, y: vy, z: vz },
                        t,
                        normal: normal_for(self, entered),
                        block,
                    };
                    proof {
                        assert(first_hit(chunk@, *self, n));
                        assert(exists|c: nat| first_hit(chunk@, *self, c));
                        let c = choose|c: nat| first_hit(chunk@, *self, c);
                        lemma_first_hit_unique(chunk@, *self, n, c);
                        assert(hit == hit_of(chunk@, *self, walk(*self, c)));

                    }
                    return Some(hit);
                }
            }
            proof {
                assert(!solid_at(chunk@, walk(*self, n)));
                lemma_walk_inv(*self, n);
            }
            let x_first = self.x.step != 0 && (self.y.step == 0 || mx <= my) && (self.z.step == 0 || mx
                <= mz);
            let y_first = !x_first && self.y.step != 0 && (self.z.step == 0 || my <= mz);
            let z_first = !x_first && !y_first && self.z.step != 0;
            if !x_first && !y_first && !z_first {
                proof {
                    assert forall|m: nat| !first_hit(chunk@, *self, m) by {
                        if m >= n {
                            lemma_walk_stuck(*self, n, m);
                        }
                    }
                }
                return None;
            }
            let m_next = if x_first {
                mx
            } else if y_first {
                my
            } else {
                mz
            };
            if m_next >= self.max_t {
                proof {
                    assert(walk(*self, n + 1).t >= self.max_t);
                    assert forall|m: nat| !first_hit(chunk@, *self, m) by {
                        if m > n {
                            lemma_walk_monotone(*self, n + 1, m);
                        }
                    }
                }
                return None;
            }
            proof {
                let a: int = if x_first { 0 } else if y_first { 1 } else { 2 };
                let k = crossings(*self, walk(*self, n), a);
                let d = axis_of(*self, a).t_delta as int;
                assert(k * d >= k) by (nonlinear_arith)
                    requires
                        k >= 0,
                        d >= 1,
                ;
            }
            t = m_next;
            if x_first {
                vx = vx + self.x.step as i64;
                mx = mx + self.x.t_delta;
                entered = 0;
            } else if y_first {
                vy = vy + self.y.step as i64;
                my = my + self.y.t_delta;
                entered = 1;
            } else {
                vz = vz + self.z.step as i64;
                mz = mz + self.z.t_delta;
                entered = 2;
            }
            proof {
                n = n + 1;
            }
        }
    }
}


/// The ray cannot enter coordinate `c` of axis `i` before it ends: `c` lies
/// behind the start, off the start on an axis the ray does not move along, or
/// further ahead than the ray reaches in its time.
pub open spec fn beyond_reach(r: GridRay, i: int, c: int) -> bool {
    let a = axis_of(r, i);
    let k = if a.step > 0 {
        c - start_coord(r, i)
    } else {
        start_coord(r, i) - c
    };
    if a.step == 0 {
        c != start_coord(r, i)
    } else {
        k < 0 || (k >= 1 && a.t_max + (k - 1) * a.t_delta >= r.max_t)
    }
}

/// A ray that, for every solid block of the chunk, is aimed away from it or
/// ends before it could reach it, reports no hit.
pub proof fn lemma_miss_when_out_of_reach(blocks: Seq<u8>, r: GridRay)
    requires
        ray_valid(r),
        forall|x: int, y: int, z: int|
            in_chunk(x, y, z) && blocks[local_index(x, y, z)] != 0 ==> beyond_reach(r, 0, x)
                || beyond_reach(r, 1, y) || beyond_reach(r, 2, z),
    ensures
        march_outcome(blocks, r) is None,
{
    assert forall|n: nat| !first_hit(blocks, r, n) by {
        lemma_walk_inv(r, n);
        let s = walk(r, n);
        if s.t < r.max_t && solid_at(blocks, s) {
            assert(beyond_reach(r, 0, s.x) || beyond_reach(r, 1, s.y) || beyond_reach(r, 2, s.z));
        }
    }
}

/// Along an axis whose direction component is zero the ray never crosses a
/// boundary: a hit lies on the starting coordinate of that axis, and its
/// normal has no component there.
pub proof fn lemma_flat_axis_not_crossed(blocks: Seq<u8>, r: GridRay)
    requires
        ray_valid(r),
    ensures
        march_outcome(blocks, r) matches Some(h) ==> {
            &&& r.x.step == 0 ==> h.voxel.x == r.start.x && h.normal.x == 0
            &&& r.y.step == 0 ==> h.voxel.y == r.start.y && h.normal.y == 0
            &&& r.z.step == 0 ==> h.voxel.z == r.start.z && h.normal.z == 0
        },
{
    if exists|n: nat| first_hit(blocks, r, n) {
        let n = choose|n: nat| first_hit(blocks, r, n);
        lemma_walk_inv(r, n);
    }
}

} // verus!
