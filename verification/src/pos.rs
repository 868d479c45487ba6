//! Integer coordinate spaces of the voxel grid: blocks, chunks, positions
//! inside a chunk and fragment slots, with the floor-division split of a
//! block position into its chunk and its place inside that chunk.

use num::Integer;
use vstd::prelude::*;

verus! {

/// Edge length of a chunk, in blocks. A multiple of 8.
pub const CHUNK_SIZE: usize = 32;

/// Number of blocks in one chunk.
pub const CHUNK_VOLUME: usize = 32768;

/// Number of fragments a chunk payload is cut into: one per (x, y) column.
pub const FRAGMENTS_PER_CHUNK: usize = 1024;

/// Absolute difference of two integers.
pub open spec fn abs_diff(a: int, b: int) -> int {
    if a >= b {
        a - b
    } else {
        b - a
    }
}

/// The largest of three integers.
pub open spec fn max3(a: int, b: int, c: int) -> int {
    if a >= b && a >= c {
        a
    } else if b >= c {
        b
    } else {
        c
    }
}

/// Chebyshev distance between two integer triples.
pub open spec fn chebyshev(a: (int, int, int), b: (int, int, int)) -> int {
    max3(abs_diff(a.0, b.0), abs_diff(a.1, b.1), abs_diff(a.2, b.2))
}

/// A coordinate that splits into a coarse part and what is left inside it.
pub trait SubIndex<T> {
    type Remainder;

    /// The coarse part, as a mathematical value.
    spec fn spec_high(&self) -> T;

    /// The remainder inside the coarse part, as a mathematical value.
    spec fn spec_low(&self) -> Self::Remainder;

    fn high(&self) -> (r: T)
        ensures
            r == self.spec_high(),
    ;

    fn low(&self) -> (r: Self::Remainder)
        ensures
            r == self.spec_low(),
    ;

    fn factor(&self) -> (r: (T, Self::Remainder))
        ensures
            r.0 == self.spec_high(),
            r.1 == self.spec_low(),
    {
        (self.high(), self.low())
    }
}

/// Position of a block in the world grid.
#[derive(PartialEq, Eq, Structural, Clone, Copy, Debug, Hash)]
pub struct BlockPos {
    pub x: i64,
    pub y: i64,
    pub z: i64,
}

/// Position of a chunk in the chunk grid.
#[derive(PartialEq, Eq, Structural, Clone, Copy, Debug, Hash)]
pub struct ChunkPos {
    pub x: i64,
    pub y: i64,
    pub z: i64,
}

/// Position of a block inside its chunk; each component is below `CHUNK_SIZE`
/// in a well-formed value.
#[derive(PartialEq, Eq, Structural, Clone, Copy, Debug, Hash)]
pub struct InnerChunkPos {
    pub x: u8,
    pub y: u8,
    pub z: u8,
}

/// One of the `FRAGMENTS_PER_CHUNK` columns of a chunk payload.
#[derive(PartialEq, Eq, Structural, Clone, Copy, Debug, Hash)]
pub struct FragmentPos {
    pub x: usize,
    pub y: usize,
}

/// Calls `num::Integer::div_floor` on `i64`. The contract is taken on trust
/// from that crate: for a positive divisor the result is the quotient
/// rounded towards negative infinity, which for a positive divisor is the
/// Euclidean quotient of the two integers.
#[verifier::external_body]
fn div_floor_i64(a: i64, b: i64) -> (r: i64)
    requires
        b > 0,
    ensures
        r as int == (a as int) / (b as int),
{
    Integer::div_floor(&a, &b)
}

impl BlockPos {
    pub open spec fn triple(self) -> (int, int, int) {
        (self.x as int, self.y as int, self.z as int)
    }

    pub open spec fn spec_index(self, idx: int) -> i64 {
        if idx == 0 {
            self.x
        } else if idx == 1 {
            self.y
        } else {
            self.z
        }
    }

    pub fn from_coords(x: i64, y: i64, z: i64) -> (r: BlockPos)
        ensures
            r == (BlockPos { x, y, z }),
    {
        BlockPos { x, y, z }
    }

    /// Component `idx` (0 is x, 1 is y, 2 is z).
    pub fn index(&self, idx: usize) -> (r: &i64)
        requires
            idx < 3,
        ensures
            *r == self.spec_index(idx as int),
    {
        if idx == 0 {
            &self.x
        } else if idx == 1 {
            &self.y
        } else {
            &self.z
        }
    }

    /// Mutable access to component `idx`: whatever is written through the
    /// result replaces that component and leaves the two others.
    pub fn index_mut(&mut self, idx: usize) -> (r: &mut i64)
        requires
            idx < 3,
        ensures
            *r == old(self).spec_index(idx as int),
            final(self).spec_index(idx as int) == *final(r),
            forall|j: int| 0 <= j < 3 && j != idx ==> final(self).spec_index(j) == old(self).spec_index(j),
    {
        if idx == 0 {
            &mut self.x
        } else if idx == 1 {
            &mut self.y
        } else {
            &mut self.z
        }
    }

    /// The coordinates of the block at inner position `i` of chunk `c`.
    pub open spec fn spec_compose(c: ChunkPos, i: InnerChunkPos) -> (int, int, int) {
        (c.x * CHUNK_SIZE + i.x, c.y * CHUNK_SIZE + i.y, c.z * CHUNK_SIZE + i.z)
    }

    /// The block at inner position `i` of chunk `c`: the chunk times
    /// `CHUNK_SIZE` plus the inner position. `None` where a coordinate
    /// does not fit.
    pub fn from_parts(c: ChunkPos, i: InnerChunkPos) -> (r: Option<BlockPos>)
        ensures
            r.is_some() ==> r.unwrap().triple() == BlockPos::spec_compose(c, i),
            r.is_none() <==> {
                let t = BlockPos::spec_compose(c, i);
                t.0 < i64::MIN || t.0 > i64::MAX || t.1 < i64::MIN || t.1 > i64::MAX || t.2
                    < i64::MIN || t.2 > i64::MAX
            },
    {
        let x: i128 = c.x as i128 * CHUNK_SIZE as i128 + i.x as i128;
        let y: i128 = c.y as i128 * CHUNK_SIZE as i128 + i.y as i128;
        let z: i128 = c.z as i128 * CHUNK_SIZE as i128 + i.z as i128;
        let lo: i128 = i64::MIN as i128;
        let hi: i128 = i64::MAX as i128;
        if x < lo || x > hi || y < lo || y > hi || z < lo || z > hi {
            None
        } else {
            Some(BlockPos { x: x as i64, y: y as i64, z: z as i64 })
        }
    }
}

impl From<[i64; 3]> for BlockPos {
    fn from(pos: [i64; 3]) -> (r: BlockPos) {
        BlockPos { x: pos[0], y: pos[1], z: pos[2] }
    }
}

impl vstd::std_specs::convert::FromSpecImpl<[i64; 3]> for BlockPos {
    open spec fn obeys_from_spec() -> bool {
        true
    }

    open spec fn from_spec(pos: [i64; 3]) -> BlockPos {
        BlockPos { x: pos[0], y: pos[1], z: pos[2] }
    }
}

impl core::ops::Add for BlockPos {
    type Output = BlockPos;

    /// Component by component.
    fn add(self, rhs: BlockPos) -> (r: BlockPos) {
        BlockPos { x: self.x + rhs.x, y: self.y + rhs.y, z: self.z + rhs.z }
    }
}

impl vstd::std_specs::ops::AddSpecImpl for BlockPos {
    open spec fn obeys_add_spec() -> bool {
        true
    }

    /// No component of the sum leaves the machine's integers.
    open spec fn add_req(self, rhs: BlockPos) -> bool {
        &&& i64::MIN <= self.x + rhs.x <= i64::MAX
        &&& i64::MIN <= self.y + rhs.y <= i64::MAX
        &&& i64::MIN <= self.z + rhs.z <= i64::MAX
    }

    open spec fn add_spec(self, rhs: BlockPos) -> BlockPos {
        BlockPos { x: (self.x + rhs.x) as i64, y: (self.y + rhs.y) as i64, z: (self.z + rhs.z) as i64 }
    }
}

impl core::ops::Sub for BlockPos {
    type Output = BlockPos;

    /// Component by component.
    fn sub(self, rhs: BlockPos) -> (r: BlockPos) {
        BlockPos { x: self.x - rhs.x, y: self.y - rhs.y, z: self.z - rhs.z }
    }
}

impl vstd::std_specs::ops::SubSpecImpl for BlockPos {
    open spec fn obeys_sub_spec() -> bool {
        true
    }

    /// No component of the difference leaves the machine's integers.
    open spec fn sub_req(self, rhs: BlockPos) -> bool {
        &&& i64::MIN <= self.x - rhs.x <= i64::MAX
        &&& i64::MIN <= self.y - rhs.y <= i64::MAX
        &&& i64::MIN <= self.z - rhs.z <= i64::MAX
    }

    open spec fn sub_spec(self, rhs: BlockPos) -> BlockPos {
        BlockPos { x: (self.x - rhs.x) as i64, y: (self.y - rhs.y) as i64, z: (self.z - rhs.z) as i64 }
    }
}

impl SubIndex<ChunkPos> for BlockPos {
    type Remainder = InnerChunkPos;

    open spec fn spec_high(&self) -> ChunkPos {
        ChunkPos {
            x: (self.x as int / CHUNK_SIZE as int) as i64,
            y: (self.y as int / CHUNK_SIZE as int) as i64,
            z: (self.z as int / CHUNK_SIZE as int) as i64,
        }
    }

    open spec fn spec_low(&self) -> InnerChunkPos {
        InnerChunkPos {
            x: (self.x as int % CHUNK_SIZE as int) as u8,
            y: (self.y as int % CHUNK_SIZE as int) as u8,
            z: (self.z as int % CHUNK_SIZE as int) as u8,
        }
    }

    /// The chunk that holds this block: each component floor-divided by
    /// `CHUNK_SIZE`.
    fn high(&self) -> (r: ChunkPos) {
        ChunkPos {
            x: div_floor_i64(self.x, CHUNK_SIZE as i64),
            y: div_floor_i64(self.y, CHUNK_SIZE as i64),
            z: div_floor_i64(self.z, CHUNK_SIZE as i64),
        }
    }

    /// The block's place inside its chunk: each component modulo
    /// `CHUNK_SIZE`, never negative.
    fn low(&self) -> (r: InnerChunkPos)
        ensures
            r.wf(),
    {
        InnerChunkPos { x: low_component(self.x), y: low_component(self.y), z: low_component(self.z) }
    }
}

/// One component of a block position inside its chunk.
fn low_component(v: i64) -> (r: u8)
    ensures
        r as int == (v as int) % (CHUNK_SIZE as int),
        r < CHUNK_SIZE,
{
    let r: u8 = (v as u8) % (CHUNK_SIZE as u8);
    assert(((v as u8) % 32u8) as int == (v as int) % 32) by (bit_vector);
    r
}

impl ChunkPos {
    pub open spec fn triple(self) -> (int, int, int) {
        (self.x as int, self.y as int, self.z as int)
    }

    pub open spec fn spec_index(self, idx: int) -> i64 {
        if idx == 0 {
            self.x
        } else if idx == 1 {
            self.y
        } else {
            self.z
        }
    }

    /// Chebyshev distance to `other`, as a mathematical integer.
    pub open spec fn spec_dist(self, other: ChunkPos) -> int {
        chebyshev(self.triple(), other.triple())
    }

    pub fn from_coords(x: i64, y: i64, z: i64) -> (r: ChunkPos)
        ensures
            r == (ChunkPos { x, y, z }),
    {
        ChunkPos { x, y, z }
    }

    /// Chebyshev distance to `other`: the largest of the three absolute
    /// coordinate differences. Total: no pair of positions overflows.
    pub fn orthogonal_dist(self, other: ChunkPos) -> (d: u64)
        ensures
            d as int == self.spec_dist(other),
    {
        let dx: u64 = axis_dist(self.x, other.x);
        let dy: u64 = axis_dist(self.y, other.y);
        let dz: u64 = axis_dist(self.z, other.z);
        if dx >= dy && dx >= dz {
            dx
        } else if dy >= dz {
            dy
        } else {
            dz
        }
    }

    /// Component `idx` (0 is x, 1 is y, 2 is z).
    pub fn index(&self, idx: usize) -> (r: &i64)
        requires
            idx < 3,
        ensures
            *r == self.spec_index(idx as int),
    {
        if idx == 0 {
            &self.x
        } else if idx == 1 {
            &self.y
        } else {
            &self.z
        }
    }

    /// Mutable access to component `idx`: whatever is written through the
    /// result replaces that component and leaves the two others.
    pub fn index_mut(&mut self, idx: usize) -> (r: &mut i64)
        requires
            idx < 3,
        ensures
            *r == old(self).spec_index(idx as int),
            final(self).spec_index(idx as int) == *final(r),
            forall|j: int| 0 <= j < 3 && j != idx ==> final(self).spec_index(j) == old(self).spec_index(j),
    {
        if idx == 0 {
            &mut self.x
        } else if idx == 1 {
            &mut self.y
        } else {
            &mut self.z
        }
    }
}

impl From<[i64; 3]> for ChunkPos {
    fn from(pos: [i64; 3]) -> (r: ChunkPos) {
        ChunkPos { x: pos[0], y: pos[1], z: pos[2] }
    }
}

impl vstd::std_specs::convert::FromSpecImpl<[i64; 3]> for ChunkPos {
    open spec fn obeys_from_spec() -> bool {
        true
    }

    open spec fn from_spec(pos: [i64; 3]) -> ChunkPos {
        ChunkPos { x: pos[0], y: pos[1], z: pos[2] }
    }
}

impl core::ops::Add for ChunkPos {
    type Output = ChunkPos;

    /// Component by component.
    fn add(self, rhs: ChunkPos) -> (r: ChunkPos) {
        ChunkPos { x: self.x + rhs.x, y: self.y + rhs.y, z: self.z + rhs.z }
    }
}

impl vstd::std_specs::ops::AddSpecImpl for ChunkPos {
    open spec fn obeys_add_spec() -> bool {
        true
    }

    /// No component of the sum leaves the machine's integers.
    open spec fn add_req(self, rhs: ChunkPos) -> bool {
        &&& i64::MIN <= self.x + rhs.x <= i64::MAX
        &&& i64::MIN <= self.y + rhs.y <= i64::MAX
        &&& i64::MIN <= self.z + rhs.z <= i64::MAX
    }

    open spec fn add_spec(self, rhs: ChunkPos) -> ChunkPos {
        ChunkPos { x: (self.x + rhs.x) as i64, y: (self.y + rhs.y) as i64, z: (self.z + rhs.z) as i64 }
    }
}

impl core::ops::Sub for ChunkPos {
    type Output = ChunkPos;

    /// Component by component.
    fn sub(self, rhs: ChunkPos) -> (r: ChunkPos) {
        ChunkPos { x: self.x - rhs.x, y: self.y - rhs.y, z: self.z - rhs.z }
    }
}

impl vstd::std_specs::ops::SubSpecImpl for ChunkPos {
    open spec fn obeys_sub_spec() -> bool {
        true
    }

    /// No component of the difference leaves the machine's integers.
    open spec fn sub_req(self, rhs: ChunkPos) -> bool {
        &&& i64::MIN <= self.x - rhs.x <= i64::MAX
        &&& i64::MIN <= self.y - rhs.y <= i64::MAX
        &&& i64::MIN <= self.z - rhs.z <= i64::MAX
    }

    open spec fn sub_spec(self, rhs: ChunkPos) -> ChunkPos {
        ChunkPos { x: (self.x - rhs.x) as i64, y: (self.y - rhs.y) as i64, z: (self.z - rhs.z) as i64 }
    }
}

/// Absolute difference of two coordinates.
fn axis_dist(a: i64, b: i64) -> (d: u64)
    ensures
        d as int == abs_diff(a as int, b as int),
{
    if a >= b {
        (a as i128 - b as i128) as u64
    } else {
        (b as i128 - a as i128) as u64
    }
}

impl InnerChunkPos {
    /// Every component lies in `[0, CHUNK_SIZE)`.
    pub open spec fn wf(self) -> bool {
        self.x < CHUNK_SIZE && self.y < CHUNK_SIZE && self.z < CHUNK_SIZE
    }

    pub open spec fn spec_index(self, idx: int) -> u8 {
        if idx == 0 {
            self.x
        } else if idx == 1 {
            self.y
        } else {
            self.z
        }
    }

    /// Place of this position in a chunk's dense block array.
    pub open spec fn spec_offset(self) -> int {
        (self.x as int * CHUNK_SIZE as int + self.y as int) * CHUNK_SIZE as int + self.z as int
    }

    /// A position inside a chunk, if every component is below `CHUNK_SIZE`.
    pub fn new(x: u8, y: u8, z: u8) -> (r: Option<InnerChunkPos>)
        ensures
            r.is_some() <==> (x < CHUNK_SIZE && y < CHUNK_SIZE && z < CHUNK_SIZE),
            r.is_some() ==> r.unwrap() == (InnerChunkPos { x, y, z }),
    {
        if (x as usize) < CHUNK_SIZE && (y as usize) < CHUNK_SIZE && (z as usize) < CHUNK_SIZE {
            Some(InnerChunkPos { x, y, z })
        } else {
            None
        }
    }

    /// Component `idx` (0 is x, 1 is y, 2 is z).
    pub fn index(&self, idx: usize) -> (r: &u8)
        requires
            idx < 3,
        ensures
            *r == self.spec_index(idx as int),
    {
        if idx == 0 {
            &self.x
        } else if idx == 1 {
            &self.y
        } else {
            &self.z
        }
    }

    /// Mutable access to component `idx`: whatever is written through the
    /// result replaces that component and leaves the two others.
    pub fn index_mut(&mut self, idx: usize) -> (r: &mut u8)
        requires
            idx < 3,
        ensures
            *r == old(self).spec_index(idx as int),
            final(self).spec_index(idx as int) == *final(r),
            forall|j: int| 0 <= j < 3 && j != idx ==> final(self).spec_index(j) == old(self).spec_index(j),
    {
        if idx == 0 {
            &mut self.x
        } else if idx == 1 {
            &mut self.y
        } else {
            &mut self.z
        }
    }

    /// Place of this position in a chunk's dense block array.
    pub fn offset(self) -> (r: usize)
        requires
            self.wf(),
        ensures
            r as int == self.spec_offset(),
            r < CHUNK_VOLUME,
    {
        (self.x as usize * CHUNK_SIZE + self.y as usize) * CHUNK_SIZE + self.z as usize
    }
}

impl From<[u8; 3]> for InnerChunkPos {
    fn from(pos: [u8; 3]) -> (r: InnerChunkPos) {
        InnerChunkPos { x: pos[0], y: pos[1], z: pos[2] }
    }
}

impl vstd::std_specs::convert::FromSpecImpl<[u8; 3]> for InnerChunkPos {
    open spec fn obeys_from_spec() -> bool {
        true
    }

    open spec fn from_spec(pos: [u8; 3]) -> InnerChunkPos {
        InnerChunkPos { x: pos[0], y: pos[1], z: pos[2] }
    }
}

impl FragmentPos {
    /// Both components lie in `[0, CHUNK_SIZE)`.
    pub open spec fn wf(self) -> bool {
        self.x < CHUNK_SIZE && self.y < CHUNK_SIZE
    }

    pub open spec fn spec_index(self, idx: int) -> usize {
        if idx == 0 {
            self.x
        } else {
            self.y
        }
    }

    /// Number of this fragment among the fragments of a chunk.
    pub open spec fn spec_slot(self) -> int {
        self.x as int * CHUNK_SIZE as int + self.y as int
    }

    /// Component `idx` (0 is x, 1 is y).
    pub fn index(&self, idx: usize) -> (r: &usize)
        requires
            idx < 2,
        ensures
            *r == self.spec_index(idx as int),
    {
        if idx == 0 {
            &self.x
        } else {
            &self.y
        }
    }

    /// Mutable access to component `idx`: whatever is written through the
    /// result replaces that component and leaves the other.
    pub fn index_mut(&mut self, idx: usize) -> (r: &mut usize)
        requires
            idx < 2,
        ensures
            *r == old(self).spec_index(idx as int),
            final(self).spec_index(idx as int) == *final(r),
            forall|j: int| 0 <= j < 2 && j != idx ==> final(self).spec_index(j) == old(self).spec_index(j),
    {
        if idx == 0 {
            &mut self.x
        } else {
            &mut self.y
        }
    }

    /// Number of this fragment among the fragments of a chunk, or `None`
    /// where a component is out of range.
    pub fn slot(self) -> (r: Option<usize>)
        ensures
            r.is_some() <==> self.wf(),
            r.is_some() ==> r.unwrap() as int == self.spec_slot() && r.unwrap() < FRAGMENTS_PER_CHUNK,
    {
        if self.x < CHUNK_SIZE && self.y < CHUNK_SIZE {
            Some(self.x * CHUNK_SIZE + self.y)
        } else {
            None
        }
    }
}

impl From<[usize; 2]> for FragmentPos {
    fn from(pos: [usize; 2]) -> (r: FragmentPos) {
        FragmentPos { x: pos[0], y: pos[1] }
    }
}

impl vstd::std_specs::convert::FromSpecImpl<[usize; 2]> for FragmentPos {
    open spec fn obeys_from_spec() -> bool {
        true
    }

    open spec fn from_spec(pos: [usize; 2]) -> FragmentPos {
        FragmentPos { x: pos[0], y: pos[1] }
    }
}

/// A block position is its chunk times `CHUNK_SIZE` plus its place inside
/// the chunk, component by component, for negative components too; and that
/// place is well-formed.
pub proof fn lemma_block_pos_round_trip(b: BlockPos)
    ensures
        BlockPos::spec_compose(b.spec_high(), b.spec_low()) == b.triple(),
        b.spec_low().wf(),
{
}

/// Splitting is the inverse of composing: the block made of chunk `c` and a
/// well-formed inner position `i` splits back into `c` and `i`.
pub proof fn lemma_compose_then_split(b: BlockPos, c: ChunkPos, i: InnerChunkPos)
    requires
        i.wf(),
        BlockPos::spec_compose(c, i) == b.triple(),
    ensures
        b.spec_high() == c,
        b.spec_low() == i,
{
}

} // verus!
