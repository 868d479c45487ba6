//! The meshing worker's rule: which faces of a chunk's blocks are exposed
//! and so get a quad.

use crate::chunk::AIR;
use crate::pos::{InnerChunkPos, CHUNK_SIZE, CHUNK_VOLUME};
use vstd::prelude::*;

verus! {

/// One face of one block of a chunk. Sides are numbered like the
/// directions of the registry: 0 and 1 are -z and +z, 2 and 3 are +x and
/// -x, 4 and 5 are +y and -y.
#[derive(PartialEq, Eq, Structural, Clone, Copy, Debug)]
pub struct Face {
    pub at: InnerChunkPos,
    pub side: u8,
}

/// The blocks of the six neighbours of a chunk, by side; `None` for a
/// neighbour that is absent.
#[derive(Debug)]
pub struct Neighbors {
    pub sides: Vec<Option<Vec<u16>>>,
}

/// Place of block `(x, y, z)` in a chunk's block array.
pub open spec fn offset_of(x: int, y: int, z: int) -> int {
    (x * CHUNK_SIZE as int + y) * CHUNK_SIZE as int + z
}

/// The coordinates next to `(x, y, z)` on `side`; they may leave the chunk.
pub open spec fn step(x: int, y: int, z: int, side: int) -> (int, int, int) {
    if side == 0 {
        (x, y, z - 1)
    } else if side == 1 {
        (x, y, z + 1)
    } else if side == 2 {
        (x + 1, y, z)
    } else if side == 3 {
        (x - 1, y, z)
    } else if side == 4 {
        (x, y + 1, z)
    } else {
        (x, y - 1, z)
    }
}

/// A coordinate wrapped into the chunk next door.
pub open spec fn wrap(v: int) -> int {
    if v < 0 {
        v + CHUNK_SIZE as int
    } else if v >= CHUNK_SIZE as int {
        v - CHUNK_SIZE as int
    } else {
        v
    }
}

impl Neighbors {
    /// Six sides, each absent or a full chunk of blocks.
    pub open spec fn wf(&self) -> bool {
        &&& self.sides@.len() == 6
        &&& forall|s: int|
            0 <= s < 6 && (#[trigger] self.sides@[s]).is_some() ==> self.sides@[s].unwrap()@.len()
                == CHUNK_VOLUME
    }
}

impl Neighbors {
    /// Whether there are six sides, each absent or a full chunk of blocks,
    /// found by looking at them.
    pub fn check(&self) -> (ok: bool)
        ensures
            ok == self.wf(),
    {
        if self.sides.len() != 6 {
            return false;
        }
        let mut s: usize = 0;
        while s < 6
            invariant
                s <= 6,
                self.sides@.len() == 6,
                forall|t: int|
                    0 <= t < s && (#[trigger] self.sides@[t]).is_some() ==> self.sides@[t].unwrap()@.len()
                        == CHUNK_VOLUME,
            decreases 6 - s,
        {
            match &self.sides[s] {
                Some(blocks) => {
                    if blocks.len() != CHUNK_VOLUME {
                        return false;
                    }
                },
                None => {},
            }
            s = s + 1;
        }
        true
    }
}

/// The block that faces side `side` of the block at `(x, y, z)`: a block of
/// the chunk itself, or of the neighbour on that side, or air where that
/// neighbour is absent.
pub open spec fn facing(blocks: Seq<u16>, around: &Neighbors, x: int, y: int, z: int, side: int) -> u16 {
    let n = step(x, y, z, side);
    if 0 <= n.0 < CHUNK_SIZE && 0 <= n.1 < CHUNK_SIZE && 0 <= n.2 < CHUNK_SIZE {
        blocks[offset_of(n.0, n.1, n.2)]
    } else if around.sides@[side].is_some() {
        around.sides@[side].unwrap()@[offset_of(wrap(n.0), wrap(n.1), wrap(n.2))]
    } else {
        AIR
    }
}

/// A face is exposed where its block is not air and the block that faces it
/// is air.
pub open spec fn exposed(blocks: Seq<u16>, around: &Neighbors, f: Face) -> bool {
    &&& f.at.wf()
    &&& f.side < 6
    &&& blocks[f.at.spec_offset()] != AIR
    &&& facing(blocks, around, f.at.x as int, f.at.y as int, f.at.z as int, f.side as int) == AIR
}

/// Place of a face in the order of the mesh: by block, then by side.
pub open spec fn rank(f: Face) -> int {
    f.at.spec_offset() * 6 + f.side
}

/// `faces` lists, in the order of the mesh, exactly the exposed faces that
/// come before place `cursor`.
spec fn meshed_up_to(blocks: Seq<u16>, around: &Neighbors, faces: Seq<Face>, cursor: int) -> bool {
    &&& forall|k: int|
        0 <= k < faces.len() ==> exposed(blocks, around, #[trigger] faces[k]) && rank(faces[k])
            < cursor
    &&& forall|f: Face| exposed(blocks, around, f) && rank(f) < cursor ==> #[trigger] faces.contains(f)
    &&& forall|k: int, l: int|
        0 <= k < l < faces.len() ==> rank(#[trigger] faces[k]) < rank(#[trigger] faces[l])
}

/// The block that faces side `side` of the block at `(x, y, z)`.
pub fn facing_block(blocks: &Vec<u16>, around: &Neighbors, x: u8, y: u8, z: u8, side: u8) -> (r: u16)
    requires
        blocks@.len() == CHUNK_VOLUME,
        around.wf(),
        x < CHUNK_SIZE,
        y < CHUNK_SIZE,
        z < CHUNK_SIZE,
        side < 6,
    ensures
        r == facing(blocks@, around, x as int, y as int, z as int, side as int),
{
    let last: i32 = CHUNK_SIZE as i32 - 1;
    let mut nx: i32 = x as i32;
    let mut ny: i32 = y as i32;
    let mut nz: i32 = z as i32;
    if side == 0 {
        nz = nz - 1;
    } else if side == 1 {
        nz = nz + 1;
    } else if side == 2 {
        nx = nx + 1;
    } else if side == 3 {
        nx = nx - 1;
    } else if side == 4 {
        ny = ny + 1;
    } else {
        ny = ny - 1;
    }
    let inside: bool = 0 <= nx && nx <= last && 0 <= ny && ny <= last && 0 <= nz && nz <= last;
    if inside {
        let o: usize = (nx as usize * CHUNK_SIZE + ny as usize) * CHUNK_SIZE + nz as usize;
        blocks[o]
    } else {
        let wx: i32 = if nx < 0 {
            last
        } else if nx > last {
            0
        } else {
            nx
        };
        let wy: i32 = if ny < 0 {
            last
        } else if ny > last {
            0
        } else {
            ny
        };
        let wz: i32 = if nz < 0 {
            last
        } else if nz > last {
            0
        } else {
            nz
        };
        let o: usize = (wx as usize * CHUNK_SIZE + wy as usize) * CHUNK_SIZE + wz as usize;
        match &around.sides[side as usize] {
            Some(other) => other[o],
            None => AIR,
        }
    }
}

/// The mesh of a chunk: every exposed face, each once, by block and then by
/// side. The mesher draws one quad for each.
pub fn calculate_mesh(blocks: &Vec<u16>, around: &Neighbors) -> (faces: Vec<Face>)
    requires
        blocks@.len() == CHUNK_VOLUME,
        around.wf(),
    ensures
        forall|f: Face| #[trigger] faces@.contains(f) <==> exposed(blocks@, around, f),
        forall|k: int, l: int|
            0 <= k < l < faces@.len() ==> rank(#[trigger] faces@[k]) < rank(#[trigger] faces@[l]),
        forall|k: int, l: int| 0 <= k < l < faces@.len() ==> #[trigger] faces@[k] != #[trigger] faces@[l],
{
    let mut faces: Vec<Face> = Vec::new();
    let size: u8 = CHUNK_SIZE as u8;
    let mut x: u8 = 0;
    while x < size
        invariant
            x <= size,
            size == CHUNK_SIZE,
            blocks@.len() == CHUNK_VOLUME,
            around.wf(),
            meshed_up_to(blocks@, around, faces@, offset_of(x as int, 0, 0) * 6),
        decreases size - x,
    {
        let mut y: u8 = 0;
        while y < size
            invariant
                x < size,
                y <= size,
                size == CHUNK_SIZE,
                blocks@.len() == CHUNK_VOLUME,
                around.wf(),
                meshed_up_to(blocks@, around, faces@, offset_of(x as int, y as int, 0) * 6),
            decreases size - y,
        {
            let mut z: u8 = 0;
            while z < size
                invariant
                    x < size,
                    y < size,
                    z <= size,
                    size == CHUNK_SIZE,
                    blocks@.len() == CHUNK_VOLUME,
                    around.wf(),
                    meshed_up_to(blocks@, around, faces@, offset_of(x as int, y as int, z as int) * 6),
                decreases size - z,
            {
                let at: InnerChunkPos = InnerChunkPos { x, y, z };
                let solid: bool = blocks[at.offset()] != AIR;
                let mut side: u8 = 0;
                while side < 6
                    invariant
                        x < size,
                        y < size,
                        z < size,
                        side <= 6,
                        size == CHUNK_SIZE,
                        at == (InnerChunkPos { x, y, z }),
                        solid == (blocks@[at.spec_offset()] != AIR),
                        blocks@.len() == CHUNK_VOLUME,
                        around.wf(),
                        meshed_up_to(
                            blocks@,
                            around,
                            faces@,
                            offset_of(x as int, y as int, z as int) * 6 + side,
                        ),
                    decreases 6 - side,
                {
                    let ghost prev = faces@;
                    let ghost cursor = offset_of(x as int, y as int, z as int) * 6 + side;
                    let f: Face = Face { at, side };
                    let open: bool = solid && facing_block(blocks, around, x, y, z, side) == AIR;
                    if open {
                        faces.push(f);
                    }
                    proof {
                        let cur = faces@;
                        assert(rank(f) == cursor);
                        assert(open == exposed(blocks@, around, f));
                        assert forall|k: int| 0 <= k < prev.len() implies cur[k] == prev[k] by {}
                        assert forall|g: Face|
                            exposed(blocks@, around, g) && rank(g) < cursor + 1 implies #[trigger] cur.contains(
                            g,
                        ) by {
                            if rank(g) < cursor {
                                assert(prev.contains(g));
                                let k = choose|k: int| 0 <= k < prev.len() && prev[k] == g;
                                assert(cur[k] == g);
                            } else {
                                lemma_rank_injective(f, g);
                                assert(cur[prev.len() as int] == g);
                            }
                        }
                    }
                    side = side + 1;
                }
                z = z + 1;
            }
            y = y + 1;
        }
        x = x + 1;
    }
    proof {
        assert forall|f: Face| #[trigger] faces@.contains(f) <==> exposed(blocks@, around, f) by {
            if exposed(blocks@, around, f) {
                assert(rank(f) < offset_of(CHUNK_SIZE as int, 0, 0) * 6);
            }
            if faces@.contains(f) {
                let k = choose|k: int| 0 <= k < faces@.len() && faces@[k] == f;
                assert(exposed(blocks@, around, faces@[k]));
            }
        }
    }
    faces
}

/// Two well-formed faces at the same place of the mesh are the same face.
pub proof fn lemma_rank_injective(f: Face, g: Face)
    requires
        f.at.wf(),
        g.at.wf(),
        f.side < 6,
        g.side < 6,
        rank(f) == rank(g),
    ensures
        f == g,
{
}

} // verus!
