//! The chunk registry: which chunks the client holds, each with its record,
//! and the bookkeeping of which neighbours of each chunk are loaded.

use crate::chunk::{
    block_step, fragment_step, mesh_step, ChunkData, ChunkState, FragmentOutcome, AIR, ALL_NEIGHBORS,
};
use crate::pos::{ChunkPos, InnerChunkPos, CHUNK_VOLUME, FRAGMENTS_PER_CHUNK};
use vstd::prelude::*;

verus! {

/// The position next to `t` in direction `d`: 0 and 1 are -z and +z, 2 and 3
/// are +x and -x, 4 and 5 are +y and -y.
pub open spec fn neighbor(t: (int, int, int), d: int) -> (int, int, int) {
    if d == 0 {
        (t.0, t.1, t.2 - 1)
    } else if d == 1 {
        (t.0, t.1, t.2 + 1)
    } else if d == 2 {
        (t.0 + 1, t.1, t.2)
    } else if d == 3 {
        (t.0 - 1, t.1, t.2)
    } else if d == 4 {
        (t.0, t.1 + 1, t.2)
    } else {
        (t.0, t.1 - 1, t.2)
    }
}

/// The direction that leads back.
pub open spec fn opposite(d: int) -> int {
    if d == 0 {
        1
    } else if d == 1 {
        0
    } else if d == 2 {
        3
    } else if d == 3 {
        2
    } else if d == 4 {
        5
    } else {
        4
    }
}

/// The bit of direction `d` in a neighbour mask.
pub open spec fn dir_bit(d: int) -> u8 {
    if d == 0 {
        1
    } else if d == 1 {
        2
    } else if d == 2 {
        4
    } else if d == 3 {
        8
    } else if d == 4 {
        16
    } else {
        32
    }
}

/// Whether `mask` has the bit of direction `d`.
pub open spec fn has_dir(mask: u8, d: int) -> bool {
    mask & dir_bit(d) != 0
}

/// Two records that differ at most in their neighbour masks.
pub open spec fn same_but_adj(a: ChunkData, b: ChunkData) -> bool {
    a.chunk == b.chunk && a.received == b.received && a.fragments == b.fragments && a.state
        == b.state
}

/// Setting the bit of `d` adds `d` to the directions of a mask and keeps the
/// mask within six bits.
pub proof fn lemma_set_dir(m: u8, d: int, e: int)
    requires
        0 <= d < 6,
        0 <= e < 6,
        m <= ALL_NEIGHBORS,
    ensures
        has_dir(m | dir_bit(d), e) <==> (e == d || has_dir(m, e)),
        m | dir_bit(d) <= ALL_NEIGHBORS,
{
    let a = dir_bit(d);
    let b = dir_bit(e);
    assert((a == 1 || a == 2 || a == 4 || a == 8 || a == 16 || a == 32) && (b == 1 || b == 2 || b
        == 4 || b == 8 || b == 16 || b == 32) && m <= 63 ==> (((m | a) & b != 0) <==> (a == b || m
        & b != 0)) && (m | a) <= 63) by (bit_vector);
}

/// Clearing the bit of `d` takes `d` out of the directions of a mask and
/// keeps the mask within six bits.
pub proof fn lemma_clear_dir(m: u8, d: int, e: int)
    requires
        0 <= d < 6,
        0 <= e < 6,
        m <= ALL_NEIGHBORS,
    ensures
        has_dir(m & !dir_bit(d), e) <==> (e != d && has_dir(m, e)),
        m & !dir_bit(d) <= ALL_NEIGHBORS,
{
    let a = dir_bit(d);
    let b = dir_bit(e);
    assert((a == 1 || a == 2 || a == 4 || a == 8 || a == 16 || a == 32) && (b == 1 || b == 2 || b
        == 4 || b == 8 || b == 16 || b == 32) && m <= 63 ==> (((m & !a) & b != 0) <==> (a != b && m
        & b != 0)) && (m & !a) <= 63) by (bit_vector);
}

/// A six-bit mask is full exactly where it has every direction, and the
/// empty mask has none.
pub proof fn lemma_full_mask(m: u8)
    requires
        m <= ALL_NEIGHBORS,
    ensures
        m == ALL_NEIGHBORS <==> (forall|d: int| 0 <= d < 6 ==> has_dir(m, d)),
        m == 0 ==> (forall|d: int| 0 <= d < 6 ==> !has_dir(m, d)),
{
    assert(m <= 63 ==> (m == 63 <==> (m & 1 != 0 && m & 2 != 0 && m & 4 != 0 && m & 8 != 0 && m & 16
        != 0 && m & 32 != 0))) by (bit_vector);
    assert(m == 0 ==> (m & 1 == 0 && m & 2 == 0 && m & 4 == 0 && m & 8 == 0 && m & 16 == 0 && m & 32
        == 0)) by (bit_vector);
    if forall|d: int| 0 <= d < 6 ==> has_dir(m, d) {
        assert(has_dir(m, 0) && has_dir(m, 1) && has_dir(m, 2) && has_dir(m, 3) && has_dir(m, 4)
            && has_dir(m, 5));
    }
}

/// A chunk that left the registry, with the buffer it held, which is to be
/// released.
#[derive(PartialEq, Eq, Structural, Clone, Copy, Debug)]
pub struct Evicted {
    pub pos: ChunkPos,
    pub buffer: Option<u64>,
}

/// A chunk that a block change sent back to `Unmeshed`, with the buffer it
/// held, which is to be released.
#[derive(PartialEq, Eq, Structural, Clone, Copy, Debug)]
pub struct Invalidated {
    pub pos: ChunkPos,
    pub buffer: Option<u64>,
}

/// Whether `q` lies next to `p` in one of the six directions.
pub open spec fn adjacent(p: ChunkPos, q: ChunkPos) -> bool {
    exists|d: int| 0 <= d < 6 && q.triple() == #[trigger] neighbor(p.triple(), d)
}

/// One chunk of the registry.
#[derive(Debug)]
pub struct Entry {
    pub pos: ChunkPos,
    pub data: ChunkData,
}

/// The registry: a map from chunk position to chunk record, kept as a list
/// in which no position occurs twice.
#[derive(Debug)]
pub struct ChunkMap {
    pub entries: Vec<Entry>,
}

/// The direction `d` with `b == neighbor(a, d)`, if the two are next to each
/// other.
pub fn direction_to(a: ChunkPos, b: ChunkPos) -> (r: Option<u8>)
    ensures
        r.is_some() ==> r.unwrap() < 6 && b.triple() == neighbor(a.triple(), r.unwrap() as int),
        r.is_none() ==> forall|d: int| 0 <= d < 6 ==> b.triple() != neighbor(a.triple(), d),
{
    if a.x == b.x && a.y == b.y {
        if a.z > i64::MIN && b.z == a.z - 1 {
            Some(0)
        } else if a.z < i64::MAX && b.z == a.z + 1 {
            Some(1)
        } else {
            None
        }
    } else if a.y == b.y && a.z == b.z {
        if a.x < i64::MAX && b.x == a.x + 1 {
            Some(2)
        } else if a.x > i64::MIN && b.x == a.x - 1 {
            Some(3)
        } else {
            None
        }
    } else if a.x == b.x && a.z == b.z {
        if a.y < i64::MAX && b.y == a.y + 1 {
            Some(4)
        } else if a.y > i64::MIN && b.y == a.y - 1 {
            Some(5)
        } else {
            None
        }
    } else {
        None
    }
}

/// The position next to `p` in direction `d`, or `None` where it would
/// leave the grid.
pub fn neighbor_pos(p: ChunkPos, d: u8) -> (r: Option<ChunkPos>)
    requires
        d < 6,
    ensures
        r.is_some() ==> r.unwrap().triple() == neighbor(p.triple(), d as int),
        r.is_none() <==> {
            let t = neighbor(p.triple(), d as int);
            t.0 < i64::MIN || t.0 > i64::MAX || t.1 < i64::MIN || t.1 > i64::MAX || t.2 < i64::MIN
                || t.2 > i64::MAX
        },
{
    if d == 0 {
        if p.z > i64::MIN {
            Some(ChunkPos { x: p.x, y: p.y, z: p.z - 1 })
        } else {
            None
        }
    } else if d == 1 {
        if p.z < i64::MAX {
            Some(ChunkPos { x: p.x, y: p.y, z: p.z + 1 })
        } else {
            None
        }
    } else if d == 2 {
        if p.x < i64::MAX {
            Some(ChunkPos { x: p.x + 1, y: p.y, z: p.z })
        } else {
            None
        }
    } else if d == 3 {
        if p.x > i64::MIN {
            Some(ChunkPos { x: p.x - 1, y: p.y, z: p.z })
        } else {
            None
        }
    } else if d == 4 {
        if p.y < i64::MAX {
            Some(ChunkPos { x: p.x, y: p.y + 1, z: p.z })
        } else {
            None
        }
    } else {
        if p.y > i64::MIN {
            Some(ChunkPos { x: p.x, y: p.y - 1, z: p.z })
        } else {
            None
        }
    }
}

/// The mask bit of direction `d`.
pub fn bit_of(d: u8) -> (r: u8)
    requires
        d < 6,
    ensures
        r == dir_bit(d as int),
{
    if d == 0 {
        1
    } else if d == 1 {
        2
    } else if d == 2 {
        4
    } else if d == 3 {
        8
    } else if d == 4 {
        16
    } else {
        32
    }
}

/// The mask bit of the direction opposite to `d`.
pub fn opposite_bit_of(d: u8) -> (r: u8)
    requires
        d < 6,
    ensures
        r == dir_bit(opposite(d as int)),
{
    if d == 0 {
        2
    } else if d == 1 {
        1
    } else if d == 2 {
        8
    } else if d == 3 {
        4
    } else if d == 4 {
        32
    } else {
        16
    }
}

/// Entry `j` of `cur` has direction `e` exactly where it had it in `init`
/// or where `p` lies next to it in that direction.
spec fn gained(init: &ChunkMap, cur: &ChunkMap, p: ChunkPos, j: int, e: int) -> bool {
    has_dir(cur.entries@[j].data.adj_chunks, e) <==> (has_dir(init.entries@[j].data.adj_chunks, e)
        || neighbor(init.entries@[j].pos.triple(), e) == p.triple())
}

/// `mask` has direction `d` exactly where one of the first `i` entries of
/// `init` lies next to `p` in that direction.
spec fn seen(init: &ChunkMap, p: ChunkPos, mask: u8, i: int, d: int) -> bool {
    has_dir(mask, d) <==> (exists|j: int|
        0 <= j < i && (#[trigger] init.entries@[j]).pos.triple() == neighbor(p.triple(), d))
}

/// Entry `j` of `cur` has direction `e` exactly where it had it in `mid`
/// and `p` does not lie next to it in that direction.
spec fn lost(mid: &ChunkMap, cur: &ChunkMap, p: ChunkPos, j: int, e: int) -> bool {
    has_dir(cur.entries@[j].data.adj_chunks, e) <==> (has_dir(mid.entries@[j].data.adj_chunks, e)
        && neighbor(mid.entries@[j].pos.triple(), e) != p.triple())
}

/// What a block change at `at` in chunk `c` does to one entry: the chunk
/// at `c` gets the block, a neighbour of `c` goes back to `Unmeshed`, and
/// any other entry stays as it is.
spec fn touch_ok(pre: Entry, post: Entry, c: ChunkPos, at: InnerChunkPos, id: u16) -> bool {
    &&& post.pos == pre.pos
    &&& if pre.pos == c {
        block_step(pre.data, post.data, at.spec_offset(), id)
    } else if adjacent(c, pre.pos) {
        post.data == (ChunkData { state: ChunkState::Unmeshed, ..pre.data })
    } else {
        post.data == pre.data
    }
}

/// Whether `item` names one of the first `i` entries of `init`, with its
/// buffer, and that entry is the chunk at `c` or a neighbour of it.
spec fn touched_among(init: &ChunkMap, item: Invalidated, c: ChunkPos, i: int) -> bool {
    exists|j: int|
        0 <= j < i && (#[trigger] init.entries@[j]).pos == item.pos && item.buffer
            == init.entries@[j].data.spec_buffer() && (item.pos == c || adjacent(c, item.pos))
}

/// What writing block `id` at `at` of chunk `c` does to a registry that
/// holds `c`, and which chunks it lists.
pub open spec fn block_written(
    pre: &ChunkMap,
    post: &ChunkMap,
    c: ChunkPos,
    at: InnerChunkPos,
    id: u16,
    touched: Seq<Invalidated>,
) -> bool {
    &&& post@.dom() == pre@.dom()
    &&& block_step(pre@[c], post@[c], at.spec_offset(), id)
    &&& forall|q: ChunkPos|
        #[trigger] pre@.dom().contains(q) && q != c ==> post@[q] == (if adjacent(c, q) {
            ChunkData { state: ChunkState::Unmeshed, ..pre@[q] }
        } else {
            pre@[q]
        })
    &&& forall|k: int|
        0 <= k < touched.len() ==> pre@.dom().contains((#[trigger] touched[k]).pos) && (touched[k].pos
            == c || adjacent(c, touched[k].pos)) && touched[k].buffer
            == pre@[touched[k].pos].spec_buffer()
    &&& forall|q: ChunkPos|
        #[trigger] pre@.dom().contains(q) && (q == c || adjacent(c, q)) ==> exists|k: int|
            0 <= k < touched.len() && (#[trigger] touched[k]).pos == q
    &&& forall|k: int, l: int|
        0 <= k < l < touched.len() ==> (#[trigger] touched[k]).pos != (#[trigger] touched[l]).pos
}

impl ChunkMap {
    /// Whether a chunk at `p` is held.
    pub open spec fn spec_contains(&self, p: ChunkPos) -> bool {
        exists|i: int| 0 <= i < self.entries@.len() && (#[trigger] self.entries@[i]).pos == p
    }

    /// Whether a chunk at the integer triple `t` is held.
    pub open spec fn holds(&self, t: (int, int, int)) -> bool {
        exists|i: int| 0 <= i < self.entries@.len() && (#[trigger] self.entries@[i]).pos.triple() == t
    }

    /// The place of `p` in the list, where it is held.
    pub open spec fn spec_index_of(&self, p: ChunkPos) -> int {
        choose|i: int| 0 <= i < self.entries@.len() && (#[trigger] self.entries@[i]).pos == p
    }

    /// The registry as a map.
    pub open spec fn view(&self) -> Map<ChunkPos, ChunkData> {
        Map::new(|p: ChunkPos| self.spec_contains(p), |p: ChunkPos| self.entries@[self.spec_index_of(p)].data)
    }

    /// Bit `d` of the mask of entry `i` is set exactly where the neighbour
    /// of that entry in direction `d` is held.
    pub open spec fn adj_ok(&self, i: int, d: int) -> bool {
        has_dir(self.entries@[i].data.adj_chunks, d) <==> self.holds(
            neighbor(self.entries@[i].pos.triple(), d),
        )
    }

    /// No position occurs twice, every record is well-formed, and every
    /// neighbour mask tells which neighbours are held.
    pub open spec fn wf(&self) -> bool {
        &&& forall|i: int, j: int|
            0 <= i < j < self.entries@.len() ==> (#[trigger] self.entries@[i]).pos != (
            #[trigger] self.entries@[j]).pos
        &&& forall|i: int| 0 <= i < self.entries@.len() ==> (#[trigger] self.entries@[i]).data.wf()
        &&& forall|i: int, d: int|
            0 <= i < self.entries@.len() && 0 <= d < 6 ==> #[trigger] self.adj_ok(i, d)
    }

    /// In a well-formed registry the map holds, under the position of each
    /// entry, that entry's record.
    pub proof fn lemma_entry(&self, i: int)
        requires
            self.wf(),
            0 <= i < self.entries@.len(),
        ensures
            self@.dom().contains(self.entries@[i].pos),
            self.spec_index_of(self.entries@[i].pos) == i,
            self@[self.entries@[i].pos] == self.entries@[i].data,
            self.holds(self.entries@[i].pos.triple()),
    {
        let p = self.entries@[i].pos;
        assert(self.spec_contains(p));
        let k = self.spec_index_of(p);
        assert(0 <= k < self.entries@.len() && self.entries@[k].pos == p);
        if k < i {
            assert(self.entries@[k].pos != self.entries@[i].pos);
        } else if i < k {
            assert(self.entries@[i].pos != self.entries@[k].pos);
        }
    }

    /// In a well-formed registry a chunk that is being meshed or is meshed
    /// has received every fragment.
    pub proof fn lemma_meshed_complete(&self, q: ChunkPos)
        requires
            self.wf(),
            self@.dom().contains(q),
            self@[q].state != ChunkState::Unmeshed,
        ensures
            self@[q].fragments == FRAGMENTS_PER_CHUNK,
            forall|k: int| 0 <= k < FRAGMENTS_PER_CHUNK ==> self@[q].received@[k],
    {
        let i = self.spec_index_of(q);
        self.lemma_entry(i);
        crate::chunk::lemma_count_bound(self@[q].received@);
    }

    /// In a well-formed registry the neighbour mask of a chunk is full
    /// exactly where all six neighbours are held.
    pub proof fn lemma_mask_full(&self, q: ChunkPos)
        requires
            self.wf(),
            self@.dom().contains(q),
        ensures
            self@[q].adj_chunks == ALL_NEIGHBORS <==> (forall|d: int|
                0 <= d < 6 ==> self.holds(#[trigger] neighbor(q.triple(), d))),
    {
        let i = self.spec_index_of(q);
        self.lemma_entry(i);
        let m = self@[q].adj_chunks;
        lemma_full_mask(m);
        assert forall|d: int| 0 <= d < 6 implies (#[trigger] has_dir(m, d) <==> self.holds(
            neighbor(q.triple(), d),
        )) by {
            assert(self.adj_ok(i, d));
        }
        if m == ALL_NEIGHBORS {
            assert forall|d: int| 0 <= d < 6 implies self.holds(
                #[trigger] neighbor(q.triple(), d),
            ) by {
                assert(has_dir(m, d));
            }
        }
        if forall|d: int| 0 <= d < 6 ==> self.holds(#[trigger] neighbor(q.triple(), d)) {
            assert forall|d: int| 0 <= d < 6 implies has_dir(m, d) by {
                assert(self.holds(neighbor(q.triple(), d)));
            }
        }
    }

    /// A registry with the same positions and masks as a well-formed one,
    /// and well-formed records, is well-formed and holds the same positions.
    pub proof fn lemma_same_keys(&self, other: &ChunkMap)
        requires
            self.wf(),
            other.entries@.len() == self.entries@.len(),
            forall|i: int|
                0 <= i < self.entries@.len() ==> (#[trigger] other.entries@[i]).pos
                    == self.entries@[i].pos && other.entries@[i].data.adj_chunks
                    == self.entries@[i].data.adj_chunks && other.entries@[i].data.wf(),
        ensures
            other.wf(),
            other@.dom() == self@.dom(),
            forall|t: (int, int, int)| other.holds(t) == self.holds(t),
    {
        assert forall|t: (int, int, int)| other.holds(t) == self.holds(t) by {
            if self.holds(t) {
                let i = choose|i: int|
                    0 <= i < self.entries@.len() && (#[trigger] self.entries@[i]).pos.triple() == t;
                assert(other.entries@[i].pos.triple() == t);
            }
            if other.holds(t) {
                let i = choose|i: int|
                    0 <= i < other.entries@.len() && (#[trigger] other.entries@[i]).pos.triple()
                        == t;
                assert(self.entries@[i].pos.triple() == t);
            }
        }
        assert forall|p: ChunkPos| other.spec_contains(p) == self.spec_contains(p) by {
            if self.spec_contains(p) {
                let i = choose|i: int|
                    0 <= i < self.entries@.len() && (#[trigger] self.entries@[i]).pos == p;
                assert(other.entries@[i].pos == p);
            }
            if other.spec_contains(p) {
                let i = choose|i: int|
                    0 <= i < other.entries@.len() && (#[trigger] other.entries@[i]).pos == p;
                assert(self.entries@[i].pos == p);
            }
        }
        assert(other@.dom() =~= self@.dom());
        assert forall|i: int, d: int|
            0 <= i < other.entries@.len() && 0 <= d < 6 implies #[trigger] other.adj_ok(i, d) by {
            assert(self.adj_ok(i, d));
            assert(other.entries@[i].pos == self.entries@[i].pos);
        }
        assert forall|i: int, j: int| 0 <= i < j < other.entries@.len() implies (
        #[trigger] other.entries@[i]).pos != (#[trigger] other.entries@[j]).pos by {
            assert(self.entries@[i].pos != self.entries@[j].pos);
        }
    }

    /// The empty registry.
    pub fn new() -> (r: ChunkMap)
        ensures
            r.wf(),
            r@.dom() == Set::<ChunkPos>::empty(),
            r.entries@.len() == 0,
    {
        let r = ChunkMap { entries: Vec::new() };
        assert(r@.dom() =~= Set::<ChunkPos>::empty());
        r
    }

    /// Number of chunks held.
    pub fn len(&self) -> (n: usize)
        ensures
            n == self.entries@.len(),
    {
        self.entries.len()
    }

    /// The place of `p` in the list, or `None` where no chunk at `p` is
    /// held.
    pub fn find(&self, p: ChunkPos) -> (r: Option<usize>)
        ensures
            r.is_some() <==> self.spec_contains(p),
            r.is_some() ==> r.unwrap() < self.entries@.len() && self.entries@[r.unwrap() as int].pos
                == p,
            r.is_some() && self.wf() ==> r.unwrap() == self.spec_index_of(p),
    {
        let mut i: usize = 0;
        while i < self.entries.len()
            invariant
                i <= self.entries@.len(),
                forall|j: int| 0 <= j < i ==> (#[trigger] self.entries@[j]).pos != p,
            decreases self.entries@.len() - i,
        {
            if self.entries[i].pos == p {
                proof {
                    if self.wf() {
                        self.lemma_entry(i as int);
                    }
                }
                return Some(i);
            }
            i = i + 1;
        }
        None
    }

    /// Whether a chunk at `p` is held.
    pub fn contains_key(&self, p: ChunkPos) -> (r: bool)
        ensures
            r == self.spec_contains(p),
            r == self@.dom().contains(p),
    {
        self.find(p).is_some()
    }

    /// Whether the chunk at `p` is held and complete: the player may stand
    /// in it.
    pub fn is_loaded(&self, p: ChunkPos) -> (r: bool)
        requires
            self.wf(),
        ensures
            r == (self@.dom().contains(p) && self@[p].spec_complete()),
    {
        match self.find(p) {
            Some(i) => self.entries[i].data.is_complete(),
            None => false,
        }
    }

    /// Adds a fresh, empty record at `p`, with the neighbours it finds
    /// marked in its mask, and marks `p` in the mask of each neighbour.
    /// Nothing else changes. The result is the new entry's place.
    pub fn insert(&mut self, p: ChunkPos) -> (at: usize)
        requires
            old(self).wf(),
            !old(self).spec_contains(p),
        ensures
            final(self).wf(),
            final(self)@.dom() == old(self)@.dom().insert(p),
            forall|q: ChunkPos|
                old(self)@.dom().contains(q) ==> same_but_adj(
                    #[trigger] final(self)@[q],
                    old(self)@[q],
                ),
            final(self).entries@.len() == old(self).entries@.len() + 1,
            at == old(self).entries@.len(),
            forall|j: int|
                0 <= j < old(self).entries@.len() ==> (#[trigger] final(self).entries@[j]).pos == old(self).entries@[j].pos,
            final(self).entries@[at as int].pos == p,
            final(self)@[p] == final(self).entries@[at as int].data,
            final(self)@[p].wf(),
            final(self)@[p].fragments == 0,
            final(self)@[p].state == ChunkState::Unmeshed,
            forall|k: int| 0 <= k < CHUNK_VOLUME ==> final(self)@[p].chunk@[k] == AIR,
            forall|k: int| 0 <= k < FRAGMENTS_PER_CHUNK ==> !final(self)@[p].received@[k],
    {
        let ghost init = *self;
        let n: usize = self.entries.len();
        let mut mask: u8 = 0;
        let mut i: usize = 0;
        proof {
            lemma_full_mask(0);
        }
        while i < n
            invariant
                i <= n,
                n == init.entries@.len(),
                n == self.entries@.len(),
                mask <= ALL_NEIGHBORS,
                init.wf(),
                forall|j: int|
                    0 <= j < n ==> (#[trigger] self.entries@[j]).pos == init.entries@[j].pos
                        && same_but_adj(self.entries@[j].data, init.entries@[j].data)
                        && self.entries@[j].data.adj_chunks <= ALL_NEIGHBORS,
                forall|j: int|
                    i <= j < n ==> (#[trigger] self.entries@[j]).data.adj_chunks
                        == init.entries@[j].data.adj_chunks,
                forall|j: int, e: int|
                    0 <= j < i && 0 <= e < 6 ==> #[trigger] gained(&init, self, p, j, e),
                forall|d: int| 0 <= d < 6 ==> #[trigger] seen(&init, p, mask, i as int, d),
            decreases n - i,
        {
            let ghost prev = *self;
            let ghost prev_mask = mask;
            let q: ChunkPos = self.entries[i].pos;
            let dir: Option<u8> = direction_to(p, q);
            match dir {
                Some(d) => {
                    let b: u8 = bit_of(d);
                    let ob: u8 = opposite_bit_of(d);
                    let m: u8 = self.entries[i].data.adj_chunks;
                    proof {
                        lemma_set_dir(m, opposite(d as int), 0);
                        lemma_set_dir(mask, d as int, 0);
                    }
                    mask = mask | b;
                    self.entries[i].data.adj_chunks = m | ob;
                },
                None => {},
            }
            proof {
                assert forall|j: int, e: int| 0 <= j < i + 1 && 0 <= e < 6 implies #[trigger] gained(
                    &init,
                    self,
                    p,
                    j,
                    e,
                ) by {
                    if j < i {
                        assert(gained(&init, &prev, p, j, e));
                        assert(self.entries@[j] == prev.entries@[j]);
                    } else {
                        let m = prev.entries@[j].data.adj_chunks;
                        assert(m == init.entries@[j].data.adj_chunks);
                        assert(init.entries@[j].pos == q);
                        assert(neighbor(neighbor(p.triple(), opposite(e)), e) == p.triple());
                        if dir.is_some() {
                            let d = dir.unwrap() as int;
                            lemma_set_dir(m, opposite(d), e);
                            assert(self.entries@[j].data.adj_chunks == m | dir_bit(opposite(d)));
                            assert(neighbor(q.triple(), e) == p.triple() <==> e == opposite(d));
                        } else {
                            assert(self.entries@[j].data.adj_chunks == m);
                            assert(q.triple() != neighbor(p.triple(), opposite(e)));
                            assert(neighbor(q.triple(), e) != p.triple());
                        }
                    }
                }
                assert forall|d: int| 0 <= d < 6 implies #[trigger] seen(&init, p, mask, i + 1, d) by {
                    assert(seen(&init, p, prev_mask, i as int, d));
                    assert(init.entries@[i as int].pos == q);
                    if dir.is_some() {
                        lemma_set_dir(prev_mask, dir.unwrap() as int, d);
                        assert(q.triple() == neighbor(p.triple(), d) <==> d == dir.unwrap());
                    } else {
                        assert(q.triple() != neighbor(p.triple(), d));
                    }
                    if exists|j: int|
                        0 <= j < i + 1 && (#[trigger] init.entries@[j]).pos.triple() == neighbor(
                            p.triple(),
                            d,
                        ) {
                        let j = choose|j: int|
                            0 <= j < i + 1 && (#[trigger] init.entries@[j]).pos.triple() == neighbor(
                                p.triple(),
                                d,
                            );
                        if j < i {
                            assert(has_dir(prev_mask, d));
                        }
                    }
                }
            }
            i = i + 1;
        }
        let mut data: ChunkData = ChunkData::new();
        data.adj_chunks = mask;
        let ghost before = *self;
        self.entries.push(Entry { pos: p, data });
        proof {
            let fin = *self;
            assert forall|j: int| 0 <= j < n implies (#[trigger] fin.entries@[j]) == before.entries@[j] by {}
            assert forall|t: (int, int, int)| fin.holds(t) == (init.holds(t) || t == p.triple()) by {
                if init.holds(t) {
                    let j = choose|j: int|
                        0 <= j < init.entries@.len() && (#[trigger] init.entries@[j]).pos.triple() == t;
                    assert(fin.entries@[j].pos.triple() == t);
                }
                if t == p.triple() {
                    assert(fin.entries@[n as int].pos.triple() == t);
                }
                if fin.holds(t) {
                    let j = choose|j: int|
                        0 <= j < fin.entries@.len() && (#[trigger] fin.entries@[j]).pos.triple() == t;
                    if j < n {
                        assert(init.entries@[j].pos.triple() == t);
                    }
                }
            }
            assert forall|q: ChunkPos| fin.spec_contains(q) == (init.spec_contains(q) || q == p) by {
                if init.spec_contains(q) {
                    let j = choose|j: int|
                        0 <= j < init.entries@.len() && (#[trigger] init.entries@[j]).pos == q;
                    assert(fin.entries@[j].pos == q);
                }
                if q == p {
                    assert(fin.entries@[n as int].pos == q);
                }
                if fin.spec_contains(q) {
                    let j = choose|j: int|
                        0 <= j < fin.entries@.len() && (#[trigger] fin.entries@[j]).pos == q;
                    if j < n {
                        assert(init.entries@[j].pos == q);
                    }
                }
            }
            assert forall|a: int, b: int| 0 <= a < b < fin.entries@.len() implies (
            #[trigger] fin.entries@[a]).pos != (#[trigger] fin.entries@[b]).pos by {
                if b < n {
                    assert(init.entries@[a].pos != init.entries@[b].pos);
                } else {
                    assert(init.entries@[a].pos == fin.entries@[a].pos);
                }
            }
            assert forall|j: int| 0 <= j < fin.entries@.len() implies (
            #[trigger] fin.entries@[j]).data.wf() by {
                if j < n {
                    assert(init.entries@[j].data.wf());
                }
            }
            assert forall|j: int, d: int|
                0 <= j < fin.entries@.len() && 0 <= d < 6 implies #[trigger] fin.adj_ok(j, d) by {
                if j < n {
                    assert(gained(&init, &before, p, j, d));
                    assert(init.adj_ok(j, d));
                } else {
                    assert(seen(&init, p, mask, n as int, d));
                    assert(neighbor(p.triple(), d) != p.triple());
                }
            }
            assert(fin.wf());
            assert(fin@.dom() =~= init@.dom().insert(p));
            fin.lemma_entry(n as int);
            assert forall|q: ChunkPos| init@.dom().contains(q) implies same_but_adj(
                #[trigger] fin@[q],
                init@[q],
            ) by {
                let k = init.spec_index_of(q);
                init.lemma_entry(k);
                fin.lemma_entry(k);
            }
        }
        n
    }

    /// Takes entry `i` out of the registry and clears its position in the
    /// mask of each neighbour. Nothing else changes, and the entries that
    /// stay keep their order. The result is the entry taken out; a buffer
    /// that it holds is the caller's to release.
    pub fn remove_at(&mut self, i: usize) -> (gone: Entry)
        requires
            old(self).wf(),
            i < old(self).entries@.len(),
        ensures
            final(self).wf(),
            gone == old(self).entries@[i as int],
            final(self)@.dom() == old(self)@.dom().remove(gone.pos),
            forall|q: ChunkPos|
                final(self)@.dom().contains(q) ==> same_but_adj(
                    #[trigger] final(self)@[q],
                    old(self)@[q],
                ),
            final(self).entries@.len() == old(self).entries@.len() - 1,
            forall|j: int|
                0 <= j < i ==> (#[trigger] final(self).entries@[j]).pos == old(self).entries@[j].pos,
            forall|j: int|
                i <= j < final(self).entries@.len() ==> (#[trigger] final(self).entries@[j]).pos
                    == old(self).entries@[j + 1].pos,
    {
        let ghost init = *self;
        let gone: Entry = self.entries.remove(i);
        let ghost mid = *self;
        let p: ChunkPos = gone.pos;
        let n: usize = self.entries.len();
        proof {
            assert forall|j: int| 0 <= j < n implies (#[trigger] mid.entries@[j]) == init.entries@[if j
                < i {
                j
            } else {
                j + 1
            }] by {}
        }
        let mut k: usize = 0;
        while k < n
            invariant
                k <= n,
                n == mid.entries@.len(),
                n == self.entries@.len(),
                forall|j: int| 0 <= j < n ==> (#[trigger] mid.entries@[j]).data.wf(),
                forall|j: int|
                    0 <= j < n ==> (#[trigger] self.entries@[j]).pos == mid.entries@[j].pos
                        && same_but_adj(self.entries@[j].data, mid.entries@[j].data)
                        && self.entries@[j].data.adj_chunks <= ALL_NEIGHBORS,
                forall|j: int|
                    k <= j < n ==> (#[trigger] self.entries@[j]).data.adj_chunks
                        == mid.entries@[j].data.adj_chunks,
                forall|j: int, e: int| 0 <= j < k && 0 <= e < 6 ==> #[trigger] lost(&mid, self, p, j, e),
            decreases n - k,
        {
            let ghost prev = *self;
            let q: ChunkPos = self.entries[k].pos;
            let dir: Option<u8> = direction_to(p, q);
            match dir {
                Some(d) => {
                    let ob: u8 = opposite_bit_of(d);
                    let m: u8 = self.entries[k].data.adj_chunks;
                    proof {
                        lemma_clear_dir(m, opposite(d as int), 0);
                    }
                    self.entries[k].data.adj_chunks = m & !ob;
                },
                None => {},
            }
            proof {
                assert forall|j: int, e: int| 0 <= j < k + 1 && 0 <= e < 6 implies #[trigger] lost(
                    &mid,
                    self,
                    p,
                    j,
                    e,
                ) by {
                    if j < k {
                        assert(lost(&mid, &prev, p, j, e));
                        assert(self.entries@[j] == prev.entries@[j]);
                    } else {
                        let m = prev.entries@[j].data.adj_chunks;
                        assert(m == mid.entries@[j].data.adj_chunks);
                        assert(mid.entries@[j].pos == q);
                        assert(neighbor(neighbor(p.triple(), opposite(e)), e) == p.triple());
                        if dir.is_some() {
                            let d = dir.unwrap() as int;
                            lemma_clear_dir(m, opposite(d), e);
                            assert(self.entries@[j].data.adj_chunks == m & !dir_bit(opposite(d)));
                            assert(neighbor(q.triple(), e) == p.triple() <==> e == opposite(d));
                        } else {
                            assert(self.entries@[j].data.adj_chunks == m);
                            assert(q.triple() != neighbor(p.triple(), opposite(e)));
                            assert(neighbor(q.triple(), e) != p.triple());
                        }
                    }
                }
            }
            k = k + 1;
        }
        proof {
            let fin = *self;
            init.lemma_entry(i as int);
            assert forall|t: (int, int, int)| fin.holds(t) == (init.holds(t) && t != p.triple()) by {
                if init.holds(t) && t != p.triple() {
                    let j = choose|j: int|
                        0 <= j < init.entries@.len() && (#[trigger] init.entries@[j]).pos.triple() == t;
                    let j2 = if j < i {
                        j
                    } else {
                        j - 1
                    };
                    assert(fin.entries@[j2].pos == mid.entries@[j2].pos);
                    assert(fin.entries@[j2].pos.triple() == t);
                }
                if fin.holds(t) {
                    let j = choose|j: int|
                        0 <= j < fin.entries@.len() && (#[trigger] fin.entries@[j]).pos.triple() == t;
                    let j0 = if j < i {
                        j
                    } else {
                        j + 1
                    };
                    assert(mid.entries@[j].pos == init.entries@[j0].pos);
                    assert(init.entries@[j0].pos.triple() == t);
                    if j0 < i {
                        assert(init.entries@[j0].pos != init.entries@[i as int].pos);
                    } else {
                        assert(init.entries@[i as int].pos != init.entries@[j0].pos);
                    }
                }
            }
            assert forall|q: ChunkPos| fin.spec_contains(q) == (init.spec_contains(q) && q != p) by {
                if init.spec_contains(q) && q != p {
                    let j = choose|j: int|
                        0 <= j < init.entries@.len() && (#[trigger] init.entries@[j]).pos == q;
                    let j2 = if j < i {
                        j
                    } else {
                        j - 1
                    };
                    assert(fin.entries@[j2].pos == mid.entries@[j2].pos);
                    assert(fin.entries@[j2].pos == q);
                }
                if fin.spec_contains(q) {
                    let j = choose|j: int|
                        0 <= j < fin.entries@.len() && (#[trigger] fin.entries@[j]).pos == q;
                    let j0 = if j < i {
                        j
                    } else {
                        j + 1
                    };
                    assert(mid.entries@[j].pos == init.entries@[j0].pos);
                    assert(init.entries@[j0].pos == q);
                    if j0 < i {
                        assert(init.entries@[j0].pos != init.entries@[i as int].pos);
                    } else {
                        assert(init.entries@[i as int].pos != init.entries@[j0].pos);
                    }
                }
            }
            assert forall|a: int, b: int| 0 <= a < b < fin.entries@.len() implies (
            #[trigger] fin.entries@[a]).pos != (#[trigger] fin.entries@[b]).pos by {
                let a0 = if a < i {
                    a
                } else {
                    a + 1
                };
                let b0 = if b < i {
                    b
                } else {
                    b + 1
                };
                assert(mid.entries@[a].pos == init.entries@[a0].pos);
                assert(mid.entries@[b].pos == init.entries@[b0].pos);
                assert(init.entries@[a0].pos != init.entries@[b0].pos);
            }
            assert forall|j: int| 0 <= j < fin.entries@.len() implies (
            #[trigger] fin.entries@[j]).data.wf() by {
                assert(mid.entries@[j].data.wf());
            }
            assert forall|j: int, d: int|
                0 <= j < fin.entries@.len() && 0 <= d < 6 implies #[trigger] fin.adj_ok(j, d) by {
                let j0 = if j < i {
                    j
                } else {
                    j + 1
                };
                assert(lost(&mid, &fin, p, j, d));
                assert(mid.entries@[j] == init.entries@[j0]);
                assert(init.adj_ok(j0, d));
            }
            assert(fin.wf());
            assert(fin@.dom() =~= init@.dom().remove(p));
            assert forall|q: ChunkPos| fin@.dom().contains(q) implies same_but_adj(
                #[trigger] fin@[q],
                init@[q],
            ) by {
                let j = fin.spec_index_of(q);
                let j0 = if j < i {
                    j
                } else {
                    j + 1
                };
                fin.lemma_entry(j);
                assert(mid.entries@[j] == init.entries@[j0]);
                init.lemma_entry(j0);
            }
        }
        gone
    }

    /// The entry nearest to `center` among those farther from it than
    /// `limit`, the first of them where several are equally near, or `None`
    /// where every entry is within `limit`.
    pub fn nearest_beyond(&self, center: ChunkPos, limit: u64) -> (r: Option<usize>)
        ensures
            r.is_none() ==> forall|j: int|
                0 <= j < self.entries@.len() ==> (#[trigger] self.entries@[j]).pos.spec_dist(center)
                    <= limit,
            r.is_some() ==> r.unwrap() < self.entries@.len() && self.entries@[r.unwrap() as int].pos.spec_dist(
                center,
            ) > limit,
            r.is_some() ==> forall|j: int|
                0 <= j < self.entries@.len() && (#[trigger] self.entries@[j]).pos.spec_dist(center)
                    > limit ==> self.entries@[j].pos.spec_dist(center)
                    >= self.entries@[r.unwrap() as int].pos.spec_dist(center),
            r.is_some() ==> forall|j: int|
                0 <= j < r.unwrap() && (#[trigger] self.entries@[j]).pos.spec_dist(center) > limit
                    ==> self.entries@[j].pos.spec_dist(center)
                    > self.entries@[r.unwrap() as int].pos.spec_dist(center),
    {
        let mut best: Option<usize> = None;
        let mut best_dist: u64 = 0;
        let mut j: usize = 0;
        while j < self.entries.len()
            invariant
                j <= self.entries@.len(),
                best.is_none() ==> forall|k: int|
                    0 <= k < j ==> (#[trigger] self.entries@[k]).pos.spec_dist(center) <= limit,
                best.is_some() ==> best.unwrap() < j && best_dist
                    == self.entries@[best.unwrap() as int].pos.spec_dist(center) && best_dist > limit,
                best.is_some() ==> forall|k: int|
                    0 <= k < j && (#[trigger] self.entries@[k]).pos.spec_dist(center) > limit
                        ==> self.entries@[k].pos.spec_dist(center) >= best_dist,
                best.is_some() ==> forall|k: int|
                    0 <= k < best.unwrap() && (#[trigger] self.entries@[k]).pos.spec_dist(center) > limit
                        ==> self.entries@[k].pos.spec_dist(center) > best_dist,
            decreases self.entries@.len() - j,
        {
            let d: u64 = self.entries[j].pos.orthogonal_dist(center);
            if d > limit && (best.is_none() || d < best_dist) {
                best = Some(j);
                best_dist = d;
            }
            j = j + 1;
        }
        best
    }

    /// Evicts every chunk farther from `center` than `limit`, nearest
    /// first. The chunks within `limit` stay as they are, but for their
    /// neighbour masks. Each evicted chunk is listed once, with the buffer
    /// it held.
    pub fn evict_far(&mut self, center: ChunkPos, limit: u64) -> (evicted: Vec<Evicted>)
        requires
            old(self).wf(),
        ensures
            final(self).wf(),
            forall|q: ChunkPos|
                #[trigger] final(self)@.dom().contains(q) <==> (old(self)@.dom().contains(q)
                    && q.spec_dist(center) <= limit),
            forall|q: ChunkPos|
                final(self)@.dom().contains(q) ==> same_but_adj(
                    #[trigger] final(self)@[q],
                    old(self)@[q],
                ),
            forall|k: int|
                0 <= k < evicted@.len() ==> old(self)@.dom().contains((#[trigger] evicted@[k]).pos)
                    && evicted@[k].pos.spec_dist(center) > limit && evicted@[k].buffer == old(self)@[evicted@[k].pos].spec_buffer(),
            forall|q: ChunkPos|
                old(self)@.dom().contains(q) && q.spec_dist(center) > limit ==> exists|k: int|
                    0 <= k < evicted@.len() && (#[trigger] evicted@[k]).pos == q,
            forall|k: int, l: int|
                0 <= k < l < evicted@.len() ==> (#[trigger] evicted@[k]).pos != (
                #[trigger] evicted@[l]).pos,
            forall|k: int, l: int|
                0 <= k < l < evicted@.len() ==> (#[trigger] evicted@[k]).pos.spec_dist(center) <= (
                #[trigger] evicted@[l]).pos.spec_dist(center),
    {
        let ghost init = *self;
        let mut evicted: Vec<Evicted> = Vec::new();
        let mut next: Option<usize> = self.nearest_beyond(center, limit);
        while next.is_some()
            invariant
                self.wf(),
                init.wf(),
                next.is_none() ==> forall|j: int|
                    0 <= j < self.entries@.len() ==> (#[trigger] self.entries@[j]).pos.spec_dist(center)
                        <= limit,
                next.is_some() ==> next.unwrap() < self.entries@.len() && self.entries@[next.unwrap() as int].pos.spec_dist(
                center) > limit,
                next.is_some() ==> forall|j: int|
                    0 <= j < self.entries@.len() && (#[trigger] self.entries@[j]).pos.spec_dist(center)
                        > limit ==> self.entries@[j].pos.spec_dist(center)
                        >= self.entries@[next.unwrap() as int].pos.spec_dist(center),
                forall|q: ChunkPos|
                    #[trigger] self@.dom().contains(q) ==> init@.dom().contains(q) && same_but_adj(
                        self@[q],
                        init@[q],
                    ),
                forall|q: ChunkPos|
                    #[trigger] init@.dom().contains(q) ==> self@.dom().contains(q) || (q.spec_dist(center)
                        > limit && exists|k: int|
                        0 <= k < evicted@.len() && (#[trigger] evicted@[k]).pos == q),
                forall|k: int|
                    0 <= k < evicted@.len() ==> init@.dom().contains((#[trigger] evicted@[k]).pos)
                        && !self@.dom().contains(evicted@[k].pos) && evicted@[k].pos.spec_dist(center)
                        > limit && evicted@[k].buffer == init@[evicted@[k].pos].spec_buffer(),
                forall|k: int, l: int|
                    0 <= k < l < evicted@.len() ==> (#[trigger] evicted@[k]).pos != (
                    #[trigger] evicted@[l]).pos,
                forall|k: int, l: int|
                    0 <= k < l < evicted@.len() ==> (#[trigger] evicted@[k]).pos.spec_dist(center) <= (
                    #[trigger] evicted@[l]).pos.spec_dist(center),
                forall|k: int, j: int|
                    0 <= k < evicted@.len() && 0 <= j < self.entries@.len() && (
                    #[trigger] self.entries@[j]).pos.spec_dist(center) > limit ==> (
                    #[trigger] evicted@[k]).pos.spec_dist(center) <= self.entries@[j].pos.spec_dist(
                        center,
                    ),
            decreases self.entries@.len(),
        {
            let b: usize = next.unwrap();
            let ghost prev = *self;
            let ghost prev_list = evicted@;
            proof {
                prev.lemma_entry(b as int);
            }
            let gone: Entry = self.remove_at(b);
            let buffer: Option<u64> = match gone.data.state {
                ChunkState::Meshed(buf) => Some(buf),
                _ => None,
            };
            let item: Evicted = Evicted { pos: gone.pos, buffer };
            evicted.push(item);
            next = self.nearest_beyond(center, limit);
            proof {
                let cur = *self;
                let m = prev_list.len() as int;
                assert(evicted@[m] == item);
                assert forall|k: int| 0 <= k < m implies #[trigger] evicted@[k] == prev_list[k] by {}
                assert forall|q: ChunkPos| #[trigger] cur@.dom().contains(q) implies init@.dom().contains(
                    q,
                ) && same_but_adj(cur@[q], init@[q]) by {
                    assert(prev@.dom().contains(q));
                    assert(same_but_adj(cur@[q], prev@[q]));
                }
                assert forall|q: ChunkPos| #[trigger] init@.dom().contains(q) implies cur@.dom().contains(
                    q,
                ) || (q.spec_dist(center) > limit && exists|k: int|
                    0 <= k < evicted@.len() && (#[trigger] evicted@[k]).pos == q) by {
                    if !cur@.dom().contains(q) {
                        if prev@.dom().contains(q) {
                            assert(q == gone.pos);
                            assert(evicted@[m].pos == q);
                        } else {
                            let k = choose|k: int|
                                0 <= k < prev_list.len() && (#[trigger] prev_list[k]).pos == q;
                            assert(evicted@[k].pos == q);
                        }
                    }
                }
                assert forall|k: int| 0 <= k < evicted@.len() implies init@.dom().contains(
                    (#[trigger] evicted@[k]).pos,
                ) && !cur@.dom().contains(evicted@[k].pos) && evicted@[k].pos.spec_dist(center) > limit
                    && evicted@[k].buffer == init@[evicted@[k].pos].spec_buffer() by {
                    if k < m {
                        assert(evicted@[k] == prev_list[k]);
                        assert(!prev@.dom().contains(prev_list[k].pos));
                    } else {
                        assert(prev@.dom().contains(gone.pos));
                        assert(same_but_adj(prev@[gone.pos], init@[gone.pos]));
                    }
                }
                assert forall|k: int, l: int| 0 <= k < l < evicted@.len() implies (
                #[trigger] evicted@[k]).pos != (#[trigger] evicted@[l]).pos by {
                    if l == m {
                        assert(evicted@[k] == prev_list[k]);
                        assert(!prev@.dom().contains(prev_list[k].pos));
                    } else {
                        assert(prev_list[k].pos != prev_list[l].pos);
                    }
                }
                assert forall|k: int, l: int| 0 <= k < l < evicted@.len() implies (
                #[trigger] evicted@[k]).pos.spec_dist(center) <= (#[trigger] evicted@[l]).pos.spec_dist(
                    center,
                ) by {
                    if l == m {
                        assert(evicted@[k] == prev_list[k]);
                        assert(prev_list[k].pos.spec_dist(center) <= prev.entries@[b as int].pos.spec_dist(
                            center,
                        ));
                    } else {
                        assert(prev_list[k].pos.spec_dist(center) <= prev_list[l].pos.spec_dist(center));
                    }
                }
                assert forall|k: int, j: int|
                    0 <= k < evicted@.len() && 0 <= j < cur.entries@.len() && (
                    #[trigger] cur.entries@[j]).pos.spec_dist(center) > limit implies (
                #[trigger] evicted@[k]).pos.spec_dist(center) <= cur.entries@[j].pos.spec_dist(center) by {
                    let j0 = if j < b {
                        j
                    } else {
                        j + 1
                    };
                    assert(cur.entries@[j].pos == prev.entries@[j0].pos);
                    if k < m {
                        assert(evicted@[k] == prev_list[k]);
                        assert(prev_list[k].pos.spec_dist(center) <= prev.entries@[j0].pos.spec_dist(
                            center,
                        ));
                    } else {
                        assert(prev.entries@[j0].pos.spec_dist(center) >= prev.entries@[b as int].pos.spec_dist(
                            center,
                        ));
                    }
                }
            }
        }
        proof {
            let fin = *self;
            assert forall|q: ChunkPos| #[trigger]
                fin@.dom().contains(q) <==> (init@.dom().contains(q) && q.spec_dist(center) <= limit) by {
                if fin@.dom().contains(q) {
                    let j = fin.spec_index_of(q);
                    fin.lemma_entry(j);
                    assert(fin.entries@[j].pos.spec_dist(center) <= limit);
                }
                if init@.dom().contains(q) && q.spec_dist(center) <= limit {
                    assert(fin@.dom().contains(q));
                }
            }
        }
        evicted
    }

    /// Hands fragment `slot` to the chunk at `p`. No other chunk changes.
    pub fn store_fragment(&mut self, p: ChunkPos, slot: usize, payload: &Vec<u16>) -> (outcome:
        FragmentOutcome)
        requires
            old(self).wf(),
            old(self).spec_contains(p),
        ensures
            final(self).wf(),
            final(self)@.dom() == old(self)@.dom(),
            forall|q: ChunkPos|
                #[trigger] old(self)@.dom().contains(q) && q != p ==> final(self)@[q] == old(self)@[q],
            fragment_step(old(self)@[p], final(self)@[p], slot as int, payload@, outcome),
    {
        let ghost init = *self;
        let i: usize = self.find(p).unwrap();
        proof {
            init.lemma_entry(i as int);
        }
        let outcome: FragmentOutcome = self.entries[i].data.receive_fragment(slot, payload);
        proof {
            init.lemma_changed_at(self, i as int);
        }
        outcome
    }

    /// Hands the mesher's buffer to the chunk at `p`. Where no chunk is
    /// held there the buffer comes back to be released. No other chunk
    /// changes.
    pub fn finish_meshing(&mut self, p: ChunkPos, buffer: u64) -> (release: Option<u64>)
        requires
            old(self).wf(),
        ensures
            final(self).wf(),
            final(self)@.dom() == old(self)@.dom(),
            forall|q: ChunkPos|
                #[trigger] old(self)@.dom().contains(q) && q != p ==> final(self)@[q] == old(self)@[q],
            old(self)@.dom().contains(p) ==> mesh_step(old(self)@[p], final(self)@[p], buffer, release),
            !old(self)@.dom().contains(p) ==> release == Some(buffer),
    {
        let ghost init = *self;
        match self.find(p) {
            Some(i) => {
                proof {
                    init.lemma_entry(i as int);
                }
                let release: Option<u64> = self.entries[i].data.finish_meshing(buffer);
                proof {
                    init.lemma_changed_at(self, i as int);
                }
                release
            },
            None => Some(buffer),
        }
    }

    /// A registry that differs from a well-formed one in the record of
    /// entry `i` alone, which keeps its neighbour mask and is well-formed,
    /// is well-formed, holds the same positions, and maps every other
    /// position to the record it had.
    pub proof fn lemma_changed_at(&self, other: &ChunkMap, i: int)
        requires
            self.wf(),
            0 <= i < self.entries@.len(),
            other.entries@.len() == self.entries@.len(),
            forall|j: int|
                0 <= j < self.entries@.len() && j != i ==> (#[trigger] other.entries@[j])
                    == self.entries@[j],
            other.entries@[i].pos == self.entries@[i].pos,
            other.entries@[i].data.adj_chunks == self.entries@[i].data.adj_chunks,
            other.entries@[i].data.wf(),
        ensures
            other.wf(),
            other@.dom() == self@.dom(),
            other@[self.entries@[i].pos] == other.entries@[i].data,
            forall|q: ChunkPos|
                #[trigger] self@.dom().contains(q) && q != self.entries@[i].pos ==> other@[q]
                    == self@[q],
    {
        assert forall|j: int| 0 <= j < self.entries@.len() implies (#[trigger] other.entries@[j]).pos
            == self.entries@[j].pos && other.entries@[j].data.adj_chunks
            == self.entries@[j].data.adj_chunks && other.entries@[j].data.wf() by {
            if j != i {
                assert(other.entries@[j] == self.entries@[j]);
                assert(self.entries@[j].data.wf());
            }
        }
        self.lemma_same_keys(other);
        other.lemma_entry(i);
        assert forall|q: ChunkPos| #[trigger]
            self@.dom().contains(q) && q != self.entries@[i].pos implies other@[q] == self@[q] by {
            let j = self.spec_index_of(q);
            self.lemma_entry(j);
            other.lemma_entry(j);
        }
    }

    /// Writes block `id` at `at` in the chunk at `c`, which is held. That
    /// chunk and each of its neighbours that is held go back to
    /// `Unmeshed`; each is listed once, with the buffer it held. No other
    /// chunk changes.
    pub fn set_block(&mut self, c: ChunkPos, at: InnerChunkPos, id: u16) -> (touched: Vec<Invalidated>)
        requires
            old(self).wf(),
            old(self).spec_contains(c),
            at.wf(),
        ensures
            final(self).wf(),
            block_written(old(self), final(self), c, at, id, touched@),
    {
        let ghost init = *self;
        let mut touched: Vec<Invalidated> = Vec::new();
        let n: usize = self.entries.len();
        let mut i: usize = 0;
        while i < n
            invariant
                i <= n,
                n == init.entries@.len(),
                n == self.entries@.len(),
                init.wf(),
                at.wf(),
                forall|j: int| i <= j < n ==> (#[trigger] self.entries@[j]) == init.entries@[j],
                forall|j: int|
                    0 <= j < i ==> touch_ok(init.entries@[j], #[trigger] self.entries@[j], c, at, id),
                forall|k: int|
                    0 <= k < touched@.len() ==> touched_among(&init, #[trigger] touched@[k], c, i as int),
                forall|j: int|
                    0 <= j < i && ((#[trigger] init.entries@[j]).pos == c || adjacent(
                        c,
                        init.entries@[j].pos,
                    )) ==> exists|k: int|
                        0 <= k < touched@.len() && (#[trigger] touched@[k]).pos == init.entries@[j].pos,
                forall|k: int, l: int|
                    0 <= k < l < touched@.len() ==> (#[trigger] touched@[k]).pos != (
                    #[trigger] touched@[l]).pos,
            decreases n - i,
        {
            let ghost prev = touched@;
            let q: ChunkPos = self.entries[i].pos;
            assert(init.entries@[i as int].data.wf());
            let hit: bool = q == c;
            let dir: Option<u8> = direction_to(c, q);
            let near: bool = dir.is_some();
            if hit {
                let buffer: Option<u64> = self.entries[i].data.set_block(at, id);
                touched.push(Invalidated { pos: q, buffer });
            } else if near {
                let buffer: Option<u64> = self.entries[i].data.invalidate();
                touched.push(Invalidated { pos: q, buffer });
            }
            proof {
                assert(near == adjacent(c, q)) by {
                    if near {
                        let d = dir.unwrap() as int;
                        assert(q.triple() == neighbor(c.triple(), d));
                    }
                }
                assert forall|k: int| 0 <= k < prev.len() implies touched@[k] == prev[k] by {}
                assert forall|k: int| 0 <= k < touched@.len() implies touched_among(
                    &init,
                    #[trigger] touched@[k],
                    c,
                    i + 1,
                ) by {
                    if k < prev.len() {
                        assert(touched_among(&init, prev[k], c, i as int));
                        let j = choose|j: int|
                            0 <= j < i && (#[trigger] init.entries@[j]).pos == prev[k].pos
                                && prev[k].buffer == init.entries@[j].data.spec_buffer() && (prev[k].pos
                                == c || adjacent(c, prev[k].pos));
                        assert(init.entries@[j].pos == touched@[k].pos);
                    } else {
                        assert(init.entries@[i as int].pos == touched@[k].pos);
                    }
                }
                assert forall|j: int|
                    0 <= j < i + 1 && ((#[trigger] init.entries@[j]).pos == c || adjacent(
                        c,
                        init.entries@[j].pos,
                    )) implies exists|k: int|
                    0 <= k < touched@.len() && (#[trigger] touched@[k]).pos == init.entries@[j].pos by {
                    if j < i {
                        let k = choose|k: int|
                            0 <= k < prev.len() && (#[trigger] prev[k]).pos == init.entries@[j].pos;
                        assert(touched@[k].pos == init.entries@[j].pos);
                    } else {
                        assert(touched@[prev.len() as int].pos == init.entries@[j].pos);
                    }
                }
                assert forall|k: int, l: int| 0 <= k < l < touched@.len() implies (
                #[trigger] touched@[k]).pos != (#[trigger] touched@[l]).pos by {
                    if l < prev.len() {
                        assert(prev[k].pos != prev[l].pos);
                    } else {
                        assert(touched_among(&init, prev[k], c, i as int));
                        let j = choose|j: int|
                            0 <= j < i && (#[trigger] init.entries@[j]).pos == prev[k].pos
                                && prev[k].buffer == init.entries@[j].data.spec_buffer() && (prev[k].pos
                                == c || adjacent(c, prev[k].pos));
                        assert(init.entries@[j].pos != init.entries@[i as int].pos);
                    }
                }
            }
            i = i + 1;
        }
        proof {
            let fin = *self;
            assert forall|j: int| 0 <= j < n implies (#[trigger] fin.entries@[j]).pos == init.entries@[j].pos
                && fin.entries@[j].data.adj_chunks == init.entries@[j].data.adj_chunks
                && fin.entries@[j].data.wf() by {
                assert(touch_ok(init.entries@[j], fin.entries@[j], c, at, id));
                assert(init.entries@[j].data.wf());
            }
            init.lemma_same_keys(&fin);
            let ci = init.spec_index_of(c);
            init.lemma_entry(ci);
            fin.lemma_entry(ci);
            assert(touch_ok(init.entries@[ci], fin.entries@[ci], c, at, id));
            assert forall|q: ChunkPos| #[trigger] init@.dom().contains(q) && q != c implies fin@[q] == (
            if adjacent(c, q) {
                ChunkData { state: ChunkState::Unmeshed, ..init@[q] }
            } else {
                init@[q]
            }) by {
                let j = init.spec_index_of(q);
                init.lemma_entry(j);
                fin.lemma_entry(j);
                assert(touch_ok(init.entries@[j], fin.entries@[j], c, at, id));
            }
            assert forall|k: int| 0 <= k < touched@.len() implies init@.dom().contains(
                (#[trigger] touched@[k]).pos,
            ) && (touched@[k].pos == c || adjacent(c, touched@[k].pos)) && touched@[k].buffer
                == init@[touched@[k].pos].spec_buffer() by {
                assert(touched_among(&init, touched@[k], c, n as int));
                let j = choose|j: int|
                    0 <= j < n && (#[trigger] init.entries@[j]).pos == touched@[k].pos
                        && touched@[k].buffer == init.entries@[j].data.spec_buffer() && (
                    touched@[k].pos == c || adjacent(c, touched@[k].pos));
                init.lemma_entry(j);
            }
            assert forall|q: ChunkPos| #[trigger]
                init@.dom().contains(q) && (q == c || adjacent(c, q)) implies exists|k: int|
                0 <= k < touched@.len() && (#[trigger] touched@[k]).pos == q by {
                let j = init.spec_index_of(q);
                init.lemma_entry(j);
                assert(init.entries@[j].pos == q);
            }
        }
        touched
    }

    /// Sends the chunk at `p` back to `Unmeshed`, as after a mesh that could
    /// not be built, and returns the buffer it held. Where no chunk is held
    /// at `p` nothing changes.
    pub fn invalidate(&mut self, p: ChunkPos) -> (release: Option<u64>)
        requires
            old(self).wf(),
        ensures
            final(self).wf(),
            final(self)@.dom() == old(self)@.dom(),
            forall|q: ChunkPos|
                #[trigger] old(self)@.dom().contains(q) && q != p ==> final(self)@[q] == old(self)@[q],
            old(self)@.dom().contains(p) ==> release == old(self)@[p].spec_buffer() && final(self)@[p]
                == (ChunkData { state: ChunkState::Unmeshed, ..old(self)@[p] }),
            !old(self)@.dom().contains(p) ==> release.is_none() && *final(self) == *old(self),
    {
        let ghost init = *self;
        match self.find(p) {
            Some(i) => {
                proof {
                    init.lemma_entry(i as int);
                }
                let release: Option<u64> = self.entries[i].data.invalidate();
                proof {
                    init.lemma_changed_at(self, i as int);
                }
                release
            },
            None => None,
        }
    }

    /// A position is held exactly where its triple is.
    pub proof fn lemma_holds(&self, q: ChunkPos)
        ensures
            self.holds(q.triple()) == self.spec_contains(q),
    {
        if self.holds(q.triple()) {
            let i = choose|i: int|
                0 <= i < self.entries@.len() && (#[trigger] self.entries@[i]).pos.triple()
                    == q.triple();
            assert(self.entries@[i].pos == q);
        }
        if self.spec_contains(q) {
            let i = choose|i: int| 0 <= i < self.entries@.len() && (#[trigger] self.entries@[i]).pos == q;
            assert(self.entries@[i].pos.triple() == q.triple());
        }
    }

    /// Whether the neighbour of entry `i` in direction `d` is held.
    fn neighbor_held(&self, i: usize, d: u8) -> (r: bool)
        requires
            i < self.entries@.len(),
            d < 6,
        ensures
            r == self.holds(neighbor(self.entries@[i as int].pos.triple(), d as int)),
    {
        let next: Option<ChunkPos> = neighbor_pos(self.entries[i].pos, d);
        match next {
            Some(q) => {
                proof {
                    self.lemma_holds(q);
                }
                self.contains_key(q)
            },
            None => {
                proof {
                    let t = neighbor(self.entries@[i as int].pos.triple(), d as int);
                    if self.holds(t) {
                        let j = choose|j: int|
                            0 <= j < self.entries@.len() && (#[trigger] self.entries@[j]).pos.triple()
                                == t;
                        assert(false);
                    }
                }
                false
            },
        }
    }

    /// Whether the registry is well-formed, found by looking at every
    /// entry: its record, its position against those before it, and its
    /// neighbour mask against the positions held.
    pub fn check(&self) -> (ok: bool)
        ensures
            ok == self.wf(),
    {
        let n: usize = self.entries.len();
        let mut i: usize = 0;
        while i < n
            invariant
                i <= n,
                n == self.entries@.len(),
                forall|a: int, b: int|
                    0 <= a < b < i ==> (#[trigger] self.entries@[a]).pos != (
                    #[trigger] self.entries@[b]).pos,
                forall|a: int| 0 <= a < i ==> (#[trigger] self.entries@[a]).data.wf(),
                forall|a: int, d: int| 0 <= a < i && 0 <= d < 6 ==> #[trigger] self.adj_ok(a, d),
            decreases n - i,
        {
            if !self.entries[i].data.check() {
                return false;
            }
            let mut j: usize = 0;
            while j < i
                invariant
                    j <= i,
                    i < n,
                    n == self.entries@.len(),
                    forall|a: int|
                        0 <= a < j ==> (#[trigger] self.entries@[a]).pos != self.entries@[i as int].pos,
                decreases i - j,
            {
                if self.entries[j].pos == self.entries[i].pos {
                    return false;
                }
                j = j + 1;
            }
            let mut d: u8 = 0;
            while d < 6
                invariant
                    d <= 6,
                    i < n,
                    n == self.entries@.len(),
                    forall|e: int| 0 <= e < d ==> #[trigger] self.adj_ok(i as int, e),
                decreases 6 - d,
            {
                let marked: bool = self.entries[i].data.adj_chunks & bit_of(d) != 0;
                let held: bool = self.neighbor_held(i, d);
                if marked != held {
                    proof {
                        assert(!self.adj_ok(i as int, d as int));
                    }
                    return false;
                }
                d = d + 1;
            }
            i = i + 1;
        }
        true
    }
}

} // verus!
