//! The client's record of one chunk and the state machine it moves through:
//! fragments arrive until the chunk is complete, a complete chunk with all
//! six neighbours loaded is handed to the mesher, and the mesher's buffer
//! makes it drawable until a block changes.

use crate::pos::{InnerChunkPos, CHUNK_SIZE, CHUNK_VOLUME, FRAGMENTS_PER_CHUNK};
use vstd::prelude::*;

verus! {

/// Block id of air: the one block that hides no face.
pub const AIR: u16 = 0;

/// The neighbour mask with all six neighbours loaded.
pub const ALL_NEIGHBORS: u8 = 63;

/// Where a chunk stands between arrival and drawing. `Meshed` holds the
/// handle of the chunk's vertex buffer.
#[derive(PartialEq, Eq, Structural, Clone, Copy, Debug)]
pub enum ChunkState {
    Unmeshed,
    Meshing,
    Meshed(u64),
}

/// What became of a fragment handed to a chunk.
#[derive(PartialEq, Eq, Structural, Clone, Copy, Debug)]
pub enum FragmentOutcome {
    /// The slot or the payload length is out of range; nothing changed.
    Rejected,
    /// The slot was received before; nothing changed.
    Duplicate,
    /// The payload was stored and fragments are still missing.
    Stored,
    /// The payload was stored and the chunk is now complete.
    Completed,
}

/// Per-chunk record of the client.
#[derive(Debug)]
pub struct ChunkData {
    /// Block ids, `CHUNK_VOLUME` of them, x-major then y then z.
    pub chunk: Vec<u16>,
    /// Which fragment slots have been received.
    pub received: Vec<bool>,
    /// How many distinct fragment slots have been received.
    pub fragments: usize,
    /// Which of the six neighbours are loaded, one bit each.
    pub adj_chunks: u8,
    pub state: ChunkState,
}

/// Number of `true` entries of `s`.
pub open spec fn count_true(s: Seq<bool>) -> nat
    decreases s.len(),
{
    if s.len() == 0 {
        0
    } else {
        count_true(s.drop_last()) + if s.last() {
            1nat
        } else {
            0nat
        }
    }
}

/// The block array `blocks` with the column of fragment `slot` replaced by
/// `payload`.
pub open spec fn with_column(blocks: Seq<u16>, slot: int, payload: Seq<u16>) -> Seq<u16> {
    Seq::new(
        blocks.len(),
        |k: int|
            if slot * CHUNK_SIZE as int <= k < (slot + 1) * CHUNK_SIZE as int {
                payload[k - slot * CHUNK_SIZE as int]
            } else {
                blocks[k]
            },
    )
}

/// What `receive_fragment` does to a record: `post` and `outcome` are what
/// comes of handing fragment `slot` with `payload` to `pre`.
pub open spec fn fragment_step(
    pre: ChunkData,
    post: ChunkData,
    slot: int,
    payload: Seq<u16>,
    outcome: FragmentOutcome,
) -> bool {
    if slot >= FRAGMENTS_PER_CHUNK || payload.len() != CHUNK_SIZE {
        outcome == FragmentOutcome::Rejected && post == pre
    } else if pre.received@[slot] {
        outcome == FragmentOutcome::Duplicate && post == pre
    } else {
        &&& post.chunk@ == with_column(pre.chunk@, slot, payload)
        &&& post.received@ == pre.received@.update(slot, true)
        &&& post.fragments == pre.fragments + 1
        &&& post.adj_chunks == pre.adj_chunks
        &&& post.state == pre.state
        &&& outcome == if post.fragments == FRAGMENTS_PER_CHUNK {
            FragmentOutcome::Completed
        } else {
            FragmentOutcome::Stored
        }
    }
}

/// What `set_block` does to a record.
pub open spec fn block_step(pre: ChunkData, post: ChunkData, offset: int, id: u16) -> bool {
    &&& post.chunk@ == pre.chunk@.update(offset, id)
    &&& post.received == pre.received
    &&& post.fragments == pre.fragments
    &&& post.adj_chunks == pre.adj_chunks
    &&& post.state == ChunkState::Unmeshed
}

/// What `finish_meshing` does to a record and what it hands back.
pub open spec fn mesh_step(pre: ChunkData, post: ChunkData, buffer: u64, release: Option<u64>) -> bool {
    if pre.state == ChunkState::Meshing {
        release.is_none() && post == (ChunkData { state: ChunkState::Meshed(buffer), ..pre })
    } else {
        release == Some(buffer) && post == pre
    }
}

/// Marking one more slot raises the count by one.
pub proof fn lemma_count_mark(s: Seq<bool>, i: int)
    requires
        0 <= i < s.len(),
        !s[i],
    ensures
        count_true(s.update(i, true)) == count_true(s) + 1,
    decreases s.len(),
{
    let t = s.update(i, true);
    if i == s.len() - 1 {
        assert(t.drop_last() =~= s.drop_last());
    } else {
        lemma_count_mark(s.drop_last(), i);
        assert(t.drop_last() =~= s.drop_last().update(i, true));
    }
}

/// The count never exceeds the length, and reaches it only where every
/// entry is `true`.
pub proof fn lemma_count_bound(s: Seq<bool>)
    ensures
        count_true(s) <= s.len(),
        count_true(s) == s.len() <==> (forall|i: int| 0 <= i < s.len() ==> s[i]),
        count_true(s) == 0 <==> (forall|i: int| 0 <= i < s.len() ==> !s[i]),
    decreases s.len(),
{
    if s.len() > 0 {
        let p = s.drop_last();
        lemma_count_bound(p);
        assert(forall|i: int| 0 <= i < p.len() ==> p[i] == s[i]);
        if count_true(s) == s.len() {
            assert(forall|i: int| 0 <= i < s.len() ==> s[i]) by {
                assert(forall|i: int| 0 <= i < p.len() ==> p[i]);
            }
        }
        if count_true(s) == 0 {
            assert(forall|i: int| 0 <= i < s.len() ==> !s[i]) by {
                assert(forall|i: int| 0 <= i < p.len() ==> !p[i]);
            }
        }
    }
}

impl ChunkData {
    /// The record is sized for one chunk, its fragment count is the number
    /// of marked slots, its neighbour mask has six bits, and only a
    /// complete chunk is being meshed or is meshed.
    pub open spec fn wf(&self) -> bool {
        &&& self.chunk@.len() == CHUNK_VOLUME
        &&& self.received@.len() == FRAGMENTS_PER_CHUNK
        &&& self.fragments == count_true(self.received@)
        &&& self.adj_chunks <= ALL_NEIGHBORS
        &&& (self.state != ChunkState::Unmeshed ==> self.fragments == FRAGMENTS_PER_CHUNK)
    }

    /// Every fragment has been received.
    pub open spec fn spec_complete(&self) -> bool {
        self.fragments == FRAGMENTS_PER_CHUNK
    }

    /// Complete, all six neighbours loaded, and not yet handed to the
    /// mesher.
    pub open spec fn spec_meshable(&self) -> bool {
        self.spec_complete() && self.adj_chunks == ALL_NEIGHBORS && self.state
            == ChunkState::Unmeshed
    }

    /// The buffer that the chunk holds, if it is meshed.
    pub open spec fn spec_buffer(&self) -> Option<u64> {
        match self.state {
            ChunkState::Meshed(buf) => Some(buf),
            _ => None,
        }
    }

    /// A fresh record: all air, no fragment received, no neighbour known,
    /// unmeshed.
    pub fn new() -> (r: ChunkData)
        ensures
            r.wf(),
            r.fragments == 0,
            r.adj_chunks == 0,
            r.state == ChunkState::Unmeshed,
            forall|k: int| 0 <= k < CHUNK_VOLUME ==> r.chunk@[k] == AIR,
            forall|k: int| 0 <= k < FRAGMENTS_PER_CHUNK ==> !r.received@[k],
    {
        let mut chunk: Vec<u16> = Vec::new();
        let mut k: usize = 0;
        while k < CHUNK_VOLUME
            invariant
                k <= CHUNK_VOLUME,
                chunk@.len() == k,
                forall|j: int| 0 <= j < k ==> chunk@[j] == AIR,
            decreases CHUNK_VOLUME - k,
        {
            chunk.push(AIR);
            k = k + 1;
        }
        let mut received: Vec<bool> = Vec::new();
        let mut f: usize = 0;
        while f < FRAGMENTS_PER_CHUNK
            invariant
                f <= FRAGMENTS_PER_CHUNK,
                received@.len() == f,
                forall|j: int| 0 <= j < f ==> !received@[j],
            decreases FRAGMENTS_PER_CHUNK - f,
        {
            received.push(false);
            f = f + 1;
        }
        proof {
            lemma_count_bound(received@);
        }
        ChunkData { chunk, received, fragments: 0, adj_chunks: 0, state: ChunkState::Unmeshed }
    }

    /// Whether the record is well-formed, found by looking at it.
    pub fn check(&self) -> (ok: bool)
        ensures
            ok == self.wf(),
    {
        if self.chunk.len() != CHUNK_VOLUME || self.received.len() != FRAGMENTS_PER_CHUNK {
            return false;
        }
        let mut count: usize = 0;
        let mut i: usize = 0;
        while i < FRAGMENTS_PER_CHUNK
            invariant
                i <= FRAGMENTS_PER_CHUNK,
                self.received@.len() == FRAGMENTS_PER_CHUNK,
                count <= i,
                count == count_true(self.received@.take(i as int)),
            decreases FRAGMENTS_PER_CHUNK - i,
        {
            proof {
                assert(self.received@.take(i + 1).drop_last() =~= self.received@.take(i as int));
            }
            if self.received[i] {
                count = count + 1;
            }
            i = i + 1;
        }
        proof {
            assert(self.received@.take(FRAGMENTS_PER_CHUNK as int) =~= self.received@);
        }
        let settled: bool = match self.state {
            ChunkState::Unmeshed => true,
            _ => self.fragments == FRAGMENTS_PER_CHUNK,
        };
        self.fragments == count && self.adj_chunks <= ALL_NEIGHBORS && settled
    }

    pub fn is_complete(&self) -> (r: bool)
        ensures
            r == self.spec_complete(),
    {
        self.fragments == FRAGMENTS_PER_CHUNK
    }

    pub fn is_meshable(&self) -> (r: bool)
        ensures
            r == self.spec_meshable(),
    {
        let unmeshed: bool = match self.state {
            ChunkState::Unmeshed => true,
            _ => false,
        };
        self.fragments == FRAGMENTS_PER_CHUNK && self.adj_chunks == ALL_NEIGHBORS && unmeshed
    }

    /// Stores the payload of fragment `slot`. A slot out of range or a
    /// payload that is not one column long is rejected; a slot that was
    /// received before is ignored, so a repeated fragment is counted once.
    pub fn receive_fragment(&mut self, slot: usize, payload: &Vec<u16>) -> (outcome: FragmentOutcome)
        requires
            old(self).wf(),
        ensures
            final(self).wf(),
            fragment_step(*old(self), *final(self), slot as int, payload@, outcome),
            final(self).adj_chunks == old(self).adj_chunks,
            final(self).state == old(self).state,
            outcome == FragmentOutcome::Rejected <==> (slot >= FRAGMENTS_PER_CHUNK || payload@.len()
                != CHUNK_SIZE),
            outcome == FragmentOutcome::Duplicate <==> (slot < FRAGMENTS_PER_CHUNK && payload@.len()
                == CHUNK_SIZE && old(self).received@[slot as int]),
            outcome == FragmentOutcome::Rejected || outcome == FragmentOutcome::Duplicate
                ==> *final(self) == *old(self),
            outcome == FragmentOutcome::Stored || outcome == FragmentOutcome::Completed ==> {
                &&& final(self).chunk@ == with_column(old(self).chunk@, slot as int, payload@)
                &&& final(self).received@ == old(self).received@.update(slot as int, true)
                &&& final(self).fragments == old(self).fragments + 1
                &&& final(self).state == ChunkState::Unmeshed
            },
            outcome == FragmentOutcome::Completed ==> final(self).spec_complete(),
            outcome == FragmentOutcome::Stored ==> !final(self).spec_complete(),
    {
        if slot >= FRAGMENTS_PER_CHUNK || payload.len() != CHUNK_SIZE {
            return FragmentOutcome::Rejected;
        }
        if self.received[slot] {
            return FragmentOutcome::Duplicate;
        }
        proof {
            lemma_count_bound(self.received@);
            lemma_count_mark(self.received@, slot as int);
            lemma_count_bound(self.received@.update(slot as int, true));
        }
        let base: usize = slot * CHUNK_SIZE;
        let mut z: usize = 0;
        while z < CHUNK_SIZE
            invariant
                z <= CHUNK_SIZE,
                base == slot * CHUNK_SIZE,
                slot < FRAGMENTS_PER_CHUNK,
                payload@.len() == CHUNK_SIZE,
                self.chunk@.len() == CHUNK_VOLUME,
                self.received == old(self).received,
                self.fragments == old(self).fragments,
                self.adj_chunks == old(self).adj_chunks,
                self.state == old(self).state,
                forall|k: int|
                    0 <= k < CHUNK_VOLUME ==> self.chunk@[k] == (if base <= k < base + z {
                        payload@[k - base]
                    } else {
                        old(self).chunk@[k]
                    }),
            decreases CHUNK_SIZE - z,
        {
            self.chunk[base + z] = payload[z];
            z = z + 1;
        }
        self.received[slot] = true;
        self.fragments = self.fragments + 1;
        assert(self.chunk@ =~= with_column(old(self).chunk@, slot as int, payload@));
        if self.fragments == FRAGMENTS_PER_CHUNK {
            FragmentOutcome::Completed
        } else {
            FragmentOutcome::Stored
        }
    }

    /// The block at `at`.
    pub fn block(&self, at: InnerChunkPos) -> (r: u16)
        requires
            self.wf(),
            at.wf(),
        ensures
            r == self.chunk@[at.spec_offset()],
    {
        self.chunk[at.offset()]
    }

    /// Hands the chunk to the mesher if it is meshable: the state becomes
    /// `Meshing` and the result is `true`. Otherwise nothing changes.
    pub fn begin_meshing(&mut self) -> (started: bool)
        requires
            old(self).wf(),
        ensures
            final(self).wf(),
            started == old(self).spec_meshable(),
            started ==> *final(self) == (ChunkData {
                state: ChunkState::Meshing,
                ..*old(self)
            }),
            !started ==> *final(self) == *old(self),
    {
        if self.is_meshable() {
            self.state = ChunkState::Meshing;
            true
        } else {
            false
        }
    }

    /// Takes the mesher's buffer. A chunk that is being meshed becomes
    /// `Meshed(buffer)` and nothing is to be released. In any other state
    /// the result is stale: the chunk stays as it is and `buffer` comes
    /// back to be released.
    pub fn finish_meshing(&mut self, buffer: u64) -> (release: Option<u64>)
        requires
            old(self).wf(),
        ensures
            final(self).wf(),
            mesh_step(*old(self), *final(self), buffer, release),
            old(self).state == ChunkState::Meshing ==> release.is_none() && *final(self) == (
            ChunkData { state: ChunkState::Meshed(buffer), ..*old(self) }),
            old(self).state != ChunkState::Meshing ==> release == Some(buffer) && *final(self)
                == *old(self),
    {
        match self.state {
            ChunkState::Meshing => {
                self.state = ChunkState::Meshed(buffer);
                None
            },
            _ => Some(buffer),
        }
    }

    /// Sends the chunk back to `Unmeshed`, whatever its state, and returns
    /// the buffer it held, which the caller releases.
    pub fn invalidate(&mut self) -> (release: Option<u64>)
        requires
            old(self).wf(),
        ensures
            final(self).wf(),
            release == old(self).spec_buffer(),
            *final(self) == (ChunkData { state: ChunkState::Unmeshed, ..*old(self) }),
    {
        let release: Option<u64> = match self.state {
            ChunkState::Meshed(buf) => Some(buf),
            _ => None,
        };
        self.state = ChunkState::Unmeshed;
        release
    }

    /// Writes block `id` at `at` and sends the chunk back to `Unmeshed`;
    /// returns the buffer it held, which the caller releases.
    pub fn set_block(&mut self, at: InnerChunkPos, id: u16) -> (release: Option<u64>)
        requires
            old(self).wf(),
            at.wf(),
        ensures
            final(self).wf(),
            release == old(self).spec_buffer(),
            block_step(*old(self), *final(self), at.spec_offset(), id),
            final(self).chunk@ == old(self).chunk@.update(at.spec_offset(), id),
            final(self).received == old(self).received,
            final(self).fragments == old(self).fragments,
            final(self).adj_chunks == old(self).adj_chunks,
            final(self).state == ChunkState::Unmeshed,
    {
        let off: usize = at.offset();
        self.chunk[off] = id;
        self.invalidate()
    }
}

} // verus!
