//! The input actor's view of the world: the registry, the messages that
//! wait for a chunk, and the per-frame steps that act on them.

use crate::chunk::{fragment_step, mesh_step, ChunkData, ChunkState, FragmentOutcome, AIR};
use crate::pos::{
    BlockPos, ChunkPos, FragmentPos, InnerChunkPos, SubIndex, CHUNK_SIZE, CHUNK_VOLUME,
    FRAGMENTS_PER_CHUNK,
};
use crate::registry::{block_written, same_but_adj, ChunkMap, Evicted, Invalidated};
use crate::stream::{
    dispatch_meshing, fits, missing_within, ranked_before, unmesh_unsupported, unsupported,
};
use vstd::prelude::*;

verus! {

/// A message to the input actor, from the network or from the mesher.
#[derive(Debug)]
pub enum ToInput {
    /// One column of a chunk's blocks.
    ChunkFragment { pos: ChunkPos, fragment: FragmentPos, payload: Vec<u16> },
    /// The mesher's vertex buffer for a chunk.
    MeshReady { pos: ChunkPos, buffer: u64 },
    /// The server's word on one block.
    BlockUpdate { block: BlockPos, id: u16 },
}

/// What became of a message.
#[derive(Debug)]
pub enum Delivered {
    /// A fragment reached its chunk.
    Fragment(FragmentOutcome),
    /// A fragment for a chunk that is not held and lies beyond the render
    /// distance; nothing changed.
    Dropped,
    /// A mesh result was handed over; a buffer that comes back is to be
    /// released.
    Mesh(Option<u64>),
    /// A block was written; the chunks listed went back to `Unmeshed`.
    Block(Vec<Invalidated>),
    /// The message needs a chunk that is not held, and waits.
    Parked(ToInput),
}

/// What one run of the streaming policy asks of the other actors.
#[derive(Debug)]
pub struct StreamActions {
    /// Chunks to ask the server for, nearest first.
    pub requests: Vec<ChunkPos>,
    /// Chunks that left the registry, nearest first.
    pub evicted: Vec<Evicted>,
    /// Chunks that went back to `Unmeshed` because a neighbour left.
    pub unmeshed: Vec<Invalidated>,
    /// Chunks to hand to the mesher.
    pub jobs: Vec<ChunkPos>,
}

/// A chunk to draw.
#[derive(PartialEq, Eq, Structural, Clone, Copy, Debug)]
pub struct Draw {
    pub pos: ChunkPos,
    pub buffer: u64,
}

/// State of the input actor.
#[derive(Debug)]
pub struct Client {
    pub chunks: ChunkMap,
    /// Messages that wait for a chunk, oldest first.
    pub pending: Vec<ToInput>,
    /// The chunk the player stands in.
    pub player_chunk: ChunkPos,
    pub render_distance: u32,
    /// Width of the band beyond the render distance in which chunks are
    /// kept.
    pub hysteresis: u64,
}

/// Whether `m` has to wait: it is a block update for a chunk that is not
/// held.
pub open spec fn blocked(chunks: &ChunkMap, m: ToInput) -> bool {
    match m {
        ToInput::BlockUpdate { block, id } => !chunks.spec_contains(block.spec_high()),
        _ => false,
    }
}

/// A record that has received fragment `slot` with `payload` and nothing
/// else.
pub open spec fn first_fragment(post: ChunkData, slot: int, payload: Seq<u16>) -> bool {
    &&& forall|k: int|
        0 <= k < CHUNK_VOLUME ==> #[trigger] post.chunk@[k] == (if slot * CHUNK_SIZE as int <= k < (slot
            + 1) * CHUNK_SIZE as int {
            payload[k - slot * CHUNK_SIZE as int]
        } else {
            AIR
        })
    &&& forall|k: int| 0 <= k < FRAGMENTS_PER_CHUNK ==> #[trigger] post.received@[k] == (k == slot)
    &&& post.fragments == 1
    &&& post.state == ChunkState::Unmeshed
}

/// What delivering a fragment does.
pub open spec fn fragment_delivered(
    pre: Client,
    post: Client,
    pos: ChunkPos,
    fragment: FragmentPos,
    payload: Seq<u16>,
    r: Delivered,
) -> bool {
    if !fragment.wf() || payload.len() != CHUNK_SIZE {
        r == Delivered::Fragment(FragmentOutcome::Rejected) && post.chunks == pre.chunks
    } else if !pre.chunks.spec_contains(pos) && pos.spec_dist(pre.player_chunk)
        > pre.render_distance {
        r == Delivered::Dropped && post.chunks == pre.chunks
    } else {
        &&& post.chunks@.dom() == pre.chunks@.dom().insert(pos)
        &&& forall|q: ChunkPos|
            #[trigger] pre.chunks@.dom().contains(q) && q != pos ==> same_but_adj(
                post.chunks@[q],
                pre.chunks@[q],
            )
        &&& if pre.chunks.spec_contains(pos) {
            r matches Delivered::Fragment(outcome) && fragment_step(
                pre.chunks@[pos],
                post.chunks@[pos],
                fragment.spec_slot(),
                payload,
                outcome,
            )
        } else {
            r == Delivered::Fragment(FragmentOutcome::Stored) && first_fragment(
                post.chunks@[pos],
                fragment.spec_slot(),
                payload,
            )
        }
    }
}

/// What delivering a mesh result does.
pub open spec fn mesh_delivered(pre: Client, post: Client, pos: ChunkPos, buffer: u64, r: Delivered) -> bool {
    &&& post.chunks@.dom() == pre.chunks@.dom()
    &&& forall|q: ChunkPos|
        #[trigger] pre.chunks@.dom().contains(q) && q != pos ==> post.chunks@[q] == pre.chunks@[q]
    &&& r matches Delivered::Mesh(release) && (if pre.chunks@.dom().contains(pos) {
        mesh_step(pre.chunks@[pos], post.chunks@[pos], buffer, release)
    } else {
        release == Some(buffer)
    })
}

/// What delivering a block update does.
pub open spec fn block_delivered(pre: Client, post: Client, pos: BlockPos, id: u16, r: Delivered) -> bool {
    if pre.chunks.spec_contains(pos.spec_high()) {
        r matches Delivered::Block(touched) && block_written(
            &pre.chunks,
            &post.chunks,
            pos.spec_high(),
            pos.spec_low(),
            id,
            touched@,
        )
    } else {
        r == Delivered::Parked(ToInput::BlockUpdate { block: pos, id }) && post.chunks == pre.chunks
    }
}

/// What delivering `m` does to the client, and what it answers.
pub open spec fn delivered(pre: Client, post: Client, m: ToInput, r: Delivered) -> bool {
    &&& post.pending == pre.pending
    &&& post.player_chunk == pre.player_chunk
    &&& post.render_distance == pre.render_distance
    &&& post.hysteresis == pre.hysteresis
    &&& match m {
        ToInput::ChunkFragment { pos, fragment, payload } => fragment_delivered(
            pre,
            post,
            pos,
            fragment,
            payload@,
            r,
        ),
        ToInput::MeshReady { pos, buffer } => mesh_delivered(pre, post, pos, buffer, r),
        ToInput::BlockUpdate { block, id } => block_delivered(pre, post, block, id, r),
    }
}

impl Client {
    /// The registry is well-formed and the hysteresis band is at least one
    /// chunk wide.
    pub open spec fn wf(&self) -> bool {
        self.chunks.wf() && self.hysteresis >= 1
    }

    /// Every chunk held lies within the render distance plus the
    /// hysteresis of the player's chunk.
    pub open spec fn all_in_reach(&self) -> bool {
        forall|q: ChunkPos|
            #[trigger] self.chunks@.dom().contains(q) ==> q.spec_dist(self.player_chunk)
                <= self.spec_limit()
    }

    /// The distance beyond which chunks are evicted.
    pub open spec fn spec_limit(&self) -> int {
        self.render_distance + self.hysteresis
    }

    /// Whether the client is well-formed, found by looking at its
    /// registry.
    pub fn check(&self) -> (ok: bool)
        ensures
            ok == self.wf(),
    {
        self.hysteresis >= 1 && self.chunks.check()
    }

    /// Whether every chunk within the render distance of the player has
    /// coordinates that fit the machine's integers, as the streaming
    /// policy needs.
    pub fn in_range(&self) -> (ok: bool)
        ensures
            ok == fits(self.player_chunk, self.render_distance as int),
    {
        let reach: i64 = self.render_distance as i64;
        let c: ChunkPos = self.player_chunk;
        c.x >= i64::MIN + reach && c.x <= i64::MAX - reach && c.y >= i64::MIN + reach && c.y
            <= i64::MAX - reach && c.z >= i64::MIN + reach && c.z <= i64::MAX - reach
    }

    /// A client that holds no chunk, or `None` where the hysteresis band
    /// would be empty.
    pub fn new(player_chunk: ChunkPos, render_distance: u32, hysteresis: u64) -> (r: Option<Client>)
        ensures
            r.is_some() <==> hysteresis >= 1,
            r.is_some() ==> {
                let c = r.unwrap();
                &&& c.wf()
                &&& c.chunks@.dom() == Set::<ChunkPos>::empty()
                &&& c.chunks.entries@.len() == 0
                &&& c.pending@.len() == 0
                &&& c.player_chunk == player_chunk
                &&& c.render_distance == render_distance
                &&& c.hysteresis == hysteresis
            },
    {
        if hysteresis == 0 {
            return None;
        }
        Some(
            Client {
                chunks: ChunkMap::new(),
                pending: Vec::new(),
                player_chunk,
                render_distance,
                hysteresis,
            },
        )
    }

    /// Delivers one message. A fragment goes to its chunk, which is created
    /// first if it is not held and lies within the render distance; a mesh
    /// result goes to its chunk or comes back; a block update is written,
    /// or comes back parked where its chunk is not held.
    pub fn deliver(&mut self, m: ToInput) -> (r: Delivered)
        requires
            old(self).wf(),
        ensures
            final(self).wf(),
            delivered(*old(self), *final(self), m, r),
            r is Parked <==> blocked(&old(self).chunks, m),
            forall|q: ChunkPos|
                old(self).chunks.spec_contains(q) ==> final(self).chunks.spec_contains(q),
            old(self).all_in_reach() ==> final(self).all_in_reach(),
    {
        let ghost pre = *self;
        match m {
            ToInput::ChunkFragment { pos, fragment, payload } => {
                let slot: Option<usize> = fragment.slot();
                if slot.is_none() || payload.len() != CHUNK_SIZE {
                    return Delivered::Fragment(FragmentOutcome::Rejected);
                }
                let known: bool = self.chunks.contains_key(pos);
                if !known {
                    if pos.orthogonal_dist(self.player_chunk) > self.render_distance as u64 {
                        return Delivered::Dropped;
                    }
                    self.chunks.insert(pos);
                }
                let ghost mid = *self;
                let outcome: FragmentOutcome = self.chunks.store_fragment(pos, slot.unwrap(), &payload);
                proof {
                    assert(mid.chunks@.dom().contains(pos));
                    if !known {
                        let fresh = mid.chunks@[pos];
                        let got = self.chunks@[pos];
                        assert(fresh.wf());
                        assert(!fresh.received@[slot.unwrap() as int]);
                        assert(got.chunk@ == crate::chunk::with_column(
                            fresh.chunk@,
                            slot.unwrap() as int,
                            payload@,
                        ));
                        assert(first_fragment(got, fragment.spec_slot(), payload@));
                    }
                    assert(self.chunks@.dom() =~= pre.chunks@.dom().insert(pos));
                    assert forall|q: ChunkPos| #[trigger]
                        pre.chunks@.dom().contains(q) && q != pos implies same_but_adj(
                        self.chunks@[q],
                        pre.chunks@[q],
                    ) by {
                        assert(mid.chunks@.dom().contains(q));
                        if !known {
                            assert(same_but_adj(mid.chunks@[q], pre.chunks@[q]));
                        }
                    }
                    assert forall|q: ChunkPos| pre.chunks.spec_contains(q) implies self.chunks.spec_contains(
                        q,
                    ) by {
                        assert(pre.chunks@.dom().contains(q));
                        assert(self.chunks@.dom().contains(q));
                    }
                }
                Delivered::Fragment(outcome)
            },
            ToInput::MeshReady { pos, buffer } => {
                let release: Option<u64> = self.chunks.finish_meshing(pos, buffer);
                proof {
                    assert forall|q: ChunkPos| pre.chunks.spec_contains(q) implies self.chunks.spec_contains(
                        q,
                    ) by {
                        assert(pre.chunks@.dom().contains(q));
                        assert(self.chunks@.dom().contains(q));
                    }
                }
                Delivered::Mesh(release)
            },
            ToInput::BlockUpdate { block, id } => {
                let pos: BlockPos = block;
                let c: ChunkPos = pos.high();
                if self.chunks.contains_key(c) {
                    let at: InnerChunkPos = pos.low();
                    let touched: Vec<Invalidated> = self.chunks.set_block(c, at, id);
                    proof {
                        assert forall|q: ChunkPos| pre.chunks.spec_contains(q) implies self.chunks.spec_contains(
                            q,
                        ) by {
                            assert(pre.chunks@.dom().contains(q));
                            assert(self.chunks@.dom().contains(q));
                        }
                    }
                    Delivered::Block(touched)
                } else {
                    Delivered::Parked(ToInput::BlockUpdate { block: pos, id })
                }
            },
        }
    }

    /// Delivers each waiting message once more, oldest first, and keeps
    /// those that still have to wait, in their order. The result says
    /// whether any message got through; where none did, nothing changed
    /// and every waiting message is blocked.
    pub fn retry_pass(&mut self, outcomes: &mut Vec<Delivered>) -> (progress: bool)
        requires
            old(self).wf(),
        ensures
            final(self).wf(),
            final(self).player_chunk == old(self).player_chunk,
            final(self).render_distance == old(self).render_distance,
            final(self).hysteresis == old(self).hysteresis,
            final(self).pending@.len() <= old(self).pending@.len(),
            progress == (final(self).pending@.len() < old(self).pending@.len()),
            !progress ==> final(self).chunks == old(self).chunks && final(self).pending@ == old(self).pending@ && final(outcomes)@ == old(outcomes)@,
            !progress ==> forall|k: int|
                0 <= k < final(self).pending@.len() ==> blocked(
                    &final(self).chunks,
                    #[trigger] final(self).pending@[k],
                ),
            forall|q: ChunkPos|
                old(self).chunks.spec_contains(q) ==> final(self).chunks.spec_contains(q),
            final(outcomes)@.len() == old(outcomes)@.len() + old(self).pending@.len() - final(self).pending@.len(),
            forall|k: int|
                0 <= k < old(outcomes)@.len() ==> final(outcomes)@[k] == old(outcomes)@[k],
            forall|k: int|
                old(outcomes)@.len() <= k < final(outcomes)@.len() ==> !(
                #[trigger] final(outcomes)@[k] is Parked),
            forall|k: int|
                0 <= k < final(self).pending@.len() ==> old(self).pending@.contains(
                    #[trigger] final(self).pending@[k],
                ),
            old(self).all_in_reach() ==> final(self).all_in_reach(),
    {
        let ghost init = *self;
        let mut queue: Vec<ToInput> = Vec::new();
        std::mem::swap(&mut queue, &mut self.pending);
        let ghost all = queue@;
        let n: usize = queue.len();
        let mut i: usize = 0;
        while queue.len() > 0
            invariant
                self.wf(),
                n == all.len(),
                i <= n,
                queue@.len() == n - i,
                queue@ == all.subrange(i as int, n as int),
                all == init.pending@,
                self.player_chunk == init.player_chunk,
                self.render_distance == init.render_distance,
                self.hysteresis == init.hysteresis,
                self.pending@.len() <= i,
                outcomes@.len() == old(outcomes)@.len() + i - self.pending@.len(),
                forall|k: int| 0 <= k < old(outcomes)@.len() ==> outcomes@[k] == old(outcomes)@[k],
                self.pending@.len() == i ==> self.chunks == init.chunks && self.pending@
                    == all.subrange(0, i as int) && outcomes@ == old(outcomes)@,
                self.pending@.len() == i ==> forall|k: int|
                    0 <= k < i ==> blocked(&init.chunks, #[trigger] all[k]),
                forall|q: ChunkPos| init.chunks.spec_contains(q) ==> self.chunks.spec_contains(q),
                forall|k: int|
                    old(outcomes)@.len() <= k < outcomes@.len() ==> !(#[trigger] outcomes@[k] is Parked),
                forall|k: int|
                    0 <= k < self.pending@.len() ==> all.contains(#[trigger] self.pending@[k]),
                init.all_in_reach() ==> self.all_in_reach(),
            decreases queue@.len(),
        {
            let ghost kept = self.pending@;
            let ghost seen = outcomes@;
            let m: ToInput = queue.remove(0);
            assert(m == all[i as int]);
            assert(queue@ =~= all.subrange(i + 1, n as int));
            let r: Delivered = self.deliver(m);
            match r {
                Delivered::Parked(back) => {
                    self.pending.push(back);
                    proof {
                        assert(back == all[i as int]);
                        if kept.len() == i {
                            assert(self.pending@ =~= all.subrange(0, i + 1));
                        }
                        assert forall|k: int| 0 <= k < self.pending@.len() implies all.contains(
                            #[trigger] self.pending@[k],
                        ) by {
                            if k < kept.len() {
                                assert(self.pending@[k] == kept[k]);
                            }
                        }
                    }
                },
                other => {
                    outcomes.push(other);
                    proof {
                        assert forall|k: int| old(outcomes)@.len() <= k < outcomes@.len() implies !(
                        #[trigger] outcomes@[k] is Parked) by {
                            if k < seen.len() {
                                assert(outcomes@[k] == seen[k]);
                            }
                        }
                    }
                },
            }
            i = i + 1;
        }
        proof {
            if self.pending@.len() == n {
                assert(all.subrange(0, n as int) =~= all);
            }
        }
        self.pending.len() < n
    }

    /// Retries the waiting messages until a whole pass lets none through.
    /// After it, every message that still waits is blocked: none waits
    /// whose chunk is held.
    pub fn process_chunk_messages(&mut self) -> (outcomes: Vec<Delivered>)
        requires
            old(self).wf(),
        ensures
            final(self).wf(),
            final(self).player_chunk == old(self).player_chunk,
            final(self).render_distance == old(self).render_distance,
            final(self).hysteresis == old(self).hysteresis,
            forall|k: int|
                0 <= k < final(self).pending@.len() ==> blocked(
                    &final(self).chunks,
                    #[trigger] final(self).pending@[k],
                ),
            forall|q: ChunkPos|
                old(self).chunks.spec_contains(q) ==> final(self).chunks.spec_contains(q),
            final(self).pending@.len() + outcomes@.len() == old(self).pending@.len(),
            outcomes@.len() == 0 ==> final(self).chunks == old(self).chunks && final(self).pending@
                == old(self).pending@,
            forall|k: int| 0 <= k < outcomes@.len() ==> !(#[trigger] outcomes@[k] is Parked),
            forall|k: int|
                0 <= k < final(self).pending@.len() ==> old(self).pending@.contains(
                    #[trigger] final(self).pending@[k],
                ),
            old(self).all_in_reach() ==> final(self).all_in_reach(),
    {
        let mut outcomes: Vec<Delivered> = Vec::new();
        let mut progress: bool = true;
        while progress
            invariant
                self.wf(),
                self.player_chunk == old(self).player_chunk,
                self.render_distance == old(self).render_distance,
                self.hysteresis == old(self).hysteresis,
                !progress ==> forall|k: int|
                    0 <= k < self.pending@.len() ==> blocked(&self.chunks, #[trigger] self.pending@[k]),
                forall|q: ChunkPos| old(self).chunks.spec_contains(q) ==> self.chunks.spec_contains(q),
                self.pending@.len() + outcomes@.len() == old(self).pending@.len(),
                outcomes@.len() == 0 ==> self.chunks == old(self).chunks && self.pending@ == old(self).pending@,
                forall|k: int| 0 <= k < outcomes@.len() ==> !(#[trigger] outcomes@[k] is Parked),
                forall|k: int|
                    0 <= k < self.pending@.len() ==> old(self).pending@.contains(
                        #[trigger] self.pending@[k],
                    ),
                old(self).all_in_reach() ==> self.all_in_reach(),
            decreases
                    self.pending@.len(),
                    if progress {
                        1int
                    } else {
                        0int
                    },
        {
            progress = self.retry_pass(&mut outcomes);
        }
        outcomes
    }

    /// Delivers the messages of `inbox` in their order, parks those that
    /// have to wait behind the ones that wait already, and then retries the
    /// waiting messages until none gets through. After it, every message
    /// that still waits is blocked.
    pub fn process_messages(&mut self, inbox: Vec<ToInput>) -> (outcomes: Vec<Delivered>)
        requires
            old(self).wf(),
        ensures
            final(self).wf(),
            final(self).player_chunk == old(self).player_chunk,
            final(self).render_distance == old(self).render_distance,
            final(self).hysteresis == old(self).hysteresis,
            forall|k: int|
                0 <= k < final(self).pending@.len() ==> blocked(
                    &final(self).chunks,
                    #[trigger] final(self).pending@[k],
                ),
            forall|q: ChunkPos|
                old(self).chunks.spec_contains(q) ==> final(self).chunks.spec_contains(q),
            final(self).pending@.len() + outcomes@.len() == old(self).pending@.len() + inbox@.len(),
            forall|k: int| 0 <= k < outcomes@.len() ==> !(#[trigger] outcomes@[k] is Parked),
            forall|k: int|
                0 <= k < final(self).pending@.len() ==> old(self).pending@.contains(
                    #[trigger] final(self).pending@[k],
                ) || inbox@.contains(final(self).pending@[k]),
            old(self).all_in_reach() ==> final(self).all_in_reach(),
    {
        let mut queue: Vec<ToInput> = inbox;
        let ghost all = queue@;
        let ghost total = all.len();
        let n: usize = queue.len();
        let mut outcomes: Vec<Delivered> = Vec::new();
        let mut i: usize = 0;
        while queue.len() > 0
            invariant
                self.wf(),
                self.player_chunk == old(self).player_chunk,
                self.render_distance == old(self).render_distance,
                self.hysteresis == old(self).hysteresis,
                total == all.len(),
                n == total,
                all == inbox@,
                i <= total,
                queue@ == all.subrange(i as int, total as int),
                forall|q: ChunkPos| old(self).chunks.spec_contains(q) ==> self.chunks.spec_contains(q),
                self.pending@.len() + outcomes@.len() + queue@.len() == old(self).pending@.len()
                    + total,
                forall|k: int| 0 <= k < outcomes@.len() ==> !(#[trigger] outcomes@[k] is Parked),
                forall|k: int|
                    0 <= k < self.pending@.len() ==> old(self).pending@.contains(
                        #[trigger] self.pending@[k],
                    ) || all.contains(self.pending@[k]),
                old(self).all_in_reach() ==> self.all_in_reach(),
            decreases queue@.len(),
        {
            let ghost kept = self.pending@;
            let ghost seen = outcomes@;
            let m: ToInput = queue.remove(0);
            assert(m == all[i as int]);
            assert(queue@ =~= all.subrange(i + 1, total as int));
            let r: Delivered = self.deliver(m);
            match r {
                Delivered::Parked(back) => {
                    self.pending.push(back);
                    proof {
                        assert(back == all[i as int]);
                        assert forall|k: int| 0 <= k < self.pending@.len() implies old(self).pending@.contains(#[trigger] self.pending@[k]) || all.contains(
                            self.pending@[k],
                        ) by {
                            if k < kept.len() {
                                assert(self.pending@[k] == kept[k]);
                            }
                        }
                    }
                },
                other => {
                    outcomes.push(other);
                    proof {
                        assert forall|k: int| 0 <= k < outcomes@.len() implies !(
                        #[trigger] outcomes@[k] is Parked) by {
                            if k < seen.len() {
                                assert(outcomes@[k] == seen[k]);
                            }
                        }
                    }
                },
            }
            i = i + 1;
        }
        let ghost mid = *self;
        let ghost first = outcomes@;
        let mut later: Vec<Delivered> = self.process_chunk_messages();
        let ghost second = later@;
        outcomes.append(&mut later);
        proof {
            assert forall|k: int| 0 <= k < outcomes@.len() implies !(#[trigger] outcomes@[k] is Parked) by {
                if k < first.len() {
                    assert(outcomes@[k] == first[k]);
                } else {
                    assert(outcomes@[k] == second[k - first.len()]);
                }
            }
            assert forall|k: int| 0 <= k < self.pending@.len() implies old(self).pending@.contains(
                #[trigger] self.pending@[k],
            ) || all.contains(self.pending@[k]) by {
                let m = self.pending@[k];
                assert(mid.pending@.contains(m));
                let j = choose|j: int| 0 <= j < mid.pending@.len() && mid.pending@[j] == m;
                assert(old(self).pending@.contains(mid.pending@[j]) || all.contains(mid.pending@[j]));
            }
        }
        outcomes
    }

    /// The streaming policy, run once per frame. It lists the chunks
    /// within the render distance that are not held, nearest first; evicts
    /// every chunk farther from the player than the render distance plus
    /// the hysteresis, nearest first; sends every chunk that was being
    /// meshed or was meshed and has lost a neighbour back to `Unmeshed`;
    /// and hands every chunk that is then meshable to the mesher.
    pub fn fetch_close_chunks(&mut self) -> (actions: StreamActions)
        requires
            old(self).wf(),
            fits(old(self).player_chunk, old(self).render_distance as int),
        ensures
            final(self).wf(),
            final(self).pending == old(self).pending,
            final(self).player_chunk == old(self).player_chunk,
            final(self).render_distance == old(self).render_distance,
            final(self).hysteresis == old(self).hysteresis,
            forall|c: ChunkPos| #[trigger]
                actions.requests@.contains(c) <==> (c.spec_dist(old(self).player_chunk) <= old(self).render_distance && !old(self).chunks.spec_contains(c)),
            forall|k: int, l: int|
                0 <= k < l < actions.requests@.len() ==> ranked_before(
                    #[trigger] actions.requests@[k],
                    #[trigger] actions.requests@[l],
                    old(self).player_chunk,
                ),
            forall|q: ChunkPos|
                #[trigger] final(self).chunks@.dom().contains(q) <==> (old(self).chunks@.dom().contains(
                    q,
                ) && q.spec_dist(old(self).player_chunk) <= old(self).spec_limit()),
            forall|k: int|
                0 <= k < actions.evicted@.len() ==> old(self).chunks@.dom().contains(
                    (#[trigger] actions.evicted@[k]).pos,
                ) && actions.evicted@[k].pos.spec_dist(old(self).player_chunk) > old(self).spec_limit()
                    && actions.evicted@[k].buffer == old(self).chunks@[actions.evicted@[k].pos].spec_buffer(),
            forall|q: ChunkPos|
                old(self).chunks@.dom().contains(q) && q.spec_dist(old(self).player_chunk) > old(self).spec_limit() ==> exists|k: int|
                    0 <= k < actions.evicted@.len() && (#[trigger] actions.evicted@[k]).pos == q,
            forall|k: int, l: int|
                0 <= k < l < actions.evicted@.len() ==> (#[trigger] actions.evicted@[k]).pos != (
                #[trigger] actions.evicted@[l]).pos && actions.evicted@[k].pos.spec_dist(
                    old(self).player_chunk,
                ) <= actions.evicted@[l].pos.spec_dist(old(self).player_chunk),
            forall|q: ChunkPos| #[trigger]
                actions.jobs@.contains(q) <==> (final(self).chunks@.dom().contains(q) && old(self).chunks@[q].state == ChunkState::Unmeshed && final(self).chunks@[q].spec_complete()
                    && final(self).chunks@[q].adj_chunks == crate::chunk::ALL_NEIGHBORS),
            forall|k: int, l: int|
                0 <= k < l < actions.jobs@.len() ==> #[trigger] actions.jobs@[k]
                    != #[trigger] actions.jobs@[l],
            forall|q: ChunkPos|
                #[trigger] final(self).chunks@.dom().contains(q) ==> !final(self).chunks@[q].spec_meshable(),
            final(self).all_in_reach(),
            forall|q: ChunkPos|
                #[trigger] final(self).chunks@.dom().contains(q) ==> {
                    &&& final(self).chunks@[q].chunk == old(self).chunks@[q].chunk
                    &&& final(self).chunks@[q].received == old(self).chunks@[q].received
                    &&& final(self).chunks@[q].fragments == old(self).chunks@[q].fragments
                    &&& final(self).chunks@[q].state == (if actions.jobs@.contains(q) {
                        ChunkState::Meshing
                    } else if final(self).chunks@[q].adj_chunks != crate::chunk::ALL_NEIGHBORS {
                        ChunkState::Unmeshed
                    } else {
                        old(self).chunks@[q].state
                    })
                    &&& !unsupported(final(self).chunks@[q])
                },
            forall|k: int|
                0 <= k < actions.unmeshed@.len() ==> {
                    let item = #[trigger] actions.unmeshed@[k];
                    &&& final(self).chunks@.dom().contains(item.pos)
                    &&& old(self).chunks@[item.pos].state != ChunkState::Unmeshed
                    &&& final(self).chunks@[item.pos].adj_chunks != crate::chunk::ALL_NEIGHBORS
                    &&& item.buffer == old(self).chunks@[item.pos].spec_buffer()
                },
            forall|q: ChunkPos|
                #[trigger] final(self).chunks@.dom().contains(q) && old(self).chunks@[q].state
                    != ChunkState::Unmeshed && final(self).chunks@[q].adj_chunks
                    != crate::chunk::ALL_NEIGHBORS ==> exists|k: int|
                    0 <= k < actions.unmeshed@.len() && (#[trigger] actions.unmeshed@[k]).pos == q,
            forall|k: int, l: int|
                0 <= k < l < actions.unmeshed@.len() ==> (#[trigger] actions.unmeshed@[k]).pos != (
                #[trigger] actions.unmeshed@[l]).pos,
    {
        let ghost pre = *self;
        let center: ChunkPos = self.player_chunk;
        let requests: Vec<ChunkPos> = missing_within(&self.chunks, center, self.render_distance);
        let reach: u64 = self.render_distance as u64;
        let limit: u64 = if self.hysteresis > u64::MAX - reach {
            u64::MAX
        } else {
            reach + self.hysteresis
        };
        let evicted: Vec<Evicted> = self.chunks.evict_far(center, limit);
        let ghost kept = *self;
        let unmeshed: Vec<Invalidated> = unmesh_unsupported(&mut self.chunks);
        let ghost mid = *self;
        let jobs: Vec<ChunkPos> = dispatch_meshing(&mut self.chunks);
        proof {
            assert forall|q: ChunkPos| #[trigger]
                self.chunks@.dom().contains(q) <==> (pre.chunks@.dom().contains(q) && q.spec_dist(center)
                    <= pre.spec_limit()) by {
                assert(self.chunks@.dom().contains(q) == kept.chunks@.dom().contains(q));
            }
            assert forall|q: ChunkPos| #[trigger] self.chunks@.dom().contains(q) implies {
                &&& self.chunks@[q].chunk == pre.chunks@[q].chunk
                &&& self.chunks@[q].received == pre.chunks@[q].received
                &&& self.chunks@[q].fragments == pre.chunks@[q].fragments
                &&& self.chunks@[q].adj_chunks == kept.chunks@[q].adj_chunks
                &&& self.chunks@[q].state == (if jobs@.contains(q) {
                    ChunkState::Meshing
                } else if self.chunks@[q].adj_chunks != crate::chunk::ALL_NEIGHBORS {
                    ChunkState::Unmeshed
                } else {
                    pre.chunks@[q].state
                })
                &&& !unsupported(self.chunks@[q])
            } by {
                assert(kept.chunks@.dom().contains(q));
                assert(mid.chunks@.dom().contains(q));
                assert(same_but_adj(kept.chunks@[q], pre.chunks@[q]));
            }
            assert forall|q: ChunkPos| #[trigger]
                jobs@.contains(q) <==> (self.chunks@.dom().contains(q) && pre.chunks@[q].state
                    == ChunkState::Unmeshed && self.chunks@[q].spec_complete()
                    && self.chunks@[q].adj_chunks == crate::chunk::ALL_NEIGHBORS) by {
                if kept.chunks@.dom().contains(q) {
                    assert(mid.chunks@.dom().contains(q));
                    assert(self.chunks@.dom().contains(q));
                    assert(same_but_adj(kept.chunks@[q], pre.chunks@[q]));
                }
            }
            assert forall|k: int| 0 <= k < unmeshed@.len() implies {
                let item = #[trigger] unmeshed@[k];
                &&& self.chunks@.dom().contains(item.pos)
                &&& pre.chunks@[item.pos].state != ChunkState::Unmeshed
                &&& self.chunks@[item.pos].adj_chunks != crate::chunk::ALL_NEIGHBORS
                &&& item.buffer == pre.chunks@[item.pos].spec_buffer()
            } by {
                let q = unmeshed@[k].pos;
                assert(kept.chunks@.dom().contains(q));
                assert(mid.chunks@.dom().contains(q));
                assert(self.chunks@.dom().contains(q));
                assert(same_but_adj(kept.chunks@[q], pre.chunks@[q]));
            }
            assert forall|q: ChunkPos| #[trigger]
                self.chunks@.dom().contains(q) && pre.chunks@[q].state != ChunkState::Unmeshed
                    && self.chunks@[q].adj_chunks != crate::chunk::ALL_NEIGHBORS implies exists|k: int|
                0 <= k < unmeshed@.len() && (#[trigger] unmeshed@[k]).pos == q by {
                assert(kept.chunks@.dom().contains(q));
                assert(mid.chunks@.dom().contains(q));
                assert(same_but_adj(kept.chunks@[q], pre.chunks@[q]));
                assert(unsupported(kept.chunks@[q]));
            }
        }
        StreamActions { requests, evicted, unmeshed, jobs }
    }

    /// The chunks to draw: each meshed chunk within the render distance of
    /// the player, once, with its buffer.
    pub fn visible(&self) -> (draws: Vec<Draw>)
        requires
            self.wf(),
        ensures
            forall|k: int|
                0 <= k < draws@.len() ==> self.chunks@.dom().contains((#[trigger] draws@[k]).pos)
                    && self.chunks@[draws@[k].pos].state == ChunkState::Meshed(draws@[k].buffer)
                    && draws@[k].pos.spec_dist(self.player_chunk) <= self.render_distance,
            forall|q: ChunkPos, b: u64|
                self.chunks@.dom().contains(q) && self.chunks@[q].state == ChunkState::Meshed(b)
                    && q.spec_dist(self.player_chunk) <= self.render_distance ==> draws@.contains(
                    Draw { pos: q, buffer: b },
                ),
            forall|k: int, l: int|
                0 <= k < l < draws@.len() ==> (#[trigger] draws@[k]).pos != (#[trigger] draws@[l]).pos,
    {
        let mut draws: Vec<Draw> = Vec::new();
        let n: usize = self.chunks.entries.len();
        let mut i: usize = 0;
        while i < n
            invariant
                i <= n,
                n == self.chunks.entries@.len(),
                self.wf(),
                forall|k: int|
                    0 <= k < draws@.len() ==> drawn_among(self, #[trigger] draws@[k], i as int),
                forall|j: int|
                    0 <= j < i && (#[trigger] self.chunks.entries@[j]).data.spec_buffer().is_some()
                        && self.chunks.entries@[j].pos.spec_dist(self.player_chunk)
                        <= self.render_distance ==> draws@.contains(
                        Draw {
                            pos: self.chunks.entries@[j].pos,
                            buffer: self.chunks.entries@[j].data.spec_buffer().unwrap(),
                        },
                    ),
                forall|k: int, l: int|
                    0 <= k < l < draws@.len() ==> (#[trigger] draws@[k]).pos != (
                    #[trigger] draws@[l]).pos,
            decreases n - i,
        {
            let ghost prev = draws@;
            let q: ChunkPos = self.chunks.entries[i].pos;
            let near: bool = q.orthogonal_dist(self.player_chunk) <= self.render_distance as u64;
            match self.chunks.entries[i].data.state {
                ChunkState::Meshed(buffer) => {
                    if near {
                        draws.push(Draw { pos: q, buffer });
                    }
                },
                _ => {},
            }
            proof {
                assert forall|k: int| 0 <= k < prev.len() implies draws@[k] == prev[k] by {}
                assert forall|k: int| 0 <= k < draws@.len() implies drawn_among(
                    self,
                    #[trigger] draws@[k],
                    i + 1,
                ) by {
                    if k < prev.len() {
                        assert(drawn_among(self, prev[k], i as int));
                        let j = choose|j: int|
                            0 <= j < i && (#[trigger] self.chunks.entries@[j]).pos == prev[k].pos
                                && self.chunks.entries@[j].data.state == ChunkState::Meshed(
                                prev[k].buffer,
                            ) && prev[k].pos.spec_dist(self.player_chunk) <= self.render_distance;
                        assert(self.chunks.entries@[j].pos == draws@[k].pos);
                    } else {
                        assert(self.chunks.entries@[i as int].pos == draws@[k].pos);
                    }
                }
                assert forall|j: int|
                    0 <= j < i + 1 && (#[trigger] self.chunks.entries@[j]).data.spec_buffer().is_some()
                        && self.chunks.entries@[j].pos.spec_dist(self.player_chunk)
                        <= self.render_distance implies draws@.contains(
                    Draw {
                        pos: self.chunks.entries@[j].pos,
                        buffer: self.chunks.entries@[j].data.spec_buffer().unwrap(),
                    },
                ) by {
                    let item = Draw {
                        pos: self.chunks.entries@[j].pos,
                        buffer: self.chunks.entries@[j].data.spec_buffer().unwrap(),
                    };
                    if j < i {
                        assert(prev.contains(item));
                        let k = choose|k: int| 0 <= k < prev.len() && prev[k] == item;
                        assert(draws@[k] == item);
                    } else {
                        assert(draws@[prev.len() as int] == item);
                    }
                }
                assert forall|k: int, l: int| 0 <= k < l < draws@.len() implies (
                #[trigger] draws@[k]).pos != (#[trigger] draws@[l]).pos by {
                    if l < prev.len() {
                        assert(prev[k].pos != prev[l].pos);
                    } else {
                        assert(drawn_among(self, prev[k], i as int));
                        let j = choose|j: int|
                            0 <= j < i && (#[trigger] self.chunks.entries@[j]).pos == prev[k].pos
                                && self.chunks.entries@[j].data.state == ChunkState::Meshed(
                                prev[k].buffer,
                            ) && prev[k].pos.spec_dist(self.player_chunk) <= self.render_distance;
                        assert(self.chunks.entries@[j].pos != self.chunks.entries@[i as int].pos);
                    }
                }
            }
            i = i + 1;
        }
        proof {
            assert forall|k: int| 0 <= k < draws@.len() implies self.chunks@.dom().contains(
                (#[trigger] draws@[k]).pos,
            ) && self.chunks@[draws@[k].pos].state == ChunkState::Meshed(draws@[k].buffer)
                && draws@[k].pos.spec_dist(self.player_chunk) <= self.render_distance by {
                assert(drawn_among(self, draws@[k], n as int));
                let j = choose|j: int|
                    0 <= j < n && (#[trigger] self.chunks.entries@[j]).pos == draws@[k].pos
                        && self.chunks.entries@[j].data.state == ChunkState::Meshed(draws@[k].buffer)
                        && draws@[k].pos.spec_dist(self.player_chunk) <= self.render_distance;
                self.chunks.lemma_entry(j);
            }
            assert forall|q: ChunkPos, b: u64|
                self.chunks@.dom().contains(q) && self.chunks@[q].state == ChunkState::Meshed(b)
                    && q.spec_dist(self.player_chunk) <= self.render_distance implies draws@.contains(
                Draw { pos: q, buffer: b },
            ) by {
                let j = self.chunks.spec_index_of(q);
                self.chunks.lemma_entry(j);
                assert(self.chunks.entries@[j].data.spec_buffer() == Some(b));
            }
        }
        draws
    }
}

/// Whether `item` names one of the first `i` chunks of the client, which is
/// meshed with the item's buffer and within the render distance.
spec fn drawn_among(client: &Client, item: Draw, i: int) -> bool {
    exists|j: int|
        0 <= j < i && (#[trigger] client.chunks.entries@[j]).pos == item.pos
            && client.chunks.entries@[j].data.state == ChunkState::Meshed(item.buffer)
            && item.pos.spec_dist(client.player_chunk) <= client.render_distance
}

} // verus!
