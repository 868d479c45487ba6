//! The simulated world: its chunks and its players, and the player's tick
//! as far as it depends on which chunks are loaded.

use crate::chunk::AIR;
use crate::controls::{PlayerControls, PlayerKey};
use crate::pos::{BlockPos, ChunkPos, InnerChunkPos, SubIndex};
use crate::registry::{block_written, ChunkMap, Invalidated};
use vstd::prelude::*;

verus! {

/// A player as the simulation sees it: the block it stands in and what it
/// holds down.
#[derive(Debug)]
pub struct Player {
    /// The block the player stands in.
    pub block: BlockPos,
    pub render_distance: u64,
    pub keys: PlayerControls,
    pub id: u64,
    /// Whether this player takes part in the simulation.
    pub active: bool,
}

/// What a tick did besides moving the player.
#[derive(Debug)]
pub struct TickReport {
    /// Whether the player stands where it wanted to go.
    pub moved: bool,
    /// The chunks that a hit sent back to `Unmeshed`, where the player hit
    /// a block; the block change is then to be sent to the server.
    pub hit: Option<Vec<Invalidated>>,
}

/// The players of a world.
#[derive(Debug)]
pub struct PlayerSet {
    pub players: Vec<Player>,
}

/// Chunks and players.
#[derive(Debug)]
pub struct World {
    pub chunks: ChunkMap,
    pub players: PlayerSet,
}

impl PlayerSet {
    /// No players.
    pub fn new() -> (r: PlayerSet)
        ensures
            r.players@.len() == 0,
    {
        PlayerSet { players: Vec::new() }
    }
}

impl World {
    /// A world without chunks and without players.
    pub fn new() -> (r: World)
        ensures
            r.chunks.wf(),
            r.chunks@.dom() == Set::<ChunkPos>::empty(),
            r.chunks.entries@.len() == 0,
            r.players.players@.len() == 0,
    {
        World { chunks: ChunkMap::new(), players: PlayerSet::new() }
    }
}

/// Whether the player may stand in chunk `c`: the chunk is held and
/// complete.
pub open spec fn standable(world: &ChunkMap, c: ChunkPos) -> bool {
    world@.dom().contains(c) && world@[c].spec_complete()
}

impl Player {
    /// A player at `block` that holds no key and sees no chunk yet.
    pub fn new(id: u64, block: BlockPos, active: bool) -> (r: Player)
        ensures
            r.id == id,
            r.block == block,
            r.active == active,
            r.render_distance == 0,
            r.keys@ == 0,
    {
        Player { block, render_distance: 0, keys: PlayerControls::none(), id, active }
    }

    /// The block the player stands in.
    pub fn get_pos(&self) -> (r: BlockPos)
        ensures
            r == self.block,
    {
        self.block
    }

    /// Takes over the keys of an input snapshot.
    pub fn set_input(&mut self, keys: PlayerControls)
        ensures
            *final(self) == (Player { keys, ..*old(self) }),
    {
        self.keys = keys;
    }

    /// The chunk the player stands in.
    pub fn chunk_pos(&self) -> (r: ChunkPos)
        ensures
            r == self.block.spec_high(),
    {
        self.block.high()
    }

    /// The player's place inside its chunk.
    pub fn inner_chunk_pos(&self) -> (r: InnerChunkPos)
        ensures
            r == self.block.spec_low(),
            r.wf(),
    {
        self.block.low()
    }

    /// One tick of a player that wants to go to `target`. An inactive
    /// player does nothing. Otherwise, where `Hit` is held and the chunk of
    /// `target` is held, the block at `target` becomes air; then the player
    /// moves to `target` if its chunk is held and complete, and stays where
    /// it was if not. So after a tick the player's chunk is held, or the
    /// player has not moved.
    pub fn tick(&mut self, target: BlockPos, world: &mut ChunkMap) -> (report: TickReport)
        requires
            old(world).wf(),
        ensures
            final(world).wf(),
            final(self).render_distance == old(self).render_distance,
            final(self).keys == old(self).keys,
            final(self).id == old(self).id,
            final(self).active == old(self).active,
            !old(self).active ==> *final(world) == *old(world) && final(self).block == old(self).block
                && report.hit.is_none() && !report.moved,
            old(self).active ==> {
                &&& if old(self).keys.spec_pressed(PlayerKey::Hit) && old(world).spec_contains(
                    target.spec_high(),
                ) {
                    report.hit matches Some(touched) && block_written(
                        old(world),
                        final(world),
                        target.spec_high(),
                        target.spec_low(),
                        AIR,
                        touched@,
                    )
                } else {
                    report.hit.is_none() && *final(world) == *old(world)
                }
                &&& report.moved == standable(old(world), target.spec_high())
                &&& final(self).block == if report.moved {
                    target
                } else {
                    old(self).block
                }
            },
            final(world)@.dom().contains(final(self).block.spec_high()) || final(self).block == old(self).block,
    {
        if !self.active {
            return TickReport { moved: false, hit: None };
        }
        let c: ChunkPos = target.high();
        let held: bool = world.contains_key(c);
        let mut hit: Option<Vec<Invalidated>> = None;
        if self.keys.pressed(PlayerKey::Hit) && held {
            let at: InnerChunkPos = target.low();
            hit = Some(world.set_block(c, at, AIR));
        }
        let moved: bool = world.is_loaded(c);
        if moved {
            self.block = target;
        }
        TickReport { moved, hit }
    }
}

} // verus!
