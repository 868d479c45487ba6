use voxel_core::chunk::{ChunkState, FragmentOutcome, AIR};
use voxel_core::client::{Client, Delivered, ToInput};
use voxel_core::controls::{PlayerControls, PlayerKey};
use voxel_core::pos::{BlockPos, ChunkPos, FragmentPos, InnerChunkPos, CHUNK_SIZE};
use voxel_core::registry::ChunkMap;
use voxel_core::world::{Player, PlayerSet, World};

fn at(x: i64, y: i64, z: i64) -> ChunkPos {
    ChunkPos { x, y, z }
}

fn fragment(p: ChunkPos, x: usize, y: usize, id: u16) -> ToInput {
    ToInput::ChunkFragment { pos: p, fragment: FragmentPos { x, y }, payload: vec![id; CHUNK_SIZE] }
}

fn fill(map: &mut ChunkMap, p: ChunkPos, id: u16) {
    if !map.contains_key(p) {
        map.insert(p);
    }
    for slot in 0..CHUNK_SIZE * CHUNK_SIZE {
        map.store_fragment(p, slot, &vec![id; CHUNK_SIZE]);
    }
}

#[test]
fn first_fragment_creates_the_chunk() {
    let mut client = Client::new(at(0, 0, 0), 1, 1).unwrap();
    let r = client.deliver(fragment(at(1, 1, 1), 2, 3, 8));
    assert!(matches!(r, Delivered::Fragment(FragmentOutcome::Stored)));
    assert_eq!(client.chunks.len(), 1);
    let data = &client.chunks.entries[0].data;
    assert_eq!(data.fragments, 1);
    assert_eq!(data.block(InnerChunkPos { x: 2, y: 3, z: 0 }), 8);
    assert_eq!(data.block(InnerChunkPos { x: 3, y: 2, z: 0 }), AIR);
    let again = client.deliver(fragment(at(1, 1, 1), 2, 3, 9));
    assert!(matches!(again, Delivered::Fragment(FragmentOutcome::Duplicate)));
    assert_eq!(client.chunks.entries[0].data.fragments, 1);
}

#[test]
fn fragment_beyond_render_distance_is_dropped() {
    let mut client = Client::new(at(0, 0, 0), 1, 1).unwrap();
    let r = client.deliver(fragment(at(2, 0, 0), 0, 0, 8));
    assert!(matches!(r, Delivered::Dropped));
    assert_eq!(client.chunks.len(), 0);
    client.chunks.insert(at(2, 0, 0));
    let r = client.deliver(fragment(at(2, 0, 0), 0, 0, 8));
    assert!(matches!(r, Delivered::Fragment(FragmentOutcome::Stored)));
}

#[test]
fn malformed_fragment_is_rejected() {
    let mut client = Client::new(at(0, 0, 0), 1, 1).unwrap();
    let r = client.deliver(fragment(at(0, 0, 0), CHUNK_SIZE, 0, 8));
    assert!(matches!(r, Delivered::Fragment(FragmentOutcome::Rejected)));
    let r = client.deliver(ToInput::ChunkFragment {
        pos: at(0, 0, 0),
        fragment: FragmentPos { x: 0, y: 0 },
        payload: vec![1; 3],
    });
    assert!(matches!(r, Delivered::Fragment(FragmentOutcome::Rejected)));
    assert_eq!(client.chunks.len(), 0);
}

#[test]
fn mesh_result_for_a_missing_chunk_comes_back() {
    let mut client = Client::new(at(0, 0, 0), 1, 1).unwrap();
    let r = client.deliver(ToInput::MeshReady { pos: at(0, 0, 0), buffer: 12 });
    assert!(matches!(r, Delivered::Mesh(Some(12))));
}

#[test]
fn block_update_waits_for_its_chunk() {
    let mut client = Client::new(at(0, 0, 0), 1, 1).unwrap();
    let update = ToInput::BlockUpdate { block: BlockPos { x: -1, y: 0, z: 33 }, id: 6 };
    let out = client.process_messages(vec![update]);
    assert!(out.is_empty());
    assert_eq!(client.pending.len(), 1);
    let none = client.process_chunk_messages();
    assert!(none.is_empty());
    assert_eq!(client.pending.len(), 1);
    let out = client.process_messages(vec![fragment(at(-1, 0, 1), 0, 0, 2)]);
    assert_eq!(out.len(), 2);
    assert!(matches!(out[0], Delivered::Fragment(FragmentOutcome::Stored)));
    assert!(matches!(out[1], Delivered::Block(_)));
    assert!(client.pending.is_empty());
    let i = client.chunks.find(at(-1, 0, 1)).unwrap();
    assert_eq!(client.chunks.entries[i].data.block(InnerChunkPos { x: 31, y: 0, z: 1 }), 6);
    assert_eq!(client.chunks.entries[i].data.block(InnerChunkPos { x: 0, y: 0, z: 1 }), 2);
}

#[test]
fn update_parked_behind_its_fragment_in_one_inbox() {
    let mut client = Client::new(at(0, 0, 0), 1, 1).unwrap();
    let inbox = vec![
        ToInput::BlockUpdate { block: BlockPos { x: 0, y: 0, z: 0 }, id: 4 },
        ToInput::BlockUpdate { block: BlockPos { x: 320, y: 0, z: 0 }, id: 5 },
        fragment(at(0, 0, 0), 1, 1, 2),
    ];
    let out = client.process_messages(inbox);
    assert_eq!(out.len(), 2);
    assert_eq!(client.pending.len(), 1);
    assert!(matches!(
        client.pending[0],
        ToInput::BlockUpdate { block: BlockPos { x: 320, y: 0, z: 0 }, id: 5 }
    ));
    let i = client.chunks.find(at(0, 0, 0)).unwrap();
    assert_eq!(client.chunks.entries[i].data.block(InnerChunkPos { x: 0, y: 0, z: 0 }), 4);
}

#[test]
fn retry_pass_reports_progress() {
    let mut client = Client::new(at(0, 0, 0), 1, 1).unwrap();
    client.pending.push(ToInput::BlockUpdate { block: BlockPos { x: 0, y: 0, z: 0 }, id: 4 });
    client.pending.push(fragment(at(0, 0, 0), 0, 0, 1));
    let mut out = Vec::new();
    assert!(client.retry_pass(&mut out));
    assert_eq!(out.len(), 1);
    assert_eq!(client.pending.len(), 1);
    assert!(client.retry_pass(&mut out));
    assert_eq!(out.len(), 2);
    assert!(client.pending.is_empty());
    assert!(!client.retry_pass(&mut out));
    assert_eq!(out.len(), 2);
}

#[test]
fn new_world_is_empty() {
    let w = World::new();
    assert_eq!(w.chunks.len(), 0);
    assert!(w.players.players.is_empty());
    assert!(PlayerSet::new().players.is_empty());
}

#[test]
fn new_player_holds_nothing() {
    let p = Player::new(7, BlockPos { x: 1, y: -2, z: 3 }, true);
    assert_eq!(p.id, 7);
    assert!(p.active);
    assert_eq!(p.render_distance, 0);
    assert_eq!(p.keys.bits(), 0);
    assert_eq!(p.get_pos(), BlockPos { x: 1, y: -2, z: 3 });
    assert_eq!(p.chunk_pos(), at(0, -1, 0));
    assert_eq!(p.inner_chunk_pos(), InnerChunkPos { x: 1, y: 30, z: 3 });
}

#[test]
fn player_cannot_enter_an_incomplete_chunk() {
    let mut world = ChunkMap::new();
    fill(&mut world, at(0, 0, 0), 1);
    world.insert(at(1, 0, 0));
    world.store_fragment(at(1, 0, 0), 0, &vec![1; CHUNK_SIZE]);
    let start = BlockPos { x: 31, y: 0, z: 0 };
    let target = BlockPos { x: 32, y: 0, z: 0 };
    let mut p = Player::new(1, start, true);
    for _ in 0..3 {
        let report = p.tick(target, &mut world);
        assert!(!report.moved);
        assert!(report.hit.is_none());
        assert_eq!(p.get_pos(), start);
    }
    fill(&mut world, at(1, 0, 0), 1);
    let report = p.tick(target, &mut world);
    assert!(report.moved);
    assert_eq!(p.get_pos(), target);
    assert_eq!(p.chunk_pos(), at(1, 0, 0));
    let report = p.tick(BlockPos { x: 64, y: 0, z: 0 }, &mut world);
    assert!(!report.moved);
    assert_eq!(p.get_pos(), target);
}

#[test]
fn player_moves_inside_a_loaded_chunk() {
    let mut world = ChunkMap::new();
    fill(&mut world, at(0, 0, 0), 1);
    let mut p = Player::new(1, BlockPos { x: 5, y: 5, z: 5 }, true);
    assert!(p.tick(BlockPos { x: 5, y: 5, z: 4 }, &mut world).moved);
    assert_eq!(p.get_pos(), BlockPos { x: 5, y: 5, z: 4 });
}

#[test]
fn inactive_player_does_not_tick() {
    let mut world = ChunkMap::new();
    fill(&mut world, at(0, 0, 0), 1);
    let mut p = Player::new(1, BlockPos { x: 5, y: 5, z: 5 }, false);
    p.set_input(PlayerControls::from_key(PlayerKey::Hit));
    let report = p.tick(BlockPos { x: 6, y: 5, z: 5 }, &mut world);
    assert!(!report.moved);
    assert!(report.hit.is_none());
    assert_eq!(p.get_pos(), BlockPos { x: 5, y: 5, z: 5 });
    assert_eq!(world.entries[0].data.block(InnerChunkPos { x: 6, y: 5, z: 5 }), 1);
}

#[test]
fn hit_clears_the_block_and_unmeshes() {
    let mut world = ChunkMap::new();
    fill(&mut world, at(0, 0, 0), 1);
    world.entries[0].data.adj_chunks = 63;
    assert!(world.entries[0].data.begin_meshing());
    world.entries[0].data.adj_chunks = 0;
    assert_eq!(world.finish_meshing(at(0, 0, 0), 3), None);
    let mut p = Player::new(1, BlockPos { x: 5, y: 5, z: 5 }, true);
    p.set_input(PlayerControls::from_key(PlayerKey::Hit) | PlayerControls::from_key(PlayerKey::Forward));
    let report = p.tick(BlockPos { x: 5, y: 5, z: 4 }, &mut world);
    assert!(report.moved);
    let touched = report.hit.unwrap();
    assert_eq!(touched.len(), 1);
    assert_eq!(touched[0].pos, at(0, 0, 0));
    assert_eq!(touched[0].buffer, Some(3));
    assert_eq!(world.entries[0].data.block(InnerChunkPos { x: 5, y: 5, z: 4 }), AIR);
    assert_eq!(world.entries[0].data.block(InnerChunkPos { x: 5, y: 5, z: 5 }), 1);
    assert_eq!(world.entries[0].data.state, ChunkState::Unmeshed);
    let miss = p.tick(BlockPos { x: 500, y: 5, z: 4 }, &mut world);
    assert!(!miss.moved);
    assert!(miss.hit.is_none());
}
