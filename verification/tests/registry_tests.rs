use voxel_core::chunk::{ChunkState, ALL_NEIGHBORS};
use voxel_core::pos::{ChunkPos, InnerChunkPos, CHUNK_SIZE, FRAGMENTS_PER_CHUNK};
use voxel_core::registry::{
    bit_of, direction_to, neighbor_pos, opposite_bit_of, ChunkMap, Evicted, Invalidated,
};

fn at(x: i64, y: i64, z: i64) -> ChunkPos {
    ChunkPos { x, y, z }
}

fn fill(map: &mut ChunkMap, p: ChunkPos, id: u16) {
    for slot in 0..FRAGMENTS_PER_CHUNK {
        map.store_fragment(p, slot, &vec![id; CHUNK_SIZE]);
    }
}

fn mask_of(map: &ChunkMap, p: ChunkPos) -> u8 {
    map.entries[map.find(p).unwrap()].data.adj_chunks
}

fn state_of(map: &ChunkMap, p: ChunkPos) -> ChunkState {
    map.entries[map.find(p).unwrap()].data.state
}

#[test]
fn directions() {
    let o = at(0, 0, 0);
    assert_eq!(direction_to(o, at(0, 0, -1)), Some(0));
    assert_eq!(direction_to(o, at(0, 0, 1)), Some(1));
    assert_eq!(direction_to(o, at(1, 0, 0)), Some(2));
    assert_eq!(direction_to(o, at(-1, 0, 0)), Some(3));
    assert_eq!(direction_to(o, at(0, 1, 0)), Some(4));
    assert_eq!(direction_to(o, at(0, -1, 0)), Some(5));
    assert_eq!(direction_to(o, o), None);
    assert_eq!(direction_to(o, at(1, 1, 0)), None);
    assert_eq!(direction_to(o, at(2, 0, 0)), None);
    assert_eq!(direction_to(at(i64::MAX, 0, 0), at(i64::MIN, 0, 0)), None);
    for d in 0..6u8 {
        assert_eq!(bit_of(d), 1 << d);
        assert_eq!(opposite_bit_of(d), 1 << (d ^ 1));
    }
}

#[test]
fn empty_registry() {
    let map = ChunkMap::new();
    assert_eq!(map.len(), 0);
    assert_eq!(map.find(at(0, 0, 0)), None);
    assert!(!map.contains_key(at(0, 0, 0)));
    assert!(!map.is_loaded(at(0, 0, 0)));
}

#[test]
fn insert_marks_neighbors_both_ways() {
    let mut map = ChunkMap::new();
    assert_eq!(map.insert(at(0, 0, 0)), 0);
    assert_eq!(mask_of(&map, at(0, 0, 0)), 0);
    assert_eq!(map.insert(at(1, 0, 0)), 1);
    assert_eq!(mask_of(&map, at(0, 0, 0)), 0b000100);
    assert_eq!(mask_of(&map, at(1, 0, 0)), 0b001000);
    map.insert(at(0, 0, -1));
    map.insert(at(0, 0, 1));
    map.insert(at(-1, 0, 0));
    map.insert(at(0, 1, 0));
    assert_eq!(mask_of(&map, at(0, 0, 0)), 0b011111);
    map.insert(at(0, -1, 0));
    assert_eq!(mask_of(&map, at(0, 0, 0)), ALL_NEIGHBORS);
    assert_eq!(mask_of(&map, at(0, -1, 0)), 0b010000);
    assert_eq!(mask_of(&map, at(0, 0, 1)), 0b000001);
    map.insert(at(5, 5, 5));
    assert_eq!(mask_of(&map, at(5, 5, 5)), 0);
    assert_eq!(map.len(), 8);
    assert!(map.check());
    assert!(map.contains_key(at(5, 5, 5)));
    assert!(!map.contains_key(at(5, 5, 6)));
}

#[test]
fn remove_clears_neighbor_bits() {
    let mut map = ChunkMap::new();
    map.insert(at(0, 0, 0));
    map.insert(at(1, 0, 0));
    map.insert(at(2, 0, 0));
    assert_eq!(mask_of(&map, at(1, 0, 0)), 0b001100);
    let i = map.find(at(0, 0, 0)).unwrap();
    let gone = map.remove_at(i);
    assert_eq!(gone.pos, at(0, 0, 0));
    assert_eq!(gone.data.adj_chunks, 0b000100);
    assert_eq!(map.len(), 2);
    assert!(!map.contains_key(at(0, 0, 0)));
    assert_eq!(mask_of(&map, at(1, 0, 0)), 0b000100);
    assert_eq!(mask_of(&map, at(2, 0, 0)), 0b001000);
    assert_eq!(map.entries[0].pos, at(1, 0, 0));
    assert_eq!(map.entries[1].pos, at(2, 0, 0));
    assert!(map.check());
}

#[test]
fn loaded_means_complete() {
    let mut map = ChunkMap::new();
    map.insert(at(0, 0, 0));
    assert!(!map.is_loaded(at(0, 0, 0)));
    fill(&mut map, at(0, 0, 0), 3);
    assert!(map.is_loaded(at(0, 0, 0)));
    assert!(!map.is_loaded(at(1, 0, 0)));
}

#[test]
fn nearest_beyond_picks_the_closest_far_chunk() {
    let mut map = ChunkMap::new();
    map.insert(at(9, 0, 0));
    map.insert(at(1, 0, 0));
    map.insert(at(4, 0, 0));
    map.insert(at(-3, 0, 0));
    let c = at(0, 0, 0);
    assert_eq!(map.nearest_beyond(c, 2), map.find(at(-3, 0, 0)));
    assert_eq!(map.nearest_beyond(c, 3), map.find(at(4, 0, 0)));
    assert_eq!(map.nearest_beyond(c, 8), map.find(at(9, 0, 0)));
    assert_eq!(map.nearest_beyond(c, 9), None);
}

#[test]
fn eviction_keeps_the_near_and_orders_the_far() {
    let mut map = ChunkMap::new();
    for x in [7i64, 0, 3, 1, 5, 2] {
        map.insert(at(x, 0, 0));
    }
    fill(&mut map, at(5, 0, 0), 1);
    let i = map.find(at(5, 0, 0)).unwrap();
    map.entries[i].data.adj_chunks = ALL_NEIGHBORS;
    assert!(map.entries[i].data.begin_meshing());
    assert_eq!(map.finish_meshing(at(5, 0, 0), 42), None);
    map.entries[i].data.adj_chunks = 0;
    let evicted = map.evict_far(at(0, 0, 0), 2);
    assert_eq!(
        evicted,
        vec![
            Evicted { pos: at(3, 0, 0), buffer: None },
            Evicted { pos: at(5, 0, 0), buffer: Some(42) },
            Evicted { pos: at(7, 0, 0), buffer: None },
        ]
    );
    assert_eq!(map.len(), 3);
    assert!(map.contains_key(at(0, 0, 0)));
    assert!(map.contains_key(at(1, 0, 0)));
    assert!(map.contains_key(at(2, 0, 0)));
    assert_eq!(mask_of(&map, at(2, 0, 0)), 0b001000);
    assert!(map.check());
    assert_eq!(map.evict_far(at(0, 0, 0), 2), vec![]);
}

#[test]
fn block_change_unmeshes_chunk_and_neighbors() {
    let mut map = ChunkMap::new();
    let ps = [at(0, 0, 0), at(1, 0, 0), at(2, 0, 0), at(0, 1, 0)];
    for (n, &p) in ps.iter().enumerate() {
        map.insert(p);
        fill(&mut map, p, 1);
        let i = map.find(p).unwrap();
        let keep = map.entries[i].data.adj_chunks;
        map.entries[i].data.adj_chunks = ALL_NEIGHBORS;
        assert!(map.entries[i].data.begin_meshing());
        map.entries[i].data.adj_chunks = keep;
        assert_eq!(map.finish_meshing(p, 10 + n as u64), None);
    }
    let place = InnerChunkPos { x: 0, y: 0, z: 0 };
    let touched = map.set_block(at(1, 0, 0), place, 9);
    assert_eq!(
        touched,
        vec![
            Invalidated { pos: at(0, 0, 0), buffer: Some(10) },
            Invalidated { pos: at(1, 0, 0), buffer: Some(11) },
            Invalidated { pos: at(2, 0, 0), buffer: Some(12) },
        ]
    );
    assert_eq!(state_of(&map, at(0, 0, 0)), ChunkState::Unmeshed);
    assert_eq!(state_of(&map, at(1, 0, 0)), ChunkState::Unmeshed);
    assert_eq!(state_of(&map, at(2, 0, 0)), ChunkState::Unmeshed);
    assert_eq!(state_of(&map, at(0, 1, 0)), ChunkState::Meshed(13));
    assert_eq!(mask_of(&map, at(0, 0, 0)), 0b010100);
    assert_eq!(mask_of(&map, at(1, 0, 0)), 0b001100);
    let i = map.find(at(1, 0, 0)).unwrap();
    assert_eq!(map.entries[i].data.block(place), 9);
    let j = map.find(at(0, 0, 0)).unwrap();
    assert_eq!(map.entries[j].data.block(place), 1);
}

#[test]
fn stale_mesh_result_comes_back() {
    let mut map = ChunkMap::new();
    assert_eq!(map.finish_meshing(at(0, 0, 0), 3), Some(3));
    map.insert(at(0, 0, 0));
    assert_eq!(map.finish_meshing(at(0, 0, 0), 4), Some(4));
    assert_eq!(state_of(&map, at(0, 0, 0)), ChunkState::Unmeshed);
}

#[test]
fn check_finds_damage() {
    let mut map = ChunkMap::new();
    assert!(map.check());
    map.insert(at(0, 0, 0));
    map.insert(at(0, 1, 0));
    assert!(map.check());
    map.entries[0].data.adj_chunks = 0;
    assert!(!map.check());
    map.entries[0].data.adj_chunks = 0b010000;
    assert!(map.check());
    map.entries[1].pos = at(0, 0, 0);
    assert!(!map.check());
    map.entries[1].pos = at(0, 1, 0);
    map.entries[1].data.fragments = 1;
    assert!(!map.check());
    map.entries[1].data.fragments = 0;
    map.entries[1].data.state = ChunkState::Meshing;
    assert!(!map.check());
    map.entries[1].data.state = ChunkState::Unmeshed;
    map.entries[1].data.chunk.pop();
    assert!(!map.check());
}

#[test]
fn neighbors_at_the_edge_of_the_grid() {
    let p = at(i64::MAX, i64::MIN, 0);
    assert_eq!(neighbor_pos(p, 0), Some(at(i64::MAX, i64::MIN, -1)));
    assert_eq!(neighbor_pos(p, 1), Some(at(i64::MAX, i64::MIN, 1)));
    assert_eq!(neighbor_pos(p, 2), None);
    assert_eq!(neighbor_pos(p, 3), Some(at(i64::MAX - 1, i64::MIN, 0)));
    assert_eq!(neighbor_pos(p, 4), Some(at(i64::MAX, i64::MIN + 1, 0)));
    assert_eq!(neighbor_pos(p, 5), None);
    let mut map = ChunkMap::new();
    map.insert(p);
    map.insert(at(i64::MAX - 1, i64::MIN, 0));
    assert!(map.check());
    assert_eq!(map.entries[0].data.adj_chunks, 0b001000);
}

#[test]
fn failed_mesh_goes_back_to_unmeshed() {
    let mut map = ChunkMap::new();
    assert_eq!(map.invalidate(at(0, 0, 0)), None);
    map.insert(at(0, 0, 0));
    fill(&mut map, at(0, 0, 0), 1);
    map.entries[0].data.adj_chunks = ALL_NEIGHBORS;
    assert!(map.entries[0].data.begin_meshing());
    map.entries[0].data.adj_chunks = 0;
    assert_eq!(map.invalidate(at(0, 0, 0)), None);
    assert_eq!(state_of(&map, at(0, 0, 0)), ChunkState::Unmeshed);
    assert_eq!(map.finish_meshing(at(0, 0, 0), 8), Some(8));
}
