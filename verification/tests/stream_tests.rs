use voxel_core::chunk::{ChunkState, ALL_NEIGHBORS};
use voxel_core::client::{Client, Delivered, Draw, ToInput};
use voxel_core::pos::{ChunkPos, FragmentPos, CHUNK_SIZE};
use voxel_core::registry::{ChunkMap, Evicted, Invalidated};
use voxel_core::stream::{dispatch_meshing, missing_within, unmesh_unsupported};

fn at(x: i64, y: i64, z: i64) -> ChunkPos {
    ChunkPos { x, y, z }
}

fn send_chunk(client: &mut Client, p: ChunkPos, id: u16) {
    let mut inbox = Vec::new();
    for x in 0..CHUNK_SIZE {
        for y in 0..CHUNK_SIZE {
            inbox.push(ToInput::ChunkFragment {
                pos: p,
                fragment: FragmentPos { x, y },
                payload: vec![id; CHUNK_SIZE],
            });
        }
    }
    client.process_messages(inbox);
}

fn state_of(client: &Client, p: ChunkPos) -> ChunkState {
    client.chunks.entries[client.chunks.find(p).unwrap()].data.state
}

#[test]
fn first_frame_requests_the_whole_sphere() {
    let mut client = Client::new(at(0, 0, 0), 1, 1).unwrap();
    let actions = client.fetch_close_chunks();
    assert_eq!(actions.requests.len(), 27);
    assert_eq!(actions.requests[0], at(0, 0, 0));
    let center = at(0, 0, 0);
    for w in actions.requests.windows(2) {
        assert!(w[0].orthogonal_dist(center) <= w[1].orthogonal_dist(center));
    }
    for x in -1..=1 {
        for y in -1..=1 {
            for z in -1..=1 {
                assert_eq!(actions.requests.iter().filter(|&&c| c == at(x, y, z)).count(), 1);
            }
        }
    }
    assert!(actions.evicted.is_empty());
    assert!(actions.jobs.is_empty());
    assert_eq!(client.chunks.len(), 0);
}

#[test]
fn requests_come_in_the_documented_order() {
    let map = ChunkMap::new();
    let out = missing_within(&map, at(10, -10, 0), 1);
    assert_eq!(out.len(), 27);
    assert_eq!(out[0], at(10, -10, 0));
    assert_eq!(out[1], at(9, -11, -1));
    assert_eq!(out[2], at(9, -11, 0));
    assert_eq!(out[26], at(11, -9, 1));
    assert_eq!(missing_within(&map, at(0, 0, 0), 0), vec![at(0, 0, 0)]);
}

#[test]
fn rings_hold_every_chunk_once() {
    let map = ChunkMap::new();
    let c = at(3, 4, 5);
    let out = missing_within(&map, c, 3);
    assert_eq!(out.len(), 7 * 7 * 7);
    let mut seen = std::collections::HashSet::new();
    let mut last = 0;
    for p in out.iter() {
        assert!(seen.insert((p.x, p.y, p.z)));
        let d = p.orthogonal_dist(c);
        assert!(d <= 3);
        assert!(d >= last);
        last = d;
    }
}

#[test]
fn held_chunks_are_not_requested() {
    let mut map = ChunkMap::new();
    map.insert(at(0, 0, 0));
    map.insert(at(1, 1, 1));
    map.insert(at(2, 0, 0));
    let out = missing_within(&map, at(0, 0, 0), 1);
    assert_eq!(out.len(), 25);
    assert!(!out.contains(&at(0, 0, 0)));
    assert!(!out.contains(&at(1, 1, 1)));
    assert_eq!(out[0], at(-1, -1, -1));
}

#[test]
fn requests_near_the_edge_of_the_grid() {
    let map = ChunkMap::new();
    let c = at(i64::MAX - 1, i64::MIN + 1, 0);
    let out = missing_within(&map, c, 1);
    assert_eq!(out.len(), 27);
    assert!(out.contains(&at(i64::MAX, i64::MIN, 1)));
}

#[test]
fn complete_chunk_with_six_neighbors_is_meshed_once() {
    let mut client = Client::new(at(0, 0, 0), 1, 1).unwrap();
    let all = [
        at(0, 0, 0),
        at(0, 0, -1),
        at(0, 0, 1),
        at(1, 0, 0),
        at(-1, 0, 0),
        at(0, 1, 0),
        at(0, -1, 0),
    ];
    for &p in all.iter() {
        send_chunk(&mut client, p, 1);
    }
    assert_eq!(client.chunks.len(), 7);
    assert!(client.check());
    let i = client.chunks.find(at(0, 0, 0)).unwrap();
    assert_eq!(client.chunks.entries[i].data.adj_chunks, ALL_NEIGHBORS);
    let actions = client.fetch_close_chunks();
    assert_eq!(actions.jobs, vec![at(0, 0, 0)]);
    assert_eq!(actions.requests.len(), 20);
    assert!(actions.evicted.is_empty());
    assert_eq!(state_of(&client, at(0, 0, 0)), ChunkState::Meshing);
    assert_eq!(state_of(&client, at(1, 0, 0)), ChunkState::Unmeshed);
    let again = client.fetch_close_chunks();
    assert!(again.jobs.is_empty());
    assert!(client.visible().is_empty());
    let out = client.process_messages(vec![ToInput::MeshReady { pos: at(0, 0, 0), buffer: 77 }]);
    assert_eq!(out.len(), 1);
    assert!(matches!(out[0], Delivered::Mesh(None)));
    assert_eq!(state_of(&client, at(0, 0, 0)), ChunkState::Meshed(77));
    assert_eq!(client.visible(), vec![Draw { pos: at(0, 0, 0), buffer: 77 }]);
    let last = client.fetch_close_chunks();
    assert!(last.jobs.is_empty());
}

fn meshed_origin() -> Client {
    let mut client = Client::new(at(0, 0, 0), 1, 1).unwrap();
    let all = [
        at(0, 0, 0),
        at(0, 0, -1),
        at(0, 0, 1),
        at(1, 0, 0),
        at(-1, 0, 0),
        at(0, 1, 0),
        at(0, -1, 0),
    ];
    for &p in all.iter() {
        send_chunk(&mut client, p, 1);
    }
    client.fetch_close_chunks();
    client.process_messages(vec![ToInput::MeshReady { pos: at(0, 0, 0), buffer: 5 }]);
    assert_eq!(state_of(&client, at(0, 0, 0)), ChunkState::Meshed(5));
    client
}

#[test]
fn far_chunk_is_evicted_and_its_buffer_released_once() {
    let mut client = meshed_origin();
    let stay = client.fetch_close_chunks();
    assert!(stay.evicted.is_empty());
    assert!(stay.unmeshed.is_empty());
    client.player_chunk = at(3, 0, 0);
    let actions = client.fetch_close_chunks();
    assert_eq!(actions.evicted.iter().filter(|e| e.pos == at(0, 0, 0)).count(), 1);
    assert!(actions.evicted.contains(&Evicted { pos: at(0, 0, 0), buffer: Some(5) }));
    let released = actions.evicted.iter().filter(|e| e.buffer == Some(5)).count()
        + actions.unmeshed.iter().filter(|e| e.buffer == Some(5)).count();
    assert_eq!(released, 1);
    assert!(!client.chunks.contains_key(at(0, 0, 0)));
    for e in client.chunks.entries.iter() {
        assert!(e.pos.orthogonal_dist(at(3, 0, 0)) <= 2);
    }
    for w in actions.evicted.windows(2) {
        assert!(w[0].pos.orthogonal_dist(at(3, 0, 0)) <= w[1].pos.orthogonal_dist(at(3, 0, 0)));
    }
    assert!(client.check());
    assert!(client.in_range());
    let next = client.fetch_close_chunks();
    assert!(next.evicted.is_empty());
    assert!(next.unmeshed.is_empty());
}

#[test]
fn chunk_in_the_hysteresis_band_is_kept() {
    let mut client = meshed_origin();
    client.player_chunk = at(1, 0, 0);
    let actions = client.fetch_close_chunks();
    assert!(actions.evicted.is_empty());
    assert!(actions.unmeshed.is_empty());
    assert_eq!(client.chunks.len(), 7);
    assert_eq!(state_of(&client, at(0, 0, 0)), ChunkState::Meshed(5));
    assert_eq!(client.visible(), vec![Draw { pos: at(0, 0, 0), buffer: 5 }]);
}

#[test]
fn losing_a_neighbor_unmeshes() {
    let mut client = meshed_origin();
    client.player_chunk = at(2, 0, 0);
    let actions = client.fetch_close_chunks();
    assert_eq!(actions.evicted, vec![Evicted { pos: at(-1, 0, 0), buffer: None }]);
    assert_eq!(actions.unmeshed, vec![Invalidated { pos: at(0, 0, 0), buffer: Some(5) }]);
    assert!(actions.jobs.is_empty());
    assert_eq!(state_of(&client, at(0, 0, 0)), ChunkState::Unmeshed);
    assert!(client.visible().is_empty());
    let next = client.fetch_close_chunks();
    assert!(next.evicted.is_empty());
    assert!(next.unmeshed.is_empty());
    client.player_chunk = at(3, 0, 0);
    let last = client.fetch_close_chunks();
    assert!(last.evicted.contains(&Evicted { pos: at(0, 0, 0), buffer: None }));
    assert!(last.unmeshed.is_empty());
}

#[test]
fn unmeshing_takes_back_a_chunk_in_the_mesher() {
    let mut map = ChunkMap::new();
    map.insert(at(0, 0, 0));
    for slot in 0..CHUNK_SIZE * CHUNK_SIZE {
        map.store_fragment(at(0, 0, 0), slot, &vec![1; CHUNK_SIZE]);
    }
    map.entries[0].data.adj_chunks = ALL_NEIGHBORS;
    assert_eq!(dispatch_meshing(&mut map), vec![at(0, 0, 0)]);
    map.entries[0].data.adj_chunks = 0;
    assert_eq!(unmesh_unsupported(&mut map), vec![Invalidated { pos: at(0, 0, 0), buffer: None }]);
    assert_eq!(map.entries[0].data.state, ChunkState::Unmeshed);
    assert!(unmesh_unsupported(&mut map).is_empty());
    assert_eq!(map.finish_meshing(at(0, 0, 0), 9), Some(9));
}

#[test]
fn dispatch_skips_chunks_that_are_not_ready() {
    let mut map = ChunkMap::new();
    map.insert(at(0, 0, 0));
    assert!(dispatch_meshing(&mut map).is_empty());
    assert_eq!(map.entries[0].data.state, ChunkState::Unmeshed);
}

#[test]
fn hysteresis_that_overflows_keeps_everything() {
    let mut client = Client::new(at(0, 0, 0), 0, u64::MAX).unwrap();
    client.chunks.insert(at(i64::MAX, 0, 0));
    client.chunks.insert(at(i64::MIN, 0, 0));
    let actions = client.fetch_close_chunks();
    assert!(actions.evicted.is_empty());
    assert_eq!(client.chunks.len(), 2);
}

#[test]
fn range_check_at_the_edge_of_the_grid() {
    assert!(Client::new(at(i64::MAX - 2, 0, 0), 2, 1).unwrap().in_range());
    assert!(!Client::new(at(i64::MAX - 1, 0, 0), 2, 1).unwrap().in_range());
    assert!(!Client::new(at(0, i64::MIN, 0), 1, 1).unwrap().in_range());
    assert!(Client::new(at(0, i64::MIN, 0), 0, 1).unwrap().in_range());
}

#[test]
fn client_needs_a_hysteresis_band() {
    assert!(Client::new(at(0, 0, 0), 1, 0).is_none());
    let mut client = Client::new(at(0, 0, 0), 1, 1).unwrap();
    assert!(client.check());
    client.hysteresis = 0;
    assert!(!client.check());
}
