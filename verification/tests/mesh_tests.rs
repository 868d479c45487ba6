use voxel_core::mesh::{calculate_mesh, facing_block, Face, Neighbors};
use voxel_core::pos::{InnerChunkPos, CHUNK_SIZE, CHUNK_VOLUME};

fn absent() -> Neighbors {
    Neighbors { sides: vec![None, None, None, None, None, None] }
}

fn all(id: u16) -> Neighbors {
    Neighbors { sides: (0..6).map(|_| Some(vec![id; CHUNK_VOLUME])).collect() }
}

fn place(blocks: &mut Vec<u16>, x: usize, y: usize, z: usize, id: u16) {
    blocks[(x * CHUNK_SIZE + y) * CHUNK_SIZE + z] = id;
}

fn face(x: u8, y: u8, z: u8, side: u8) -> Face {
    Face { at: InnerChunkPos { x, y, z }, side }
}

#[test]
fn empty_chunk_has_no_faces() {
    let blocks = vec![0u16; CHUNK_VOLUME];
    assert!(calculate_mesh(&blocks, &absent()).is_empty());
    assert!(calculate_mesh(&blocks, &all(1)).is_empty());
}

#[test]
fn lone_block_shows_six_faces() {
    let mut blocks = vec![0u16; CHUNK_VOLUME];
    place(&mut blocks, 4, 5, 6, 2);
    let faces = calculate_mesh(&blocks, &absent());
    assert_eq!(
        faces,
        vec![
            face(4, 5, 6, 0),
            face(4, 5, 6, 1),
            face(4, 5, 6, 2),
            face(4, 5, 6, 3),
            face(4, 5, 6, 4),
            face(4, 5, 6, 5),
        ]
    );
}

#[test]
fn touching_blocks_hide_the_shared_faces() {
    let mut blocks = vec![0u16; CHUNK_VOLUME];
    place(&mut blocks, 4, 5, 6, 2);
    place(&mut blocks, 5, 5, 6, 3);
    let faces = calculate_mesh(&blocks, &absent());
    assert_eq!(faces.len(), 10);
    assert!(!faces.contains(&face(4, 5, 6, 2)));
    assert!(!faces.contains(&face(5, 5, 6, 3)));
    assert!(faces.contains(&face(4, 5, 6, 3)));
    assert!(faces.contains(&face(5, 5, 6, 2)));
}

#[test]
fn solid_chunk_shows_only_its_surface() {
    let blocks = vec![1u16; CHUNK_VOLUME];
    let faces = calculate_mesh(&blocks, &absent());
    assert_eq!(faces.len(), 6 * CHUNK_SIZE * CHUNK_SIZE);
    assert!(faces.contains(&face(0, 7, 7, 3)));
    assert!(!faces.contains(&face(0, 7, 7, 2)));
    assert!(calculate_mesh(&blocks, &all(1)).is_empty());
}

#[test]
fn neighbor_chunk_hides_border_faces() {
    let mut blocks = vec![0u16; CHUNK_VOLUME];
    place(&mut blocks, 31, 3, 3, 1);
    let mut around = absent();
    let mut east = vec![0u16; CHUNK_VOLUME];
    place(&mut east, 0, 3, 3, 1);
    around.sides[2] = Some(east);
    let faces = calculate_mesh(&blocks, &around);
    assert_eq!(faces.len(), 5);
    assert!(!faces.contains(&face(31, 3, 3, 2)));
    assert_eq!(facing_block(&blocks, &around, 31, 3, 3, 2), 1);
    assert_eq!(facing_block(&blocks, &around, 31, 3, 3, 3), 0);
    assert_eq!(facing_block(&blocks, &around, 30, 3, 3, 2), 1);
    let mut west = vec![0u16; CHUNK_VOLUME];
    place(&mut west, 31, 0, 0, 7);
    around.sides[3] = Some(west);
    assert_eq!(facing_block(&blocks, &around, 0, 0, 0, 3), 7);
    assert_eq!(facing_block(&blocks, &around, 0, 0, 0, 5), 0);
}

#[test]
fn neighbors_are_checked() {
    assert!(absent().check());
    assert!(all(3).check());
    let mut short = absent();
    short.sides.pop();
    assert!(!short.check());
    let mut thin = absent();
    thin.sides[4] = Some(vec![0u16; 5]);
    assert!(!thin.check());
}
