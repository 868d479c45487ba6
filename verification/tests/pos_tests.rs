use voxel_core::pos::{
    BlockPos, ChunkPos, FragmentPos, InnerChunkPos, SubIndex, CHUNK_SIZE, CHUNK_VOLUME,
    FRAGMENTS_PER_CHUNK,
};

#[test]
fn constants_agree() {
    assert_eq!(CHUNK_SIZE % 8, 0);
    assert_eq!(CHUNK_VOLUME, CHUNK_SIZE * CHUNK_SIZE * CHUNK_SIZE);
    assert_eq!(FRAGMENTS_PER_CHUNK, CHUNK_SIZE * CHUNK_SIZE);
}

#[test]
fn negative_block_floor_divides() {
    let b = BlockPos { x: -1, y: -1, z: -1 };
    assert_eq!(b.high(), ChunkPos { x: -1, y: -1, z: -1 });
    let last = (CHUNK_SIZE - 1) as u8;
    assert_eq!(b.low(), InnerChunkPos { x: last, y: last, z: last });
}

#[test]
fn high_rounds_towards_negative_infinity() {
    let b = BlockPos { x: -33, y: 31, z: 32 };
    assert_eq!(b.high(), ChunkPos { x: -2, y: 0, z: 1 });
    assert_eq!(b.low(), InnerChunkPos { x: 31, y: 31, z: 0 });
    let c = BlockPos { x: -32, y: -64, z: 0 };
    assert_eq!(c.high(), ChunkPos { x: -1, y: -2, z: 0 });
    assert_eq!(c.low(), InnerChunkPos { x: 0, y: 0, z: 0 });
}

#[test]
fn high_of_large_values_is_not_the_input() {
    let b = BlockPos { x: 1000, y: -1000, z: 7 };
    assert_eq!(b.high(), ChunkPos { x: 31, y: -32, z: 0 });
    assert_eq!(b.low(), InnerChunkPos { x: 8, y: 24, z: 7 });
}

#[test]
fn round_trip_holds_on_samples() {
    let samples: [i64; 11] =
        [0, 1, -1, 31, 32, -32, -33, 12345, -12345, i64::MAX, i64::MIN];
    for &x in samples.iter() {
        for &y in samples.iter() {
            let b = BlockPos { x, y, z: x };
            let (c, i) = b.factor();
            assert_eq!(c, b.high());
            assert_eq!(i, b.low());
            assert!((i.x as usize) < CHUNK_SIZE && (i.y as usize) < CHUNK_SIZE);
            assert_eq!(c.x as i128 * CHUNK_SIZE as i128 + i.x as i128, x as i128);
            assert_eq!(c.y as i128 * CHUNK_SIZE as i128 + i.y as i128, y as i128);
            assert_eq!(c.z as i128 * CHUNK_SIZE as i128 + i.z as i128, x as i128);
            assert_eq!(BlockPos::from_parts(c, i), Some(b));
        }
    }
}

#[test]
fn orthogonal_dist_is_the_largest_axis_difference() {
    let a = ChunkPos { x: 0, y: 0, z: 0 };
    assert_eq!(a.orthogonal_dist(a), 0);
    assert_eq!(a.orthogonal_dist(ChunkPos { x: 1, y: -3, z: 2 }), 3);
    assert_eq!(ChunkPos { x: 1, y: -3, z: 2 }.orthogonal_dist(a), 3);
    assert_eq!(ChunkPos { x: -5, y: 0, z: 0 }.orthogonal_dist(ChunkPos { x: 5, y: 1, z: 1 }), 10);
}

#[test]
fn orthogonal_dist_does_not_overflow() {
    let lo = ChunkPos { x: i64::MIN, y: 0, z: 0 };
    let hi = ChunkPos { x: i64::MAX, y: 0, z: 0 };
    assert_eq!(lo.orthogonal_dist(hi), u64::MAX);
}

#[test]
fn components_by_index() {
    let mut c = ChunkPos { x: 1, y: 2, z: 3 };
    assert_eq!(*c.index(0), 1);
    assert_eq!(*c.index(1), 2);
    assert_eq!(*c.index(2), 3);
    *c.index_mut(1) = 20;
    assert_eq!(c, ChunkPos { x: 1, y: 20, z: 3 });
    let mut b = BlockPos::from_coords(4, 5, 6);
    *b.index_mut(2) = -6;
    assert_eq!(*b.index(2), -6);
    assert_eq!(b, BlockPos { x: 4, y: 5, z: -6 });
    let mut i = InnerChunkPos { x: 1, y: 2, z: 3 };
    *i.index_mut(0) = 9;
    assert_eq!(*i.index(0), 9);
    let mut f = FragmentPos { x: 1, y: 2 };
    *f.index_mut(1) = 7;
    assert_eq!(*f.index(0), 1);
    assert_eq!(*f.index(1), 7);
}

#[test]
fn positions_from_arrays() {
    assert_eq!(BlockPos::from([1, -2, 3]), BlockPos { x: 1, y: -2, z: 3 });
    assert_eq!(ChunkPos::from([4, 5, -6]), ChunkPos { x: 4, y: 5, z: -6 });
    assert_eq!(ChunkPos::from_coords(4, 5, -6), ChunkPos { x: 4, y: 5, z: -6 });
    assert_eq!(InnerChunkPos::from([7, 8, 9]), InnerChunkPos { x: 7, y: 8, z: 9 });
    assert_eq!(FragmentPos::from([10, 11]), FragmentPos { x: 10, y: 11 });
}

#[test]
fn inner_position_is_checked_at_construction() {
    assert_eq!(InnerChunkPos::new(0, 31, 5), Some(InnerChunkPos { x: 0, y: 31, z: 5 }));
    assert_eq!(InnerChunkPos::new(32, 0, 0), None);
    assert_eq!(InnerChunkPos::new(0, 0, 255), None);
    assert_eq!(InnerChunkPos { x: 1, y: 2, z: 3 }.offset(), (32 + 2) * 32 + 3);
    assert_eq!(InnerChunkPos { x: 31, y: 31, z: 31 }.offset(), CHUNK_VOLUME - 1);
}

#[test]
fn fragment_slot() {
    assert_eq!(FragmentPos { x: 0, y: 0 }.slot(), Some(0));
    assert_eq!(FragmentPos { x: 2, y: 3 }.slot(), Some(67));
    assert_eq!(FragmentPos { x: 31, y: 31 }.slot(), Some(FRAGMENTS_PER_CHUNK - 1));
    assert_eq!(FragmentPos { x: 32, y: 0 }.slot(), None);
    assert_eq!(FragmentPos { x: 0, y: usize::MAX }.slot(), None);
}

#[test]
fn parts_that_do_not_fit() {
    let far = ChunkPos { x: i64::MAX, y: 0, z: 0 };
    assert_eq!(BlockPos::from_parts(far, InnerChunkPos { x: 0, y: 0, z: 0 }), None);
    let edge = ChunkPos { x: i64::MAX / 32, y: i64::MIN / 32, z: 0 };
    assert_eq!(
        BlockPos::from_parts(edge, InnerChunkPos { x: 31, y: 0, z: 0 }),
        Some(BlockPos { x: i64::MAX, y: i64::MIN, z: 0 })
    );
    assert_eq!(
        BlockPos::from_parts(ChunkPos { x: -1, y: 2, z: 0 }, InnerChunkPos { x: 31, y: 1, z: 5 }),
        Some(BlockPos { x: -1, y: 65, z: 5 })
    );
}

#[test]
fn positions_add_and_subtract() {
    let a = ChunkPos { x: 1, y: -2, z: 3 };
    let b = ChunkPos { x: 10, y: 20, z: -30 };
    assert_eq!(a + b, ChunkPos { x: 11, y: 18, z: -27 });
    assert_eq!(a - b, ChunkPos { x: -9, y: -22, z: 33 });
    let c = BlockPos { x: i64::MAX, y: 0, z: i64::MIN };
    let d = BlockPos { x: 1, y: 5, z: -1 };
    assert_eq!(c - d, BlockPos { x: i64::MAX - 1, y: -5, z: i64::MIN + 1 });
    assert_eq!(d + d, BlockPos { x: 2, y: 10, z: -2 });
}
