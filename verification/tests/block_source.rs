//! Chunks served as a block source.
use prost::Message;
use zodl_slipstream::block_source::{Chunk, CompactBlock, MemBlockSource};

fn block(height: u64) -> CompactBlock {
    CompactBlock::from_wire(
        zcash_client_backend::proto::compact_formats::CompactBlock {
            height,
            hash: vec![height as u8; 32],
            prev_hash: vec![height as u8 - 1; 32],
            ..Default::default()
        }
        .encode_to_vec(),
    )
    .expect("an encoded block reads")
}

fn chunk(start: u64, end: u64) -> Chunk {
    Chunk::from_blocks(0, (start..=end).map(block).collect())
}

fn collect(from: Option<u32>, limit: Option<usize>) -> Vec<u64> {
    let c = chunk(100, 109);
    let src = MemBlockSource::new(&c);
    src.with_blocks(from, limit)
        .iter()
        .map(|b| b.height)
        .collect()
}

#[test]
fn serves_all_blocks_in_order() {
    assert_eq!(collect(None, None), (100..=109).collect::<Vec<u64>>());
}

#[test]
fn respects_from_height_and_limit() {
    assert_eq!(collect(Some(105), Some(3)), vec![105, 106, 107]);
    assert_eq!(collect(None, Some(0)), vec![]);
    assert_eq!(collect(Some(0), Some(2)), vec![100, 101]);
}

#[test]
fn from_height_past_end_serves_nothing() {
    assert_eq!(collect(Some(200), None), Vec::<u64>::new());
}

#[test]
fn walks_are_told_apart() {
    let c = chunk(100, 101);
    let mut src = MemBlockSource::new(&c);
    assert_eq!(src.walk_walls(), (0, 0));
    src.record_walk(7);
    assert_eq!(src.walk_walls(), (7, 0));
    src.record_walk(9);
    src.record_walk(11);
    assert_eq!(src.walk_walls(), (7, 9));
}

#[test]
fn blocks_are_read_from_the_wire() {
    let b = block(5);
    assert_eq!(b.height, 5);
    assert_eq!(b.hash, vec![5; 32]);
    assert_eq!(b.prev_hash, vec![4; 32]);
    assert_eq!(b.wire_len, b.wire.len());
    assert!(CompactBlock::from_wire(vec![0xff]).is_none());
    let c = chunk(1, 3);
    assert_eq!(
        c.estimated_bytes,
        c.blocks.iter().map(|b| b.wire_len as u64).sum::<u64>()
    );
}
