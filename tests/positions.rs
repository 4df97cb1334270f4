use tantivy_collect::positions::{PositionSerializer, COMPRESSION_BLOCK_SIZE};

#[test]
fn empty_serializer_writes_only_the_skip_count() {
    let serializer = PositionSerializer::new(Vec::new(), vec![9u8]);
    assert_eq!(serializer.positions_idx(), 0);
    let (stream, skiplist) = serializer.close();
    assert!(stream.is_empty());
    assert_eq!(skiplist, vec![9, 0, 0, 0, 0]);
}

#[test]
fn full_block_of_ones_packs_to_one_bit_each() {
    let mut serializer = PositionSerializer::new(Vec::new(), Vec::new());
    serializer.write_all(&[1u32; COMPRESSION_BLOCK_SIZE]);
    assert_eq!(serializer.positions_idx(), 128);
    let (stream, skiplist) = serializer.close();
    assert_eq!(stream, vec![0xffu8; 16]);
    assert_eq!(skiplist, vec![1, 0, 0, 0, 0]);
}

#[test]
fn partial_block_is_padded() {
    let mut serializer = PositionSerializer::new(vec![7u8], Vec::new());
    serializer.write(5);
    serializer.write(2);
    serializer.write(3);
    assert_eq!(serializer.positions_idx(), 3);
    let (stream, skiplist) = serializer.close();
    // three bits per value, 128 values
    assert_eq!(stream.len(), 1 + 48);
    assert_eq!(stream[0], 7);
    assert_ne!(&stream[1..], &[0u8; 48][..]);
    assert_eq!(skiplist, vec![3, 0, 0, 0, 0]);
}

#[test]
fn block_widths_follow_the_largest_value() {
    let mut serializer = PositionSerializer::new(Vec::new(), Vec::new());
    let first: Vec<u32> = (0..128).collect();
    serializer.write_all(&first);
    serializer.write_all(&[u32::MAX]);
    let (stream, skiplist) = serializer.close();
    assert_eq!(stream.len(), 7 * 16 + 32 * 16);
    assert_eq!(skiplist, vec![7, 32, 0, 0, 0, 0]);
}

#[test]
fn long_skip_after_1024_blocks() {
    let mut serializer = PositionSerializer::new(Vec::new(), Vec::new());
    let block = [3u32; COMPRESSION_BLOCK_SIZE];
    for _ in 0..1024 {
        serializer.write_all(&block);
    }
    assert_eq!(serializer.positions_idx(), 131072);
    let (stream, skiplist) = serializer.close();
    assert_eq!(stream.len(), 1024 * 32);
    assert_eq!(skiplist.len(), 1024 + 8 + 4);
    assert!(skiplist[..1024].iter().all(|&b| b == 2));
    assert_eq!(&skiplist[1024..1032], &2048u64.to_le_bytes());
    assert_eq!(&skiplist[1032..], &1u32.to_le_bytes());
}
