use iroha_ledger::kura::{clamp_range, start_position, BlockIndex, BlockRange, BlockStore, KuraError, StoredBlock, RECORD_SIZE};

#[test]
fn record_is_two_little_endian_words() {
    let record = BlockIndex { start: 0x0102_0304_0506_0708, length: 258 };
    let bytes = record.encode();
    assert_eq!(bytes, vec![8, 7, 6, 5, 4, 3, 2, 1, 2, 1, 0, 0, 0, 0, 0, 0]);
    assert_eq!(bytes.len(), RECORD_SIZE);
    assert_eq!(BlockIndex::decode(&bytes), record);
}

#[test]
fn appended_blocks_are_read_back() {
    let mut store = BlockStore::new();
    assert_eq!(store.read_index_count(), 0);
    store.append_block_to_chain(&vec![1, 2, 3]).unwrap();
    store.append_block_to_chain(&vec![]).unwrap();
    store.append_block_to_chain(&vec![4, 5]).unwrap();
    assert_eq!(store.read_index_count(), 3);
    assert_eq!(store.data, vec![1, 2, 3, 4, 5]);
    assert_eq!(store.index.len(), 48);
    assert_eq!(store.read_index(0), Ok(BlockIndex { start: 0, length: 3 }));
    assert_eq!(store.read_index(1), Ok(BlockIndex { start: 3, length: 0 }));
    assert_eq!(store.read_index(2), Ok(BlockIndex { start: 3, length: 2 }));
    assert_eq!(store.read_index(3), Err(KuraError::OutOfBoundsBlockRead));
    assert_eq!(store.read_block(0), Ok(vec![1, 2, 3]));
    assert_eq!(store.read_block(1), Ok(vec![]));
    assert_eq!(store.read_block(2), Ok(vec![4, 5]));
    assert_eq!(store.read_block(3), Err(KuraError::OutOfBoundsBlockRead));
}

#[test]
fn index_is_read_in_runs() {
    let mut store = BlockStore::new();
    for block in [vec![1u8], vec![2, 2], vec![3, 3, 3], vec![4, 4, 4, 4]] {
        store.append_block_to_chain(&block).unwrap();
    }
    let mut dest = vec![BlockIndex { start: 0, length: 0 }; 2];
    store.read_block_indices(1, &mut dest).unwrap();
    assert_eq!(dest, vec![BlockIndex { start: 1, length: 2 }, BlockIndex { start: 3, length: 3 }]);
    assert_eq!(store.read_block_indices(3, &mut dest), Err(KuraError::OutOfBoundsBlockRead));
    assert_eq!(dest, vec![BlockIndex { start: 1, length: 2 }, BlockIndex { start: 3, length: 3 }]);
    let mut none: Vec<BlockIndex> = Vec::new();
    assert_eq!(store.read_block_indices(4, &mut none), Ok(()));
    assert_eq!(store.read_block_indices(5, &mut none), Err(KuraError::OutOfBoundsBlockRead));
}

#[test]
fn data_is_read_exactly() {
    let mut store = BlockStore::new();
    store.append_block_to_chain(&vec![10, 20, 30, 40]).unwrap();
    let mut dest = vec![0u8; 2];
    store.read_block_data(1, &mut dest).unwrap();
    assert_eq!(dest, vec![20, 30]);
    assert_eq!(store.read_block_data(3, &mut dest), Err(KuraError::OutOfBoundsDataRead));
    assert_eq!(dest, vec![20, 30]);
    assert_eq!(store.read_block_data(5, &mut Vec::new()), Err(KuraError::OutOfBoundsDataRead));
    assert_eq!(store.read_block_data(4, &mut Vec::new()), Ok(()));
}

#[test]
fn pruned_blocks_are_invisible_and_overwritten() {
    let mut store = BlockStore::new();
    store.append_block_to_chain(&vec![1, 1]).unwrap();
    store.append_block_to_chain(&vec![2, 2, 2]).unwrap();
    store.append_block_to_chain(&vec![3]).unwrap();
    store.prune(1);
    assert_eq!(store.read_index_count(), 1);
    assert_eq!(store.data, vec![1, 1, 2, 2, 2, 3]);
    assert_eq!(store.read_block(1), Err(KuraError::OutOfBoundsBlockRead));
    store.prune(5);
    assert_eq!(store.read_index_count(), 1);
    store.append_block_to_chain(&vec![9]).unwrap();
    assert_eq!(store.data, vec![1, 1, 9]);
    assert_eq!(store.read_block(0), Ok(vec![1, 1]));
    assert_eq!(store.read_block(1), Ok(vec![9]));
    store.prune(0);
    assert_eq!(store.read_index_count(), 0);
    assert!(store.index.is_empty());
}

#[test]
fn recovery_cuts_the_orphan_tail() {
    let mut store = BlockStore::new();
    store.append_block_to_chain(&vec![1, 2, 3]).unwrap();
    // A crash after the data of a second block was written and before its record was.
    let mut data = store.data.clone();
    data.extend_from_slice(&[7, 7, 7, 7]);
    // ... and half a record.
    let mut index = store.index.clone();
    index.extend_from_slice(&[3, 0, 0, 0, 0]);
    let mut crashed = BlockStore::from_images(data, index);
    assert_eq!(crashed.read_index_count(), 1);
    assert_eq!(crashed.read_block(0), Ok(vec![1, 2, 3]));
    assert_eq!(crashed.recover(), Ok(()));
    assert_eq!(crashed, store);
}

#[test]
fn index_beyond_data_is_not_tolerated() {
    let record = BlockIndex { start: 0, length: 8 }.encode();
    let mut store = BlockStore::from_images(vec![1, 2, 3], record);
    let before = BlockStore::from_images(store.data.clone(), store.index.clone());
    assert_eq!(store.read_block(0), Err(KuraError::OutOfBoundsDataRead));
    assert_eq!(store.recover(), Err(KuraError::IndexBeyondData));
    assert_eq!(store.append_block_to_chain(&vec![1]), Err(KuraError::IndexBeyondData));
    assert_eq!(store, before);
    let wrapped = BlockIndex { start: u64::MAX, length: 2 }.encode();
    let mut store = BlockStore::from_images(vec![1, 2, 3], wrapped);
    assert_eq!(store.recover(), Err(KuraError::IndexBeyondData));
    assert_eq!(store.append_block_to_chain(&vec![1]), Err(KuraError::IndexBeyondData));
}

#[test]
fn heights_count_from_one() {
    assert_eq!(start_position(None), Ok(u64::MAX));
    assert_eq!(start_position(Some(0)), Err(KuraError::ZeroHeight));
    assert_eq!(start_position(Some(1)), Ok(0));
    assert_eq!(start_position(Some(42)), Ok(41));
}

#[test]
fn range_is_clamped_to_the_blocks_there_are() {
    assert_eq!(clamp_range(0, 0, 1), Err(KuraError::Empty));
    assert_eq!(clamp_range(10, u64::MAX, 1), Ok(BlockRange { from_height: 9, block_count: 1 }));
    assert_eq!(clamp_range(10, u64::MAX, u64::MAX), Ok(BlockRange { from_height: 9, block_count: 1 }));
    assert_eq!(clamp_range(10, 3, 4), Ok(BlockRange { from_height: 3, block_count: 4 }));
    assert_eq!(clamp_range(10, 3, 7), Ok(BlockRange { from_height: 3, block_count: 7 }));
    assert_eq!(clamp_range(10, 3, 8), Ok(BlockRange { from_height: 3, block_count: 7 }));
    assert_eq!(clamp_range(10, 10, 2), Ok(BlockRange { from_height: 9, block_count: 1 }));
    assert_eq!(clamp_range(10, 0, 0), Ok(BlockRange { from_height: 0, block_count: 0 }));
}

#[test]
fn blocks_of_a_range_are_read_with_their_heights() {
    let mut store = BlockStore::new();
    assert_eq!(store.read_blocks(0, 1), Err(KuraError::Empty));
    for block in [vec![1u8], vec![2, 2], vec![3, 3, 3]] {
        store.append_block_to_chain(&block).unwrap();
    }
    assert_eq!(
        store.read_blocks(u64::MAX, 1),
        Ok(vec![StoredBlock { height: 3, index: BlockIndex { start: 3, length: 3 }, bytes: vec![3, 3, 3] }])
    );
    assert_eq!(
        store.read_blocks(1, 5),
        Ok(vec![
            StoredBlock { height: 2, index: BlockIndex { start: 1, length: 2 }, bytes: vec![2, 2] },
            StoredBlock { height: 3, index: BlockIndex { start: 3, length: 3 }, bytes: vec![3, 3, 3] },
        ])
    );
}
