//! The block store: blocks appended to a data image, found through an index
//! image of fixed-width records.
//!
//! The data image holds the blocks one after the other, byte for byte as
//! they were handed in. The index image holds one record per block, in
//! block order: the block's first byte offset in the data image and its
//! length, each as a little-endian `u64`. A block is readable once its
//! record is in the index; bytes of the data image that no record covers
//! are invisible.

use vstd::prelude::*;
use vstd::bytes::{spec_u64_from_le_bytes, spec_u64_to_le_bytes, u64_from_le_bytes, u64_to_le_bytes, lemma_auto_spec_u64_to_from_le_bytes};
use vstd::slice::slice_subrange;

verus! {

/// The width of one index record in bytes.
pub const RECORD_SIZE: usize = 16;

/// Where a block lies in the data image.
#[derive(Clone, Copy, Debug, PartialEq, Eq, Structural)]
pub struct BlockIndex {
    /// The offset of the block's first byte.
    pub start: u64,
    /// The number of bytes of the block.
    pub length: u64,
}

/// Why an operation on the block store was refused.
#[derive(Clone, Copy, Debug, PartialEq, Eq, Structural)]
pub enum KuraError {
    /// Records were asked for that the index does not hold.
    OutOfBoundsBlockRead,
    /// Bytes were asked for that the data image does not hold.
    OutOfBoundsDataRead,
    /// The index covers bytes that the data image does not hold.
    IndexBeyondData,
    /// An offset does not fit the machine.
    Overflow,
    /// The height zero was given where heights count from one.
    ZeroHeight,
    /// The store holds no block.
    Empty,
}

/// The sixteen bytes of a record.
pub open spec fn record_bytes(r: BlockIndex) -> Seq<u8> {
    spec_u64_to_le_bytes(r.start) + spec_u64_to_le_bytes(r.length)
}

/// The number of whole records in an index image.
pub open spec fn record_count(index: Seq<u8>) -> nat {
    (index.len() / 16) as nat
}

/// The record at position `i` of an index image.
pub open spec fn record_at(index: Seq<u8>, i: int) -> BlockIndex {
    BlockIndex {
        start: spec_u64_from_le_bytes(index.subrange(16 * i, 16 * i + 8)),
        length: spec_u64_from_le_bytes(index.subrange(16 * i + 8, 16 * i + 16)),
    }
}

/// The records of an index image, in block order. Bytes after the last
/// whole record do not count.
pub open spec fn records(index: Seq<u8>) -> Seq<BlockIndex> {
    Seq::new(record_count(index), |i: int| record_at(index, i))
}

/// The offset just after the last block that the records cover.
pub open spec fn declared_end(records: Seq<BlockIndex>) -> int {
    if records.len() == 0 {
        0
    } else {
        records.last().start + records.last().length
    }
}

/// The records lie one after the other from offset zero.
pub open spec fn contiguous(records: Seq<BlockIndex>) -> bool {
    forall|i: int|
        0 <= i < records.len() ==> (#[trigger] records[i]).start == declared_end(
            records.subrange(0, i),
        )
}

/// The bytes of the block that `r` points to.
pub open spec fn block_bytes(data: Seq<u8>, r: BlockIndex) -> Seq<u8> {
    data.subrange(r.start as int, r.start + r.length)
}

/// An index image of whole records followed by one more record holds the
/// records it held and the new one.
pub proof fn lemma_records_push(index: Seq<u8>, r: BlockIndex)
    requires
        index.len() % 16 == 0,
    ensures
        records(index + record_bytes(r)) == records(index).push(r),
{
    lemma_auto_spec_u64_to_from_le_bytes();
    let after = index + record_bytes(r);
    let n = record_count(index) as int;
    assert(spec_u64_to_le_bytes(r.start).len() == 8);
    assert(spec_u64_to_le_bytes(r.length).len() == 8);
    assert(after.len() == index.len() + 16);
    assert(record_count(after) == n + 1);
    assert forall|i: int| 0 <= i < n + 1 implies records(after)[i] == records(index).push(r)[i] by {
        if i < n {
            assert(after.subrange(16 * i, 16 * i + 8) =~= index.subrange(16 * i, 16 * i + 8));
            assert(after.subrange(16 * i + 8, 16 * i + 16) =~= index.subrange(
                16 * i + 8,
                16 * i + 16,
            ));
        } else {
            assert(after.subrange(16 * i, 16 * i + 8) =~= spec_u64_to_le_bytes(r.start));
            assert(after.subrange(16 * i + 8, 16 * i + 16) =~= spec_u64_to_le_bytes(r.length));
        }
    }
    assert(records(after) =~= records(index).push(r));
}

/// Cutting an index image after `n` whole records keeps the first `n`
/// records.
pub proof fn lemma_records_cut(index: Seq<u8>, n: int)
    requires
        0 <= n <= record_count(index),
    ensures
        records(index.subrange(0, 16 * n)) == records(index).subrange(0, n),
{
    let cut = index.subrange(0, 16 * n);
    assert(record_count(cut) == n);
    assert forall|i: int| 0 <= i < n implies records(cut)[i] == records(index)[i] by {
        assert(cut.subrange(16 * i, 16 * i + 8) =~= index.subrange(16 * i, 16 * i + 8));
        assert(cut.subrange(16 * i + 8, 16 * i + 16) =~= index.subrange(16 * i + 8, 16 * i + 16));
    }
    assert(records(cut) =~= records(index).subrange(0, n));
}

impl BlockIndex {
    /// The record as it stands in the index image.
    pub fn encode(&self) -> (bytes: Vec<u8>)
        ensures
            bytes@ == record_bytes(*self),
            bytes@.len() == 16,
    {
        proof {
            lemma_auto_spec_u64_to_from_le_bytes();
        }
        let mut bytes = u64_to_le_bytes(self.start);
        let mut rest = u64_to_le_bytes(self.length);
        bytes.append(&mut rest);
        bytes
    }

    /// The record that sixteen bytes of the index image hold.
    pub fn decode(bytes: &[u8]) -> (r: BlockIndex)
        requires
            bytes@.len() == 16,
        ensures
            r == record_at(bytes@, 0),
    {
        let start = u64_from_le_bytes(slice_subrange(bytes, 0, 8));
        let length = u64_from_le_bytes(slice_subrange(bytes, 8, 16));
        BlockIndex { start, length }
    }
}

/// A record read back from its bytes is the record.
pub proof fn lemma_record_round_trip(r: BlockIndex)
    ensures
        record_at(record_bytes(r), 0) == r,
{
    lemma_auto_spec_u64_to_from_le_bytes();
    assert(record_bytes(r).subrange(0, 8) =~= spec_u64_to_le_bytes(r.start));
    assert(record_bytes(r).subrange(8, 16) =~= spec_u64_to_le_bytes(r.length));
}

/// The two images of a block store.
#[derive(Debug, PartialEq, Eq)]
pub struct BlockStore {
    /// The blocks, one after the other.
    pub data: Vec<u8>,
    /// The records, one per block.
    pub index: Vec<u8>,
}

impl BlockStore {
    /// The records of the index image.
    pub open spec fn records(&self) -> Seq<BlockIndex> {
        records(self.index@)
    }

    /// The records lie one after the other from offset zero, and the data
    /// image holds every byte that they cover.
    pub open spec fn wf(&self) -> bool {
        &&& contiguous(self.records())
        &&& declared_end(self.records()) <= self.data@.len()
    }

    /// The block at position `i`, counted from zero.
    pub open spec fn block(&self, i: int) -> Seq<u8> {
        block_bytes(self.data@, self.records()[i])
    }

    /// An empty store.
    pub fn new() -> (r: BlockStore)
        ensures
            r.data@ == Seq::<u8>::empty(),
            r.index@ == Seq::<u8>::empty(),
            r.records() == Seq::<BlockIndex>::empty(),
            r.wf(),
    {
        let r = BlockStore { data: Vec::new(), index: Vec::new() };
        proof {
            assert(r.records() =~= Seq::<BlockIndex>::empty());
        }
        r
    }

    /// A store from the images of its two files.
    pub fn from_images(data: Vec<u8>, index: Vec<u8>) -> (r: BlockStore)
        ensures
            r.data == data,
            r.index == index,
    {
        BlockStore { data, index }
    }

    /// The number of blocks that the index holds: the size of the index
    /// image divided by the size of a record.
    pub fn read_index_count(&self) -> (n: u64)
        ensures
            n == self.records().len(),
            n * 16 <= self.index@.len(),
            n * 16 <= usize::MAX,
    {
        (self.index.len() / RECORD_SIZE) as u64
    }

    /// The record of the block at position `i`, counted from zero.
    pub fn read_index(&self, i: u64) -> (r: Result<BlockIndex, KuraError>)
        ensures
            match r {
                Ok(record) => i < self.records().len() && record == self.records()[i as int],
                Err(e) => i >= self.records().len() && e == KuraError::OutOfBoundsBlockRead,
            },
    {
        let count = self.read_index_count();
        if i >= count {
            return Err(KuraError::OutOfBoundsBlockRead);
        }
        assert(i * 16 + 16 <= count * 16) by (nonlinear_arith)
            requires
                i < count,
        ;
        let at = (i as usize) * RECORD_SIZE;
        let bytes = slice_subrange(self.index.as_slice(), at, at + RECORD_SIZE);
        let record = BlockIndex::decode(bytes);
        proof {
            let image = self.index@;
            assert(bytes@ == image.subrange(16 * i, 16 * i + 16));
            assert(bytes@.subrange(0, 8) =~= image.subrange(16 * i, 16 * i + 8));
            assert(bytes@.subrange(8, 16) =~= image.subrange(16 * i + 8, 16 * i + 16));
        }
        Ok(record)
    }

    /// Fills `dest` with the records of as many consecutive blocks as it
    /// has room for, from the block at position `start_block_height` on,
    /// counted from zero. Refused, with `dest` untouched, where the index
    /// does not hold them all.
    pub fn read_block_indices(&self, start_block_height: u64, dest: &mut Vec<BlockIndex>) -> (r:
        Result<(), KuraError>)
        ensures
            final(dest)@.len() == old(dest)@.len(),
            match r {
                Ok(()) => start_block_height + old(dest)@.len() <= self.records().len() && final(dest)@ == self.records().subrange(
                    start_block_height as int,
                    start_block_height + old(dest)@.len(),
                ),
                Err(e) => start_block_height + old(dest)@.len() > self.records().len() && e
                    == KuraError::OutOfBoundsBlockRead && final(dest)@ == old(dest)@,
            },
    {
        let count = self.read_index_count();
        let wanted = dest.len();
        if start_block_height > count || (wanted as u64) > count - start_block_height {
            return Err(KuraError::OutOfBoundsBlockRead);
        }
        let mut k: usize = 0;
        while k < wanted
            invariant
                k <= wanted,
                wanted == dest@.len(),
                count == self.records().len(),
                start_block_height + wanted <= count,
                forall|j: int|
                    0 <= j < k ==> #[trigger] dest@[j] == self.records()[start_block_height + j],
            decreases wanted - k,
        {
            match self.read_index(start_block_height + (k as u64)) {
                Ok(record) => {
                    dest[k] = record;
                },
                Err(_) => {},
            }
            k = k + 1;
        }
        proof {
            assert(dest@ =~= self.records().subrange(
                start_block_height as int,
                start_block_height + wanted,
            ));
        }
        Ok(())
    }

    /// Fills `dest` with the bytes of the data image from the offset
    /// `start_location_in_data_file` on: exactly as many as it has room
    /// for. Refused, with `dest` untouched, where the data image does not
    /// hold them all.
    pub fn read_block_data(&self, start_location_in_data_file: u64, dest: &mut Vec<u8>) -> (r:
        Result<(), KuraError>)
        ensures
            final(dest)@.len() == old(dest)@.len(),
            match r {
                Ok(()) => start_location_in_data_file + old(dest)@.len() <= self.data@.len()
                    && final(dest)@ == self.data@.subrange(
                    start_location_in_data_file as int,
                    start_location_in_data_file + old(dest)@.len(),
                ),
                Err(e) => start_location_in_data_file + old(dest)@.len() > self.data@.len() && e
                    == KuraError::OutOfBoundsDataRead && final(dest)@ == old(dest)@,
            },
    {
        let size = self.data.len();
        let wanted = dest.len();
        if start_location_in_data_file > (size as u64) || wanted > size - (
        start_location_in_data_file as usize) {
            return Err(KuraError::OutOfBoundsDataRead);
        }
        let start = start_location_in_data_file as usize;
        let mut k: usize = 0;
        while k < wanted
            invariant
                k <= wanted,
                wanted == dest@.len(),
                size == self.data@.len(),
                start + wanted <= self.data@.len(),
                forall|j: int| 0 <= j < k ==> #[trigger] dest@[j] == self.data@[start + j],
            decreases wanted - k,
        {
            dest[k] = self.data[start + k];
            k = k + 1;
        }
        proof {
            assert(dest@ =~= self.data@.subrange(start as int, start + wanted));
        }
        Ok(())
    }

    /// The bytes of the block at position `i`, counted from zero.
    pub fn read_block(&self, i: u64) -> (r: Result<Vec<u8>, KuraError>)
        ensures
            match r {
                Ok(bytes) => i < self.records().len() && self.records()[i as int].start
                    + self.records()[i as int].length <= self.data@.len() && bytes@ == self.block(
                    i as int,
                ),
                Err(e) => if i >= self.records().len() {
                    e == KuraError::OutOfBoundsBlockRead
                } else if self.records()[i as int].length > usize::MAX {
                    e == KuraError::Overflow
                } else {
                    e == KuraError::OutOfBoundsDataRead && self.records()[i as int].start
                        + self.records()[i as int].length > self.data@.len()
                },
            },
    {
        let record = match self.read_index(i) {
            Ok(record) => record,
            Err(e) => {
                return Err(e);
            },
        };
        if record.length > (usize::MAX as u64) {
            return Err(KuraError::Overflow);
        }
        let mut bytes: Vec<u8> = Vec::new();
        bytes.resize(record.length as usize, 0u8);
        match self.read_block_data(record.start, &mut bytes) {
            Ok(()) => Ok(bytes),
            Err(e) => Err(e),
        }
    }

    /// Appends a block: its bytes are written to the data image at the
    /// offset where the last block ends, and only then is its record
    /// written after the last whole record of the index image. Refused,
    /// with the store untouched, where the index covers bytes that the data
    /// image does not hold, or where an offset does not fit.
    pub fn append_block_to_chain(&mut self, block: &Vec<u8>) -> (r: Result<(), KuraError>)
        ensures
            match r {
                Ok(()) => {
                    let start = declared_end(old(self).records());
                    &&& start <= old(self).data@.len()
                    &&& start + block@.len() <= u64::MAX
                    &&& final(self).data@ == old(self).data@.subrange(0, start) + block@
                    &&& final(self).records() == old(self).records().push(
                        BlockIndex { start: start as u64, length: block@.len() as u64 },
                    )
                },
                Err(e) => *final(self) == *old(self) && if declared_end(old(self).records()) > old(self).data@.len() {
                    e == KuraError::IndexBeyondData
                } else {
                    e == KuraError::Overflow && (declared_end(old(self).records()) + block@.len()
                        > u64::MAX || (old(self).records().len() + 1) * 16 > usize::MAX)
                },
            },
    {
        let count = self.read_index_count();
        let size = self.data.len();
        let start: u64 = if count == 0 {
            0
        } else {
            match self.read_index(count - 1) {
                Ok(last) => match last.start.checked_add(last.length) {
                    Some(end) => end,
                    None => {
                        return Err(KuraError::IndexBeyondData);
                    },
                },
                Err(e) => vstd::pervasive::unreached(),
            }
        };
        if start > (self.data.len() as u64) {
            return Err(KuraError::IndexBeyondData);
        }
        let length = block.len() as u64;
        let end = match start.checked_add(length) {
            Some(end) => end,
            None => {
                return Err(KuraError::Overflow);
            },
        };
        let whole = (count as usize) * RECORD_SIZE;
        if whole > usize::MAX - RECORD_SIZE {
            return Err(KuraError::Overflow);
        }
        let record = BlockIndex { start, length };
        let bytes = record.encode();
        proof {
            lemma_records_cut(self.index@, count as int);
            lemma_records_push(self.index@.subrange(0, whole as int), record);
            assert(records(self.index@).subrange(0, count as int) =~= records(self.index@));
        }
        self.data.truncate(start as usize);
        self.data.extend_from_slice(block.as_slice());
        self.index.truncate(whole);
        self.index.extend_from_slice(bytes.as_slice());
        proof {
            assert(self.data@ =~= old(self).data@.subrange(0, start as int) + block@);
            assert(self.index@ =~= old(self).index@.subrange(0, whole as int) + bytes@);
            assert(declared_end(old(self).records()) == start);
        }
        Ok(())
    }

    /// Shortens the index to `height` records; an index that holds no more
    /// is left as it is. The data image is not touched: what the index no
    /// longer covers becomes invisible.
    pub fn prune(&mut self, height: u64)
        ensures
            final(self).data == old(self).data,
            height >= old(self).records().len() ==> final(self).index == old(self).index,
            height < old(self).records().len() ==> final(self).records() == old(self).records().subrange(0, height as int),
    {
        let count = self.read_index_count();
        if height < count {
            assert(height * 16 <= count * 16) by (nonlinear_arith)
                requires
                    height < count,
            ;
            let keep = (height as usize) * RECORD_SIZE;
            proof {
                lemma_records_cut(self.index@, height as int);
            }
            self.index.truncate(keep);
        }
    }

    /// Cuts the data image where the index says the last block ends, and
    /// the index image after its last whole record. Refused, with the store
    /// untouched, where the index covers bytes that the data image does not
    /// hold.
    pub fn recover(&mut self) -> (r: Result<(), KuraError>)
        ensures
            match r {
                Ok(()) => {
                    let end = declared_end(old(self).records());
                    &&& end <= old(self).data@.len()
                    &&& final(self).data@ == old(self).data@.subrange(0, end)
                    &&& final(self).records() == old(self).records()
                    &&& final(self).index@.len() == old(self).records().len() * 16
                },
                Err(e) => e == KuraError::IndexBeyondData && *final(self) == *old(self)
                    && declared_end(old(self).records()) > old(self).data@.len(),
            },
    {
        let count = self.read_index_count();
        let size = self.data.len();
        let end: u64 = if count == 0 {
            0
        } else {
            match self.read_index(count - 1) {
                Ok(last) => match last.start.checked_add(last.length) {
                    Some(end) => end,
                    None => {
                        return Err(KuraError::IndexBeyondData);
                    },
                },
                Err(e) => vstd::pervasive::unreached(),
            }
        };
        if end > (self.data.len() as u64) {
            return Err(KuraError::IndexBeyondData);
        }
        proof {
            lemma_records_cut(self.index@, count as int);
            assert(records(self.index@).subrange(0, count as int) =~= records(self.index@));
        }
        self.data.truncate(end as usize);
        self.index.truncate((count as usize) * RECORD_SIZE);
        Ok(())
    }
}

/// In contiguous records every block ends where the next one starts, and so
/// no later than the last one ends.
pub proof fn lemma_blocks_within_end(records: Seq<BlockIndex>, i: int)
    requires
        contiguous(records),
        0 <= i < records.len(),
    ensures
        records[i].start + records[i].length <= declared_end(records),
    decreases records.len() - i,
{
    if i + 1 < records.len() {
        lemma_blocks_within_end(records, i + 1);
        assert(records.subrange(0, i + 1).last() == records[i]);
    }
}

/// A block appended to a well-formed store can be read back as it was
/// written, every block that was there reads as before, and the store is
/// well formed again.
pub proof fn lemma_append_readable(before: BlockStore, after: BlockStore, block: Seq<u8>)
    requires
        before.wf(),
        declared_end(before.records()) + block.len() <= u64::MAX,
        after.data@ == before.data@.subrange(0, declared_end(before.records())) + block,
        after.records() == before.records().push(
            BlockIndex {
                start: declared_end(before.records()) as u64,
                length: block.len() as u64,
            },
        ),
    ensures
        after.wf(),
        after.block(before.records().len() as int) == block,
        forall|i: int| 0 <= i < before.records().len() ==> after.block(i) == before.block(i),
{
    let old_records = before.records();
    let new_records = after.records();
    let start = declared_end(old_records);
    let n = old_records.len() as int;
    assert(after.block(n) =~= block);
    assert forall|i: int| 0 <= i < n implies after.block(i) == before.block(i) by {
        lemma_blocks_within_end(old_records, i);
        assert(new_records[i] == old_records[i]);
        assert(after.block(i) =~= before.block(i));
    }
    assert(contiguous(new_records)) by {
        assert forall|i: int| 0 <= i < new_records.len() implies (#[trigger] new_records[i]).start
            == declared_end(new_records.subrange(0, i)) by {
            assert(new_records.subrange(0, i) =~= old_records.subrange(0, i));
            if i == n {
                assert(old_records.subrange(0, n) =~= old_records);
            }
        }
    }
}

/// Shortening the index of a well-formed store leaves it well formed, and
/// the blocks that the index still covers read as before.
pub proof fn lemma_prune_keeps_blocks(before: BlockStore, after: BlockStore, height: int)
    requires
        before.wf(),
        0 <= height <= before.records().len(),
        after.data@ == before.data@,
        after.records() == before.records().subrange(0, height),
    ensures
        after.wf(),
        forall|i: int| 0 <= i < height ==> after.block(i) == before.block(i),
{
    let old_records = before.records();
    let new_records = after.records();
    assert forall|i: int| 0 <= i < new_records.len() implies (#[trigger] new_records[i]).start
        == declared_end(new_records.subrange(0, i)) by {
        assert(new_records.subrange(0, i) =~= old_records.subrange(0, i));
        assert(new_records[i] == old_records[i]);
    }
    if height > 0 {
        lemma_blocks_within_end(old_records, height - 1);
        assert(new_records.last() == old_records[height - 1]);
    }
}

/// The position, counted from zero, of the block that a caller names by its
/// height, counted from one: no height asks for the newest block.
pub fn start_position(from: Option<u64>) -> (r: Result<u64, KuraError>)
    ensures
        match from {
            None => r == Ok::<u64, KuraError>(u64::MAX),
            Some(height) => if height == 0 {
                r == Err::<u64, KuraError>(KuraError::ZeroHeight)
            } else {
                r == Ok::<u64, KuraError>((height - 1) as u64)
            },
        },
{
    match from {
        None => Ok(u64::MAX),
        Some(height) => {
            if height == 0 {
                Err(KuraError::ZeroHeight)
            } else {
                Ok(height - 1)
            }
        },
    }
}

/// A run of consecutive blocks.
#[derive(Clone, Copy, Debug, PartialEq, Eq, Structural)]
pub struct BlockRange {
    /// The position of the first block, counted from zero.
    pub from_height: u64,
    /// The number of blocks.
    pub block_count: u64,
}

/// The run of blocks to show out of `index_count` blocks: it starts at
/// `from_height`, or at the last block where that lies beyond it, and holds
/// `block_count` blocks, or as many as there are from its start on where
/// that is fewer. An empty store has nothing to show.
pub fn clamp_range(index_count: u64, from_height: u64, block_count: u64) -> (r: Result<
    BlockRange,
    KuraError,
>)
    ensures
        match r {
            Err(e) => index_count == 0 && e == KuraError::Empty,
            Ok(range) => {
                &&& index_count > 0
                &&& range.from_height == if from_height >= index_count {
                    (index_count - 1) as u64
                } else {
                    from_height
                }
                &&& range.block_count == if range.from_height + block_count > index_count {
                    (index_count - range.from_height) as u64
                } else {
                    block_count
                }
            },
        },
{
    if index_count == 0 {
        return Err(KuraError::Empty);
    }
    let from_height = if from_height >= index_count {
        index_count - 1
    } else {
        from_height
    };
    let block_count = if block_count > index_count - from_height {
        index_count - from_height
    } else {
        block_count
    };
    Ok(BlockRange { from_height, block_count })
}

/// One block as the store holds it.
#[derive(Debug, PartialEq, Eq)]
pub struct StoredBlock {
    /// The height of the block, counted from one.
    pub height: u64,
    /// Where the block lies in the data image.
    pub index: BlockIndex,
    /// The bytes of the block, to be handed to the block decoder.
    pub bytes: Vec<u8>,
}

/// What stands in the way of reading the block that `record` points to out
/// of a data image of `size` bytes: its length does not fit the machine, or
/// the image does not hold all of its bytes.
pub open spec fn block_fault(size: nat, record: BlockIndex) -> Option<KuraError> {
    if record.length > usize::MAX {
        Some(KuraError::Overflow)
    } else if record.start + record.length > size {
        Some(KuraError::OutOfBoundsDataRead)
    } else {
        None
    }
}

/// What stands in the way of reading the `wanted` blocks from position
/// `first` on, in block order: what stands in the way of the first of them
/// that cannot be read.
pub open spec fn run_fault(size: nat, records: Seq<BlockIndex>, first: int, wanted: int) -> Option<
    KuraError,
>
    decreases wanted,
{
    if wanted <= 0 {
        None
    } else {
        match run_fault(size, records, first, wanted - 1) {
            Some(e) => Some(e),
            None => block_fault(size, records[first + wanted - 1]),
        }
    }
}

proof fn lemma_run_fault_stays(
    size: nat,
    records: Seq<BlockIndex>,
    first: int,
    met: int,
    wanted: int,
)
    requires
        0 <= met <= wanted,
        run_fault(size, records, first, met) is Some,
    ensures
        run_fault(size, records, first, wanted) == run_fault(size, records, first, met),
    decreases wanted - met,
{
    if met < wanted {
        lemma_run_fault_stays(size, records, first, met, wanted - 1);
    }
}

/// Every block of a well-formed store can be read.
pub proof fn lemma_wf_store_readable(store: BlockStore, i: int)
    requires
        store.wf(),
        store.data@.len() <= usize::MAX,
        0 <= i < store.records().len(),
    ensures
        block_fault(store.data@.len(), store.records()[i]) is None,
{
    lemma_blocks_within_end(store.records(), i);
}

impl BlockStore {
    /// Reads the blocks of the run that [`clamp_range`] gives for
    /// `from_height` and `block_count`, in block order. Refused where the
    /// store is empty, and where a block of the run cannot be read, for the
    /// reason that the first such block cannot.
    pub fn read_blocks(&self, from_height: u64, block_count: u64) -> (r: Result<
        Vec<StoredBlock>,
        KuraError,
    >)
        ensures
            ({
                let count = self.records().len() as u64;
                let first = if from_height >= count {
                    (count - 1) as u64
                } else {
                    from_height
                };
                let wanted = if first + block_count > count {
                    count - first
                } else {
                    block_count as int
                };
                match r {
                    Ok(blocks) => {
                        &&& count > 0
                        &&& run_fault(self.data@.len(), self.records(), first as int, wanted) is None
                        &&& blocks@.len() == wanted
                        &&& forall|k: int|
                            0 <= k < wanted ==> {
                                &&& (#[trigger] blocks@[k]).height == first + k + 1
                                &&& blocks@[k].index == self.records()[first + k]
                                &&& blocks@[k].bytes@ == self.block(first + k)
                            }
                    },
                    Err(e) => if count == 0 {
                        e == KuraError::Empty
                    } else {
                        run_fault(self.data@.len(), self.records(), first as int, wanted) == Some(e)
                    },
                }
            }),
    {
        let count = self.read_index_count();
        let range = match clamp_range(count, from_height, block_count) {
            Ok(range) => range,
            Err(e) => {
                return Err(e);
            },
        };
        let size = self.data.len();
        let mut blocks: Vec<StoredBlock> = Vec::new();
        let mut k: u64 = 0;
        while k < range.block_count
            invariant
                count == self.records().len(),
                count > 0,
                range.from_height == if from_height >= count {
                    (count - 1) as u64
                } else {
                    from_height
                },
                range.block_count == if range.from_height + block_count > count {
                    (count - range.from_height) as u64
                } else {
                    block_count
                },
                size == self.data@.len(),
                k <= range.block_count,
                range.from_height + range.block_count <= count,
                blocks@.len() == k,
                forall|j: int|
                    0 <= j < k ==> {
                        &&& (#[trigger] blocks@[j]).height == range.from_height + j + 1
                        &&& blocks@[j].index == self.records()[range.from_height + j]
                        &&& blocks@[j].bytes@ == self.block(range.from_height + j)
                    },
                run_fault(self.data@.len(), self.records(), range.from_height as int, k as int)
                    is None,
            decreases range.block_count - k,
        {
            let position = range.from_height + k;
            let index = match self.read_index(position) {
                Ok(index) => index,
                Err(_) => vstd::pervasive::unreached(),
            };
            let bytes = match self.read_block(position) {
                Ok(bytes) => bytes,
                Err(e) => {
                    proof {
                        assert(block_fault(
                            self.data@.len(),
                            self.records()[range.from_height + k],
                        ) == Some(e));
                        lemma_run_fault_stays(
                            self.data@.len(),
                            self.records(),
                            range.from_height as int,
                            k + 1,
                            range.block_count as int,
                        );
                    }
                    return Err(e);
                },
            };
            blocks.push(StoredBlock { height: position + 1, index, bytes });
            k = k + 1;
        }
        Ok(blocks)
    }
}

} // verus!
