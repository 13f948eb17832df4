//! Block headers and the chain they form: every block but the first names
//! the hash of the block before it.

use vstd::prelude::*;
use crate::transaction::CommittedTransaction;

verus! {

/// The hash of a signed block, computed elsewhere and taken here as given.
#[derive(Clone, Copy, Debug, PartialEq, Eq)]
pub struct BlockHash {
    pub bytes: [u8; 32],
}

impl View for BlockHash {
    type V = Seq<u8>;

    open spec fn view(&self) -> Seq<u8> {
        self.bytes@
    }
}

impl BlockHash {
    pub fn new(bytes: [u8; 32]) -> (r: BlockHash)
        ensures
            r@ == bytes@,
    {
        BlockHash { bytes }
    }

    /// Whether both hashes hold the same bytes.
    pub fn same(&self, other: &BlockHash) -> (r: bool)
        ensures
            r == (self@ == other@),
    {
        let mut i: usize = 0;
        while i < 32
            invariant
                i <= 32,
                forall|k: int| 0 <= k < i ==> self.bytes@[k] == other.bytes@[k],
            decreases 32 - i,
        {
            if self.bytes[i] != other.bytes[i] {
                return false;
            }
            i = i + 1;
        }
        proof {
            assert(self@ =~= other@);
        }
        true
    }
}

/// The hash that a header names, if any, as plain values.
pub open spec fn hash_view(hash: Option<BlockHash>) -> Option<Seq<u8>> {
    match hash {
        Some(h) => Some(h@),
        None => None,
    }
}

/// A block header as plain values.
pub struct BlockHeaderView {
    pub height: u64,
    pub prev_block_hash: Option<Seq<u8>>,
    pub hash: Seq<u8>,
}

/// What identifies a block and ties it to the block before it.
#[derive(Clone, Copy, Debug, PartialEq, Eq)]
pub struct BlockHeader {
    /// The height of the block, counted from one.
    pub height: u64,
    /// The hash of the block before this one; none for the first block.
    pub prev_block_hash: Option<BlockHash>,
    /// The hash of this block.
    pub hash: BlockHash,
}

impl View for BlockHeader {
    type V = BlockHeaderView;

    open spec fn view(&self) -> BlockHeaderView {
        BlockHeaderView {
            height: self.height,
            prev_block_hash: hash_view(self.prev_block_hash),
            hash: self.hash@,
        }
    }
}

impl BlockHeader {
    pub fn new(height: u64, prev_block_hash: Option<BlockHash>, hash: BlockHash) -> (r: BlockHeader)
        ensures
            r.height == height,
            r.prev_block_hash == prev_block_hash,
            r.hash == hash,
    {
        BlockHeader { height, prev_block_hash, hash }
    }

    pub fn height(&self) -> (r: u64)
        ensures
            r == self.height,
    {
        self.height
    }

    pub fn prev_block_hash(&self) -> (r: Option<BlockHash>)
        ensures
            r == self.prev_block_hash,
    {
        self.prev_block_hash
    }

    pub fn hash(&self) -> (r: BlockHash)
        ensures
            r == self.hash,
    {
        self.hash
    }
}

/// Why a block does not continue a chain.
#[derive(Clone, Copy, Debug, PartialEq, Eq, Structural)]
pub enum ChainError {
    /// The height of the block is not one more than the height of the chain.
    HeightMismatch,
    /// The block does not name the hash of the last block of the chain, or
    /// names a hash where the chain is empty.
    PrevBlockHashMismatch,
}

/// The headers are those of a chain: heights count from one, the first
/// block names no block before it, and every other block names the hash of
/// the block before it.
pub open spec fn linked(headers: Seq<BlockHeaderView>) -> bool {
    &&& forall|i: int| 0 <= i < headers.len() ==> (#[trigger] headers[i]).height == i + 1
    &&& headers.len() > 0 ==> headers[0].prev_block_hash == None::<Seq<u8>>
    &&& forall|i: int, j: int|
        0 <= i && j == i + 1 && j < headers.len() ==> (#[trigger] headers[j]).prev_block_hash
            == Some((#[trigger] headers[i]).hash)
}

/// Whether `header` continues a chain of `headers`, and if not, why not.
pub open spec fn continues(headers: Seq<BlockHeaderView>, header: BlockHeaderView) -> Result<
    (),
    ChainError,
> {
    if header.height != headers.len() + 1 {
        Err(ChainError::HeightMismatch)
    } else if header.prev_block_hash != (if headers.len() == 0 {
        None::<Seq<u8>>
    } else {
        Some(headers.last().hash)
    }) {
        Err(ChainError::PrevBlockHashMismatch)
    } else {
        Ok(())
    }
}

/// A block: its header and the transactions that were executed in it, each
/// with the reason of its failure where it failed.
#[derive(Debug, PartialEq, Eq)]
pub struct Block {
    pub header: BlockHeader,
    pub transactions: Vec<CommittedTransaction>,
}

impl Block {
    pub fn new(header: BlockHeader, transactions: Vec<CommittedTransaction>) -> (r: Block)
        ensures
            r.header == header,
            r.transactions == transactions,
    {
        Block { header, transactions }
    }

    pub fn header(&self) -> (r: &BlockHeader)
        ensures
            *r == self.header,
    {
        &self.header
    }

    /// Whether the block holds no transaction.
    pub fn is_empty(&self) -> (r: bool)
        ensures
            r == (self.transactions@.len() == 0),
    {
        self.transactions.len() == 0
    }
}

/// The headers of `blocks` as plain values, in order.
pub open spec fn headers_of(blocks: Seq<Block>) -> Seq<BlockHeaderView> {
    Seq::new(blocks.len(), |i: int| blocks[i].header@)
}

/// The transactions of `blocks`, in the order in which they were executed.
pub open spec fn committed(blocks: Seq<Block>) -> Seq<CommittedTransaction>
    decreases blocks.len(),
{
    if blocks.len() == 0 {
        Seq::empty()
    } else {
        committed(blocks.drop_last()) + blocks.last().transactions@
    }
}

/// What the references point to, in order.
pub open spec fn values<T>(refs: Seq<&T>) -> Seq<T> {
    Seq::new(refs.len(), |i: int| *refs[i])
}

/// The committed blocks, oldest first.
#[derive(Debug, PartialEq, Eq)]
pub struct Chain {
    blocks: Vec<Block>,
}

impl Chain {
    #[verifier::type_invariant]
    spec fn inv(&self) -> bool {
        linked(headers_of(self.blocks@))
    }

    /// The blocks of the chain, oldest first.
    pub closed spec fn blocks(&self) -> Seq<Block> {
        self.blocks@
    }

    /// The headers of the chain, oldest first.
    pub open spec fn headers(&self) -> Seq<BlockHeaderView> {
        headers_of(self.blocks())
    }

    /// The chain without blocks.
    pub fn new() -> (r: Chain)
        ensures
            r.blocks() == Seq::<Block>::empty(),
    {
        Chain { blocks: Vec::new() }
    }

    /// The height of the chain: the number of its blocks.
    pub fn height(&self) -> (r: usize)
        ensures
            r == self.blocks().len(),
    {
        self.blocks.len()
    }

    /// Decides whether a block with `header` continues the chain.
    pub fn check(&self, header: &BlockHeader) -> (r: Result<(), ChainError>)
        ensures
            r == continues(self.headers(), header@),
    {
        let n = self.blocks.len();
        if (n as u64) == u64::MAX || header.height != (n as u64) + 1 {
            return Err(ChainError::HeightMismatch);
        }
        match header.prev_block_hash {
            None => {
                if n == 0 {
                    Ok(())
                } else {
                    Err(ChainError::PrevBlockHashMismatch)
                }
            },
            Some(prev) => {
                if n == 0 {
                    Err(ChainError::PrevBlockHashMismatch)
                } else {
                    let last = &self.blocks[n - 1].header;
                    proof {
                        assert(self.headers().last() == last@);
                    }
                    if prev.same(&last.hash) {
                        Ok(())
                    } else {
                        Err(ChainError::PrevBlockHashMismatch)
                    }
                }
            },
        }
    }

    /// Appends a block that continues the chain; a block that does not is
    /// refused and the chain stays as it was.
    pub fn push(&mut self, block: Block) -> (r: Result<(), ChainError>)
        ensures
            r == continues(old(self).headers(), block.header@),
            r is Ok ==> final(self).blocks() == old(self).blocks().push(block),
            r is Err ==> *final(self) == *old(self),
            linked(final(self).headers()),
    {
        proof {
            use_type_invariant(&*self);
        }
        match self.check(&block.header) {
            Ok(()) => {},
            Err(e) => {
                return Err(e);
            },
        }
        let ghost before = self.blocks@;
        proof {
            lemma_push_keeps_linked(headers_of(before), block.header@);
            assert(headers_of(before.push(block)) =~= headers_of(before).push(block.header@));
        }
        let mut blocks = Vec::new();
        std::mem::swap(&mut blocks, &mut self.blocks);
        blocks.push(block);
        self.blocks = blocks;
        Ok(())
    }

    /// The block at `height`, counted from one.
    pub fn block(&self, height: u64) -> (r: Option<&Block>)
        ensures
            match r {
                Some(block) => 1 <= height <= self.blocks().len() && *block
                    == self.blocks()[height - 1],
                None => height == 0 || height > self.blocks().len(),
            },
    {
        if height == 0 || height > self.blocks.len() as u64 {
            None
        } else {
            Some(&self.blocks[(height - 1) as usize])
        }
    }

    /// The blocks of the chain, newest first.
    pub fn find_blocks(&self) -> (r: Vec<&Block>)
        ensures
            values(r@) == self.blocks().reverse(),
            linked(self.headers()),
    {
        proof {
            use_type_invariant(self);
        }
        let n = self.blocks.len();
        let mut found: Vec<&Block> = Vec::new();
        let mut i: usize = 0;
        while i < n
            invariant
                i <= n,
                n == self.blocks@.len(),
                found@.len() == i,
                forall|k: int| 0 <= k < i ==> *(#[trigger] found@[k]) == self.blocks@[n - 1 - k],
            decreases n - i,
        {
            found.push(&self.blocks[n - 1 - i]);
            i = i + 1;
        }
        proof {
            assert(values(found@) =~= self.blocks@.reverse());
        }
        found
    }

    /// The transactions of the chain, newest first: the reverse of the
    /// order in which they were executed.
    pub fn find_transactions(&self) -> (r: Vec<&CommittedTransaction>)
        ensures
            values(r@) == committed(self.blocks()).reverse(),
    {
        let n = self.blocks.len();
        let mut forward: Vec<&CommittedTransaction> = Vec::new();
        let mut b: usize = 0;
        proof {
            assert(self.blocks@.subrange(0, 0) =~= Seq::<Block>::empty());
            assert(values(forward@) =~= Seq::<CommittedTransaction>::empty());
        }
        while b < n
            invariant
                b <= n,
                n == self.blocks@.len(),
                values(forward@) == committed(self.blocks@.subrange(0, b as int)),
            decreases n - b,
        {
            let block = &self.blocks[b];
            let count = block.transactions.len();
            let ghost before = values(forward@);
            let mut t: usize = 0;
            proof {
                assert(before + block.transactions@.subrange(0, 0) =~= before);
            }
            while t < count
                invariant
                    t <= count,
                    count == block.transactions@.len(),
                    values(forward@) == before + block.transactions@.subrange(0, t as int),
                decreases count - t,
            {
                let ghost prev = forward@;
                forward.push(&block.transactions[t]);
                proof {
                    let target = before + block.transactions@.subrange(0, t + 1);
                    assert(values(prev).len() == prev.len());
                    assert(block.transactions@.subrange(0, t as int).len() == t);
                    assert(values(prev).len() == before.len() + t);
                    assert(block.transactions@.subrange(0, t + 1).len() == t + 1);
                    assert(values(forward@).len() == target.len());
                    assert forall|k: int| 0 <= k < target.len() implies values(forward@)[k]
                        == target[k] by {
                        if k < prev.len() {
                            assert(values(forward@)[k] == values(prev)[k]);
                            assert(values(prev)[k] == (before + block.transactions@.subrange(
                                0,
                                t as int,
                            ))[k]);
                        }
                    }
                    assert(values(forward@) =~= target);
                }
                t = t + 1;
            }
            proof {
                assert(block.transactions@.subrange(0, count as int) =~= block.transactions@);
                assert(self.blocks@.subrange(0, b + 1).drop_last() =~= self.blocks@.subrange(
                    0,
                    b as int,
                ));
                assert(self.blocks@.subrange(0, b + 1).last() == *block);
            }
            b = b + 1;
        }
        proof {
            assert(self.blocks@.subrange(0, n as int) =~= self.blocks@);
        }
        let total = forward.len();
        let mut found: Vec<&CommittedTransaction> = Vec::new();
        let mut i: usize = 0;
        while i < total
            invariant
                i <= total,
                total == forward@.len(),
                found@.len() == i,
                forall|k: int| 0 <= k < i ==> *(#[trigger] found@[k]) == *forward@[total - 1 - k],
            decreases total - i,
        {
            found.push(forward[total - 1 - i]);
            i = i + 1;
        }
        proof {
            assert(values(found@) =~= values(forward@).reverse());
        }
        found
    }
}

/// In a chain, the block at every height above one names the hash of the
/// block one below it, and the block at height one names none.
pub proof fn lemma_chain_is_linked(headers: Seq<BlockHeaderView>, height: int)
    requires
        linked(headers),
        1 <= height <= headers.len(),
    ensures
        height > 1 ==> headers[height - 1].prev_block_hash == Some(headers[height - 2].hash),
        height == 1 ==> headers[height - 1].prev_block_hash == None::<Seq<u8>>,
        headers[height - 1].height == height,
{
}

/// A block that continues a chain makes a chain.
pub proof fn lemma_push_keeps_linked(headers: Seq<BlockHeaderView>, header: BlockHeaderView)
    requires
        linked(headers),
        continues(headers, header) is Ok,
    ensures
        linked(headers.push(header)),
{
}

} // verus!
