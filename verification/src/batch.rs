//! The span batch type and its conversion to a raw span batch.
use vstd::prelude::*;

use crate::prefix::SpanBatchPrefix;

verus! {

/// A raw, encoded transaction.
#[derive(Debug, Clone, PartialEq, Eq)]
pub struct RawTransaction(pub Vec<u8>);

/// A single block's input in a span batch.
#[derive(Debug, Clone, PartialEq, Eq)]
pub struct SpanBatchElement {
    /// The epoch number of the L1 origin of the block.
    pub epoch_num: u64,
    /// The timestamp of the block.
    pub timestamp: u64,
    /// The transactions of the block.
    pub transactions: Vec<RawTransaction>,
}

/// The span batch contains the input to build a span of L2 blocks in derived form.
#[derive(Debug, Clone, PartialEq, Eq)]
pub struct SpanBatch {
    /// First 20 bytes of the first block's parent hash
    pub parent_check: [u8; 20],
    /// First 20 bytes of the last block's L1 origin hash
    pub l1_origin_check: [u8; 20],
    /// List of block input in derived form
    pub batches: Vec<SpanBatchElement>,
}

/// A bit list, one byte per bit.
#[derive(Debug, Clone, PartialEq, Eq)]
pub struct SpanBatchBits(pub Vec<u8>);

/// The payload of a raw span batch.
#[derive(Debug, Clone, PartialEq, Eq)]
pub struct SpanBatchPayload {
    /// Number of L2 blocks in the span.
    pub block_count: u64,
    /// One origin-changed bit per block.
    pub origin_bits: SpanBatchBits,
    /// Number of transactions of each block.
    pub block_tx_counts: Vec<u64>,
    /// The bytes of all transactions, block after block.
    pub txs: Vec<u8>,
}

/// A span batch in raw form: a prefix and a payload.
#[derive(Debug, Clone, PartialEq, Eq)]
pub struct RawSpanBatch {
    /// The prefix.
    pub prefix: SpanBatchPrefix,
    /// The payload.
    pub payload: SpanBatchPayload,
}

/// The bytes of the transactions `txs`, one after another.
pub open spec fn tx_bytes(txs: Seq<RawTransaction>) -> Seq<u8>
    decreases txs.len(),
{
    if txs.len() == 0 {
        Seq::empty()
    } else {
        tx_bytes(txs.drop_last()) + txs.last().0@
    }
}

/// The bytes of all transactions of the blocks `blocks`, block after block.
pub open spec fn blocks_tx_bytes(blocks: Seq<SpanBatchElement>) -> Seq<u8>
    decreases blocks.len(),
{
    if blocks.len() == 0 {
        Seq::empty()
    } else {
        blocks_tx_bytes(blocks.drop_last()) + tx_bytes(blocks.last().transactions@)
    }
}

/// The number of transactions of each of the blocks `blocks`.
pub open spec fn blocks_tx_counts(blocks: Seq<SpanBatchElement>) -> Seq<u64> {
    blocks.map_values(|b: SpanBatchElement| b.transactions@.len() as u64)
}

impl SpanBatch {
    /// Whether `raw` is what `to_raw_span_batch` makes of this span batch
    /// with the given origin-changed bit, genesis timestamp and chain id.
    pub open spec fn is_raw_form(
        &self,
        raw: RawSpanBatch,
        origin_changed_bit: u8,
        genesis_timestamp: u64,
        chain_id: u64,
    ) -> bool {
        &&& raw.prefix.rel_timestamp == self.batches@[0].timestamp - genesis_timestamp
        &&& raw.prefix.l1_origin_num == chain_id
        &&& raw.prefix.parent_check == self.parent_check
        &&& raw.prefix.l1_origin_check == self.l1_origin_check
        &&& raw.payload.block_count == self.batches@.len()
        &&& raw.payload.origin_bits.0@ == Seq::new(
            self.batches@.len(),
            |i: int| origin_changed_bit,
        )
        &&& raw.payload.block_tx_counts@ == blocks_tx_counts(self.batches@)
        &&& raw.payload.txs@ == blocks_tx_bytes(self.batches@)
    }

    /// Returns the timestamp for the first batch in the span.
    pub fn get_timestamp(&self) -> (res: u64)
        requires
            self.batches@.len() > 0,
        ensures
            res == self.batches@[0].timestamp,
    {
        self.batches[0].timestamp
    }

    /// Converts the span batch to a raw span batch.
    pub fn to_raw_span_batch(
        &self,
        origin_changed_bit: u8,
        genesis_timestamp: u64,
        chain_id: u64,
    ) -> (res: RawSpanBatch)
        requires
            self.batches@.len() > 0,
            self.batches@[0].timestamp >= genesis_timestamp,
        ensures
            self.is_raw_form(res, origin_changed_bit, genesis_timestamp, chain_id),
    {
        let mut block_tx_counts: Vec<u64> = Vec::new();
        let mut txs: Vec<u8> = Vec::new();
        let n = self.batches.len();
        let mut i: usize = 0;
        while i < n
            invariant
                n == self.batches@.len(),
                i <= n,
                block_tx_counts@ == blocks_tx_counts(self.batches@.take(i as int)),
                txs@ == blocks_tx_bytes(self.batches@.take(i as int)),
            decreases n - i,
        {
            let batch = &self.batches[i];
            block_tx_counts.push(batch.transactions.len() as u64);
            let m = batch.transactions.len();
            let ghost before = txs@;
            let mut j: usize = 0;
            while j < m
                invariant
                    m == batch.transactions@.len(),
                    j <= m,
                    txs@ == before + tx_bytes(batch.transactions@.take(j as int)),
                decreases m - j,
            {
                let tx = &batch.transactions[j];
                txs.extend_from_slice(tx.0.as_slice());
                proof {
                    assert(batch.transactions@.take(j + 1).drop_last()
                        =~= batch.transactions@.take(j as int));
                }
                assert(txs@ =~= before + tx_bytes(batch.transactions@.take(j + 1)));
                j = j + 1;
            }
            proof {
                assert(batch.transactions@.take(m as int) =~= batch.transactions@);
                assert(self.batches@.take(i + 1).drop_last() =~= self.batches@.take(i as int));
            }
            assert(block_tx_counts@ =~= blocks_tx_counts(self.batches@.take(i + 1)));
            i = i + 1;
        }
        proof {
            assert(self.batches@.take(n as int) =~= self.batches@);
        }
        let res = RawSpanBatch {
            prefix: SpanBatchPrefix {
                rel_timestamp: self.get_timestamp() - genesis_timestamp,
                l1_origin_num: chain_id,
                parent_check: self.parent_check,
                l1_origin_check: self.l1_origin_check,
            },
            payload: SpanBatchPayload {
                block_count: n as u64,
                origin_bits: SpanBatchBits(vec![origin_changed_bit; n]),
                block_tx_counts,
                txs,
            },
        };
        assert(res.payload.origin_bits.0@ =~= Seq::new(n as nat, |k: int| origin_changed_bit));
        res
    }
}

/// The raw form of a span batch is self-consistent and keeps what it was
/// made from: it has one origin bit and one transaction count per block, the
/// block count is the number of blocks, adding the genesis timestamp back to
/// the relative timestamp gives the first block's timestamp, and the checks
/// are carried over unchanged.
pub proof fn lemma_raw_form_consistent(
    span_batch: SpanBatch,
    raw: RawSpanBatch,
    origin_changed_bit: u8,
    genesis_timestamp: u64,
    chain_id: u64,
)
    requires
        span_batch.batches@.len() > 0,
        span_batch.batches@[0].timestamp >= genesis_timestamp,
        span_batch.is_raw_form(raw, origin_changed_bit, genesis_timestamp, chain_id),
    ensures
        raw.payload.origin_bits.0@.len() == raw.payload.block_count,
        raw.payload.block_tx_counts@.len() == raw.payload.block_count,
        raw.payload.block_count == span_batch.batches@.len(),
        forall|i: int|
            0 <= i < raw.payload.block_count ==> #[trigger] raw.payload.block_tx_counts@[i]
                == span_batch.batches@[i].transactions@.len(),
        raw.prefix.rel_timestamp + genesis_timestamp == span_batch.batches@[0].timestamp,
        raw.prefix.l1_origin_num == chain_id,
        raw.prefix.parent_check == span_batch.parent_check,
        raw.prefix.l1_origin_check == span_batch.l1_origin_check,
        forall|i: int|
            0 <= i < raw.payload.block_count ==> #[trigger] raw.payload.origin_bits.0@[i]
                == origin_changed_bit,
{
    assert forall|i: int| 0 <= i < raw.payload.block_count implies #[trigger] raw.payload.block_tx_counts@[i]
        == span_batch.batches@[i].transactions@.len() by {
        let t = span_batch.batches@[i].transactions@.len();
        assert(span_batch.batches@[i].transactions.len() == t);
    }
}

/// Total length of the byte strings `parts`.
pub open spec fn total_len(parts: Seq<Seq<u8>>) -> nat
    decreases parts.len(),
{
    if parts.len() == 0 {
        0
    } else {
        total_len(parts.drop_last()) + parts.last().len()
    }
}

/// The bytes of each of the transactions `txs`.
pub open spec fn tx_parts(txs: Seq<RawTransaction>) -> Seq<Seq<u8>> {
    txs.map_values(|t: RawTransaction| t.0@)
}

/// Number of transaction bytes in the blocks `blocks`, all together.
pub open spec fn blocks_byte_len(blocks: Seq<SpanBatchElement>) -> nat
    decreases blocks.len(),
{
    if blocks.len() == 0 {
        0
    } else {
        blocks_byte_len(blocks.drop_last()) + total_len(tx_parts(blocks.last().transactions@))
    }
}

/// The byte strings `parts`, one after another.
spec fn concat(parts: Seq<Seq<u8>>) -> Seq<u8>
    decreases parts.len(),
{
    if parts.len() == 0 {
        Seq::empty()
    } else {
        concat(parts.drop_last()) + parts.last()
    }
}

proof fn lemma_concat_len(parts: Seq<Seq<u8>>)
    ensures
        concat(parts).len() == total_len(parts),
    decreases parts.len(),
{
    if parts.len() > 0 {
        lemma_concat_len(parts.drop_last());
    }
}

/// Byte `k` of part `j` stands in the concatenation right after all the
/// bytes of the parts before it.
proof fn lemma_concat_index(parts: Seq<Seq<u8>>, j: int, k: int)
    requires
        0 <= j < parts.len(),
        0 <= k < parts[j].len(),
    ensures
        total_len(parts.take(j)) + k < concat(parts).len(),
        concat(parts)[total_len(parts.take(j)) + k] == parts[j][k],
    decreases parts.len(),
{
    let init = parts.drop_last();
    lemma_concat_len(init);
    lemma_concat_len(parts);
    if j == parts.len() - 1 {
        assert(parts.take(j) =~= init);
    } else {
        assert(parts.take(j) =~= init.take(j));
        lemma_concat_index(init, j, k);
    }
}

proof fn lemma_tx_bytes_concat(txs: Seq<RawTransaction>)
    ensures
        tx_bytes(txs) == concat(tx_parts(txs)),
    decreases txs.len(),
{
    if txs.len() > 0 {
        lemma_tx_bytes_concat(txs.drop_last());
        assert(tx_parts(txs).drop_last() =~= tx_parts(txs.drop_last()));
    }
}

/// The transaction bytes of each block.
spec fn block_parts(blocks: Seq<SpanBatchElement>) -> Seq<Seq<u8>> {
    blocks.map_values(|b: SpanBatchElement| tx_bytes(b.transactions@))
}

proof fn lemma_blocks_concat(blocks: Seq<SpanBatchElement>)
    ensures
        blocks_tx_bytes(blocks) == concat(block_parts(blocks)),
        blocks_byte_len(blocks) == total_len(block_parts(blocks)),
    decreases blocks.len(),
{
    if blocks.len() > 0 {
        lemma_blocks_concat(blocks.drop_last());
        assert(block_parts(blocks).drop_last() =~= block_parts(blocks.drop_last()));
        let t = blocks.last().transactions@;
        lemma_tx_bytes_concat(t);
        lemma_concat_len(tx_parts(t));
    }
}

/// The transaction bytes of a raw span batch are the bytes of every
/// transaction of every block, in block order and then transaction order:
/// there are as many as all transactions hold together, and byte `k` of
/// transaction `j` of block `i` stands right after the bytes of all earlier
/// blocks and of the earlier transactions of block `i`.
pub proof fn lemma_raw_form_txs(
    span_batch: SpanBatch,
    raw: RawSpanBatch,
    origin_changed_bit: u8,
    genesis_timestamp: u64,
    chain_id: u64,
)
    requires
        span_batch.batches@.len() > 0,
        span_batch.batches@[0].timestamp >= genesis_timestamp,
        span_batch.is_raw_form(raw, origin_changed_bit, genesis_timestamp, chain_id),
    ensures
        raw.payload.txs@.len() == blocks_byte_len(span_batch.batches@),
        forall|i: int, j: int, k: int|
            0 <= i < span_batch.batches@.len() && 0 <= j
                < span_batch.batches@[i].transactions@.len() && 0 <= k
                < span_batch.batches@[i].transactions@[j].0@.len() ==> raw.payload.txs@[blocks_byte_len(
                span_batch.batches@.take(i),
            ) + total_len(tx_parts(span_batch.batches@[i].transactions@).take(j)) + k]
                == #[trigger] span_batch.batches@[i].transactions@[j].0@[k],
{
    let blocks = span_batch.batches@;
    lemma_blocks_concat(blocks);
    lemma_concat_len(block_parts(blocks));
    assert forall|i: int, j: int, k: int|
        0 <= i < blocks.len() && 0 <= j < blocks[i].transactions@.len() && 0 <= k
            < blocks[i].transactions@[j].0@.len() implies raw.payload.txs@[blocks_byte_len(
        blocks.take(i),
    ) + total_len(tx_parts(blocks[i].transactions@).take(j)) + k]
        == #[trigger] blocks[i].transactions@[j].0@[k] by {
        let t = blocks[i].transactions@;
        let x = total_len(tx_parts(t).take(j)) + k;
        lemma_tx_bytes_concat(t);
        assert(tx_parts(t)[j] == t[j].0@);
        lemma_concat_index(tx_parts(t), j, k);
        assert(block_parts(blocks)[i] == tx_bytes(t));
        lemma_concat_index(block_parts(blocks), i, x);
        lemma_blocks_concat(blocks.take(i));
        assert(block_parts(blocks).take(i) =~= block_parts(blocks.take(i)));
    }
}

} // verus!
