use kona_derive::batch::{RawTransaction, SpanBatch, SpanBatchElement};

fn sample() -> SpanBatch {
    SpanBatch {
        parent_check: [0x01; 20],
        l1_origin_check: [0x02; 20],
        batches: vec![
            SpanBatchElement {
                epoch_num: 7,
                timestamp: 1010,
                transactions: vec![RawTransaction(vec![1, 2, 3]), RawTransaction(vec![4])],
            },
            SpanBatchElement { epoch_num: 7, timestamp: 1012, transactions: vec![] },
            SpanBatchElement {
                epoch_num: 8,
                timestamp: 1014,
                transactions: vec![RawTransaction(vec![5, 6])],
            },
        ],
    }
}

#[test]
fn get_timestamp_is_first_block_timestamp() {
    assert_eq!(sample().get_timestamp(), 1010);
}

#[test]
fn to_raw_span_batch_fields() {
    let sb = sample();
    let raw = sb.to_raw_span_batch(1, 1000, 10);
    assert_eq!(raw.prefix.rel_timestamp, 10);
    assert_eq!(raw.prefix.l1_origin_num, 10);
    assert_eq!(raw.prefix.parent_check, [0x01; 20]);
    assert_eq!(raw.prefix.l1_origin_check, [0x02; 20]);
    assert_eq!(raw.payload.block_count, 3);
    assert_eq!(raw.payload.origin_bits.0, vec![1, 1, 1]);
    assert_eq!(raw.payload.block_tx_counts, vec![2, 0, 1]);
    assert_eq!(raw.payload.txs, vec![1, 2, 3, 4, 5, 6]);
}

#[test]
fn raw_form_is_consistent() {
    let sb = sample();
    let genesis = 1005;
    let raw = sb.to_raw_span_batch(0, genesis, 3);
    assert_eq!(raw.payload.origin_bits.0.len() as u64, raw.payload.block_count);
    assert_eq!(raw.payload.block_tx_counts.len() as u64, raw.payload.block_count);
    assert_eq!(raw.prefix.rel_timestamp + genesis, sb.get_timestamp());
    for (i, b) in sb.batches.iter().enumerate() {
        assert_eq!(raw.payload.block_tx_counts[i], b.transactions.len() as u64);
    }
}

#[test]
fn to_raw_span_batch_single_empty_block() {
    let sb = SpanBatch {
        parent_check: [0; 20],
        l1_origin_check: [0; 20],
        batches: vec![SpanBatchElement { epoch_num: 0, timestamp: 5, transactions: vec![] }],
    };
    let raw = sb.to_raw_span_batch(0, 5, 0);
    assert_eq!(raw.prefix.rel_timestamp, 0);
    assert_eq!(raw.payload.block_count, 1);
    assert_eq!(raw.payload.origin_bits.0, vec![0]);
    assert_eq!(raw.payload.block_tx_counts, vec![0]);
    assert!(raw.payload.txs.is_empty());
}
