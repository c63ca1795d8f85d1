use kona_derive::error::{SpanBatchError, SpanDecodingError};
use kona_derive::prefix::SpanBatchPrefix;

#[test]
fn test_span_batch_prefix_roundtrip_encoding() {
    let expected = SpanBatchPrefix {
        rel_timestamp: 1337,
        l1_origin_num: 42,
        parent_check: [0x42; 20].into(),
        l1_origin_check: [0x42; 20].into(),
    };
    let mut buf = Vec::new();
    expected.encode(&mut buf);
    let mut r = &buf[..];
    let result = SpanBatchPrefix::decode(&mut r);
    assert_eq!(result, Ok(expected));
}

#[test]
fn test_decode_rel_timestamp() {
    let expected = 1337;
    let mut buf = [0u8; 10];
    let _byte_slice = unsigned_varint::encode::u64(expected, &mut buf);
    let mut r = &buf[..];
    let mut prefix = SpanBatchPrefix::default();
    prefix.decode_rel_timestamp(&mut r).unwrap();
    assert_eq!(prefix.rel_timestamp, expected);
}

#[test]
fn test_decode_l1_origin_num() {
    let expected = 1337;
    let mut buf = [0u8; 10];
    let _byte_slice = unsigned_varint::encode::u64(expected, &mut buf);
    let mut r = &buf[..];
    let mut prefix = SpanBatchPrefix::default();
    prefix.decode_l1_origin_num(&mut r).unwrap();
    assert_eq!(prefix.l1_origin_num, expected);
}

#[test]
fn test_decode_parent_check() {
    let expected = [0x42; 20];
    let mut r = &expected[..];
    let mut prefix = SpanBatchPrefix::default();
    prefix.decode_parent_check(&mut r).unwrap();
    assert_eq!(prefix.parent_check, expected);
}

#[test]
fn test_decode_parent_check_short() {
    let r = &[0x42; 19];
    let mut r = &r[..];
    let mut prefix = SpanBatchPrefix::default();
    let result = prefix.decode_parent_check(&mut r);
    assert_eq!(
        result,
        Err(SpanBatchError::Decoding(SpanDecodingError::ParentCheck))
    );
}

#[test]
fn test_decode_l1_origin_check() {
    let expected = [0x42; 20];
    let mut r = &expected[..];
    let mut prefix = SpanBatchPrefix::default();
    prefix.decode_l1_origin_check(&mut r).unwrap();
    assert_eq!(prefix.l1_origin_check, expected);
}

#[test]
fn test_decode_l1_origin_check_short() {
    let r = &[0x42; 19];
    let mut r = &r[..];
    let mut prefix = SpanBatchPrefix::default();
    let result = prefix.decode_l1_origin_check(&mut r);
    assert_eq!(
        result,
        Err(SpanBatchError::Decoding(SpanDecodingError::L1OriginCheck))
    );
}

#[test]
fn default_prefix_is_all_zero() {
    let p = SpanBatchPrefix::default();
    assert_eq!(p.rel_timestamp, 0);
    assert_eq!(p.l1_origin_num, 0);
    assert_eq!(p.parent_check, [0u8; 20]);
    assert_eq!(p.l1_origin_check, [0u8; 20]);
}

#[test]
fn varint_fields_advance_the_reader() {
    let buf = [0xb9u8, 0x0a, 0x2a, 0x07];
    let mut r = &buf[..];
    let mut prefix = SpanBatchPrefix::default();
    prefix.decode_rel_timestamp(&mut r).unwrap();
    assert_eq!(prefix.rel_timestamp, 1337);
    assert_eq!(r, &buf[2..]);
    prefix.decode_l1_origin_num(&mut r).unwrap();
    assert_eq!(prefix.l1_origin_num, 42);
    assert_eq!(r, &buf[3..]);
    assert_eq!(prefix.rel_timestamp, 1337);
    assert_eq!(prefix.parent_check, [0u8; 20]);
}

#[test]
fn varint_reader_keeps_the_tail() {
    let mut buf = [0u8; 10];
    let _ = unsigned_varint::encode::u64(1337, &mut buf);
    let mut r = &buf[..];
    let mut prefix = SpanBatchPrefix::default();
    prefix.decode_rel_timestamp(&mut r).unwrap();
    assert_eq!(r, &[0u8; 8][..]);
}

#[test]
fn varint_errors_leave_prefix_unchanged() {
    let cases: [&[u8]; 4] = [
        &[],                                                            // insufficient
        &[0x80],                                                        // insufficient
        &[0x80, 0x00],                                                  // not minimal
        &[0xff, 0xff, 0xff, 0xff, 0xff, 0xff, 0xff, 0xff, 0xff, 0xff, 0x01], // overflow
    ];
    for case in cases.iter() {
        let mut r: &[u8] = case;
        let mut prefix = SpanBatchPrefix::default();
        prefix.rel_timestamp = 5;
        assert_eq!(
            prefix.decode_rel_timestamp(&mut r),
            Err(SpanBatchError::Decoding(SpanDecodingError::RelativeTimestamp))
        );
        assert_eq!(prefix.rel_timestamp, 5);
        assert_eq!(
            prefix.decode_l1_origin_num(&mut r),
            Err(SpanBatchError::Decoding(SpanDecodingError::L1OriginNumber))
        );
        assert_eq!(prefix.l1_origin_num, 0);
        assert_eq!(r.len(), case.len());
    }
}

#[test]
fn varint_tenth_byte_keeps_only_the_top_bit() {
    let mut buf = [0xffu8; 10];
    buf[9] = 0x01;
    let mut r = &buf[..];
    let mut prefix = SpanBatchPrefix::default();
    prefix.decode_rel_timestamp(&mut r).unwrap();
    assert_eq!(prefix.rel_timestamp, u64::MAX);
    assert!(r.is_empty());
    buf[9] = 0x7f;
    let mut r = &buf[..];
    prefix.decode_rel_timestamp(&mut r).unwrap();
    assert_eq!(prefix.rel_timestamp, u64::MAX);
    buf[9] = 0x02;
    let mut r = &buf[..];
    prefix.decode_rel_timestamp(&mut r).unwrap();
    assert_eq!(prefix.rel_timestamp, u64::MAX >> 1);
}

#[test]
fn check_decoders_advance_the_reader() {
    let mut buf = [0u8; 45];
    for (i, b) in buf.iter_mut().enumerate() {
        *b = i as u8;
    }
    let mut r = &buf[..];
    let mut prefix = SpanBatchPrefix::default();
    prefix.decode_parent_check(&mut r).unwrap();
    prefix.decode_l1_origin_check(&mut r).unwrap();
    let mut first = [0u8; 20];
    first.copy_from_slice(&buf[..20]);
    let mut second = [0u8; 20];
    second.copy_from_slice(&buf[20..40]);
    assert_eq!(prefix.parent_check, first);
    assert_eq!(prefix.l1_origin_check, second);
    assert_eq!(r, &buf[40..]);
    assert_eq!(prefix.rel_timestamp, 0);
}

#[test]
fn short_check_leaves_reader_in_place() {
    let buf = [0x42u8; 19];
    let mut r = &buf[..];
    let mut prefix = SpanBatchPrefix::default();
    assert!(prefix.decode_parent_check(&mut r).is_err());
    assert_eq!(r.len(), 19);
    assert_eq!(prefix.parent_check, [0u8; 20]);
}

#[test]
fn decode_reads_fields_in_sequence() {
    let mut buf = vec![0xb9u8, 0x0a, 0x2a];
    buf.extend_from_slice(&[0x42; 20]);
    buf.extend_from_slice(&[0x43; 20]);
    buf.extend_from_slice(&[9, 9]);
    let mut r = &buf[..];
    let prefix = SpanBatchPrefix::decode(&mut r).unwrap();
    assert_eq!(prefix.rel_timestamp, 1337);
    assert_eq!(prefix.l1_origin_num, 42);
    assert_eq!(prefix.parent_check, [0x42; 20]);
    assert_eq!(prefix.l1_origin_check, [0x43; 20]);
    assert_eq!(r, &[9u8, 9][..]);
}

#[test]
fn decode_of_zero_bytes_is_default() {
    let buf = [0u8; 100];
    let mut r = &buf[..];
    let prefix = SpanBatchPrefix::decode(&mut r).unwrap();
    assert_eq!(prefix, SpanBatchPrefix::default());
    assert_eq!(r.len(), 58);
}

#[test]
fn decode_errors_name_the_first_failing_field() {
    let mut r: &[u8] = &[];
    assert_eq!(SpanBatchPrefix::decode(&mut r), Err(SpanDecodingError::RelativeTimestamp));

    let buf = [0x05u8];
    let mut r = &buf[..];
    assert_eq!(SpanBatchPrefix::decode(&mut r), Err(SpanDecodingError::L1OriginNumber));
    assert!(r.is_empty());

    let mut buf = vec![0x05u8, 0x06];
    buf.extend_from_slice(&[0x01; 19]);
    let mut r = &buf[..];
    assert_eq!(SpanBatchPrefix::decode(&mut r), Err(SpanDecodingError::ParentCheck));
    assert_eq!(r.len(), 19);

    let mut buf = vec![0x05u8, 0x06];
    buf.extend_from_slice(&[0x01; 39]);
    let mut r = &buf[..];
    assert_eq!(SpanBatchPrefix::decode(&mut r), Err(SpanDecodingError::L1OriginCheck));
    assert_eq!(r.len(), 19);
}

#[test]
fn encode_writes_varints_then_checks() {
    let prefix = SpanBatchPrefix {
        rel_timestamp: 1337,
        l1_origin_num: 42,
        parent_check: [0x42; 20],
        l1_origin_check: [0x43; 20],
    };
    let mut out = vec![0xaa];
    prefix.encode(&mut out);
    let mut expected = vec![0xaa, 0xb9, 0x0a, 0x2a];
    expected.extend_from_slice(&[0x42; 20]);
    expected.extend_from_slice(&[0x43; 20]);
    assert_eq!(out, expected);
}

#[test]
fn encode_of_zero_and_largest_values() {
    let prefix = SpanBatchPrefix {
        rel_timestamp: 0,
        l1_origin_num: u64::MAX,
        parent_check: [0; 20],
        l1_origin_check: [0; 20],
    };
    let mut out = Vec::new();
    prefix.encode(&mut out);
    assert_eq!(
        &out[..11],
        &[0x00, 0xff, 0xff, 0xff, 0xff, 0xff, 0xff, 0xff, 0xff, 0xff, 0x01]
    );
    assert_eq!(out.len(), 11 + 40);
}

#[test]
fn decode_of_encoding_with_tail_gives_prefix_and_tail() {
    let values = [0u64, 1, 127, 128, 1337, 1 << 35, u64::MAX - 1, u64::MAX];
    for &a in values.iter() {
        for &b in values.iter() {
            let prefix = SpanBatchPrefix {
                rel_timestamp: a,
                l1_origin_num: b,
                parent_check: [0x80; 20],
                l1_origin_check: [0x7f; 20],
            };
            let mut buf = Vec::new();
            prefix.encode(&mut buf);
            buf.extend_from_slice(&[1, 2, 3]);
            let mut r = &buf[..];
            assert_eq!(SpanBatchPrefix::decode(&mut r), Ok(prefix));
            assert_eq!(r, &[1u8, 2, 3][..]);
        }
    }
}
