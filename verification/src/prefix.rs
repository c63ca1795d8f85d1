//! The prefix of a raw span batch.
use vstd::prelude::*;
use vstd::slice::slice_subrange;

use crate::error::{SpanBatchError, SpanDecodingError};
use crate::varint::{
    decode_varint_u64, encode_varint_u64, lemma_decode_varint_append, lemma_decode_varint_bytes,
    lemma_varint_len_bound,
    spec_decode_varint_u64, varint_bytes,
};

verus! {

/// Number of bytes of the parent check and of the L1 origin check.
pub const CHECK_LEN: usize = 20;

/// Span Batch Prefix
#[derive(Debug, Clone, PartialEq, Eq)]
pub struct SpanBatchPrefix {
    /// Relative timestamp of the first block
    pub rel_timestamp: u64,
    /// L1 origin number
    pub l1_origin_num: u64,
    /// First 20 bytes of the first block's parent hash
    pub parent_check: [u8; 20],
    /// First 20 bytes of the last block's L1 origin hash
    pub l1_origin_check: [u8; 20],
}

impl Default for SpanBatchPrefix {
    fn default() -> (res: Self)
        ensures
            res.rel_timestamp == 0,
            res.l1_origin_num == 0,
            res.parent_check@ == Seq::new(20, |i: int| 0u8),
            res.l1_origin_check@ == Seq::new(20, |i: int| 0u8),
    {
        let res = SpanBatchPrefix {
            rel_timestamp: 0,
            l1_origin_num: 0,
            parent_check: [0u8; 20],
            l1_origin_check: [0u8; 20],
        };
        assert(res.parent_check@ =~= Seq::new(20, |i: int| 0u8));
        assert(res.l1_origin_check@ =~= Seq::new(20, |i: int| 0u8));
        res
    }
}

/// Copies the first 20 bytes of `r` into an array.
fn take_check(r: &[u8]) -> (res: [u8; 20])
    requires
        r@.len() >= 20,
    ensures
        res@ == r@.take(20),
{
    let mut out = [0u8; 20];
    let mut i: usize = 0;
    while i < CHECK_LEN
        invariant
            i <= 20,
            r@.len() >= 20,
            out@.len() == 20,
            forall|j: int| 0 <= j < i ==> out@[j] == r@[j],
        decreases 20 - i,
    {
        out[i] = r[i];
        i = i + 1;
    }
    assert(out@ =~= r@.take(20));
    out
}

/// What decoding a prefix from the bytes `s` gives: the relative timestamp,
/// the L1 origin number and the two checks, or the first field that fails;
/// with the number of bytes taken from the reader either way.
///
/// The fields are read one after another: a varint, a varint, 20 bytes and
/// 20 bytes.
pub open spec fn spec_decode_prefix(s: Seq<u8>) -> (
    Result<(u64, u64, Seq<u8>, Seq<u8>), SpanDecodingError>,
    nat,
) {
    match spec_decode_varint_u64(s) {
        None => (Err(SpanDecodingError::RelativeTimestamp), 0),
        Some((a, n1)) => match spec_decode_varint_u64(s.skip(n1 as int)) {
            None => (Err(SpanDecodingError::L1OriginNumber), n1),
            Some((b, n2)) => {
                let m = (n1 + n2) as int;
                if s.len() < m + 20 {
                    (Err(SpanDecodingError::ParentCheck), m as nat)
                } else if s.len() < m + 40 {
                    (Err(SpanDecodingError::L1OriginCheck), (m + 20) as nat)
                } else {
                    (
                        Ok((a, b, s.subrange(m, m + 20), s.subrange(m + 20, m + 40))),
                        (m + 40) as nat,
                    )
                }
            },
        },
    }
}

impl SpanBatchPrefix {
    /// Decodes the relative timestamp from a reader, advancing it past the
    /// varint read.
    pub fn decode_rel_timestamp<'a>(&mut self, r: &mut &'a [u8]) -> (res: Result<(), SpanBatchError>)
        ensures
            match spec_decode_varint_u64(old(r)@) {
                Some((v, n)) => res is Ok && *final(self) == (SpanBatchPrefix {
                    rel_timestamp: v,
                    ..*old(self)
                }) && final(r)@ == old(r)@.skip(n as int),
                None => res == Err::<(), SpanBatchError>(
                    SpanBatchError::Decoding(SpanDecodingError::RelativeTimestamp),
                ) && *final(self) == *old(self) && final(r)@ == old(r)@,
            },
    {
        match decode_varint_u64(*r) {
            Ok((rel_timestamp, rest)) => {
                self.rel_timestamp = rel_timestamp;
                *r = rest;
                Ok(())
            },
            Err(_) => Err(SpanBatchError::Decoding(SpanDecodingError::RelativeTimestamp)),
        }
    }

    /// Decodes the L1 origin number from a reader, advancing it past the
    /// varint read.
    pub fn decode_l1_origin_num<'a>(&mut self, r: &mut &'a [u8]) -> (res: Result<(), SpanBatchError>)
        ensures
            match spec_decode_varint_u64(old(r)@) {
                Some((v, n)) => res is Ok && *final(self) == (SpanBatchPrefix {
                    l1_origin_num: v,
                    ..*old(self)
                }) && final(r)@ == old(r)@.skip(n as int),
                None => res == Err::<(), SpanBatchError>(
                    SpanBatchError::Decoding(SpanDecodingError::L1OriginNumber),
                ) && *final(self) == *old(self) && final(r)@ == old(r)@,
            },
    {
        match decode_varint_u64(*r) {
            Ok((l1_origin_num, rest)) => {
                self.l1_origin_num = l1_origin_num;
                *r = rest;
                Ok(())
            },
            Err(_) => Err(SpanBatchError::Decoding(SpanDecodingError::L1OriginNumber)),
        }
    }

    /// Decodes the parent check from a reader, advancing it past the
    /// 20 bytes read.
    pub fn decode_parent_check<'a>(&mut self, r: &mut &'a [u8]) -> (res: Result<(), SpanBatchError>)
        ensures
            old(r)@.len() < 20 ==> res == Err::<(), SpanBatchError>(
                SpanBatchError::Decoding(SpanDecodingError::ParentCheck),
            ) && *final(self) == *old(self) && final(r)@ == old(r)@,
            old(r)@.len() >= 20 ==> res is Ok && final(self).parent_check@ == old(r)@.take(20)
                && final(self).rel_timestamp == old(self).rel_timestamp
                && final(self).l1_origin_num == old(self).l1_origin_num
                && final(self).l1_origin_check == old(self).l1_origin_check
                && final(r)@ == old(r)@.skip(20),
    {
        if r.len() < CHECK_LEN {
            return Err(SpanBatchError::Decoding(SpanDecodingError::ParentCheck));
        }
        self.parent_check = take_check(*r);
        *r = slice_subrange(*r, CHECK_LEN, r.len());
        Ok(())
    }

    /// Decodes the L1 origin check from a reader, advancing it past the
    /// 20 bytes read.
    pub fn decode_l1_origin_check<'a>(&mut self, r: &mut &'a [u8]) -> (res: Result<(), SpanBatchError>)
        ensures
            old(r)@.len() < 20 ==> res == Err::<(), SpanBatchError>(
                SpanBatchError::Decoding(SpanDecodingError::L1OriginCheck),
            ) && *final(self) == *old(self) && final(r)@ == old(r)@,
            old(r)@.len() >= 20 ==> res is Ok && final(self).l1_origin_check@ == old(r)@.take(20)
                && final(self).rel_timestamp == old(self).rel_timestamp
                && final(self).l1_origin_num == old(self).l1_origin_num
                && final(self).parent_check == old(self).parent_check
                && final(r)@ == old(r)@.skip(20),
    {
        if r.len() < CHECK_LEN {
            return Err(SpanBatchError::Decoding(SpanDecodingError::L1OriginCheck));
        }
        self.l1_origin_check = take_check(*r);
        *r = slice_subrange(*r, CHECK_LEN, r.len());
        Ok(())
    }

    /// The bytes `encode` appends: the varints of the relative timestamp
    /// and of the L1 origin number, then the parent check and the L1 origin
    /// check as they are.
    pub open spec fn spec_encoding(&self) -> Seq<u8> {
        varint_bytes(self.rel_timestamp as nat) + varint_bytes(self.l1_origin_num as nat)
            + self.parent_check@ + self.l1_origin_check@
    }

    /// Encodes the prefix field by field, appending to `out`.
    pub fn encode(&self, out: &mut Vec<u8>)
        ensures
            final(out)@ == old(out)@ + self.spec_encoding(),
    {
        let rel_timestamp = encode_varint_u64(self.rel_timestamp);
        out.extend_from_slice(rel_timestamp.as_slice());
        let l1_origin_num = encode_varint_u64(self.l1_origin_num);
        out.extend_from_slice(l1_origin_num.as_slice());
        out.extend_from_slice(self.parent_check.as_slice());
        out.extend_from_slice(self.l1_origin_check.as_slice());
        assert(out@ =~= old(out)@ + self.spec_encoding());
    }

    /// Decodes a prefix from a reader: the relative timestamp, the L1 origin
    /// number, the parent check and the L1 origin check, one after another,
    /// each advancing the reader past what it read. The first field that
    /// fails decides the error.
    pub fn decode<'a>(r: &mut &'a [u8]) -> (res: Result<SpanBatchPrefix, SpanDecodingError>)
        ensures
            final(r)@ == old(r)@.skip(spec_decode_prefix(old(r)@).1 as int),
            match spec_decode_prefix(old(r)@).0 {
                Ok((a, b, pc, lc)) => res matches Ok(p) && p.rel_timestamp == a
                    && p.l1_origin_num == b && p.parent_check@ == pc && p.l1_origin_check@ == lc,
                Err(e) => res == Err::<SpanBatchPrefix, SpanDecodingError>(e),
            },
    {
        let ghost s = r@;
        let mut prefix = SpanBatchPrefix::default();
        if prefix.decode_rel_timestamp(r).is_err() {
            assert(s.skip(0) =~= s);
            return Err(SpanDecodingError::RelativeTimestamp);
        }
        let ghost n1 = spec_decode_varint_u64(s).unwrap().1;
        proof {
            lemma_varint_len_bound(s, 0);
        }
        if prefix.decode_l1_origin_num(r).is_err() {
            return Err(SpanDecodingError::L1OriginNumber);
        }
        let ghost n2 = spec_decode_varint_u64(s.skip(n1 as int)).unwrap().1;
        proof {
            lemma_varint_len_bound(s.skip(n1 as int), 0);
            assert(s.skip(n1 as int).skip(n2 as int) =~= s.skip((n1 + n2) as int));
        }
        if prefix.decode_parent_check(r).is_err() {
            return Err(SpanDecodingError::ParentCheck);
        }
        proof {
            assert(s.skip((n1 + n2) as int).skip(20) =~= s.skip((n1 + n2 + 20) as int));
        }
        if prefix.decode_l1_origin_check(r).is_err() {
            return Err(SpanDecodingError::L1OriginCheck);
        }
        proof {
            let m = (n1 + n2) as int;
            assert(s.skip(m).take(20) =~= s.subrange(m as int, m + 20));
            assert(s.skip(m + 20).take(20) =~= s.subrange(m + 20, m + 40));
            assert(s.skip(m + 20).skip(20) =~= s.skip(m + 40));
        }
        Ok(prefix)
    }
}

/// Decoding what `encode` wrote gives back the prefix: decoding
/// `p.spec_encoding()` followed by any bytes `rest` succeeds with the fields
/// of `p` and takes exactly the encoding from the reader, leaving `rest`.
pub proof fn lemma_decode_encode_roundtrip(p: SpanBatchPrefix, rest: Seq<u8>)
    ensures
        spec_decode_prefix(p.spec_encoding() + rest) == (
            Ok::<(u64, u64, Seq<u8>, Seq<u8>), SpanDecodingError>(
                (p.rel_timestamp, p.l1_origin_num, p.parent_check@, p.l1_origin_check@),
            ),
            p.spec_encoding().len(),
        ),
        (p.spec_encoding() + rest).skip(p.spec_encoding().len() as int) == rest,
{
    let ea = varint_bytes(p.rel_timestamp as nat);
    let eb = varint_bytes(p.l1_origin_num as nat);
    let pc = p.parent_check@;
    let lc = p.l1_origin_check@;
    let s = p.spec_encoding() + rest;
    assert(pc.len() == 20);
    assert(lc.len() == 20);
    let tail_a = eb + pc + lc + rest;
    assert(s =~= ea + tail_a);
    lemma_decode_varint_bytes(p.rel_timestamp, tail_a);
    let n1 = ea.len();
    assert(s.skip(n1 as int) =~= tail_a);
    let tail_b = pc + lc + rest;
    assert(tail_a =~= eb + tail_b);
    lemma_decode_varint_bytes(p.l1_origin_num, tail_b);
    let m = (n1 + eb.len()) as int;
    assert(s.subrange(m as int, m + 20) =~= pc);
    assert(s.subrange(m + 20, m + 40) =~= lc);
    assert(s.skip(p.spec_encoding().len() as int) =~= rest);
}

/// How decoding a prefix ends, field by field: the first field that cannot
/// be read decides the error and how far the reader has moved; a prefix
/// comes out exactly when both varints decode and at least 40 bytes follow
/// them, and then it holds the two varints and those 40 bytes, and the reader
/// has moved past all of them, never beyond the input.
pub proof fn lemma_decode_outcomes(s: Seq<u8>)
    ensures
        match spec_decode_varint_u64(s) {
            None => spec_decode_prefix(s) == (
                Err::<(u64, u64, Seq<u8>, Seq<u8>), SpanDecodingError>(
                    SpanDecodingError::RelativeTimestamp,
                ),
                0nat,
            ),
            Some((a, n1)) => match spec_decode_varint_u64(s.skip(n1 as int)) {
                None => spec_decode_prefix(s) == (
                    Err::<(u64, u64, Seq<u8>, Seq<u8>), SpanDecodingError>(
                        SpanDecodingError::L1OriginNumber,
                    ),
                    n1,
                ),
                Some((b, n2)) => {
                    &&& s.len() < n1 + n2 + 20 ==> spec_decode_prefix(s) == (
                        Err::<(u64, u64, Seq<u8>, Seq<u8>), SpanDecodingError>(
                            SpanDecodingError::ParentCheck,
                        ),
                        n1 + n2,
                    )
                    &&& n1 + n2 + 20 <= s.len() < n1 + n2 + 40 ==> spec_decode_prefix(s) == (
                        Err::<(u64, u64, Seq<u8>, Seq<u8>), SpanDecodingError>(
                            SpanDecodingError::L1OriginCheck,
                        ),
                        n1 + n2 + 20,
                    )
                    &&& n1 + n2 + 40 <= s.len() ==> spec_decode_prefix(s) == (
                        Ok::<(u64, u64, Seq<u8>, Seq<u8>), SpanDecodingError>(
                            (
                                a,
                                b,
                                s.subrange((n1 + n2) as int, (n1 + n2 + 20) as int),
                                s.subrange((n1 + n2 + 20) as int, (n1 + n2 + 40) as int),
                            ),
                        ),
                        n1 + n2 + 40,
                    )
                },
            },
        },
        spec_decode_prefix(s).0 matches Ok((a, b, pc, lc)) ==> {
            let n = spec_decode_prefix(s).1;
            &&& 42 <= n <= s.len()
            &&& pc.len() == 20 && lc.len() == 20
            &&& s.subrange(n - 40, n as int) == pc + lc
        },
{
    lemma_varint_len_bound(s, 0);
    if let Some((a, n1)) = spec_decode_varint_u64(s) {
        lemma_varint_len_bound(s.skip(n1 as int), 0);
        if let Some((b, n2)) = spec_decode_varint_u64(s.skip(n1 as int)) {
            let m = (n1 + n2) as int;
            if m + 40 <= s.len() {
                assert(s.subrange(m, m + 40) =~= s.subrange(m, m + 20) + s.subrange(m + 20, m + 40));
            }
        }
    }
}

/// A successful decode does not look at what follows the prefix: appending
/// any bytes to an input that decodes leaves the result and the number of
/// bytes taken unchanged.
pub proof fn lemma_decode_ignores_trailing_bytes(s: Seq<u8>, t: Seq<u8>)
    requires
        spec_decode_prefix(s).0 is Ok,
    ensures
        spec_decode_prefix(s + t) == spec_decode_prefix(s),
{
    let st = s + t;
    lemma_varint_len_bound(s, 0);
    lemma_decode_varint_append(s, t);
    let (a, n1) = spec_decode_varint_u64(s).unwrap();
    let rest = s.skip(n1 as int);
    assert(st.skip(n1 as int) =~= rest + t);
    lemma_varint_len_bound(rest, 0);
    lemma_decode_varint_append(rest, t);
    let (b, n2) = spec_decode_varint_u64(rest).unwrap();
    let m = (n1 + n2) as int;
    assert(st.subrange(m, m + 20) =~= s.subrange(m, m + 20));
    assert(st.subrange(m + 20, m + 40) =~= s.subrange(m + 20, m + 40));
}

} // verus!
