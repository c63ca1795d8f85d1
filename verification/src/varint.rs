//! Unsigned LEB128 ("varint") encoding and decoding of `u64` values, as done
//! by the `unsigned_varint` crate.
use vstd::prelude::*;

verus! {

/// Largest index (counting from 0) that a `u64` varint may use.
pub open spec fn varint_u64_max_index() -> nat {
    9
}

/// Length of the varint that starts at index `i` of `s`, given that every
/// byte before `i` carries the continuation bit; `None` if the bytes there
/// do not form an accepted `u64` varint.
pub open spec fn varint_len_from(s: Seq<u8>, i: nat) -> Option<nat>
    decreases s.len() - i,
{
    if i >= s.len() {
        None
    } else if s[i as int] < 0x80 {
        if s[i as int] == 0 && i > 0 {
            None
        } else {
            Some(i + 1)
        }
    } else if i == varint_u64_max_index() {
        None
    } else {
        varint_len_from(s, i + 1)
    }
}

/// Little-endian base-128 value of the low seven bits of each byte of `s`.
pub open spec fn base128_value(s: Seq<u8>) -> nat
    decreases s.len(),
{
    if s.len() == 0 {
        0
    } else {
        (s[0] % 128) as nat + 128 * base128_value(s.drop_first())
    }
}

/// The `u64` varint at the start of `s`: its value, reduced modulo 2^64,
/// and the number of bytes it takes; `None` when `s` does not start with
/// an accepted varint (too short, longer than ten bytes, or a multi-byte
/// encoding whose last byte is zero).
pub open spec fn spec_decode_varint_u64(s: Seq<u8>) -> Option<(u64, nat)> {
    match varint_len_from(s, 0) {
        Some(n) => Some(((base128_value(s.take(n as int)) % 0x1_0000_0000_0000_0000) as u64, n)),
        None => None,
    }
}

#[verifier::external_type_specification]
#[verifier::external_body]
pub struct ExVarintDecodeError(unsigned_varint::decode::Error);

/// Calls `unsigned_varint::decode::u64`, which reads the varint at the start
/// of `buf` and hands back its value and the bytes after it. The contract
/// claims that it succeeds exactly on the inputs `spec_decode_varint_u64`
/// accepts, with that value and the rest of `buf`; which error it returns
/// otherwise is left unsaid.
#[verifier::external_body]
pub(crate) fn decode_varint_u64<'a>(buf: &'a [u8]) -> (res: Result<(u64, &'a [u8]), unsigned_varint::decode::Error>)
    ensures
        match spec_decode_varint_u64(buf@) {
            Some((v, n)) => res matches Ok((w, rest)) && w == v && rest@ == buf@.skip(n as int),
            None => res is Err,
        },
{
    unsigned_varint::decode::u64(buf)
}


/// The minimal unsigned LEB128 encoding of `v`: seven bits per byte, least
/// significant group first, the top bit set on every byte but the last.
pub open spec fn varint_bytes(v: nat) -> Seq<u8>
    decreases v,
{
    if v < 128 {
        seq![v as u8]
    } else {
        seq![(v % 128 + 128) as u8] + varint_bytes(v / 128)
    }
}

/// Calls `unsigned_varint::encode::u64` on a buffer from
/// `unsigned_varint::encode::u64_buffer` and copies out the encoded bytes.
/// The contract claims they are the minimal LEB128 encoding of `v`.
#[verifier::external_body]
pub(crate) fn encode_varint_u64(v: u64) -> (res: Vec<u8>)
    ensures
        res@ == varint_bytes(v as nat),
{
    let mut buf = unsigned_varint::encode::u64_buffer();
    unsigned_varint::encode::u64(v, &mut buf).to_vec()
}

/// `128` to the power `k`.
spec fn pow128(k: nat) -> nat
    decreases k,
{
    if k == 0 {
        1
    } else {
        128 * pow128((k - 1) as nat)
    }
}

/// A varint that `varint_len_from` accepts ends within `s`, after `i`.
pub proof fn lemma_varint_len_bound(s: Seq<u8>, i: nat)
    requires
        i <= varint_u64_max_index(),
    ensures
        varint_len_from(s, i) matches Some(n) ==> i < n <= s.len() && n <= varint_u64_max_index() + 1,
    decreases s.len() - i,
{
    if i < s.len() && s[i as int] >= 0x80 && i != varint_u64_max_index() {
        lemma_varint_len_bound(s, i + 1);
    }
}

/// Bytes after an accepted varint do not change where it ends.
proof fn lemma_varint_len_append(s: Seq<u8>, t: Seq<u8>, i: nat)
    requires
        i <= varint_u64_max_index(),
    ensures
        varint_len_from(s, i) matches Some(n) ==> varint_len_from(s + t, i) == Some(n),
    decreases s.len() - i,
{
    if i < s.len() {
        assert((s + t)[i as int] == s[i as int]);
        if s[i as int] >= 0x80 && i != varint_u64_max_index() {
            lemma_varint_len_append(s, t, i + 1);
        }
    }
}

/// Bytes after an accepted varint change neither its value nor its length.
pub proof fn lemma_decode_varint_append(s: Seq<u8>, t: Seq<u8>)
    ensures
        spec_decode_varint_u64(s) is Some ==> spec_decode_varint_u64(s + t)
            == spec_decode_varint_u64(s),
{
    lemma_varint_len_append(s, t, 0);
    lemma_varint_len_bound(s, 0);
    if let Some(n) = varint_len_from(s, 0) {
        assert((s + t).take(n as int) =~= s.take(n as int));
    }
}

/// Decoding reads back the value of a minimal encoding.
proof fn lemma_varint_bytes_value(v: nat)
    ensures
        base128_value(varint_bytes(v)) == v,
        varint_bytes(v).len() >= 1,
    decreases v,
{
    if v < 128 {
        assert(base128_value(seq![v as u8].drop_first()) == 0);
    } else {
        lemma_varint_bytes_value(v / 128);
        let s = varint_bytes(v);
        assert(s.drop_first() =~= varint_bytes(v / 128));
        assert(s[0] % 128 == v % 128);
    }
}

/// After `pre` (all continuation bytes, `i` of them), a minimal encoding of
/// `w` ends where `varint_len_from` says, whatever follows it.
proof fn lemma_varint_len_of_encoding(pre: Seq<u8>, w: nat, rest: Seq<u8>)
    requires
        pre.len() <= varint_u64_max_index(),
        w > 0 || pre.len() == 0,
        w < pow128((varint_u64_max_index() + 1 - pre.len()) as nat),
    ensures
        varint_len_from(pre + varint_bytes(w) + rest, pre.len())
            == Some(pre.len() + varint_bytes(w).len()),
    decreases w,
{
    let i = pre.len();
    let s = pre + varint_bytes(w) + rest;
    lemma_varint_bytes_value(w);
    assert(s[i as int] == varint_bytes(w)[0]);
    if w >= 128 {
        let k1 = (varint_u64_max_index() + 1 - i) as nat;
        let k = (k1 - 1) as nat;
        if i == varint_u64_max_index() {
            assert(pow128(1) == 128 * pow128(0));
        }
        assert(pow128(k1) == 128 * pow128(k));
        assert(w / 128 < pow128(k)) by (nonlinear_arith)
            requires
                w < 128 * pow128(k),
        ;
        let b = varint_bytes(w)[0];
        let pre2 = pre.push(b);
        assert(varint_bytes(w) =~= seq![b] + varint_bytes(w / 128));
        assert(pre2 + varint_bytes(w / 128) + rest =~= s);
        lemma_varint_len_of_encoding(pre2, w / 128, rest);
    }
}

/// Decoding the minimal encoding of `v`, followed by anything, gives back
/// `v` and the length of the encoding.
pub proof fn lemma_decode_varint_bytes(v: u64, rest: Seq<u8>)
    ensures
        spec_decode_varint_u64(varint_bytes(v as nat) + rest) == Some(
            (v, varint_bytes(v as nat).len()),
        ),
{
    let e = varint_bytes(v as nat);
    let s = e + rest;
    assert(pow128(0) == 1);
    assert(pow128(1) == 0x80);
    assert(pow128(2) == 0x4000);
    assert(pow128(3) == 0x20_0000);
    assert(pow128(4) == 0x1000_0000);
    assert(pow128(5) == 0x8_0000_0000);
    assert(pow128(6) == 0x400_0000_0000);
    assert(pow128(7) == 0x2_0000_0000_0000);
    assert(pow128(8) == 0x100_0000_0000_0000);
    assert(pow128(9) == 0x8000_0000_0000_0000);
    assert(pow128(10) == 0x40_0000_0000_0000_0000);
    assert(Seq::<u8>::empty() + e + rest =~= s);
    lemma_varint_len_of_encoding(Seq::<u8>::empty(), v as nat, rest);
    lemma_varint_bytes_value(v as nat);
    assert(s.take(e.len() as int) =~= e);
}

} // verus!
