# kona-derive (span batch prefix)

A verified library, written in Verus, for two pieces of the derivation
pipeline's span batches:

- `src/prefix.rs`: the span batch prefix (relative timestamp, L1 origin
  number, parent check, L1 origin check). Its decoders read the fields one
  after another from a byte reader; `encode` writes them in the same format
  (two unsigned LEB128 varints, then the two 20-byte checks).
  `lemma_decode_encode_roundtrip` proves that decoding an encoding, followed
  by any bytes, gives the prefix back and leaves those bytes.
- `src/batch.rs`: span batches and their conversion to raw span batches.
- `src/varint.rs`: the varint format, with trusted wrappers around the
  `unsigned_varint` crate.
- `src/error.rs`: the decoding errors.

`app/` holds copies of the prefix and span batch types with
`alloy_primitives::FixedBytes` fields and the `alloy_rlp` `Decodable` /
`Encodable` impls, built on the library. `tests/` runs the library on
concrete values.
