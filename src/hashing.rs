use vstd::prelude::*;

verus! {

/// The 128-bit Blake2b digest of `data`.
pub uninterp spec fn blake2_128_of(data: Seq<u8>) -> Seq<u8>;

/// The SCALE encoding of a `u64`: its eight bytes, least significant first.
pub open spec fn u64_le_bytes(n: u64) -> Seq<u8> {
    seq![
        (n % 0x100) as u8,
        ((n / 0x100) % 0x100) as u8,
        ((n / 0x1_0000) % 0x100) as u8,
        ((n / 0x100_0000) % 0x100) as u8,
        ((n / 0x1_0000_0000) % 0x100) as u8,
        ((n / 0x100_0000_0000) % 0x100) as u8,
        ((n / 0x1_0000_0000_0000) % 0x100) as u8,
        ((n / 0x100_0000_0000_0000) % 0x100) as u8,
    ]
}

/// Relies on `parity_scale_codec::Encode` for `u64`: a fixed-width integer encodes as
/// its little-endian bytes.
#[verifier::external_body]
pub(crate) fn encode_u64(n: u64) -> (r: Vec<u8>)
    ensures
        r@ == u64_le_bytes(n),
{
    parity_scale_codec::Encode::encode(&n)
}

/// Relies on `parity_scale_codec::Encode` for `[u8; 32]`: a fixed-size array encodes as
/// its elements, with no length prefix.
#[verifier::external_body]
pub(crate) fn encode_bytes32(b: &[u8; 32]) -> (r: Vec<u8>)
    ensures
        r@ == b@,
{
    parity_scale_codec::Encode::encode(b)
}

/// Relies on `sp_io::hashing::blake2_128`: the 16-byte Blake2b digest of `data`, which
/// depends on `data` alone.
#[verifier::external_body]
pub(crate) fn blake2_128(data: &[u8]) -> (r: [u8; 16])
    ensures
        r@ == blake2_128_of(data@),
{
    sp_io::hashing::blake2_128(data)
}

} // verus!
