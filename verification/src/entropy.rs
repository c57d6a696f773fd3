//! Derivation of a kitty's 16 random bytes from the runtime's entropy:
//! the SCALE encoding of the seed, the block, the sender and the extrinsic
//! index, hashed with BLAKE2b-128.
use vstd::prelude::*;
use parity_scale_codec::Encode;

verus! {

/// The `n` low bytes of `x`, least significant first.
pub open spec fn le_bytes(x: nat, n: nat) -> Seq<u8>
    decreases n,
{
    if n == 0 {
        seq![]
    } else {
        seq![(x % 256) as u8] + le_bytes(x / 256, (n - 1) as nat)
    }
}

/// The SCALE encoding of an `Option<u32>`: a zero byte for `None`, else a
/// one byte followed by the value in four little-endian bytes.
pub open spec fn scale_option_u32(v: Option<u32>) -> Seq<u8> {
    match v {
        None => seq![0u8],
        Some(x) => seq![1u8] + le_bytes(x as nat, 4),
    }
}

/// The SCALE encoding of the tuple `((seed, block), sender, extrinsic_index)`
/// with a 32-byte seed and 64-bit block number and sender: the fields'
/// encodings one after another.
pub open spec fn random_payload(seed: Seq<u8>, block: u64, sender: u64, extrinsic_index: Option<u32>) -> Seq<u8> {
    seed + le_bytes(block as nat, 8) + le_bytes(sender as nat, 8) + scale_option_u32(extrinsic_index)
}

/// The 16-byte BLAKE2b digest of `data`, as `sp_io::hashing::blake2_128`
/// computes it.
pub uninterp spec fn blake2_128_digest(data: Seq<u8>) -> Seq<u8>;

/// Calls `parity_scale_codec::Encode::encode` on `((seed, block), &sender,
/// extrinsic_index)`. Trusted: the result is the SCALE encoding that
/// `random_payload` writes out (fixed-size arrays as their bytes, integers
/// little-endian, `Option` with a one-byte tag, tuples concatenated).
#[verifier::external_body]
fn encode_random_payload(seed: &[u8; 32], block: u64, sender: u64, extrinsic_index: Option<u32>) -> (res: Vec<u8>)
    ensures
        res@ == random_payload(seed@, block, sender, extrinsic_index),
{
    ((*seed, block), &sender, extrinsic_index).encode()
}

/// Calls `sp_io::hashing::blake2_128`. Trusted: the result is the named
/// digest `blake2_128_digest` of the bytes given, which depends on them alone.
#[verifier::external_body]
fn blake2_128(data: &[u8]) -> (res: [u8; 16])
    ensures
        res@ == blake2_128_digest(data@),
{
    sp_io::hashing::blake2_128(data)
}

/// The 16 bytes that a kitty gets from the runtime's entropy: the seed and
/// block of the randomness source, the sender and the index of the
/// extrinsic in its block.
pub fn dna_from_entropy(seed: [u8; 32], block: u64, sender: u64, extrinsic_index: Option<u32>) -> (res: [u8; 16])
    ensures
        res@ == blake2_128_digest(random_payload(seed@, block, sender, extrinsic_index)),
{
    let payload = encode_random_payload(&seed, block, sender, extrinsic_index);
    blake2_128(payload.as_slice())
}

} // verus!
