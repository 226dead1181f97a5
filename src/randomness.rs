//! The selector that seeds a new genome: the BLAKE2 digest of the SCALE
//! encoding of the block's random seed, the caller and the index of the
//! call within its block.
use parity_scale_codec::Encode;
use vstd::prelude::*;

verus! {

/// What the host supplies to draw randomness for one call.
#[derive(Clone, Copy, Debug)]
pub struct BlockContext {
    /// The block's random seed.
    pub random_seed: [u8; 32],
    /// The index of the call within its block, if known.
    pub extrinsic_index: Option<u32>,
}

/// The `width` bytes of `n`, least significant first.
pub open spec fn le_bytes(n: nat, width: nat) -> Seq<u8>
    decreases width,
{
    if width == 0 {
        Seq::empty()
    } else {
        seq![(n % 256) as u8] + le_bytes(n / 256, (width - 1) as nat)
    }
}

/// The SCALE encoding of an optional `u32`: a tag byte, then the value.
pub open spec fn option_u32_bytes(v: Option<u32>) -> Seq<u8> {
    match v {
        None => seq![0u8],
        Some(x) => seq![1u8] + le_bytes(x as nat, 4),
    }
}

/// The SCALE encoding of a seed, an account and an optional call index.
pub open spec fn payload_bytes(seed: Seq<u8>, sender: u64, index: Option<u32>) -> Seq<u8> {
    seed + le_bytes(sender as nat, 8) + option_u32_bytes(index)
}

/// The 128-bit BLAKE2b digest of a byte string.
pub uninterp spec fn blake2_128_of(data: Seq<u8>) -> Seq<u8>;

/// The selector drawn for `sender` in the given block context.
pub open spec fn selector_of(ctx: BlockContext, sender: u64) -> Seq<u8> {
    blake2_128_of(payload_bytes(ctx.random_seed@, sender, ctx.extrinsic_index))
}

/// Relies on parity_scale_codec's `Encode` for a triple: the three encodings
/// in order, a byte array as its bytes, a `u64` as its eight little-endian
/// bytes, an `Option` as a tag byte (0 or 1) followed by the value.
#[verifier::external_body]
fn encode_payload(seed: &[u8; 32], sender: u64, index: Option<u32>) -> (r: Vec<u8>)
    ensures
        r@ == payload_bytes(seed@, sender, index),
{
    (seed, sender, index).encode()
}

/// Relies on sp_io::hashing::blake2_128: the 16-byte BLAKE2b digest of the
/// data, which depends on the data alone.
#[verifier::external_body]
fn blake2_128(data: &Vec<u8>) -> (r: [u8; 16])
    ensures
        r@ == blake2_128_of(data@),
{
    sp_io::hashing::blake2_128(data.as_slice())
}

/// The 16 selector bytes for `sender` in the given block context.
pub fn random_value(ctx: &BlockContext, sender: u64) -> (r: [u8; 16])
    ensures
        r@ == selector_of(*ctx, sender),
{
    let payload = encode_payload(&ctx.random_seed, sender, ctx.extrinsic_index);
    blake2_128(&payload)
}

} // verus!
