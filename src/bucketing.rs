//! Deterministic bucket assignment and branch draws.

use rand::{rngs::StdRng, Rng, SeedableRng};
use vstd::prelude::*;

verus! {

/// Number of slots in the bucket space that installations are spread over.
pub const BUCKET_SPACE_SIZE: u32 = 10000;

/// The per-installation identifier: the 16 bytes of a random (version 4) UUID.
#[derive(Clone, Copy, Debug, PartialEq, Eq)]
pub struct Identifier {
    pub bytes: [u8; 16],
}

/// The unsigned integer held big-endian in the first four bytes of `b`.
pub open spec fn leading_u32(b: Seq<u8>) -> nat
    recommends
        b.len() >= 4,
{
    b[0] as nat * 16777216 + b[1] as nat * 65536 + b[2] as nat * 256 + b[3] as nat
}

/// The bucket of an identifier in a space of `space_size` slots.
pub open spec fn bucket_of(id: Seq<u8>, space_size: u32) -> u32
    recommends
        id.len() >= 4,
        space_size > 0,
{
    (leading_u32(id) % (space_size as nat)) as u32
}

/// Maps an identifier to a slot in `[0, space_size)`: the big-endian value of
/// its first four bytes, reduced modulo `space_size`.
pub fn bucket(id: &Identifier, space_size: u32) -> (r: u32)
    requires
        space_size > 0,
    ensures
        r == bucket_of(id.bytes@, space_size),
        r < space_size,
{
    let b = id.bytes;
    let v: u32 = (b[0] as u32) * 16777216 + (b[1] as u32) * 65536 + (b[2] as u32) * 256
        + (b[3] as u32);
    v % space_size
}

/// The first value that the standard generator of rand yields as a `u64`
/// after being seeded with `seed`.
pub uninterp spec fn first_draw_of(seed: u64) -> u64;

/// Relies on rand's `StdRng::seed_from_u64` and one `Rng::gen::<u64>` on the
/// fresh generator: a seeded `StdRng` is a deterministic function of its seed.
#[verifier::external_body]
fn first_draw(seed: u64) -> (r: u64)
    ensures
        r == first_draw_of(seed),
{
    StdRng::seed_from_u64(seed).gen::<u64>()
}

/// Relies on uuid's `Uuid::new_v4`: a fresh random identifier, of which
/// nothing is known in advance.
#[verifier::external_body]
pub(crate) fn new_identifier() -> (r: Identifier) {
    Identifier { bytes: *uuid::Uuid::new_v4().as_bytes() }
}

/// The position among `n` branches that an installation in bucket `bucket_no`
/// is given: a draw of the generator seeded with the bucket number, reduced
/// modulo `n`.
pub open spec fn branch_index_of(bucket_no: u32, n: nat) -> nat
    recommends
        n > 0,
{
    (first_draw_of(bucket_no as u64) as nat % n)
}

/// Uniform, deterministic choice of one of `n` branches for bucket `bucket_no`.
pub fn branch_index(bucket_no: u32, n: usize) -> (r: usize)
    requires
        n > 0,
    ensures
        r as nat == branch_index_of(bucket_no, n as nat),
        r < n,
{
    let d = first_draw(bucket_no as u64);
    (d % (n as u64)) as usize
}

} // verus!
