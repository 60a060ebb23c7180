//! Hash tree roots: packing bytes into 32-byte chunks and the Merkle tree
//! over them.
use vstd::prelude::*;

verus! {

/// The root of the binary Merkle tree whose leaves are the 32-byte chunks of
/// `chunks`, zero-padded up to the next power of two of `limit` leaves.
pub uninterp spec fn merkle_root_of(chunks: Seq<u8>, limit: nat) -> Seq<u8>;

/// The hash of `root` together with the 32-byte little-endian chunk of `length`.
pub uninterp spec fn length_mixed_root_of(root: Seq<u8>, length: nat) -> Seq<u8>;

/// Relies on ssz_rs's `merkleize` (exported for its derive macro): with a limit
/// no smaller than the chunk count it returns the 32-byte root, and a single
/// chunk under a limit of one is its own root.
#[verifier::external_body]
pub(crate) fn merkleize(chunks: &[u8], limit: usize) -> (r: Vec<u8>)
    requires
        chunks@.len() % 32 == 0,
        chunks@.len() / 32 <= limit,
        limit <= 0x8000_0000_0000_0000u64,
    ensures
        r@ == merkle_root_of(chunks@, limit as nat),
        r@.len() == 32,
        chunks@.len() == 32 && limit == 1 ==> r@ == chunks@,
{
    let node = ssz_rs::__internal::merkleize(chunks, Some(limit)).expect("limit covers the chunks");
    node.as_ref().to_vec()
}

/// Relies on ssz_rs's `mix_in_selector`, the same hash with which its lists mix
/// their length into the root.
#[verifier::external_body]
pub(crate) fn mix_in_length(root: &[u8], length: usize) -> (r: Vec<u8>)
    requires
        root@.len() == 32,
    ensures
        r@ == length_mixed_root_of(root@, length as nat),
        r@.len() == 32,
{
    let node = ssz_rs::prelude::Node::try_from(root).expect("a root is 32 bytes");
    ssz_rs::__internal::mix_in_selector(&node, length).as_ref().to_vec()
}

/// The number of 32-byte chunks that `n` bytes fill.
pub open spec fn chunk_count(n: nat) -> nat {
    (n + 31) / 32
}

/// `b` followed by zero bytes up to a whole number of chunks.
pub open spec fn packed(b: Seq<u8>) -> Seq<u8> {
    b + Seq::new((chunk_count(b.len()) * 32 - b.len()) as nat, |i: int| 0u8)
}

/// The root of the bytes `b`, packed into chunks, under a limit of `limit` chunks.
pub open spec fn bytes_root(b: Seq<u8>, limit: nat) -> Seq<u8> {
    merkle_root_of(packed(b), limit)
}

/// Pads `b` with zero bytes to a whole number of chunks.
pub fn pack_bytes(b: &[u8]) -> (r: Vec<u8>)
    requires
        b@.len() + 32 <= usize::MAX,
    ensures
        r@ == packed(b@),
        r@.len() % 32 == 0,
        r@.len() / 32 == chunk_count(b@.len() as nat),
{
    let mut out: Vec<u8> = Vec::new();
    let mut i: usize = 0;
    while i < b.len()
        invariant
            i <= b@.len(),
            out@ == b@.subrange(0, i as int),
        decreases b@.len() - i,
    {
        out.push(b[i]);
        i = i + 1;
    }
    let target: usize = (b.len() + 31) / 32 * 32;
    while out.len() < target
        invariant
            b@.len() <= out@.len() <= target,
            target == chunk_count(b@.len() as nat) * 32,
            out@.subrange(0, b@.len() as int) == b@,
            forall|k: int| b@.len() <= k < out@.len() ==> out@[k] == 0u8,
        decreases target - out@.len(),
    {
        out.push(0u8);
    }
    assert(out@ =~= packed(b@));
    out
}

} // verus!
