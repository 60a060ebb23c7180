//! Laws that relate the codecs to one another: decoding what was encoded gives
//! the value back, in binary and in text.
use vstd::prelude::*;
use crate::codec::{
    decimal_of, decimal_value, is_valid_decimal, lemma_decimal_round_trip, decodes_hex_to, is_valid_prefixed_hex, le_bytes_of, le_value, lemma_hex_round_trip,
    lemma_le_bytes_len, lemma_le_round_trip, pow256, prefixed_hex_of,
};
use crate::containers::{lemma_byte_vector_len, lemma_byte_vector_view_injective, lemma_u64_view_injective, ByteVector, U64};
use crate::records::{header_bytes, key_bytes, Header, SyncCommittee};
use crate::update::same_committee;
use crate::containers::BLSPubKey;

verus! {

/// Building a fixed container from `b`, encoding it and decoding the encoding
/// gives a container equal to the first, holding `b`.
pub proof fn lemma_fixed_bytes_round_trip<const N: usize>(
    b: Seq<u8>,
    built: ByteVector<N>,
    decoded: ByteVector<N>,
)
    requires
        b.len() == N,
        built@ == b,
        decoded@ == built@,
    ensures
        decoded == built,
        decoded@ == b,
{
    lemma_byte_vector_view_injective(decoded, built);
}

proof fn lemma_pow256_8()
    ensures
        pow256(8) == 0x1_0000_0000_0000_0000nat,
{
    reveal_with_fuel(pow256, 9);
}

/// Decoding the eight little-endian bytes of a quantity gives it back.
pub proof fn lemma_u64_binary_round_trip(v: U64, decoded: U64)
    requires
        decoded@ as nat == le_value(le_bytes_of(v@ as nat, 8)),
    ensures
        decoded == v,
{
    lemma_pow256_8();
    lemma_le_round_trip(v@ as nat, 8);
    lemma_u64_view_injective(decoded, v);
}

/// Reading back the decimal text of a quantity gives the quantity.
pub proof fn lemma_u64_text_round_trip(v: U64, decoded: U64)
    requires
        decoded@ as nat == decimal_value(decimal_of(v@ as nat)),
    ensures
        is_valid_decimal(decimal_of(v@ as nat)),
        decoded == v,
{
    lemma_decimal_round_trip(v@);
    lemma_u64_view_injective(decoded, v);
}

/// Two headers with the same binary encoding are equal, so decoding a header's
/// encoding gives it back.
pub proof fn lemma_header_round_trip(h: Header, decoded: Header)
    requires
        header_bytes(decoded) == header_bytes(h),
    ensures
        decoded == h,
{
    lemma_pow256_8();
    let a = header_bytes(h);
    let b = header_bytes(decoded);
    lemma_le_bytes_len(h.slot@ as nat, 8);
    lemma_le_bytes_len(h.proposer_index@ as nat, 8);
    lemma_le_bytes_len(decoded.slot@ as nat, 8);
    lemma_le_bytes_len(decoded.proposer_index@ as nat, 8);
    lemma_byte_vector_len(h.parent_root);
    lemma_byte_vector_len(h.state_root);
    lemma_byte_vector_len(h.body_root);
    lemma_byte_vector_len(decoded.parent_root);
    lemma_byte_vector_len(decoded.state_root);
    lemma_byte_vector_len(decoded.body_root);
    assert(a.subrange(0, 8) =~= le_bytes_of(h.slot@ as nat, 8));
    assert(b.subrange(0, 8) =~= le_bytes_of(decoded.slot@ as nat, 8));
    assert(a.subrange(8, 16) =~= le_bytes_of(h.proposer_index@ as nat, 8));
    assert(b.subrange(8, 16) =~= le_bytes_of(decoded.proposer_index@ as nat, 8));
    assert(a.subrange(16, 48) =~= h.parent_root@);
    assert(b.subrange(16, 48) =~= decoded.parent_root@);
    assert(a.subrange(48, 80) =~= h.state_root@);
    assert(b.subrange(48, 80) =~= decoded.state_root@);
    assert(a.subrange(80, 112) =~= h.body_root@);
    assert(b.subrange(80, 112) =~= decoded.body_root@);
    lemma_le_round_trip(h.slot@ as nat, 8);
    lemma_le_round_trip(decoded.slot@ as nat, 8);
    lemma_le_round_trip(h.proposer_index@ as nat, 8);
    lemma_le_round_trip(decoded.proposer_index@ as nat, 8);
    lemma_u64_view_injective(decoded.slot, h.slot);
    lemma_u64_view_injective(decoded.proposer_index, h.proposer_index);
    lemma_byte_vector_view_injective(decoded.parent_root, h.parent_root);
    lemma_byte_vector_view_injective(decoded.state_root, h.state_root);
    lemma_byte_vector_view_injective(decoded.body_root, h.body_root);
}

/// The textual form of a fixed container is accepted back, has the length
/// that `N` bytes give, and decodes to a container equal to the first.
pub proof fn lemma_fixed_hex_round_trip<const N: usize>(
    v: ByteVector<N>,
    text: Seq<char>,
    decoded: ByteVector<N>,
)
    requires
        prefixed_hex_of(text, v@),
        decodes_hex_to(text.subrange(2, text.len() as int), decoded@),
    ensures
        is_valid_prefixed_hex(text),
        text.len() == 2 + 2 * N,
        decoded == v,
{
    lemma_byte_vector_len(v);
    lemma_hex_round_trip(text, v@);
    lemma_byte_vector_view_injective(decoded, v);
}

proof fn lemma_key_bytes_len(keys: Seq<BLSPubKey>)
    ensures
        key_bytes(keys).len() == 48 * keys.len(),
    decreases keys.len(),
{
    if keys.len() > 0 {
        lemma_key_bytes_len(keys.drop_last());
        lemma_byte_vector_len(keys.last());
    }
}

proof fn lemma_key_bytes_injective(a: Seq<BLSPubKey>, b: Seq<BLSPubKey>)
    requires
        a.len() == b.len(),
        key_bytes(a) == key_bytes(b),
    ensures
        a == b,
    decreases a.len(),
{
    if a.len() > 0 {
        let n: int = a.len() - 1;
        lemma_key_bytes_len(a.drop_last());
        lemma_key_bytes_len(b.drop_last());
        lemma_byte_vector_len(a.last());
        lemma_byte_vector_len(b.last());
        let ka = key_bytes(a);
        assert(ka.subrange(0, 48 * n) =~= key_bytes(a.drop_last()));
        assert(ka.subrange(48 * n, 48 * n + 48) =~= a.last()@);
        let kb = key_bytes(b);
        assert(kb.subrange(0, 48 * n) =~= key_bytes(b.drop_last()));
        assert(kb.subrange(48 * n, 48 * n + 48) =~= b.last()@);
        lemma_key_bytes_injective(a.drop_last(), b.drop_last());
        lemma_byte_vector_view_injective(a.last(), b.last());
        assert(a =~= a.drop_last().push(a.last()));
        assert(b =~= b.drop_last().push(b.last()));
    }
}

/// Two committees of 512 keys with the same binary encoding hold the same keys
/// in the same order and the same aggregate, so decoding a committee's
/// encoding gives it back, order included.
pub proof fn lemma_committee_round_trip(c: SyncCommittee, decoded: SyncCommittee)
    requires
        c.keys().len() == 512,
        decoded.keys().len() == 512,
        key_bytes(decoded.keys()) + decoded.aggregate()@ == key_bytes(c.keys()) + c.aggregate()@,
    ensures
        same_committee(decoded, c),
{
    let a = key_bytes(c.keys()) + c.aggregate()@;
    lemma_key_bytes_len(c.keys());
    lemma_key_bytes_len(decoded.keys());
    lemma_byte_vector_len(c.aggregate());
    lemma_byte_vector_len(decoded.aggregate());
    assert(a.subrange(0, 24576) =~= key_bytes(c.keys()));
    assert(a.subrange(24576, 24624) =~= c.aggregate()@);
    let b = key_bytes(decoded.keys()) + decoded.aggregate()@;
    assert(b.subrange(0, 24576) =~= key_bytes(decoded.keys()));
    assert(b.subrange(24576, 24624) =~= decoded.aggregate()@);
    lemma_key_bytes_injective(decoded.keys(), c.keys());
    lemma_byte_vector_view_injective(decoded.aggregate(), c.aggregate());
}

} // verus!
