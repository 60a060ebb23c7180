use primitives::codec::{decode_hex, encode_hex, format_decimal, parse_decimal};
use primitives::containers::{BLSPubKey, ByteList, ByteVector, Bytes32, SignatureBytes, U64};
use primitives::error::TypesError;
use primitives::records::{ForkData, Header, SigningData, SyncAggregate, SyncCommittee};
use primitives::update::{ChainConfig, GenericUpdate, LightClientStore, Update};

fn hex_bytes(s: &str) -> Vec<u8> {
    decode_hex(s).unwrap()
}

fn root_with_last(last: u8) -> Bytes32 {
    let mut b = vec![0u8; 32];
    b[31] = last;
    Bytes32::from_bytes(&b).unwrap()
}

fn distinct_keys(n: usize) -> Vec<BLSPubKey> {
    let mut keys = Vec::new();
    for i in 0..n {
        let mut b = vec![0u8; 48];
        b[0] = (i % 256) as u8;
        b[1] = (i / 256) as u8;
        b[47] = 0xaa;
        keys.push(BLSPubKey::from_bytes(&b).unwrap());
    }
    keys
}

fn test_header() -> Header {
    Header {
        slot: U64::new(100),
        proposer_index: U64::new(5),
        parent_root: root_with_last(1),
        state_root: root_with_last(2),
        body_root: root_with_last(3),
    }
}

fn test_update() -> Update {
    let mut bits = vec![0u8; 64];
    bits[0] = 0b0000_0101;
    bits[63] = 0x80;
    let mut sig = vec![0u8; 96];
    sig[0] = 0x11;
    sig[95] = 0x22;
    Update {
        attested_header: test_header(),
        next_sync_committee: SyncCommittee::new(distinct_keys(512), BLSPubKey::from_bytes(&[7u8; 48]).unwrap())
            .unwrap(),
        next_sync_committee_branch: vec![root_with_last(9), root_with_last(10)],
        finalized_header: Header {
            slot: U64::new(64),
            proposer_index: U64::new(3),
            parent_root: root_with_last(4),
            state_root: root_with_last(5),
            body_root: root_with_last(6),
        },
        finality_branch: vec![root_with_last(11), root_with_last(12), root_with_last(13)],
        sync_aggregate: SyncAggregate {
            sync_committee_bits: ByteVector::<64>::from_bytes(&bits).unwrap(),
            sync_committee_signature: SignatureBytes::from_bytes(&sig).unwrap(),
        },
        signature_slot: U64::new(101),
    }
}

const ZERO_HASH_1: &str = "0xf5a5fd42d16a20302798ef6ed309979b43003d2320d9f0e8ea9831a92759fb4b";
const ZERO_HASH_3: &str = "0xc78009fdf07fc56a11f122370658a353aaa542ed63e44c4bc15ff4cd105ab33c";

#[test]
fn fixed_bytes_round_trip() {
    for n in [0u8, 1, 7, 255] {
        let b: Vec<u8> = (0..32u8).map(|i| i.wrapping_mul(n).wrapping_add(3)).collect();
        let v = Bytes32::from_bytes(&b).unwrap();
        let mut buffer = Vec::new();
        assert_eq!(v.serialize(&mut buffer), 32);
        assert_eq!(buffer, b);
        let decoded = Bytes32::deserialize(&buffer).unwrap();
        assert_eq!(decoded.as_slice(), b.as_slice());
        assert_eq!(decoded, v);
    }
}

#[test]
fn fixed_bytes_wrong_length_is_rejected() {
    for len in [0usize, 1, 31, 33, 64] {
        let b = vec![1u8; len];
        assert_eq!(Bytes32::from_bytes(&b), Err(TypesError::LengthMismatch));
        assert_eq!(Bytes32::from_vec(b.clone()), Err(TypesError::LengthMismatch));
        assert_eq!(Bytes32::deserialize(&b), Err(TypesError::SerializationBufferError));
    }
    assert!(Bytes32::from_bytes(&[1u8; 32]).is_ok());
}

#[test]
fn fixed_bytes_sizes() {
    assert!(!Bytes32::is_variable_size());
    assert_eq!(Bytes32::size_hint(), 32);
    assert_eq!(BLSPubKey::size_hint(), 48);
    assert_eq!(Bytes32::zero().as_slice(), &[0u8; 32]);
}

#[test]
fn decimal_round_trip() {
    for u in [0u64, 1, 9, 10, 99, 100, 123456789, 1 << 53, u64::MAX - 1, u64::MAX] {
        let s = format_decimal(u);
        assert_eq!(parse_decimal(&s), Ok(u));
        assert_eq!(s, u.to_string());
    }
}

#[test]
fn decimal_format_has_no_leading_zero_or_sign() {
    assert_eq!(format_decimal(0), "0");
    assert_eq!(format_decimal(1000), "1000");
    assert_eq!(format_decimal(18446744073709551615), "18446744073709551615");
    assert_eq!(U64::new(42).to_decimal(), "42");
}

#[test]
fn decimal_parse_rejects_malformed_text() {
    assert_eq!(parse_decimal("007"), Ok(7));
    assert_eq!(parse_decimal("18446744073709551615"), Ok(u64::MAX));
    for bad in ["", "+5", "-1", " 1", "1 ", "12a", "1,000", "18446744073709551616", "99999999999999999999"] {
        assert_eq!(parse_decimal(bad), Err(TypesError::NumericParseFailure), "{}", bad);
        assert_eq!(U64::from_decimal(bad), Err(TypesError::NumericParseFailure));
    }
    assert_eq!(U64::from_decimal("123456789").unwrap().as_u64(), 123456789);
}

#[test]
fn hex_text_round_trip() {
    let v = ByteVector::<4>::from_bytes(&[0xde, 0xad, 0xbe, 0xef]).unwrap();
    let text = v.to_hex();
    assert_eq!(text, "0xdeadbeef");
    assert_eq!(ByteVector::<4>::from_hex(&text), Ok(v));
    let keys = distinct_keys(3);
    for k in keys {
        assert_eq!(BLSPubKey::from_hex(&k.to_hex()), Ok(k));
    }
    assert_eq!(encode_hex(&[]), "0x");
    assert_eq!(encode_hex(&[0x00, 0x0f, 0xf0]), "0x000ff0");
}

#[test]
fn hex_text_rejects_bad_input() {
    assert_eq!(ByteVector::<2>::from_hex("abcd"), Err(TypesError::InvalidHexEncoding));
    assert_eq!(ByteVector::<1>::from_hex("0xZZ"), Err(TypesError::InvalidHexEncoding));
    assert_eq!(ByteVector::<2>::from_hex("0xabc"), Err(TypesError::InvalidHexEncoding));
    assert_eq!(ByteVector::<2>::from_hex("0Xabcd"), Err(TypesError::InvalidHexEncoding));
    assert_eq!(ByteVector::<2>::from_hex(""), Err(TypesError::InvalidHexEncoding));
    assert_eq!(ByteVector::<2>::from_hex("0xabcdef"), Err(TypesError::LengthMismatch));
    assert_eq!(ByteVector::<2>::from_hex("0xAbCd").unwrap().as_slice(), &[0xab, 0xcd]);
    assert_eq!(decode_hex("abcd"), None);
    assert_eq!(decode_hex("0x"), Some(vec![]));
}

#[test]
fn byte_list_bounds() {
    let l = ByteList::<4>::from_bytes(&[1, 2, 3]).unwrap();
    assert_eq!(l.as_slice(), &[1, 2, 3]);
    assert_eq!(ByteList::<4>::from_bytes(&[1, 2, 3, 4, 5]), Err(TypesError::LengthMismatch));
    assert_eq!(ByteList::<4>::from_vec(vec![0; 5]), Err(TypesError::LengthMismatch));
    assert!(ByteList::<4>::from_vec(vec![0; 4]).is_ok());
    let mut buffer = vec![9u8];
    assert_eq!(l.serialize(&mut buffer), 3);
    assert_eq!(buffer, vec![9, 1, 2, 3]);
    assert_eq!(ByteList::<4>::deserialize(&[1, 2, 3]), Ok(l));
    assert_eq!(ByteList::<2>::deserialize(&[1, 2, 3]), Err(TypesError::SerializationBufferError));
    assert_eq!(ByteList::<4>::from_hex("0x010203").unwrap().as_slice(), &[1, 2, 3]);
    assert_eq!(ByteList::<2>::from_hex("0x010203"), Err(TypesError::LengthMismatch));
    assert_eq!(ByteList::<4>::from_bytes(&[0xab]).unwrap().to_hex(), "0xab");
}

#[test]
fn byte_list_empty_root_mixes_in_length() {
    let root = ByteList::<32>::empty().hash_tree_root();
    assert_eq!(root.as_slice(), hex_bytes(ZERO_HASH_1).as_slice());
    let one = ByteList::<32>::from_bytes(&[1]).unwrap().hash_tree_root();
    assert_ne!(one, root);
}

#[test]
fn u64_binary_codec() {
    let mut buffer = Vec::new();
    assert_eq!(U64::new(0x0102030405060708).serialize(&mut buffer), 8);
    assert_eq!(buffer, vec![8, 7, 6, 5, 4, 3, 2, 1]);
    assert_eq!(U64::deserialize(&buffer).unwrap().as_u64(), 0x0102030405060708);
    assert_eq!(U64::deserialize(&buffer[..7]), Err(TypesError::SerializationBufferError));
    assert_eq!(U64::deserialize(&[0u8; 9]), Err(TypesError::SerializationBufferError));
    assert_eq!(u64::from(U64::from(77u64)), 77);
    assert!(U64::new(2) < U64::new(10));
}

#[test]
fn u64_root_is_padded_little_endian() {
    let root = U64::new(100).hash_tree_root();
    let mut expected = vec![0u8; 32];
    expected[0] = 100;
    assert_eq!(root.as_slice(), expected.as_slice());
}

#[test]
fn short_vector_root_is_its_padded_bytes() {
    let v = ByteVector::<4>::from_bytes(&[1, 2, 3, 4]).unwrap();
    let mut expected = vec![0u8; 32];
    expected[..4].copy_from_slice(&[1, 2, 3, 4]);
    assert_eq!(v.hash_tree_root().as_slice(), expected.as_slice());
    let r = root_with_last(5);
    assert_eq!(r.hash_tree_root(), r);
}

#[test]
fn sync_committee_needs_exactly_512_keys() {
    let agg = BLSPubKey::zero();
    assert_eq!(
        SyncCommittee::new(distinct_keys(511), agg).err(),
        Some(TypesError::SequenceLengthInvariantViolation)
    );
    assert_eq!(
        SyncCommittee::new(distinct_keys(513), agg).err(),
        Some(TypesError::SequenceLengthInvariantViolation)
    );
    assert_eq!(
        SyncCommittee::new(Vec::new(), agg).err(),
        Some(TypesError::SequenceLengthInvariantViolation)
    );
    let keys = distinct_keys(512);
    let c = SyncCommittee::new(keys.clone(), agg).unwrap();
    assert_eq!(c.pubkeys(), &keys);
    assert_eq!(c.pubkeys().len(), 512);
}

#[test]
fn sync_committee_encoding_and_root() {
    let keys = distinct_keys(512);
    let c = SyncCommittee::new(keys.clone(), BLSPubKey::from_bytes(&[7u8; 48]).unwrap()).unwrap();
    let mut buffer = Vec::new();
    assert_eq!(c.serialize(&mut buffer), 513 * 48);
    assert_eq!(buffer.len(), 513 * 48);
    assert_eq!(&buffer[48..96], keys[1].as_slice());
    assert_eq!(&buffer[512 * 48..], &[7u8; 48]);
    assert_eq!(SyncCommittee::size_hint(), 513 * 48);
    assert_eq!(c.hash_tree_root(), c.duplicate().hash_tree_root());
    let mut swapped = keys.clone();
    swapped.swap(0, 1);
    let d = SyncCommittee::new(swapped, BLSPubKey::from_bytes(&[7u8; 48]).unwrap()).unwrap();
    assert_ne!(c.hash_tree_root(), d.hash_tree_root());
    let z = SyncCommittee::zero();
    assert!(z.pubkeys().iter().all(|k| k.as_slice() == [0u8; 48]));
}

#[test]
fn header_root_is_deterministic() {
    let h = test_header();
    let first = h.hash_tree_root();
    let second = test_header().hash_tree_root();
    assert_eq!(first, second);
    assert_eq!(first.as_slice().len(), 32);
    let mut other = test_header();
    other.slot = U64::new(101);
    assert_ne!(other.hash_tree_root(), first);
}

#[test]
fn zero_header_root_is_the_zero_tree_root() {
    let root = Header::zero().hash_tree_root();
    assert_eq!(root.as_slice(), hex_bytes(ZERO_HASH_3).as_slice());
}

#[test]
fn header_binary_round_trip() {
    let h = test_header();
    let mut buffer = Vec::new();
    assert_eq!(h.serialize(&mut buffer), 112);
    assert_eq!(&buffer[0..8], &[100, 0, 0, 0, 0, 0, 0, 0]);
    assert_eq!(&buffer[8..16], &[5, 0, 0, 0, 0, 0, 0, 0]);
    assert_eq!(buffer[47], 1);
    assert_eq!(Header::deserialize(&buffer), Ok(h));
    assert_eq!(Header::deserialize(&buffer[..111]), Err(TypesError::SerializationBufferError));
    assert_eq!(Header::size_hint(), 112);
    assert!(!Header::is_variable_size());
}

#[test]
fn zero_records_root_of_two_zero_chunks() {
    let s = SigningData { object_root: Bytes32::zero(), domain: Bytes32::zero() };
    assert_eq!(s.hash_tree_root().as_slice(), hex_bytes(ZERO_HASH_1).as_slice());
    let f = ForkData { current_version: ByteVector::<4>::zero(), genesis_validator_root: Bytes32::zero() };
    assert_eq!(f.hash_tree_root().as_slice(), hex_bytes(ZERO_HASH_1).as_slice());
    let mut buffer = Vec::new();
    assert_eq!(f.serialize(&mut buffer), 36);
    assert_eq!(s.serialize(&mut buffer), 64);
    assert_eq!(buffer.len(), 100);
}

#[test]
fn sync_aggregate_bits() {
    let u = test_update();
    let a = u.sync_aggregate;
    assert!(a.participated(0));
    assert!(!a.participated(1));
    assert!(a.participated(2));
    assert!(a.participated(511));
    assert!(!a.participated(510));
    let mut buffer = Vec::new();
    assert_eq!(a.serialize(&mut buffer), 160);
    assert_eq!(buffer[0], 0b0000_0101);
    assert_eq!(buffer[64], 0x11);
    assert_eq!(a.hash_tree_root(), u.sync_aggregate.hash_tree_root());
    assert!(!SyncAggregate::zero().participated(0));
}

#[test]
fn generic_update_from_update_keeps_every_field() {
    let u = test_update();
    let g = GenericUpdate::from(&u);
    assert_eq!(g.attested_header, u.attested_header);
    assert_eq!(g.sync_aggregate, u.sync_aggregate);
    assert_eq!(g.signature_slot, u.signature_slot.as_u64());
    assert_eq!(g.next_sync_committee.as_ref(), Some(&u.next_sync_committee));
    assert_eq!(g.next_sync_committee_branch.as_ref(), Some(&u.next_sync_committee_branch));
    assert_eq!(g.finalized_header, Some(u.finalized_header));
    assert_eq!(g.finality_branch.as_ref(), Some(&u.finality_branch));
}

#[test]
fn update_text_round_trip_keeps_fields_and_key_order() {
    let u = test_update();
    let header_text = |h: &Header| {
        (
            h.slot.to_decimal(),
            h.proposer_index.to_decimal(),
            h.parent_root.to_hex(),
            h.state_root.to_hex(),
            h.body_root.to_hex(),
        )
    };
    let header_back = |t: &(String, String, String, String, String)| Header {
        slot: U64::from_decimal(&t.0).unwrap(),
        proposer_index: U64::from_decimal(&t.1).unwrap(),
        parent_root: Bytes32::from_hex(&t.2).unwrap(),
        state_root: Bytes32::from_hex(&t.3).unwrap(),
        body_root: Bytes32::from_hex(&t.4).unwrap(),
    };
    let keys_text: Vec<String> = u.next_sync_committee.pubkeys().iter().map(|k| k.to_hex()).collect();
    let agg_text = u.next_sync_committee.aggregate_pubkey.to_hex();
    let keys_back: Vec<BLSPubKey> = keys_text.iter().map(|t| BLSPubKey::from_hex(t).unwrap()).collect();
    let back = Update {
        attested_header: header_back(&header_text(&u.attested_header)),
        next_sync_committee: SyncCommittee::new(keys_back, BLSPubKey::from_hex(&agg_text).unwrap()).unwrap(),
        next_sync_committee_branch: u
            .next_sync_committee_branch
            .iter()
            .map(|r| Bytes32::from_hex(&r.to_hex()).unwrap())
            .collect(),
        finalized_header: header_back(&header_text(&u.finalized_header)),
        finality_branch: u.finality_branch.iter().map(|r| Bytes32::from_hex(&r.to_hex()).unwrap()).collect(),
        sync_aggregate: SyncAggregate {
            sync_committee_bits: ByteVector::<64>::from_hex(&u.sync_aggregate.sync_committee_bits.to_hex()).unwrap(),
            sync_committee_signature: SignatureBytes::from_hex(&u.sync_aggregate.sync_committee_signature.to_hex())
                .unwrap(),
        },
        signature_slot: U64::from_decimal(&u.signature_slot.to_decimal()).unwrap(),
    };
    assert_eq!(back.attested_header, u.attested_header);
    assert_eq!(back.next_sync_committee, u.next_sync_committee);
    assert_eq!(back.next_sync_committee.pubkeys(), &distinct_keys(512));
    assert_eq!(back.next_sync_committee_branch, u.next_sync_committee_branch);
    assert_eq!(back.finalized_header, u.finalized_header);
    assert_eq!(back.finality_branch, u.finality_branch);
    assert_eq!(back.sync_aggregate, u.sync_aggregate);
    assert_eq!(back.signature_slot, u.signature_slot);
}

#[test]
fn store_and_config_defaults() {
    let s = LightClientStore::zero();
    assert_eq!(s.finalized_header, Header::zero());
    assert_eq!(s.optimistic_header, Header::zero());
    assert!(s.next_sync_committee.is_none());
    assert_eq!(s.current_sync_committee.pubkeys().len(), 512);
    assert_eq!(s.previous_max_active_participants, 0);
    assert_eq!(s.current_max_active_participants, 0);
    let c = ChainConfig { chain_id: 1, genesis_time: 1606824023, genesis_root: vec![1, 2] };
    assert_eq!(c.clone(), c);
}

#[test]
fn composite_binary_round_trips() {
    let u = test_update();
    let c = &u.next_sync_committee;
    let mut buffer = Vec::new();
    c.serialize(&mut buffer);
    let back = SyncCommittee::deserialize(&buffer).unwrap();
    assert_eq!(&back, c);
    assert_eq!(back.pubkeys(), &distinct_keys(512));
    assert_eq!(
        SyncCommittee::deserialize(&buffer[..buffer.len() - 1]).err(),
        Some(TypesError::SerializationBufferError)
    );

    let mut buffer = Vec::new();
    u.sync_aggregate.serialize(&mut buffer);
    assert_eq!(SyncAggregate::deserialize(&buffer), Ok(u.sync_aggregate));
    assert_eq!(SyncAggregate::deserialize(&buffer[1..]), Err(TypesError::SerializationBufferError));

    let s = SigningData { object_root: root_with_last(1), domain: root_with_last(2) };
    let mut buffer = Vec::new();
    s.serialize(&mut buffer);
    assert_eq!(SigningData::deserialize(&buffer), Ok(s));
    assert_eq!(SigningData::deserialize(&[0u8; 63]), Err(TypesError::SerializationBufferError));

    let f = ForkData {
        current_version: ByteVector::<4>::from_bytes(&[1, 0, 0, 0]).unwrap(),
        genesis_validator_root: root_with_last(7),
    };
    let mut buffer = Vec::new();
    f.serialize(&mut buffer);
    assert_eq!(&buffer[..4], &[1, 0, 0, 0]);
    assert_eq!(ForkData::deserialize(&buffer), Ok(f));
    assert_eq!(ForkData::deserialize(&[0u8; 37]), Err(TypesError::SerializationBufferError));
}
