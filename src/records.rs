//! The composite records of the light client: block header, sync committee,
//! sync aggregate, signing data and fork data, with their binary encodings
//! (fields concatenated in declared order) and their hash tree roots (a Merkle
//! tree over the field roots in declared order).
use vstd::prelude::*;
use crate::codec::le_bytes_of;
use crate::containers::{
    lemma_byte_vector_len, u64_root, BLSPubKey, ByteVector, Bytes32, SignatureBytes, U64,
};
use crate::error::TypesError;
use crate::merkle::{bytes_root, merkle_root_of, merkleize, packed};

verus! {

/// The number of members of a sync committee.
pub const SYNC_COMMITTEE_SIZE: usize = 512;

/// A beacon block header.
#[derive(Clone, Copy, Debug, PartialEq, Eq)]
pub struct Header {
    pub slot: U64,
    pub proposer_index: U64,
    pub parent_root: Bytes32,
    pub state_root: Bytes32,
    pub body_root: Bytes32,
}

/// The binary encoding of a header: its fields in declared order.
pub open spec fn header_bytes(h: Header) -> Seq<u8> {
    le_bytes_of(h.slot@ as nat, 8) + le_bytes_of(h.proposer_index@ as nat, 8) + h.parent_root@
        + h.state_root@ + h.body_root@
}

/// The hash tree root of a header: the tree over its five field roots.
pub open spec fn header_root(h: Header) -> Seq<u8> {
    merkle_root_of(
        u64_root(h.slot@) + u64_root(h.proposer_index@) + h.parent_root@ + h.state_root@
            + h.body_root@,
        5,
    )
}

/// Appends the 32-byte `root` to `roots`.
fn push_root(roots: &mut Vec<u8>, root: &Bytes32)
    ensures
        final(roots)@ == old(roots)@ + root@,
        root@.len() == 32,
{
    proof {
        lemma_byte_vector_len(*root);
    }
    root.serialize(roots);
}

/// The 32-byte array holding `root`, which the Merkle tree always gives.
fn to_bytes32(root: Vec<u8>) -> (r: Bytes32)
    requires
        root@.len() == 32,
    ensures
        r@ == root@,
{
    match Bytes32::from_vec(root) {
        Ok(r) => r,
        Err(_) => Bytes32::zero(),
    }
}

impl Header {
    /// The all-zero header, as a value of the model.
    pub open spec fn zero_spec() -> Header {
        Header {
            slot: U64::spec_new(0),
            proposer_index: U64::spec_new(0),
            parent_root: Bytes32::zero_spec(),
            state_root: Bytes32::zero_spec(),
            body_root: Bytes32::zero_spec(),
        }
    }

    /// The all-zero header.
    pub fn zero() -> (r: Self)
        ensures
            r == Header::zero_spec(),
            r.slot@ == 0 && r.proposer_index@ == 0,
            r.parent_root@ == Seq::new(32, |i: int| 0u8),
            r.state_root@ == Seq::new(32, |i: int| 0u8),
            r.body_root@ == Seq::new(32, |i: int| 0u8),
    {
        Header {
            slot: U64::new(0),
            proposer_index: U64::new(0),
            parent_root: Bytes32::zero(),
            state_root: Bytes32::zero(),
            body_root: Bytes32::zero(),
        }
    }

    /// A header is of fixed size.
    pub fn is_variable_size() -> (r: bool)
        ensures
            !r,
    {
        false
    }

    /// The length of the binary encoding: the sum over the fields.
    pub fn size_hint() -> (r: usize)
        ensures
            r == 112,
    {
        U64::size_hint() + U64::size_hint() + Bytes32::size_hint() + Bytes32::size_hint()
            + Bytes32::size_hint()
    }

    /// Appends the binary encoding and returns its length.
    pub fn serialize(&self, buffer: &mut Vec<u8>) -> (r: usize)
        ensures
            final(buffer)@ == old(buffer)@ + header_bytes(*self),
            r == 112,
    {
        let ghost start = buffer@;
        self.slot.serialize(buffer);
        self.proposer_index.serialize(buffer);
        self.parent_root.serialize(buffer);
        self.state_root.serialize(buffer);
        self.body_root.serialize(buffer);
        assert(buffer@ =~= start + header_bytes(*self));
        112
    }

    /// Decodes the binary encoding; fails with `SerializationBufferError` unless
    /// it has exactly 112 bytes.
    pub fn deserialize(encoding: &[u8]) -> (r: Result<Self, TypesError>)
        ensures
            r is Ok <==> encoding@.len() == 112,
            r matches Ok(h) ==> header_bytes(h) == encoding@,
            r matches Err(e) ==> e == TypesError::SerializationBufferError,
    {
        if encoding.len() != 112 {
            return Err(TypesError::SerializationBufferError);
        }
        let ghost e = encoding@;
        let slot = U64::deserialize(slice_of(encoding, 0, 8).as_slice());
        let proposer_index = U64::deserialize(slice_of(encoding, 8, 16).as_slice());
        let parent_root = Bytes32::deserialize(slice_of(encoding, 16, 48).as_slice());
        let state_root = Bytes32::deserialize(slice_of(encoding, 48, 80).as_slice());
        let body_root = Bytes32::deserialize(slice_of(encoding, 80, 112).as_slice());
        match (slot, proposer_index, parent_root, state_root, body_root) {
            (Ok(slot), Ok(proposer_index), Ok(parent_root), Ok(state_root), Ok(body_root)) => {
                let h = Header { slot, proposer_index, parent_root, state_root, body_root };
                proof {
                    crate::codec::lemma_le_bytes_of_value(e.subrange(0, 8), slot@);
                    crate::codec::lemma_le_bytes_of_value(e.subrange(8, 16), proposer_index@);
                    assert(header_bytes(h) =~= e);
                }
                Ok(h)
            },
            _ => Err(TypesError::SerializationBufferError),
        }
    }

    /// The hash tree root over the field roots in declared order.
    pub fn hash_tree_root(&self) -> (r: Bytes32)
        ensures
            r@ == header_root(*self),
    {
        let mut roots: Vec<u8> = Vec::new();
        push_root(&mut roots, &self.slot.hash_tree_root());
        push_root(&mut roots, &self.proposer_index.hash_tree_root());
        push_root(&mut roots, &self.parent_root.hash_tree_root());
        push_root(&mut roots, &self.state_root.hash_tree_root());
        push_root(&mut roots, &self.body_root.hash_tree_root());
        assert(roots@ =~= u64_root(self.slot@) + u64_root(self.proposer_index@)
            + self.parent_root@ + self.state_root@ + self.body_root@);
        to_bytes32(merkleize(roots.as_slice(), 5))
    }
}

/// The bytes of `s` from `from` to `to`.
fn slice_of(s: &[u8], from: usize, to: usize) -> (r: Vec<u8>)
    requires
        from <= to <= s@.len(),
    ensures
        r@ == s@.subrange(from as int, to as int),
{
    let mut out: Vec<u8> = Vec::new();
    let mut i: usize = from;
    while i < to
        invariant
            from <= i <= to <= s@.len(),
            out@ == s@.subrange(from as int, i as int),
        decreases to - i,
    {
        out.push(s[i]);
        i = i + 1;
        assert(out@ =~= s@.subrange(from as int, i as int));
    }
    out
}

/// A copy of `v`, element by element.
pub(crate) fn copy_all<const N: usize>(v: &Vec<ByteVector<N>>) -> (r: Vec<ByteVector<N>>)
    ensures
        r@ == v@,
{
    let mut out: Vec<ByteVector<N>> = Vec::new();
    let mut i: usize = 0;
    while i < v.len()
        invariant
            i <= v@.len(),
            out@ == v@.subrange(0, i as int),
        decreases v@.len() - i,
    {
        out.push(v[i]);
        i = i + 1;
        assert(out@ =~= v@.subrange(0, i as int));
    }
    assert(out@ =~= v@);
    out
}

/// The concatenated roots of the keys, in order.
pub open spec fn key_roots(keys: Seq<BLSPubKey>) -> Seq<u8>
    decreases keys.len(),
{
    if keys.len() == 0 {
        Seq::empty()
    } else {
        key_roots(keys.drop_last()) + bytes_root(keys.last()@, 2)
    }
}

/// The concatenated bytes of the keys, in order.
pub open spec fn key_bytes(keys: Seq<BLSPubKey>) -> Seq<u8>
    decreases keys.len(),
{
    if keys.len() == 0 {
        Seq::empty()
    } else {
        key_bytes(keys.drop_last()) + keys.last()@
    }
}

/// The hash tree root of a committee: the tree over the root of its key
/// vector (itself the tree over the 512 key roots) and the aggregate key's root.
pub open spec fn committee_root(keys: Seq<BLSPubKey>, aggregate: BLSPubKey) -> Seq<u8> {
    merkle_root_of(merkle_root_of(key_roots(keys), 512) + bytes_root(aggregate@, 2), 2)
}

/// A sync committee: exactly 512 public keys, in committee order, and their
/// aggregate.
#[derive(Debug, PartialEq, Eq)]
pub struct SyncCommittee {
    pubkeys: Vec<BLSPubKey>,
    pub aggregate_pubkey: BLSPubKey,
}

impl Clone for SyncCommittee {
    fn clone(&self) -> Self {
        self.duplicate()
    }
}

impl SyncCommittee {
    #[verifier::type_invariant]
    spec fn full(&self) -> bool {
        self.pubkeys@.len() == SYNC_COMMITTEE_SIZE
    }

    /// The public keys, in committee order.
    pub closed spec fn keys(&self) -> Seq<BLSPubKey> {
        self.pubkeys@
    }

    /// The aggregate public key.
    pub closed spec fn aggregate(&self) -> BLSPubKey {
        self.aggregate_pubkey
    }

    /// The committee of `pubkeys` and `aggregate_pubkey`; fails with
    /// `SequenceLengthInvariantViolation` unless there are exactly 512 keys.
    pub fn new(pubkeys: Vec<BLSPubKey>, aggregate_pubkey: BLSPubKey) -> (r: Result<
        Self,
        TypesError,
    >)
        ensures
            r is Ok <==> pubkeys@.len() == SYNC_COMMITTEE_SIZE,
            r matches Ok(c) ==> c.keys() == pubkeys@ && c.aggregate() == aggregate_pubkey,
            r matches Err(e) ==> e == TypesError::SequenceLengthInvariantViolation,
    {
        if pubkeys.len() != SYNC_COMMITTEE_SIZE {
            return Err(TypesError::SequenceLengthInvariantViolation);
        }
        Ok(SyncCommittee { pubkeys, aggregate_pubkey })
    }

    /// The committee of 512 all-zero keys and an all-zero aggregate.
    pub fn zero() -> (r: Self)
        ensures
            r.keys().len() == SYNC_COMMITTEE_SIZE,
            forall|i: int| 0 <= i < 512 ==> #[trigger] r.keys()[i]@ == Seq::new(48, |j: int| 0u8),
            r.aggregate()@ == Seq::new(48, |j: int| 0u8),
    {
        let mut keys: Vec<BLSPubKey> = Vec::new();
        let z = BLSPubKey::zero();
        while keys.len() < SYNC_COMMITTEE_SIZE
            invariant
                keys@.len() <= SYNC_COMMITTEE_SIZE,
                z@ == Seq::new(48, |j: int| 0u8),
                forall|k: int| 0 <= k < keys@.len() ==> keys@[k] == z,
            decreases SYNC_COMMITTEE_SIZE - keys@.len(),
        {
            keys.push(z);
        }
        SyncCommittee { pubkeys: keys, aggregate_pubkey: z }
    }

    /// The public keys, in committee order.
    pub fn pubkeys(&self) -> (r: &Vec<BLSPubKey>)
        ensures
            r@ == self.keys(),
            r@.len() == SYNC_COMMITTEE_SIZE,
    {
        proof {
            use_type_invariant(self);
        }
        &self.pubkeys
    }

    /// A copy holding the same keys in the same order.
    pub fn duplicate(&self) -> (r: Self)
        ensures
            r.keys() == self.keys(),
            r.aggregate() == self.aggregate(),
    {
        proof {
            use_type_invariant(self);
        }
        SyncCommittee { pubkeys: copy_all(&self.pubkeys), aggregate_pubkey: self.aggregate_pubkey }
    }

    /// A committee is of fixed size.
    pub fn is_variable_size() -> (r: bool)
        ensures
            !r,
    {
        false
    }

    /// The length of the binary encoding: 513 keys of 48 bytes.
    pub fn size_hint() -> (r: usize)
        ensures
            r == 513 * 48,
    {
        SYNC_COMMITTEE_SIZE * BLSPubKey::size_hint() + BLSPubKey::size_hint()
    }

    /// Appends the binary encoding, the keys in order and then the aggregate,
    /// and returns its length.
    pub fn serialize(&self, buffer: &mut Vec<u8>) -> (r: usize)
        ensures
            final(buffer)@ == old(buffer)@ + key_bytes(self.keys()) + self.aggregate()@,
            r == 513 * 48,
    {
        proof {
            use_type_invariant(self);
        }
        let ghost start = buffer@;
        let mut i: usize = 0;
        while i < self.pubkeys.len()
            invariant
                i <= self.keys().len(),
                buffer@ == start + key_bytes(self.keys().subrange(0, i as int)),
            decreases self.keys().len() - i,
        {
            self.pubkeys[i].serialize(buffer);
            proof {
                let ks = self.keys().subrange(0, i + 1);
                assert(ks.drop_last() =~= self.keys().subrange(0, i as int));
            }
            i = i + 1;
        }
        assert(self.keys().subrange(0, i as int) =~= self.keys());
        self.aggregate_pubkey.serialize(buffer);
        Self::size_hint()
    }

    /// Decodes 513 keys of 48 bytes: the committee in order, then the
    /// aggregate. Fails with `SerializationBufferError` on any other length.
    pub fn deserialize(encoding: &[u8]) -> (r: Result<Self, TypesError>)
        ensures
            r is Ok <==> encoding@.len() == 513 * 48,
            r matches Ok(c) ==> key_bytes(c.keys()) + c.aggregate()@ == encoding@,
            r matches Err(e) ==> e == TypesError::SerializationBufferError,
    {
        if encoding.len() != 513 * 48 {
            return Err(TypesError::SerializationBufferError);
        }
        let mut keys: Vec<BLSPubKey> = Vec::new();
        let mut i: usize = 0;
        while i < SYNC_COMMITTEE_SIZE
            invariant
                i <= SYNC_COMMITTEE_SIZE,
                encoding@.len() == 513 * 48,
                keys@.len() == i,
                key_bytes(keys@) == encoding@.subrange(0, 48 * i as int),
            decreases SYNC_COMMITTEE_SIZE - i,
        {
            let key = BLSPubKey::deserialize(slice_of(encoding, 48 * i, 48 * i + 48).as_slice());
            match key {
                Ok(k) => {
                    let ghost before = keys@;
                    keys.push(k);
                    proof {
                        assert(keys@.drop_last() =~= before);
                        assert(encoding@.subrange(0, 48 * (i + 1)) =~= encoding@.subrange(
                            0,
                            48 * i as int,
                        ) + encoding@.subrange(48 * i as int, 48 * i + 48));
                    }
                },
                Err(_) => {
                    return Err(TypesError::SerializationBufferError);
                },
            }
            i = i + 1;
        }
        match BLSPubKey::deserialize(slice_of(encoding, 512 * 48, 513 * 48).as_slice()) {
            Ok(aggregate_pubkey) => {
                let c = SyncCommittee { pubkeys: keys, aggregate_pubkey };
                assert(key_bytes(c.keys()) + c.aggregate()@ =~= encoding@);
                Ok(c)
            },
            Err(_) => Err(TypesError::SerializationBufferError),
        }
    }

    /// The hash tree root: the key vector's root and the aggregate's root.
    pub fn hash_tree_root(&self) -> (r: Bytes32)
        ensures
            r@ == committee_root(self.keys(), self.aggregate()),
    {
        proof {
            use_type_invariant(self);
        }
        let mut roots: Vec<u8> = Vec::new();
        let mut i: usize = 0;
        while i < self.pubkeys.len()
            invariant
                i <= self.keys().len() == SYNC_COMMITTEE_SIZE,
                roots@ == key_roots(self.keys().subrange(0, i as int)),
                roots@.len() == 32 * i,
            decreases self.keys().len() - i,
        {
            push_root(&mut roots, &self.pubkeys[i].hash_tree_root());
            proof {
                let ks = self.keys().subrange(0, i + 1);
                assert(ks.drop_last() =~= self.keys().subrange(0, i as int));
            }
            i = i + 1;
        }
        assert(self.keys().subrange(0, i as int) =~= self.keys());
        let keys_root = merkleize(roots.as_slice(), SYNC_COMMITTEE_SIZE);
        let mut fields = keys_root;
        push_root(&mut fields, &self.aggregate_pubkey.hash_tree_root());
        to_bytes32(merkleize(fields.as_slice(), 2))
    }
}

/// The participation bits of a committee and their aggregate signature.
#[derive(Clone, Copy, Debug, PartialEq, Eq)]
pub struct SyncAggregate {
    /// 512 bits, one per committee member, least significant bit first.
    pub sync_committee_bits: ByteVector<64>,
    pub sync_committee_signature: SignatureBytes,
}

/// Whether bit `i` of the bit vector `bits` is set.
pub open spec fn bit_set(bits: Seq<u8>, i: int) -> bool {
    (bits[i / 8] as int / pow2((i % 8) as nat)) % 2 == 1
}

/// `2^n`.
pub open spec fn pow2(n: nat) -> int
    decreases n,
{
    if n == 0 {
        1
    } else {
        2 * pow2((n - 1) as nat)
    }
}

impl SyncAggregate {
    /// No participant and an all-zero signature.
    pub fn zero() -> (r: Self)
        ensures
            r.sync_committee_bits@ == Seq::new(64, |j: int| 0u8),
            r.sync_committee_signature@ == Seq::new(96, |j: int| 0u8),
    {
        SyncAggregate {
            sync_committee_bits: ByteVector::<64>::zero(),
            sync_committee_signature: SignatureBytes::zero(),
        }
    }

    /// Whether the `i`-th member's signature is in the aggregate.
    pub fn participated(&self, i: usize) -> (r: bool)
        requires
            i < SYNC_COMMITTEE_SIZE,
        ensures
            r == bit_set(self.sync_committee_bits@, i as int),
    {
        proof {
            lemma_byte_vector_len(self.sync_committee_bits);
        }
        let byte = self.sync_committee_bits.as_slice()[i / 8];
        let mut v: u8 = byte;
        let mut k: usize = 0;
        while k < i % 8
            invariant
                k <= i % 8,
                byte == self.sync_committee_bits@[i as int / 8],
                v as int == byte as int / pow2(k as nat),
            decreases i % 8 - k,
        {
            proof {
                let p = pow2(k as nat);
                assert(p > 0) by {
                    lemma_pow2_positive(k as nat);
                }
                assert((byte as int / p) / 2 == byte as int / (p * 2)) by (nonlinear_arith)
                    requires
                        p > 0,
                        byte >= 0,
                ;
            }
            v = v / 2;
            k = k + 1;
        }
        v % 2 == 1
    }

    /// An aggregate is of fixed size.
    pub fn is_variable_size() -> (r: bool)
        ensures
            !r,
    {
        false
    }

    /// The length of the binary encoding.
    pub fn size_hint() -> (r: usize)
        ensures
            r == 160,
    {
        ByteVector::<64>::size_hint() + SignatureBytes::size_hint()
    }

    /// Appends the bits and then the signature, and returns their length.
    pub fn serialize(&self, buffer: &mut Vec<u8>) -> (r: usize)
        ensures
            final(buffer)@ == old(buffer)@ + self.sync_committee_bits@
                + self.sync_committee_signature@,
            r == 160,
    {
        self.sync_committee_bits.serialize(buffer);
        self.sync_committee_signature.serialize(buffer);
        160
    }

    /// Decodes 64 bytes of bits and a 96-byte signature. Fails with
    /// `SerializationBufferError` on any other length.
    pub fn deserialize(encoding: &[u8]) -> (r: Result<Self, TypesError>)
        ensures
            r is Ok <==> encoding@.len() == 160,
            r matches Ok(a) ==> a.sync_committee_bits@ + a.sync_committee_signature@
                == encoding@,
            r matches Err(e) ==> e == TypesError::SerializationBufferError,
    {
        if encoding.len() != 160 {
            return Err(TypesError::SerializationBufferError);
        }
        let bits = ByteVector::<64>::deserialize(slice_of(encoding, 0, 64).as_slice());
        let signature = SignatureBytes::deserialize(slice_of(encoding, 64, 160).as_slice());
        match (bits, signature) {
            (Ok(sync_committee_bits), Ok(sync_committee_signature)) => {
                let a = SyncAggregate { sync_committee_bits, sync_committee_signature };
                assert(a.sync_committee_bits@ + a.sync_committee_signature@ =~= encoding@);
                Ok(a)
            },
            _ => Err(TypesError::SerializationBufferError),
        }
    }

    /// The hash tree root over the bits' root and the signature's root.
    pub fn hash_tree_root(&self) -> (r: Bytes32)
        ensures
            r@ == merkle_root_of(
                bytes_root(self.sync_committee_bits@, 2) + bytes_root(
                    self.sync_committee_signature@,
                    3,
                ),
                2,
            ),
    {
        let mut roots: Vec<u8> = Vec::new();
        push_root(&mut roots, &self.sync_committee_bits.hash_tree_root());
        push_root(&mut roots, &self.sync_committee_signature.hash_tree_root());
        to_bytes32(merkleize(roots.as_slice(), 2))
    }
}

proof fn lemma_pow2_positive(n: nat)
    ensures
        pow2(n) > 0,
    decreases n,
{
    if n > 0 {
        lemma_pow2_positive((n - 1) as nat);
    }
}

/// The value a committee member signs: an object's root and a domain.
#[derive(Clone, Copy, Debug, PartialEq, Eq)]
pub struct SigningData {
    pub object_root: Bytes32,
    pub domain: Bytes32,
}

impl SigningData {
    /// The hash tree root over the two roots, which is the signed message.
    pub fn hash_tree_root(&self) -> (r: Bytes32)
        ensures
            r@ == merkle_root_of(self.object_root@ + self.domain@, 2),
    {
        let mut roots: Vec<u8> = Vec::new();
        push_root(&mut roots, &self.object_root.hash_tree_root());
        push_root(&mut roots, &self.domain.hash_tree_root());
        to_bytes32(merkleize(roots.as_slice(), 2))
    }

    /// Decodes an object root and a domain of 32 bytes each. Fails with
    /// `SerializationBufferError` on any other length.
    pub fn deserialize(encoding: &[u8]) -> (r: Result<Self, TypesError>)
        ensures
            r is Ok <==> encoding@.len() == 64,
            r matches Ok(d) ==> d.object_root@ + d.domain@ == encoding@,
            r matches Err(e) ==> e == TypesError::SerializationBufferError,
    {
        if encoding.len() != 64 {
            return Err(TypesError::SerializationBufferError);
        }
        let object_root = Bytes32::deserialize(slice_of(encoding, 0, 32).as_slice());
        let domain = Bytes32::deserialize(slice_of(encoding, 32, 64).as_slice());
        match (object_root, domain) {
            (Ok(object_root), Ok(domain)) => {
                let d = SigningData { object_root, domain };
                assert(d.object_root@ + d.domain@ =~= encoding@);
                Ok(d)
            },
            _ => Err(TypesError::SerializationBufferError),
        }
    }

    /// Appends the object root and then the domain, and returns their length.
    pub fn serialize(&self, buffer: &mut Vec<u8>) -> (r: usize)
        ensures
            final(buffer)@ == old(buffer)@ + self.object_root@ + self.domain@,
            r == 64,
    {
        self.object_root.serialize(buffer);
        self.domain.serialize(buffer);
        64
    }
}

/// A fork's version and the genesis validator root, from which domains derive.
#[derive(Clone, Copy, Debug, PartialEq, Eq)]
pub struct ForkData {
    pub current_version: ByteVector<4>,
    pub genesis_validator_root: Bytes32,
}

impl ForkData {
    /// The hash tree root over the version's root and the genesis root.
    pub fn hash_tree_root(&self) -> (r: Bytes32)
        ensures
            r@ == merkle_root_of(packed(self.current_version@) + self.genesis_validator_root@, 2),
    {
        let mut roots: Vec<u8> = Vec::new();
        let version_root = self.current_version.hash_tree_root();
        proof {
            lemma_byte_vector_len(self.current_version);
            assert(packed(self.current_version@).len() == 32);
        }
        push_root(&mut roots, &version_root);
        push_root(&mut roots, &self.genesis_validator_root.hash_tree_root());
        to_bytes32(merkleize(roots.as_slice(), 2))
    }

    /// Decodes a 4-byte version and a 32-byte genesis root. Fails with
    /// `SerializationBufferError` on any other length.
    pub fn deserialize(encoding: &[u8]) -> (r: Result<Self, TypesError>)
        ensures
            r is Ok <==> encoding@.len() == 36,
            r matches Ok(f) ==> f.current_version@ + f.genesis_validator_root@ == encoding@,
            r matches Err(e) ==> e == TypesError::SerializationBufferError,
    {
        if encoding.len() != 36 {
            return Err(TypesError::SerializationBufferError);
        }
        let version = ByteVector::<4>::deserialize(slice_of(encoding, 0, 4).as_slice());
        let root = Bytes32::deserialize(slice_of(encoding, 4, 36).as_slice());
        match (version, root) {
            (Ok(current_version), Ok(genesis_validator_root)) => {
                let f = ForkData { current_version, genesis_validator_root };
                assert(f.current_version@ + f.genesis_validator_root@ =~= encoding@);
                Ok(f)
            },
            _ => Err(TypesError::SerializationBufferError),
        }
    }

    /// Appends the version and then the genesis root, and returns their length.
    pub fn serialize(&self, buffer: &mut Vec<u8>) -> (r: usize)
        ensures
            final(buffer)@ == old(buffer)@ + self.current_version@
                + self.genesis_validator_root@,
            r == 36,
    {
        self.current_version.serialize(buffer);
        self.genesis_validator_root.serialize(buffer);
        36
    }
}

} // verus!
