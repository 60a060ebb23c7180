//! The primitive values: a fixed-length byte container, a length-bounded byte
//! container and a 64-bit quantity, each with its binary encoding, its hash
//! tree root and its textual form.
use vstd::prelude::*;
use crate::codec::{
    append_u64_le, decimal_of, decimal_value, decode_hex, decodes_hex_to, encode_hex,
    format_decimal, is_valid_decimal, is_valid_prefixed_hex, le_bytes_of, le_value,
    parse_decimal, prefixed_hex_of, read_u64_le,
};
use crate::error::TypesError;
use crate::merkle::{bytes_root, chunk_count, length_mixed_root_of, merkleize, mix_in_length, pack_bytes, packed};

verus! {

/// Exactly `N` bytes, ordered byte-wise.
#[derive(Clone, Copy, Debug, PartialEq, Eq, PartialOrd, Ord)]
pub struct ByteVector<const N: usize> {
    inner: [u8; N],
}

pub type Bytes32 = ByteVector<32>;

pub type BLSPubKey = ByteVector<48>;

pub type BLSPubKeyUncompressed = ByteVector<96>;

pub type SignatureBytes = ByteVector<96>;

/// The chunk count of `n` bytes, computed without overflow.
fn chunks_for(n: usize) -> (r: usize)
    ensures
        r as nat == chunk_count(n as nat),
        r <= 0x0800_0000_0000_0000u64,
{
    n / 32 + if n % 32 == 0 { 0 } else { 1 }
}

impl<const N: usize> View for ByteVector<N> {
    type V = Seq<u8>;

    closed spec fn view(&self) -> Seq<u8> {
        self.inner@
    }
}

/// A fixed container holds exactly `N` bytes.
pub proof fn lemma_byte_vector_len<const N: usize>(v: ByteVector<N>)
    ensures
        v@.len() == N,
{
    broadcast use vstd::array::array_len_matches_n;

    assert(v.inner@.len() == N);
}

/// Fixed containers with the same bytes are equal.
pub proof fn lemma_byte_vector_view_injective<const N: usize>(a: ByteVector<N>, b: ByteVector<N>)
    requires
        a@ == b@,
    ensures
        a == b,
{
    broadcast use vstd::array::axiom_array_ext_equal;

    assert(a.inner =~= b.inner);
}

impl<const N: usize> ByteVector<N> {
    /// The container holding `value`; fails with `LengthMismatch` unless it has
    /// exactly `N` bytes.
    pub fn from_bytes(value: &[u8]) -> (r: Result<Self, TypesError>)
        ensures
            r is Ok <==> value@.len() == N,
            r matches Ok(v) ==> v@ == value@,
            r matches Err(e) ==> e == TypesError::LengthMismatch,
    {
        if value.len() != N {
            return Err(TypesError::LengthMismatch);
        }
        let mut a = [0u8; N];
        let mut i: usize = 0;
        while i < N
            invariant
                value@.len() == N,
                a@.len() == N,
                forall|k: int| 0 <= k < i ==> a@[k] == value@[k],
            decreases N - i,
        {
            a[i] = value[i];
            i = i + 1;
        }
        assert(a@ =~= value@);
        Ok(ByteVector { inner: a })
    }

    /// As `from_bytes`, taking the bytes by value.
    pub fn from_vec(value: Vec<u8>) -> (r: Result<Self, TypesError>)
        ensures
            r is Ok <==> value@.len() == N,
            r matches Ok(v) ==> v@ == value@,
            r matches Err(e) ==> e == TypesError::LengthMismatch,
    {
        Self::from_bytes(value.as_slice())
    }

    /// `N` zero bytes, as a value of the model.
    pub closed spec fn zero_spec() -> Self {
        ByteVector { inner: [0u8; N] }
    }

    /// `N` zero bytes.
    pub fn zero() -> (r: Self)
        ensures
            r@ == Seq::new(N as nat, |i: int| 0u8),
            r == Self::zero_spec(),
    {
        let a = [0u8; N];
        assert(a@ =~= Seq::new(N as nat, |i: int| 0u8));
        ByteVector { inner: a }
    }

    pub fn as_slice(&self) -> (r: &[u8])
        ensures
            r@ == self@,
    {
        self.inner.as_slice()
    }

    /// The fixed container is never of variable size.
    pub fn is_variable_size() -> (r: bool)
        ensures
            !r,
    {
        false
    }

    /// The length of the binary encoding.
    pub fn size_hint() -> (r: usize)
        ensures
            r == N,
    {
        N
    }

    /// Appends the binary encoding, the bytes themselves, and returns its length.
    pub fn serialize(&self, buffer: &mut Vec<u8>) -> (r: usize)
        ensures
            final(buffer)@ == old(buffer)@ + self@,
            r == N,
    {
        proof {
            lemma_byte_vector_len(*self);
        }
        let ghost start = buffer@;
        let mut i: usize = 0;
        while i < N
            invariant
                i <= N,
                self@.len() == N,
                buffer@ == start + self@.subrange(0, i as int),
            decreases N - i,
        {
            buffer.push(self.inner[i]);
            i = i + 1;
            assert(buffer@ =~= start + self@.subrange(0, i as int));
        }
        assert(self@.subrange(0, N as int) =~= self@);
        N
    }

    /// Decodes the binary encoding; fails with `SerializationBufferError` unless
    /// it has exactly `N` bytes.
    pub fn deserialize(encoding: &[u8]) -> (r: Result<Self, TypesError>)
        ensures
            r is Ok <==> encoding@.len() == N,
            r matches Ok(v) ==> v@ == encoding@,
            r matches Err(e) ==> e == TypesError::SerializationBufferError,
    {
        match Self::from_bytes(encoding) {
            Ok(v) => Ok(v),
            Err(_) => Err(TypesError::SerializationBufferError),
        }
    }

    /// The hash tree root: the bytes packed into chunks, as a vector of
    /// `chunk_count(N)` chunks.
    pub fn hash_tree_root(&self) -> (r: Bytes32)
        requires
            N + 32 <= usize::MAX,
        ensures
            r@ == bytes_root(self@, chunk_count(N as nat)),
            0 < N <= 32 ==> r@ == packed(self@),
            N == 32 ==> r@ == self@,
    {
        proof {
            lemma_byte_vector_len(*self);
            if N == 32 {
                assert(packed(self@) =~= self@);
            }
        }
        let chunks = pack_bytes(self.inner.as_slice());
        let root = merkleize(chunks.as_slice(), chunks_for(N));
        match Bytes32::from_vec(root) {
            Ok(r) => r,
            Err(_) => Bytes32::zero(),
        }
    }

    /// The textual form: `0x` and the lowercase hexadecimal digits.
    pub fn to_hex(&self) -> (r: String)
        ensures
            prefixed_hex_of(r@, self@),
    {
        encode_hex(self.inner.as_slice())
    }

    /// Reads the textual form. Fails with `InvalidHexEncoding` unless the text is
    /// `0x` and hexadecimal digits, then with `LengthMismatch` unless they give
    /// exactly `N` bytes.
    pub fn from_hex(s: &str) -> (r: Result<Self, TypesError>)
        ensures
            !is_valid_prefixed_hex(s@) <==> r == Err::<Self, TypesError>(
                TypesError::InvalidHexEncoding,
            ),
            r is Ok <==> is_valid_prefixed_hex(s@) && s@.len() == 2 + 2 * N,
            r matches Ok(v) ==> decodes_hex_to(s@.subrange(2, s@.len() as int), v@),
            r matches Err(e) ==> e == TypesError::InvalidHexEncoding || e
                == TypesError::LengthMismatch,
    {
        match decode_hex(s) {
            None => Err(TypesError::InvalidHexEncoding),
            Some(bytes) => Self::from_vec(bytes),
        }
    }
}

/// At most `N` bytes.
#[derive(Debug, PartialEq, Eq)]
pub struct ByteList<const N: usize> {
    inner: Vec<u8>,
}

impl<const N: usize> View for ByteList<N> {
    type V = Seq<u8>;

    closed spec fn view(&self) -> Seq<u8> {
        self.inner@
    }
}

impl<const N: usize> ByteList<N> {
    #[verifier::type_invariant]
    spec fn bounded(&self) -> bool {
        self.inner@.len() <= N
    }

    /// The container holding `value`; fails with `LengthMismatch` if it has more
    /// than `N` bytes.
    pub fn from_bytes(value: &[u8]) -> (r: Result<Self, TypesError>)
        ensures
            r is Ok <==> value@.len() <= N,
            r matches Ok(v) ==> v@ == value@,
            r matches Err(e) ==> e == TypesError::LengthMismatch,
    {
        if value.len() > N {
            return Err(TypesError::LengthMismatch);
        }
        let mut out: Vec<u8> = Vec::new();
        let mut i: usize = 0;
        while i < value.len()
            invariant
                i <= value@.len(),
                out@ == value@.subrange(0, i as int),
            decreases value@.len() - i,
        {
            out.push(value[i]);
            i = i + 1;
        }
        assert(out@ =~= value@);
        Ok(ByteList { inner: out })
    }

    /// As `from_bytes`, taking the bytes by value.
    pub fn from_vec(value: Vec<u8>) -> (r: Result<Self, TypesError>)
        ensures
            r is Ok <==> value@.len() <= N,
            r matches Ok(v) ==> v@ == value@,
            r matches Err(e) ==> e == TypesError::LengthMismatch,
    {
        if value.len() > N {
            return Err(TypesError::LengthMismatch);
        }
        Ok(ByteList { inner: value })
    }

    /// The empty list.
    pub fn empty() -> (r: Self)
        ensures
            r@ == Seq::<u8>::empty(),
    {
        ByteList { inner: Vec::new() }
    }

    pub fn as_slice(&self) -> (r: &[u8])
        ensures
            r@ == self@,
            r@.len() <= N,
    {
        proof {
            use_type_invariant(self);
        }
        self.inner.as_slice()
    }

    /// The bounded container is classed as of variable size.
    pub fn is_variable_size() -> (r: bool)
        ensures
            r,
    {
        true
    }

    /// The size of a variable-size value is not known ahead: zero.
    pub fn size_hint() -> (r: usize)
        ensures
            r == 0,
    {
        0
    }

    /// Appends the binary encoding, the bytes themselves, and returns its length.
    pub fn serialize(&self, buffer: &mut Vec<u8>) -> (r: usize)
        ensures
            final(buffer)@ == old(buffer)@ + self@,
            r == self@.len(),
    {
        let ghost start = buffer@;
        let mut i: usize = 0;
        while i < self.inner.len()
            invariant
                i <= self@.len(),
                buffer@ == start + self@.subrange(0, i as int),
            decreases self@.len() - i,
        {
            buffer.push(self.inner[i]);
            i = i + 1;
            assert(buffer@ =~= start + self@.subrange(0, i as int));
        }
        assert(self@.subrange(0, self@.len() as int) =~= self@);
        self.inner.len()
    }

    /// Decodes the binary encoding; fails with `SerializationBufferError` if it
    /// has more than `N` bytes.
    pub fn deserialize(encoding: &[u8]) -> (r: Result<Self, TypesError>)
        ensures
            r is Ok <==> encoding@.len() <= N,
            r matches Ok(v) ==> v@ == encoding@,
            r matches Err(e) ==> e == TypesError::SerializationBufferError,
    {
        match Self::from_bytes(encoding) {
            Ok(v) => Ok(v),
            Err(_) => Err(TypesError::SerializationBufferError),
        }
    }

    /// The hash tree root: the packed bytes under a limit of `chunk_count(N)`
    /// chunks, with the length mixed in.
    pub fn hash_tree_root(&self) -> (r: Bytes32)
        requires
            N + 32 <= usize::MAX,
        ensures
            r@ == length_mixed_root_of(
                bytes_root(self@, chunk_count(N as nat)),
                self@.len(),
            ),
    {
        proof {
            use_type_invariant(self);
        }
        let chunks = pack_bytes(self.inner.as_slice());
        let limit = chunks_for(N);
        proof {
            assert(chunk_count(self@.len() as nat) <= chunk_count(N as nat));
        }
        let data_root = merkleize(chunks.as_slice(), limit);
        let root = mix_in_length(data_root.as_slice(), self.inner.len());
        match Bytes32::from_vec(root) {
            Ok(r) => r,
            Err(_) => Bytes32::zero(),
        }
    }

    /// The textual form: `0x` and the lowercase hexadecimal digits.
    pub fn to_hex(&self) -> (r: String)
        ensures
            prefixed_hex_of(r@, self@),
    {
        encode_hex(self.inner.as_slice())
    }

    /// Reads the textual form. Fails with `InvalidHexEncoding` unless the text is
    /// `0x` and hexadecimal digits, then with `LengthMismatch` if they give more
    /// than `N` bytes.
    pub fn from_hex(s: &str) -> (r: Result<Self, TypesError>)
        ensures
            !is_valid_prefixed_hex(s@) <==> r == Err::<Self, TypesError>(
                TypesError::InvalidHexEncoding,
            ),
            r is Ok <==> is_valid_prefixed_hex(s@) && s@.len() <= 2 + 2 * N,
            r matches Ok(v) ==> decodes_hex_to(s@.subrange(2, s@.len() as int), v@),
            r matches Err(e) ==> e == TypesError::InvalidHexEncoding || e
                == TypesError::LengthMismatch,
    {
        match decode_hex(s) {
            None => Err(TypesError::InvalidHexEncoding),
            Some(bytes) => Self::from_vec(bytes),
        }
    }
}

/// The hash tree root of a 64-bit quantity: its little-endian bytes in one chunk.
pub open spec fn u64_root(v: u64) -> Seq<u8> {
    packed(le_bytes_of(v as nat, 8))
}

/// A 64-bit unsigned quantity, written in text as a decimal string.
#[derive(Clone, Copy, Debug, PartialEq, Eq, Structural, PartialOrd, Ord, Hash, Default)]
pub struct U64 {
    inner: u64,
}

impl View for U64 {
    type V = u64;

    closed spec fn view(&self) -> u64 {
        self.inner
    }
}

impl U64 {
    /// The quantity `value`, as a value of the model.
    pub closed spec fn spec_new(value: u64) -> Self {
        U64 { inner: value }
    }

    pub fn new(value: u64) -> (r: Self)
        ensures
            r@ == value,
            r == Self::spec_new(value),
    {
        U64 { inner: value }
    }

    pub fn as_u64(&self) -> (r: u64)
        ensures
            r == self@,
    {
        self.inner
    }

    pub fn is_variable_size() -> (r: bool)
        ensures
            !r,
    {
        false
    }

    /// Eight bytes of binary encoding.
    pub fn size_hint() -> (r: usize)
        ensures
            r == 8,
    {
        8
    }

    /// Appends the eight little-endian bytes and returns their count.
    pub fn serialize(&self, buffer: &mut Vec<u8>) -> (r: usize)
        ensures
            final(buffer)@ == old(buffer)@ + le_bytes_of(self@ as nat, 8),
            final(buffer)@.len() == old(buffer)@.len() + 8,
            r == 8,
    {
        proof {
            crate::codec::lemma_le_bytes_len(self@ as nat, 8);
        }
        append_u64_le(self.inner, buffer);
        8
    }

    /// Decodes eight little-endian bytes; fails with `SerializationBufferError`
    /// on any other length.
    pub fn deserialize(encoding: &[u8]) -> (r: Result<Self, TypesError>)
        ensures
            r is Ok <==> encoding@.len() == 8,
            r matches Ok(v) ==> v@ as nat == le_value(encoding@),
            r matches Err(e) ==> e == TypesError::SerializationBufferError,
    {
        match read_u64_le(encoding) {
            Some(v) => Ok(U64 { inner: v }),
            None => Err(TypesError::SerializationBufferError),
        }
    }

    /// The hash tree root: the eight little-endian bytes padded to one chunk.
    pub fn hash_tree_root(&self) -> (r: Bytes32)
        ensures
            r@ == u64_root(self@),
    {
        let mut bytes: Vec<u8> = Vec::new();
        append_u64_le(self.inner, &mut bytes);
        assert(bytes@ =~= le_bytes_of(self@ as nat, 8));
        proof {
            crate::codec::lemma_le_bytes_len(self@ as nat, 8);
        }
        let root = pack_bytes(bytes.as_slice());
        match Bytes32::from_vec(root) {
            Ok(r) => r,
            Err(_) => Bytes32::zero(),
        }
    }

    /// The textual form: decimal digits, without sign or leading zero.
    pub fn to_decimal(&self) -> (r: String)
        ensures
            r@ == decimal_of(self@ as nat),
    {
        format_decimal(self.inner)
    }

    /// Reads the decimal textual form; fails with `NumericParseFailure` unless
    /// the text is digits whose value fits in 64 bits.
    pub fn from_decimal(s: &str) -> (r: Result<Self, TypesError>)
        ensures
            r is Ok <==> is_valid_decimal(s@),
            r matches Ok(v) ==> v@ as nat == decimal_value(s@),
            r matches Err(e) ==> e == TypesError::NumericParseFailure,
    {
        match parse_decimal(s) {
            Ok(v) => Ok(U64 { inner: v }),
            Err(e) => Err(e),
        }
    }
}

/// Quantities with the same value are equal.
pub proof fn lemma_u64_view_injective(a: U64, b: U64)
    requires
        a@ == b@,
    ensures
        a == b,
{
}

impl From<u64> for U64 {
    fn from(value: u64) -> (r: U64) {
        U64 { inner: value }
    }
}

impl vstd::std_specs::convert::FromSpecImpl<u64> for U64 {
    open spec fn obeys_from_spec() -> bool {
        true
    }

    closed spec fn from_spec(v: u64) -> U64 {
        U64 { inner: v }
    }
}

impl From<U64> for u64 {
    fn from(value: U64) -> (r: u64) {
        value.inner
    }
}

impl vstd::std_specs::convert::FromSpecImpl<U64> for u64 {
    open spec fn obeys_from_spec() -> bool {
        true
    }

    closed spec fn from_spec(v: U64) -> u64 {
        v.inner
    }
}

} // verus!
