//! Textual and binary codecs of the primitive values: hexadecimal text of
//! bytes, decimal text of 64-bit integers, and little-endian integer bytes.
use vstd::prelude::*;

verus! {

/// The lowercase hexadecimal digit of `d`, for `d` in `0..16`.
pub open spec fn hex_digit(d: int) -> char {
    if d == 0 { '0' } else if d == 1 { '1' } else if d == 2 { '2' } else if d == 3 { '3' }
    else if d == 4 { '4' } else if d == 5 { '5' } else if d == 6 { '6' } else if d == 7 { '7' }
    else if d == 8 { '8' } else if d == 9 { '9' } else if d == 10 { 'a' } else if d == 11 { 'b' }
    else if d == 12 { 'c' } else if d == 13 { 'd' } else if d == 14 { 'e' } else { 'f' }
}

/// A hexadecimal digit in either case.
pub open spec fn is_hex_char(c: char) -> bool {
    ('0' <= c && c <= '9') || ('a' <= c && c <= 'f') || ('A' <= c && c <= 'F')
}

/// The value of a hexadecimal digit in either case.
pub open spec fn hex_value(c: char) -> int {
    if '0' <= c && c <= '9' {
        c as int - '0' as int
    } else if 'a' <= c && c <= 'f' {
        c as int - 'a' as int + 10
    } else {
        c as int - 'A' as int + 10
    }
}

/// `s` is the lowercase hexadecimal text of `b`, two digits per byte, high digit first.
pub open spec fn is_hex_of(s: Seq<char>, b: Seq<u8>) -> bool {
    &&& s.len() == 2 * b.len()
    &&& forall|i: int|
        0 <= i < b.len() ==> #[trigger] s[2 * i] == hex_digit((b[i] / 16) as int) && s[2 * i + 1]
            == hex_digit((b[i] % 16) as int)
}

/// `s` is well-formed hexadecimal text: an even number of hexadecimal digits.
pub open spec fn is_valid_hex(s: Seq<char>) -> bool {
    s.len() % 2 == 0 && forall|i: int| 0 <= i < s.len() ==> #[trigger] is_hex_char(s[i])
}

/// `b` is what the hexadecimal text `s` denotes.
pub open spec fn decodes_hex_to(s: Seq<char>, b: Seq<u8>) -> bool {
    &&& s.len() == 2 * b.len()
    &&& forall|i: int|
        0 <= i < b.len() ==> #[trigger] b[i] == hex_value(s[2 * i]) * 16 + hex_value(s[2 * i + 1])
}

/// Relies on hex::encode: the lowercase hexadecimal text of the bytes.
#[verifier::external_body]
fn hex_encode(b: &[u8]) -> (r: String)
    ensures
        is_hex_of(r@, b@),
{
    hex::encode(b)
}

/// Relies on hex::decode: an even number of hex digits of either case decodes,
/// two digits per byte; anything else is an error.
#[verifier::external_body]
fn hex_decode(s: &str) -> (r: Option<Vec<u8>>)
    ensures
        r is Some <==> is_valid_hex(s@),
        r matches Some(v) ==> decodes_hex_to(s@, v@),
{
    hex::decode(s).ok()
}

proof fn lemma_hex_digit_value(d: int)
    requires
        0 <= d < 16,
    ensures
        is_hex_char(hex_digit(d)),
        hex_value(hex_digit(d)) == d,
{
}

/// The textual form of bytes: `0x` followed by their lowercase hexadecimal digits.
pub open spec fn prefixed_hex_of(s: Seq<char>, b: Seq<u8>) -> bool {
    &&& s.len() >= 2
    &&& s[0] == '0' && s[1] == 'x'
    &&& is_hex_of(s.subrange(2, s.len() as int), b)
}

/// Text that is `0x` followed by valid hexadecimal digits.
pub open spec fn is_valid_prefixed_hex(s: Seq<char>) -> bool {
    s.len() >= 2 && s[0] == '0' && s[1] == 'x' && is_valid_hex(s.subrange(2, s.len() as int))
}

/// Writes `b` as `0x` followed by its lowercase hexadecimal digits.
pub fn encode_hex(b: &[u8]) -> (r: String)
    ensures
        prefixed_hex_of(r@, b@),
{
    let digits = hex_encode(b);
    let mut out = "0x".to_owned();
    proof {
        reveal_strlit("0x");
    }
    out.append(digits.as_str());
    assert(out@.subrange(2, out@.len() as int) =~= digits@);
    out
}

/// Reads text of the form `0x` followed by hexadecimal digits of either case.
/// `None` where the prefix is missing or a digit is not hexadecimal.
pub fn decode_hex(s: &str) -> (r: Option<Vec<u8>>)
    ensures
        r is Some <==> is_valid_prefixed_hex(s@),
        r matches Some(v) ==> decodes_hex_to(s@.subrange(2, s@.len() as int), v@),
{
    let n = s.unicode_len();
    if n < 2 {
        return None;
    }
    if s.get_char(0) != '0' || s.get_char(1) != 'x' {
        return None;
    }
    let rest = s.substring_char(2, n);
    hex_decode(rest)
}

/// Decoding the text that `encode_hex` writes gives the bytes back.
pub proof fn lemma_hex_round_trip(s: Seq<char>, b: Seq<u8>)
    requires
        prefixed_hex_of(s, b),
    ensures
        is_valid_prefixed_hex(s),
        forall|v: Seq<u8>| decodes_hex_to(s.subrange(2, s.len() as int), v) ==> v == b,
{
    let t = s.subrange(2, s.len() as int);
    assert forall|i: int| 0 <= i < t.len() implies #[trigger] is_hex_char(t[i]) by {
        let k = i / 2;
        assert(0 <= k < b.len());
        if i % 2 == 0 {
            assert(t[2 * k] == hex_digit((b[k] / 16) as int));
            lemma_hex_digit_value((b[k] / 16) as int);
        } else {
            assert(t[2 * k] == hex_digit((b[k] / 16) as int));
            assert(t[2 * k + 1] == hex_digit((b[k] % 16) as int));
            lemma_hex_digit_value((b[k] % 16) as int);
        }
        assert(i == 2 * k || i == 2 * k + 1);
    }
    assert forall|v: Seq<u8>| decodes_hex_to(t, v) implies v == b by {
        assert forall|i: int| 0 <= i < b.len() implies v[i] == b[i] by {
            assert(t[2 * i] == hex_digit((b[i] / 16) as int));
            lemma_hex_digit_value((b[i] / 16) as int);
            lemma_hex_digit_value((b[i] % 16) as int);
            assert(v[i] == hex_value(t[2 * i]) * 16 + hex_value(t[2 * i + 1]));
        }
        assert(v =~= b);
    }
}

/// The decimal digit character of `d`, for `d` in `0..10`.
pub open spec fn digit_char(d: int) -> char {
    if d == 0 { '0' } else if d == 1 { '1' } else if d == 2 { '2' } else if d == 3 { '3' }
    else if d == 4 { '4' } else if d == 5 { '5' } else if d == 6 { '6' } else if d == 7 { '7' }
    else if d == 8 { '8' } else { '9' }
}

/// A decimal digit.
pub open spec fn is_digit(c: char) -> bool {
    '0' <= c && c <= '9'
}

/// The value of a decimal digit.
pub open spec fn digit_value(c: char) -> int {
    c as int - '0' as int
}

/// The shortest decimal text of `n`: no sign, no leading zero.
pub open spec fn decimal_of(n: nat) -> Seq<char>
    decreases n,
{
    if n < 10 {
        seq![digit_char(n as int)]
    } else {
        decimal_of(n / 10).push(digit_char((n % 10) as int))
    }
}

/// The number that a string of decimal digits denotes.
pub open spec fn decimal_value(s: Seq<char>) -> nat
    decreases s.len(),
{
    if s.len() == 0 {
        0
    } else {
        (decimal_value(s.drop_last()) * 10 + digit_value(s.last())) as nat
    }
}

/// Text accepted as a 64-bit decimal: at least one digit, only digits, and a
/// value that fits in 64 bits (leading zeros allowed).
pub open spec fn is_valid_decimal(s: Seq<char>) -> bool {
    &&& s.len() > 0
    &&& forall|i: int| 0 <= i < s.len() ==> #[trigger] is_digit(s[i])
    &&& decimal_value(s) <= u64::MAX
}

fn digit_str(d: u64) -> (r: &'static str)
    requires
        d < 10,
    ensures
        r@ == seq![digit_char(d as int)],
{
    proof {
        reveal_strlit("0");
        reveal_strlit("1");
        reveal_strlit("2");
        reveal_strlit("3");
        reveal_strlit("4");
        reveal_strlit("5");
        reveal_strlit("6");
        reveal_strlit("7");
        reveal_strlit("8");
        reveal_strlit("9");
    }
    if d == 0 { "0" } else if d == 1 { "1" } else if d == 2 { "2" } else if d == 3 { "3" }
    else if d == 4 { "4" } else if d == 5 { "5" } else if d == 6 { "6" } else if d == 7 { "7" }
    else if d == 8 { "8" } else { "9" }
}

fn push_decimal(n: u64, out: &mut String)
    ensures
        final(out)@ == old(out)@ + decimal_of(n as nat),
    decreases n,
{
    if n >= 10 {
        push_decimal(n / 10, out);
    }
    out.append(digit_str(n % 10));
    assert(final(out)@ =~= old(out)@ + decimal_of(n as nat));
}

proof fn lemma_decimal_of_shape(n: nat)
    ensures
        decimal_of(n).len() > 0,
        n >= 10 ==> decimal_of(n).len() > 1,
        forall|i: int| 0 <= i < decimal_of(n).len() ==> #[trigger] is_digit(decimal_of(n)[i]),
        decimal_of(n).len() > 1 ==> decimal_of(n)[0] != '0',
        decimal_value(decimal_of(n)) == n,
    decreases n,
{
    if n >= 10 {
        lemma_decimal_of_shape(n / 10);
        let p = decimal_of(n / 10);
        let s = decimal_of(n);
        assert(s == p.push(digit_char((n % 10) as int)));
        assert(s.drop_last() =~= p);
        assert(s[0] == p[0]);
        if n / 10 < 10 {
            assert(p[0] == digit_char((n / 10) as int));
            assert(1 <= n / 10);
            assert(digit_char((n / 10) as int) != '0');
        } else {
            assert(p.len() > 1);
        }
        assert(s.last() == digit_char((n % 10) as int));
        assert forall|i: int| 0 <= i < s.len() implies #[trigger] is_digit(s[i]) by {
            if i < p.len() {
                assert(s[i] == p[i]);
            }
        }
        assert(digit_value(digit_char((n % 10) as int)) == n % 10);
        assert(decimal_value(s) == decimal_value(p) * 10 + n % 10);
    } else {
        let s = decimal_of(n);
        assert(s.drop_last() =~= Seq::<char>::empty());
        assert(decimal_value(s.drop_last()) == 0);
        assert(digit_value(digit_char(n as int)) == n);
    }
}

/// Writes `u` in decimal: digits only, no sign, and no leading zero.
pub fn format_decimal(u: u64) -> (r: String)
    ensures
        r@ == decimal_of(u as nat),
        is_valid_decimal(r@),
        r@.len() > 1 ==> r@[0] != '0',
        decimal_value(r@) == u,
{
    let mut out = String::new();
    push_decimal(u, &mut out);
    assert(out@ =~= decimal_of(u as nat));
    proof {
        lemma_decimal_of_shape(u as nat);
    }
    out
}

proof fn lemma_decimal_value_grows(s: Seq<char>, i: int, j: int)
    requires
        0 <= i <= j <= s.len(),
        forall|k: int| 0 <= k < s.len() ==> #[trigger] is_digit(s[k]),
    ensures
        decimal_value(s.subrange(0, i)) <= decimal_value(s.subrange(0, j)),
    decreases j - i,
{
    if i < j {
        lemma_decimal_value_grows(s, i, j - 1);
        assert(s.subrange(0, j).drop_last() =~= s.subrange(0, j - 1));
        assert(is_digit(s[j - 1]));
        assert(s.subrange(0, j).last() == s[j - 1]);
    }
}

/// Reads a decimal 64-bit unsigned integer; leading zeros are accepted.
/// Fails with `NumericParseFailure` on an empty string, a non-digit, or a
/// value beyond 64 bits.
pub fn parse_decimal(s: &str) -> (r: Result<u64, crate::error::TypesError>)
    ensures
        r is Ok <==> is_valid_decimal(s@),
        r matches Ok(v) ==> v as nat == decimal_value(s@),
        r matches Err(e) ==> e == crate::error::TypesError::NumericParseFailure,
{
    let n = s.unicode_len();
    if n == 0 {
        return Err(crate::error::TypesError::NumericParseFailure);
    }
    let mut i: usize = 0;
    while i < n
        invariant
            0 <= i <= n,
            n == s@.len(),
            forall|k: int| 0 <= k < i ==> #[trigger] is_digit(s@[k]),
        decreases n - i,
    {
        let c = s.get_char(i);
        if !('0' <= c && c <= '9') {
            assert(!is_digit(s@[i as int]));
            return Err(crate::error::TypesError::NumericParseFailure);
        }
        i = i + 1;
    }
    let mut acc: u64 = 0;
    let mut i: usize = 0;
    while i < n
        invariant
            0 <= i <= n,
            n == s@.len(),
            forall|k: int| 0 <= k < n ==> #[trigger] is_digit(s@[k]),
            acc as nat == decimal_value(s@.subrange(0, i as int)),
        decreases n - i,
    {
        let c = s.get_char(i);
        assert(is_digit(s@[i as int]));
        let d = (c as u32 - '0' as u32) as u64;
        assert(s@.subrange(0, i + 1).drop_last() =~= s@.subrange(0, i as int));
        assert(s@.subrange(0, i + 1).last() == c);
        assert(digit_value(c) == d);
        assert(decimal_value(s@.subrange(0, i + 1)) == acc * 10 + d);
        if acc > (u64::MAX - d) / 10 {
            proof {
                assert(acc * 10 + d > u64::MAX) by (nonlinear_arith)
                    requires
                        acc > (u64::MAX - d) / 10,
                        d < 10,
                ;
                lemma_decimal_value_grows(s@, i + 1, n as int);
                assert(s@.subrange(0, n as int) =~= s@);
            }
            return Err(crate::error::TypesError::NumericParseFailure);
        }
        proof {
            assert(acc * 10 + d <= u64::MAX) by (nonlinear_arith)
                requires
                    acc <= (u64::MAX - d) / 10,
                    d < 10,
            ;
        }
        acc = acc * 10 + d;
        i = i + 1;
    }
    assert(s@.subrange(0, n as int) =~= s@);
    Ok(acc)
}

/// Writing `u` in decimal and reading it back gives `u`.
pub proof fn lemma_decimal_round_trip(u: u64)
    ensures
        is_valid_decimal(decimal_of(u as nat)),
        decimal_value(decimal_of(u as nat)) == u,
{
    lemma_decimal_of_shape(u as nat);
}

/// The `n` little-endian bytes of `v` (its value modulo `256^n`).
pub open spec fn le_bytes_of(v: nat, n: nat) -> Seq<u8>
    decreases n,
{
    if n == 0 {
        Seq::empty()
    } else {
        seq![(v % 256) as u8] + le_bytes_of(v / 256, (n - 1) as nat)
    }
}

/// The number that little-endian bytes denote.
pub open spec fn le_value(s: Seq<u8>) -> nat
    decreases s.len(),
{
    if s.len() == 0 {
        0
    } else {
        (s[0] + 256 * le_value(s.drop_first())) as nat
    }
}

/// Relies on ssz_rs's `Serialize` for u64: appends the eight little-endian bytes
/// of the value, and never fails.
#[verifier::external_body]
pub(crate) fn append_u64_le(v: u64, buffer: &mut Vec<u8>)
    ensures
        final(buffer)@ == old(buffer)@ + le_bytes_of(v as nat, 8),
{
    let _ = ssz_rs::Serialize::serialize(&v, buffer);
}

/// Relies on ssz_rs's `Deserialize` for u64: exactly eight bytes decode, little-endian.
#[verifier::external_body]
pub(crate) fn read_u64_le(encoding: &[u8]) -> (r: Option<u64>)
    ensures
        r is Some <==> encoding@.len() == 8,
        r matches Some(v) ==> v as nat == le_value(encoding@),
{
    <u64 as ssz_rs::Deserialize>::deserialize(encoding).ok()
}

/// `le_bytes_of` has the length asked for.
pub proof fn lemma_le_bytes_len(v: nat, n: nat)
    ensures
        le_bytes_of(v, n).len() == n,
    decreases n,
{
    if n > 0 {
        lemma_le_bytes_len(v / 256, (n - 1) as nat);
    }
}

/// Little-endian bytes of a value below `256^n` read back as that value.
pub proof fn lemma_le_round_trip(v: nat, n: nat)
    requires
        v < pow256(n),
    ensures
        le_value(le_bytes_of(v, n)) == v,
    decreases n,
{
    lemma_le_bytes_len(v, n);
    if n > 0 {
        let p = pow256((n - 1) as nat);
        assert(v / 256 < p) by (nonlinear_arith)
            requires
                v < 256 * p,
        ;
        lemma_le_round_trip(v / 256, (n - 1) as nat);
        let s = le_bytes_of(v, n);
        assert(s.drop_first() =~= le_bytes_of(v / 256, (n - 1) as nat));
        assert((v % 256) + 256 * (v / 256) == v) by (nonlinear_arith);
    } else {
        assert(v == 0);
    }
}

/// Equal-length little-endian byte strings with equal values are equal.
pub proof fn lemma_le_value_injective(a: Seq<u8>, b: Seq<u8>)
    requires
        a.len() == b.len(),
        le_value(a) == le_value(b),
    ensures
        a == b,
    decreases a.len(),
{
    if a.len() > 0 {
        let x = le_value(a.drop_first());
        let y = le_value(b.drop_first());
        assert(a[0] == b[0] && x == y) by (nonlinear_arith)
            requires
                a[0] + 256 * x == b[0] + 256 * y,
                0 <= a[0] < 256,
                0 <= b[0] < 256,
                x >= 0,
                y >= 0,
        ;
        lemma_le_value_injective(a.drop_first(), b.drop_first());
        assert(a =~= seq![a[0]] + a.drop_first());
        assert(b =~= seq![b[0]] + b.drop_first());
    }
}

/// Eight bytes that read as `v` are the little-endian bytes of `v`.
pub proof fn lemma_le_bytes_of_value(s: Seq<u8>, v: u64)
    requires
        s.len() == 8,
        v as nat == le_value(s),
    ensures
        le_bytes_of(v as nat, 8) == s,
{
    reveal_with_fuel(pow256, 9);
    assert(pow256(8) == 0x1_0000_0000_0000_0000nat);
    lemma_le_round_trip(v as nat, 8);
    lemma_le_bytes_len(v as nat, 8);
    lemma_le_value_injective(le_bytes_of(v as nat, 8), s);
}

/// `256^n`.
pub open spec fn pow256(n: nat) -> nat
    decreases n,
{
    if n == 0 {
        1
    } else {
        256 * pow256((n - 1) as nat)
    }
}

} // verus!
