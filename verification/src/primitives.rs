//! Byte-level helpers: hashing and hex encoding (from the outside crate
//! `alloy-primitives`), text formatting of numbers, and byte comparisons.

use vstd::prelude::*;

verus! {

/// The keccak-256 digest of a byte string.
pub uninterp spec fn spec_keccak256(data: Seq<u8>) -> Seq<u8>;

/// Computes `alloy_primitives::keccak256` of `data`.
///
/// Trusted: the digest equals the name `spec_keccak256` applied to the input, and it is
/// 32 bytes long (the function returns a `B256`). Nothing else is claimed of the hash.
#[verifier::external_body]
pub(crate) fn keccak256(data: &[u8]) -> (res: Vec<u8>)
    ensures
        res@ == spec_keccak256(data@),
        res@.len() == 32,
{
    alloy_primitives::keccak256(data).to_vec()
}

/// The lower-case hex digit of a value below 16.
pub open spec fn hex_digit(v: u8) -> char {
    if v < 10 {
        (('0' as u8) + v) as char
    } else {
        (('a' as u8) + (v - 10)) as char
    }
}

/// Lower-case hex encoding: two digits per byte, most significant digit first.
pub open spec fn spec_hex_lower(data: Seq<u8>) -> Seq<char>
    decreases data.len(),
{
    if data.len() == 0 {
        Seq::empty()
    } else {
        seq![hex_digit(data[0] / 16), hex_digit(data[0] % 16)] + spec_hex_lower(data.drop_first())
    }
}

/// Hex text is made of ASCII characters.
pub proof fn lemma_hex_lower_ascii(data: Seq<u8>)
    ensures
        vstd::utf8::is_ascii_chars(spec_hex_lower(data)),
    decreases data.len(),
{
    if data.len() > 0 {
        lemma_hex_lower_ascii(data.drop_first());
        let h = spec_hex_lower(data);
        let rest = spec_hex_lower(data.drop_first());
        assert forall|i: int| 0 <= i < h.len() implies '\0' <= #[trigger] h[i] <= '\u{7f}' by {
            if i >= 2 {
                assert(h[i] == rest[i - 2]);
            }
        }
    }
}

/// Encodes `data` with `alloy_primitives::hex::encode`.
///
/// Trusted: the crate's documentation states that the encoding is lower case, two digits
/// per byte; the contract states exactly that.
#[verifier::external_body]
pub(crate) fn hex_encode(data: &[u8]) -> (res: String)
    ensures
        res@ == spec_hex_lower(data@),
{
    alloy_primitives::hex::encode(data)
}

/// The decimal digit of a value below 10.
pub open spec fn decimal_digit(v: nat) -> char {
    (('0' as u8) + (v as u8)) as char
}

/// The decimal text of a number, without leading zeros.
pub open spec fn spec_decimal(n: nat) -> Seq<char>
    decreases n,
{
    if n < 10 {
        seq![decimal_digit(n)]
    } else {
        spec_decimal(n / 10).push(decimal_digit(n % 10))
    }
}

/// The one-character text of a digit below 16 (lower-case hex, which for a digit below 10
/// is its decimal digit).
fn digit_text(v: u64) -> (res: &'static str)
    requires
        v < 16,
    ensures
        res@ == seq![hex_digit(v as u8)],
        v < 10 ==> res@ == seq![decimal_digit(v as nat)],
{
    match v {
        0 => { proof { reveal_strlit("0"); } "0" },
        1 => { proof { reveal_strlit("1"); } "1" },
        2 => { proof { reveal_strlit("2"); } "2" },
        3 => { proof { reveal_strlit("3"); } "3" },
        4 => { proof { reveal_strlit("4"); } "4" },
        5 => { proof { reveal_strlit("5"); } "5" },
        6 => { proof { reveal_strlit("6"); } "6" },
        7 => { proof { reveal_strlit("7"); } "7" },
        8 => { proof { reveal_strlit("8"); } "8" },
        9 => { proof { reveal_strlit("9"); } "9" },
        10 => { proof { reveal_strlit("a"); } "a" },
        11 => { proof { reveal_strlit("b"); } "b" },
        12 => { proof { reveal_strlit("c"); } "c" },
        13 => { proof { reveal_strlit("d"); } "d" },
        14 => { proof { reveal_strlit("e"); } "e" },
        _ => { proof { reveal_strlit("f"); } "f" },
    }
}

/// The decimal text of `n`, as `ToString` gives it: its digits with no sign, padding or
/// leading zeros.
pub(crate) fn u64_to_decimal(n: u64) -> (res: String)
    ensures
        res@ == spec_decimal(n as nat),
    decreases n,
{
    if n < 10 {
        String::from_str(digit_text(n))
    } else {
        let mut text = u64_to_decimal(n / 10);
        text.append(digit_text(n % 10));
        text
    }
}

/// The `digits` lowest hex digits of `n`, most significant first, padded with zeros.
pub open spec fn spec_hex_padded(n: nat, digits: nat) -> Seq<char>
    decreases digits,
{
    if digits == 0 {
        Seq::empty()
    } else {
        spec_hex_padded(n / 16, (digits - 1) as nat).push(hex_digit((n % 16) as u8))
    }
}

/// The `digits` lowest lower-case hex digits of `n`, zero padded.
fn u64_to_hex_padded(n: u64, digits: u64) -> (res: String)
    ensures
        res@ == spec_hex_padded(n as nat, digits as nat),
    decreases digits,
{
    if digits == 0 {
        String::new()
    } else {
        let mut text = u64_to_hex_padded(n / 16, digits - 1);
        text.append(digit_text(n % 16));
        text
    }
}

/// `n` as sixteen lower-case hex digits, as `format!("{:016x}")` gives it.
pub(crate) fn u64_to_hex16(n: u64) -> (res: String)
    ensures
        res@ == spec_hex_padded(n as nat, 16),
{
    u64_to_hex_padded(n, 16)
}

/// Whether two byte strings are equal.
pub fn bytes_equal(a: &[u8], b: &[u8]) -> (res: bool)
    ensures
        res == (a@ == b@),
{
    if a.len() != b.len() {
        return false;
    }
    let mut i: usize = 0;
    while i < a.len()
        invariant
            a@.len() == b@.len(),
            i <= a@.len(),
            forall|j: int| 0 <= j < i ==> a@[j] == b@[j],
        decreases a@.len() - i,
    {
        if a[i] != b[i] {
            return false;
        }
        i = i + 1;
    }
    assert(a@ =~= b@);
    true
}

/// The unsigned big-endian value of a byte string.
pub open spec fn be_value(bytes: Seq<u8>) -> nat
    decreases bytes.len(),
{
    if bytes.len() == 0 {
        0
    } else {
        be_value(bytes.drop_last()) * 256 + bytes.last() as nat
    }
}

/// `256` to the power `n`.
pub open spec fn pow256(n: nat) -> nat
    decreases n,
{
    if n == 0 {
        1
    } else {
        256 * pow256((n - 1) as nat)
    }
}

/// A big-endian value is below `256` to the power of its length.
pub proof fn lemma_be_value_bound(bytes: Seq<u8>)
    ensures
        be_value(bytes) < pow256(bytes.len()),
    decreases bytes.len(),
{
    if bytes.len() > 0 {
        lemma_be_value_bound(bytes.drop_last());
        let a = be_value(bytes.drop_last());
        let p = pow256(bytes.drop_last().len());
        let l = bytes.last() as nat;
        assert(a * 256 + l < p * 256) by (nonlinear_arith)
            requires
                a < p,
                l < 256,
        ;
    }
}

/// Powers of 256 grow with the exponent.
pub proof fn lemma_pow256_monotonic(a: nat, b: nat)
    requires
        a <= b,
    ensures
        pow256(a) <= pow256(b),
        pow256(a) > 0,
    decreases b,
{
    if b > 0 {
        if a < b {
            lemma_pow256_monotonic(a, (b - 1) as nat);
        } else {
            lemma_pow256_monotonic((a - 1) as nat, (b - 1) as nat);
        }
    }
}

/// The big-endian value of a concatenation.
pub proof fn lemma_be_value_append(a: Seq<u8>, b: Seq<u8>)
    ensures
        be_value(a + b) == be_value(a) * pow256(b.len()) + be_value(b),
    decreases b.len(),
{
    if b.len() == 0 {
        assert(a + b =~= a);
        assert(be_value(b) == 0);
        assert(pow256(0) == 1);
        assert(be_value(a) * 1 == be_value(a));
    } else {
        let b2 = b.drop_last();
        assert((a + b).drop_last() =~= a + b2);
        assert((a + b).last() == b.last());
        lemma_be_value_append(a, b2);
        let x = be_value(a);
        let p = pow256(b2.len());
        let y = be_value(b2);
        let l = b.last() as nat;
        assert((x * p + y) * 256 + l == x * (256 * p) + (y * 256 + l)) by (nonlinear_arith);
        assert(pow256(b.len()) == 256 * p);
        assert(be_value(b) == y * 256 + l);
        assert(be_value(a + b) == be_value(a + b2) * 256 + l);
        assert(be_value(a + b) == x * (256 * p) + (y * 256 + l));
    }
}

/// Bytes that are all zero have value zero, and any other bytes have a value of at least one.
pub proof fn lemma_be_value_zero(bytes: Seq<u8>)
    ensures
        (be_value(bytes) == 0) <==> (forall|i: int| 0 <= i < bytes.len() ==> bytes[i] == 0),
    decreases bytes.len(),
{
    if bytes.len() > 0 {
        lemma_be_value_zero(bytes.drop_last());
        if be_value(bytes) == 0 {
            assert forall|i: int| 0 <= i < bytes.len() implies bytes[i] == 0 by {
                if i < bytes.len() - 1 {
                    assert(bytes[i] == bytes.drop_last()[i]);
                }
            }
        }
        if forall|i: int| 0 <= i < bytes.len() ==> bytes[i] == 0 {
            assert forall|i: int| 0 <= i < bytes.drop_last().len() implies bytes.drop_last()[i]
                == 0 by {
                assert(bytes[i] == 0);
            }
        }
    }
}

/// The value of bytes with one more byte appended.
pub proof fn lemma_be_value_push(bytes: Seq<u8>, b: u8)
    ensures
        be_value(bytes.push(b)) == be_value(bytes) * 256 + b,
{
    assert(bytes.push(b).drop_last() =~= bytes);
}

} // verus!
