//! Digests, hexadecimal text and random draws.

use vstd::prelude::*;

verus! {

/// The hexadecimal digit of a number below sixteen, in lowercase.
pub open spec fn nibble(n: int) -> char {
    if n < 10 {
        (48 + n) as char
    } else {
        (87 + n) as char
    }
}

/// Bytes in hexadecimal, two digits each.
pub open spec fn hex_of(bytes: Seq<u8>) -> Seq<char>
    decreases bytes.len(),
{
    if bytes.len() == 0 {
        Seq::empty()
    } else {
        hex_of(bytes.drop_last()).push(nibble(bytes.last() as int / 16)).push(
            nibble(bytes.last() as int % 16),
        )
    }
}

/// A number in hexadecimal, with this many digits.
pub open spec fn hex_padded(n: nat, width: nat) -> Seq<char>
    decreases width,
{
    if width == 0 {
        Seq::empty()
    } else {
        hex_padded(n / 16, (width - 1) as nat).push(nibble((n % 16) as int))
    }
}

/// A hexadecimal digit.
pub open spec fn hex_digit(c: char) -> bool {
    '0' <= c <= '9' || 'a' <= c <= 'f'
}

/// The digit of a number below sixteen.
fn digit(n: u8) -> (c: char)
    requires
        n < 16,
    ensures
        c == nibble(n as int),
{
    if n < 10 {
        (48u8 + n) as char
    } else {
        (87u8 + n) as char
    }
}

/// Bytes in hexadecimal.
pub fn hex(bytes: &Vec<u8>) -> (text: String)
    ensures
        text@ == hex_of(bytes@),
{
    let mut text = String::new();
    let mut i: usize = 0;
    assert(bytes@.take(0) == Seq::<u8>::empty());
    while i < bytes.len()
        invariant
            i <= bytes@.len(),
            text@ == hex_of(bytes@.take(i as int)),
        decreases bytes@.len() - i,
    {
        assert(bytes@.take(i + 1).drop_last() == bytes@.take(i as int));
        let b = bytes[i];
        text.push(digit(b / 16));
        text.push(digit(b % 16));
        i += 1;
    }
    assert(bytes@.take(bytes@.len() as int) == bytes@);
    text
}

/// A number in hexadecimal, with this many digits.
pub fn padded_hex(n: u128, width: usize) -> (text: String)
    ensures
        text@ == hex_padded(n as nat, width as nat),
    decreases width,
{
    if width == 0 {
        return String::new();
    }
    let mut text = padded_hex(n / 16, width - 1);
    text.push(digit((n % 16) as u8));
    text
}

/// Hexadecimal text has two digits for each byte.
pub proof fn hex_digits(bytes: Seq<u8>)
    ensures
        hex_of(bytes).len() == 2 * bytes.len(),
        forall|i: int| 0 <= i < hex_of(bytes).len() ==> hex_digit(#[trigger] hex_of(bytes)[i]),
    decreases bytes.len(),
{
    if bytes.len() > 0 {
        hex_digits(bytes.drop_last());
        byte_digits(bytes.last());
        let before = hex_of(bytes.drop_last());
        assert forall|i: int| 0 <= i < hex_of(bytes).len() implies hex_digit(
            #[trigger] hex_of(bytes)[i],
        ) by {
            if i < before.len() {
                assert(hex_digit(before[i]));
            }
        }
    }
}

/// Either half of a byte is a digit.
proof fn byte_digits(b: u8)
    ensures
        hex_digit(nibble(b as int / 16)),
        hex_digit(nibble(b as int % 16)),
{
}

/// A number has as many digits as it is given.
pub proof fn padded_digits(n: nat, width: nat)
    ensures
        hex_padded(n, width).len() == width,
        forall|i: int| 0 <= i < width ==> hex_digit(#[trigger] hex_padded(n, width)[i]),
    decreases width,
{
    if width > 0 {
        padded_digits(n / 16, (width - 1) as nat);
        let before = hex_padded(n / 16, (width - 1) as nat);
        assert forall|i: int| 0 <= i < width implies hex_digit(#[trigger] hex_padded(n, width)[i]) by {
            if i < width - 1 {
                assert(hex_digit(before[i]));
            }
        }
    }
}

/// The SHA-256 digest of bytes.
pub uninterp spec fn sha256_of(bytes: Seq<u8>) -> Seq<u8>;

/// `sha2::Sha256::digest` gives the digest of bytes, 32 bytes that depend on them alone.
#[verifier::external_body]
pub(crate) fn sha256(bytes: &[u8]) -> (digest: Vec<u8>)
    ensures
        digest@ == sha256_of(bytes@),
        digest@.len() == 32,
{
    <sha2::Sha256 as sha2::Digest>::digest(bytes).to_vec()
}

/// The digest of a text, in hexadecimal.
pub open spec fn digest_text(s: Seq<char>) -> Seq<char> {
    hex_of(sha256_of(vstd::utf8::encode_utf8(s)))
}

/// The digest of a text, in hexadecimal.
pub fn digest_hex(text: &str) -> (r: String)
    ensures
        r@ == digest_text(text@),
        r@.len() == 64,
{
    let digest = sha256(text.as_bytes());
    proof {
        hex_digits(digest@);
    }
    hex(&digest)
}

/// `rand::random` for `u128`: a random number, of which nothing more holds.
#[verifier::external_body]
pub(crate) fn random_u128() -> (draw: u128) {
    rand::random::<u128>()
}

/// `rand::random` for `u64`: a random number, of which nothing more holds.
#[verifier::external_body]
pub(crate) fn random_u64() -> (draw: u64) {
    rand::random::<u64>()
}

/// The number that a hexadecimal digit stands for.
pub open spec fn digit_number(c: char) -> int {
    if '0' <= c <= '9' {
        c as int - '0' as int
    } else {
        c as int - 'a' as int + 10
    }
}

/// A digit stands for the number that it was made for.
proof fn nibble_stands(n: int)
    requires
        0 <= n < 16,
    ensures
        digit_number(nibble(n)) == n,
{
}

/// The two digits of a byte stand for it, the higher one first.
pub proof fn digits_stand_for_their_byte(bytes: Seq<u8>, i: int)
    requires
        0 <= i < bytes.len(),
    ensures
        hex_of(bytes).len() == 2 * bytes.len(),
        digit_number(hex_of(bytes)[2 * i]) * 16 + digit_number(hex_of(bytes)[2 * i + 1]) == bytes[i],
    decreases bytes.len(),
{
    hex_digits(bytes.drop_last());
    if i == bytes.len() - 1 {
        let b = bytes.last() as int;
        nibble_stands(b / 16);
        nibble_stands(b % 16);
    } else {
        digits_stand_for_their_byte(bytes.drop_last(), i);
    }
}

/// The number that hexadecimal digits stand for.
pub open spec fn hex_number(digits: Seq<char>) -> int
    decreases digits.len(),
{
    if digits.len() == 0 {
        0
    } else {
        hex_number(digits.drop_last()) * 16 + digit_number(digits.last())
    }
}

/// Sixteen to a power.
pub open spec fn sixteen_to(k: nat) -> nat
    decreases k,
{
    if k == 0 {
        1
    } else {
        16 * sixteen_to((k - 1) as nat)
    }
}

/// The digits of a number that has no more of them stand for the number.
pub proof fn padded_digits_stand_for_their_number(n: nat, width: nat)
    requires
        n < sixteen_to(width),
    ensures
        hex_number(hex_padded(n, width)) == n,
    decreases width,
{
    if width > 0 {
        let head = hex_padded(n / 16, (width - 1) as nat);
        padded_digits_stand_for_their_number(n / 16, (width - 1) as nat);
        nibble_stands((n % 16) as int);
        assert(hex_padded(n, width).drop_last() =~= head);
    }
}

} // verus!
