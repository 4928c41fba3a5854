//! SHA-256 digests written as lowercase hexadecimal text.

use vstd::prelude::*;
use sha2::Digest;
use crate::text::push_char;

verus! {

/// The SHA-256 digest of `data`, as computed by the `sha2` crate.
pub uninterp spec fn sha256(data: Seq<u8>) -> Seq<u8>;

/// Computes `sha2::Sha256::digest(data)` and copies the digest out. The `sha2`
/// source fixes the output size of SHA-256 at 32 bytes; that the bytes are
/// the SHA-256 digest of `data` is only named here (`sha256`), not stated.
#[verifier::external_body]
fn sha256_digest(data: &[u8]) -> (res: Vec<u8>)
    ensures
        res@ == sha256(data@),
        res@.len() == 32,
{
    sha2::Sha256::digest(data).to_vec()
}

/// The lowercase hexadecimal digit of `n`, for `n < 16`.
pub open spec fn hex_digit(n: u8) -> char {
    if n < 10 {
        ('0' as u8 + n) as char
    } else {
        ('a' as u8 + (n - 10)) as char
    }
}

/// `bytes` written as lowercase hexadecimal, two digits per byte, high nibble first.
pub open spec fn hex_lower(bytes: Seq<u8>) -> Seq<char>
    decreases bytes.len(),
{
    if bytes.len() == 0 {
        seq![]
    } else {
        hex_lower(bytes.drop_last()) + seq![
            hex_digit(bytes.last() / 16),
            hex_digit(bytes.last() % 16),
        ]
    }
}

/// The length of a hexadecimal text: two digits per byte.
pub proof fn lemma_hex_lower_len(bytes: Seq<u8>)
    ensures
        hex_lower(bytes).len() == 2 * bytes.len(),
    decreases bytes.len(),
{
    if bytes.len() > 0 {
        lemma_hex_lower_len(bytes.drop_last());
    }
}

/// Each byte stands as two digits at its own place, high nibble first: the
/// digits at `2 * i` and `2 * i + 1` are those of the `i`-th byte's high and
/// low four bits, and a digit below ten is an ASCII digit, any other one of
/// the lowercase letters `a` to `f` (by code point).
pub proof fn lemma_hex_lower_digits(bytes: Seq<u8>)
    ensures
        hex_lower(bytes).len() == 2 * bytes.len(),
        forall|i: int|
            0 <= i < bytes.len() ==> #[trigger] hex_lower(bytes)[2 * i] == hex_digit(bytes[i] / 16)
                && hex_lower(bytes)[2 * i + 1] == hex_digit(bytes[i] % 16),
        forall|n: u8|
            n < 16 ==> (#[trigger] hex_digit(n) as int) == if n < 10 {
                48 + n
            } else {
                87 + n
            },
    decreases bytes.len(),
{
    if bytes.len() > 0 {
        lemma_hex_lower_digits(bytes.drop_last());
        let front = hex_lower(bytes.drop_last());
        assert forall|i: int| 0 <= i < bytes.len() implies #[trigger] hex_lower(bytes)[2 * i]
            == hex_digit(bytes[i] / 16) && hex_lower(bytes)[2 * i + 1] == hex_digit(
            bytes[i] % 16,
        ) by {
            if i < bytes.len() - 1 {
                assert(bytes.drop_last()[i] == bytes[i]);
                assert(front[2 * i] == hex_digit(bytes[i] / 16));
            }
        }
    }
    assert forall|n: u8| n < 16 implies (#[trigger] hex_digit(n) as int) == if n < 10 {
        48 + n
    } else {
        87 + n
    } by {}
}

/// The hexadecimal digit of `n`.
fn hex_digit_char(n: u8) -> (res: char)
    requires
        n < 16,
    ensures
        res == hex_digit(n),
{
    if n < 10 {
        proof {
            assert(('0' as u8 + n) as char == ((48 + n) as u8) as char);
        }
        ((48 + n) as u8) as char
    } else {
        ((97 + (n - 10)) as u8) as char
    }
}

/// `bytes` written as lowercase hexadecimal (what `{:x}` prints for a digest).
pub fn to_hex(bytes: &[u8]) -> (res: String)
    ensures
        res@ == hex_lower(bytes@),
        res@.len() == 2 * bytes@.len(),
{
    let mut res = String::new();
    let mut i: usize = 0;
    while i < bytes.len()
        invariant
            i <= bytes@.len(),
            res@ == hex_lower(bytes@.take(i as int)),
        decreases bytes@.len() - i,
    {
        let b = bytes[i];
        push_char(&mut res, hex_digit_char(b / 16));
        push_char(&mut res, hex_digit_char(b % 16));
        assert(bytes@.take(i + 1).drop_last() == bytes@.take(i as int));
        i = i + 1;
    }
    assert(bytes@.take(bytes@.len() as int) == bytes@);
    proof {
        lemma_hex_lower_len(bytes@);
    }
    res
}

/// The SHA-256 digest of `value` as 64 lowercase hexadecimal digits.
pub fn hex_digest(value: &[u8]) -> (res: String)
    ensures
        res@ == hex_lower(sha256(value@)),
        res@.len() == 64,
{
    let digest = sha256_digest(value);
    to_hex(digest.as_slice())
}

} // verus!
