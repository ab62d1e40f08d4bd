//! Content checks by SHA-256: two files match when their digests, written in
//! lower-case hex, are equal.

use vstd::prelude::*;

use sha2::Digest;

use crate::text::{chars_of, push_all, same_chars, string_of};

verus! {

/// The SHA-256 digest of `data`.
pub uninterp spec fn sha256_digest(data: Seq<u8>) -> Seq<u8>;

/// Calls `sha2::Sha256::digest` on `data`. Claims that the result is the
/// digest named `sha256_digest(data)` and that it is 32 bytes long, the output
/// size of SHA-256.
#[verifier::external_body]
fn sha256(data: &[u8]) -> (res: Vec<u8>)
    ensures
        res@ == sha256_digest(data@),
        res@.len() == 32,
{
    sha2::Sha256::digest(data).to_vec()
}

/// The lower-case hex digit for `d < 16`.
pub open spec fn hex_digit(d: int) -> char {
    if d < 10 {
        (d + 48) as char
    } else {
        (d + 87) as char
    }
}

/// Lower-case hex: two digits per byte, the high half first.
pub open spec fn hex_lower(data: Seq<u8>) -> Seq<char>
    decreases data.len(),
{
    if data.len() == 0 {
        Seq::empty()
    } else {
        seq![hex_digit(data[0] as int / 16), hex_digit(data[0] as int % 16)] + hex_lower(
            data.drop_first(),
        )
    }
}

/// Calls `hex::encode`, which writes each byte as two lower-case hex digits,
/// the high half first (table `0123456789abcdef`). Claims exactly that.
#[verifier::external_body]
fn hex_encode(data: &[u8]) -> (res: String)
    ensures
        res@ == hex_lower(data@),
{
    hex::encode(data)
}

/// A failed content check.
pub struct HashError {
    pub reason: String,
}

impl HashError {
    pub fn new(reason: String) -> (res: HashError)
        ensures
            res.reason == reason,
    {
        HashError { reason }
    }

    /// The text of the error: `Hash Error:` followed by the reason.
    pub fn message(&self) -> (res: String)
        ensures
            res@ == "Hash Error:"@ + self.reason@,
    {
        let mut out = chars_of("Hash Error:");
        let reason = chars_of(self.reason.as_str());
        push_all(&mut out, &reason);
        string_of(out.as_slice())
    }
}

/// The lower-case hex SHA-256 sum of some contents.
pub fn sha256sum(contents: &[u8]) -> (res: String)
    ensures
        res@ == hex_lower(sha256_digest(contents@)),
        res@.len() == 64,
        forall|i: int| 0 <= i < res@.len() ==> is_hex_digit(#[trigger] res@[i]),
{
    let digest = sha256(contents);
    proof {
        lemma_hex_lower_len(digest@);
        lemma_hex_lower_digits(digest@);
    }
    hex_encode(digest.as_slice())
}

/// The outcome of comparing two hex sums: success when they are equal, the
/// error `Mismatch hash code` otherwise.
pub fn compare_sums(src_sum: &str, dst_sum: &str) -> (res: Result<(), HashError>)
    ensures
        res is Ok <==> src_sum@ == dst_sum@,
        res matches Err(e) ==> e.reason@ == "Mismatch hash code"@,
{
    if same_chars(&chars_of(src_sum), &chars_of(dst_sum)) {
        Ok(())
    } else {
        Err(HashError::new(String::from_str("Mismatch hash code")))
    }
}

/// Checks that two file contents have the same SHA-256 digest.
pub fn check_file(src_contents: &[u8], dst_contents: &[u8]) -> (res: Result<(), HashError>)
    ensures
        res is Ok <==> sha256_digest(src_contents@) == sha256_digest(dst_contents@),
        res matches Err(e) ==> e.reason@ == "Mismatch hash code"@,
{
    let src_sum = sha256sum(src_contents);
    let dst_sum = sha256sum(dst_contents);
    proof {
        lemma_hex_lower_injective(sha256_digest(src_contents@), sha256_digest(dst_contents@));
    }
    compare_sums(src_sum.as_str(), dst_sum.as_str())
}

proof fn lemma_hex_digit_injective(a: int, b: int)
    requires
        0 <= a < 16,
        0 <= b < 16,
        hex_digit(a) == hex_digit(b),
    ensures
        a == b,
{
    assert((a + 48) as char as int == a + 48 || a >= 10);
    assert((b + 48) as char as int == b + 48 || b >= 10);
    assert((a + 87) as char as int == a + 87 || a < 10);
    assert((b + 87) as char as int == b + 87 || b < 10);
}

/// A lower-case hex digit: `0`-`9` or `a`-`f`.
pub open spec fn is_hex_digit(c: char) -> bool {
    ('0' <= c && c <= '9') || ('a' <= c && c <= 'f')
}

/// Hex text is made of lower-case hex digits only.
pub proof fn lemma_hex_lower_digits(data: Seq<u8>)
    ensures
        forall|i: int|
            0 <= i < hex_lower(data).len() ==> is_hex_digit(#[trigger] hex_lower(data)[i]),
    decreases data.len(),
{
    if data.len() > 0 {
        lemma_hex_lower_digits(data.drop_first());
        let hi = data[0] as int / 16;
        let lo = data[0] as int % 16;
        assert(is_hex_digit(hex_digit(hi))) by {
            assert((hi + 48) as char as int == hi + 48 || hi >= 10);
            assert((hi + 87) as char as int == hi + 87 || hi < 10);
        }
        assert(is_hex_digit(hex_digit(lo))) by {
            assert((lo + 48) as char as int == lo + 48 || lo >= 10);
            assert((lo + 87) as char as int == lo + 87 || lo < 10);
        }
        let h = hex_lower(data);
        let rest = hex_lower(data.drop_first());
        assert forall|i: int| 0 <= i < h.len() implies is_hex_digit(#[trigger] h[i]) by {
            if i >= 2 {
                assert(h[i] == rest[i - 2]);
            }
        }
    }
}

/// Hex text is twice as long as the bytes it writes.
pub proof fn lemma_hex_lower_len(data: Seq<u8>)
    ensures
        hex_lower(data).len() == 2 * data.len(),
    decreases data.len(),
{
    if data.len() > 0 {
        lemma_hex_lower_len(data.drop_first());
    }
}

/// Different bytes give different hex text.
pub proof fn lemma_hex_lower_injective(a: Seq<u8>, b: Seq<u8>)
    ensures
        hex_lower(a) == hex_lower(b) ==> a == b,
    decreases a.len(),
{
    lemma_hex_lower_len(a);
    lemma_hex_lower_len(b);
    if hex_lower(a) == hex_lower(b) && a.len() > 0 {
        let ha = hex_lower(a);
        assert(ha[0] == hex_digit(a[0] as int / 16) && ha[1] == hex_digit(a[0] as int % 16));
        assert(ha[0] == hex_digit(b[0] as int / 16) && ha[1] == hex_digit(b[0] as int % 16));
        lemma_hex_digit_injective(a[0] as int / 16, b[0] as int / 16);
        lemma_hex_digit_injective(a[0] as int % 16, b[0] as int % 16);
        assert(hex_lower(a.drop_first()) =~= ha.subrange(2, ha.len() as int));
        assert(hex_lower(b.drop_first()) =~= ha.subrange(2, ha.len() as int));
        lemma_hex_lower_injective(a.drop_first(), b.drop_first());
        assert(a[0] == b[0]);
        assert forall|i: int| 0 <= i < a.len() implies a[i] == b[i] by {
            if i > 0 {
                assert(a[i] == a.drop_first()[i - 1] && b[i] == b.drop_first()[i - 1]);
            }
        }
        assert(a =~= b);
    } else if hex_lower(a) == hex_lower(b) {
        assert(a =~= b);
    }
}

} // verus!
