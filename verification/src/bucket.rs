//! Bucket paths: an identity key is stored under a two-level directory
//! derived from its two most-significant bytes, with the key's decimal
//! form as the file name. The path is a pure function of the key, so a
//! blob written once is always found again without a location table.

use vstd::prelude::*;

use crate::text::{ascii_to_string, bytes_as_chars};

verus! {

/// The first bucket directory: the key's most-significant byte.
pub open spec fn bucket_byte1(key: u128) -> u8 {
    (key >> 120) as u8
}

/// The second bucket directory: the key's next most-significant byte.
pub open spec fn bucket_byte2(key: u128) -> u8 {
    ((key >> 112) & 0xFF) as u8
}

/// The ASCII byte of one hexadecimal digit, lower case.
pub open spec fn hex_digit_byte(n: u8) -> u8 {
    if n < 10 {
        (48 + n) as u8
    } else {
        (87 + n) as u8
    }
}

/// A byte as two hexadecimal digit bytes.
pub open spec fn hex_pair(b: u8) -> Seq<u8> {
    seq![hex_digit_byte(b / 16), hex_digit_byte(b % 16)]
}

/// The decimal digits of a key, as ASCII bytes, most significant first.
pub open spec fn dec_bytes(n: u128) -> Seq<u8>
    decreases n,
{
    if n < 10 {
        seq![(48 + n) as u8]
    } else {
        dec_bytes(n / 10).push((48 + n % 10) as u8)
    }
}

/// Every decimal digit byte is an ASCII digit.
proof fn lemma_dec_bytes_ascii(n: u128)
    ensures
        forall|i: int| 0 <= i < dec_bytes(n).len() ==> 48 <= #[trigger] dec_bytes(n)[i] < 58,
    decreases n,
{
    if n < 10 {
        assert(dec_bytes(n) == seq![(48 + n) as u8]);
        assert(dec_bytes(n)[0] == (48 + n) as u8);
    } else {
        lemma_dec_bytes_ascii(n / 10);
        let prefix = dec_bytes(n / 10);
        assert forall|i: int| 0 <= i < dec_bytes(n).len() implies 48 <= #[trigger] dec_bytes(n)[i]
            < 58 by {
            if i < prefix.len() {
                assert(dec_bytes(n)[i] == prefix[i]);
            } else {
                assert(dec_bytes(n)[i] == (48 + n % 10) as u8);
            }
        }
    }
}

/// The bytes of the path under the store root: `/xx/yy/<decimal key>`,
/// where `xx` and `yy` are the key's top two bytes in hexadecimal.
pub open spec fn bucket_tail_bytes(key: u128) -> Seq<u8> {
    seq![47u8] + hex_pair(bucket_byte1(key)) + seq![47u8] + hex_pair(bucket_byte2(key))
        + seq![47u8] + dec_bytes(key)
}

/// The full cache path of a key under the given store root.
pub open spec fn bucket_path_chars(root: Seq<char>, key: u128) -> Seq<char> {
    root + bytes_as_chars(bucket_tail_bytes(key))
}

/// Appends the decimal digits of `n` to `out`.
fn push_dec_bytes(n: u128, out: &mut Vec<u8>)
    ensures
        final(out)@ == old(out)@ + dec_bytes(n),
    decreases n,
{
    if n < 10 {
        out.push(48 + n as u8);
    } else {
        push_dec_bytes(n / 10, out);
        out.push(48 + (n % 10) as u8);
        proof {
            assert(old(out)@ + dec_bytes(n) =~= (old(out)@ + dec_bytes(n / 10)).push(
                (48 + n % 10) as u8,
            ));
        }
    }
}

/// Appends the two hexadecimal digits of `b` to `out`.
fn push_hex_pair(b: u8, out: &mut Vec<u8>)
    ensures
        final(out)@ == old(out)@ + hex_pair(b),
{
    let hi = b / 16;
    let lo = b % 16;
    out.push(if hi < 10 { 48 + hi } else { 87 + hi });
    out.push(if lo < 10 { 48 + lo } else { 87 + lo });
    proof {
        assert(out@ =~= old(out)@ + hex_pair(b));
    }
}

/// Computes the cache path of a key under the given store root.
///
/// The path is a pure function of its arguments: deriving it again for
/// the same key always yields the same path.
pub fn get_file_path(root: &str, file_hash: u128) -> (r: String)
    ensures
        r@ == bucket_path_chars(root@, file_hash),
{
    let b1 = (file_hash >> 120) as u8;
    let b2 = ((file_hash >> 112) & 0xFF) as u8;
    proof {
        assert(file_hash >> 120 <= 255) by (bit_vector);
        assert((file_hash >> 112) & 0xFF <= 255) by (bit_vector);
    }
    let mut tail: Vec<u8> = Vec::new();
    tail.push(47);
    push_hex_pair(b1, &mut tail);
    tail.push(47);
    push_hex_pair(b2, &mut tail);
    tail.push(47);
    push_dec_bytes(file_hash, &mut tail);
    proof {
        assert(tail@ =~= bucket_tail_bytes(file_hash));
        lemma_dec_bytes_ascii(file_hash);
        assert(forall|i: int| 0 <= i < tail@.len() ==> tail@[i] < 128);
    }
    let tail_str = ascii_to_string(tail);
    let r = root.to_owned().concat(tail_str.as_str());
    proof {
        assert(r@ =~= bucket_path_chars(root@, file_hash));
    }
    r
}

/// Bucket sharding is decided by the key's top two bytes alone: two keys
/// that agree on those bytes land in the same two-level directory, however
/// their lower bits differ.
pub proof fn lemma_bucket_shared_directory(k1: u128, k2: u128)
    requires
        k1 >> 112 == k2 >> 112,
    ensures
        bucket_byte1(k1) == bucket_byte1(k2),
        bucket_byte2(k1) == bucket_byte2(k2),
{
    assert(k1 >> 112 == k2 >> 112 ==> (k1 >> 120) as u8 == (k2 >> 120) as u8) by (bit_vector);
    assert(k1 >> 112 == k2 >> 112 ==> ((k1 >> 112) & 0xFF) as u8 == ((k2 >> 112) & 0xFF) as u8)
        by (bit_vector);
}

} // verus!
