//! Identity keys: a fixed-width key derived from input bytes by a
//! cryptographic digest, truncated to its first 16 bytes and read as a
//! little-endian 128-bit integer.

use vstd::prelude::*;

verus! {

/// The digest that `blake3::hash` computes for the given input bytes.
/// It depends on the input alone, so the key derived from it is stable
/// across runs and machines.
pub uninterp spec fn blake3_digest(input: Seq<u8>) -> Seq<u8>;

/// Relies on `blake3::hash`: the digest is a function of the input bytes
/// alone and is exactly 32 bytes long.
#[verifier::external_body]
fn blake3_hash32(input: &[u8]) -> (r: Vec<u8>)
    ensures
        r@ == blake3_digest(input@),
        r@.len() == 32,
{
    blake3::hash(input).as_bytes().to_vec()
}

/// The value of a byte sequence read as a little-endian integer.
pub open spec fn le_val(s: Seq<u8>) -> nat
    decreases s.len(),
{
    if s.len() == 0 {
        0
    } else {
        (s[0] + 256 * le_val(s.skip(1))) as nat
    }
}

/// 256 raised to the given power: the number of values of that many bytes.
pub open spec fn pow256(n: nat) -> nat
    decreases n,
{
    if n == 0 {
        1
    } else {
        256 * pow256((n - 1) as nat)
    }
}

/// A byte sequence read little-endian is bounded by 256 to its length.
proof fn lemma_le_val_bound(s: Seq<u8>)
    ensures
        le_val(s) < pow256(s.len()),
    decreases s.len(),
{
    if s.len() == 0 {
    } else {
        lemma_le_val_bound(s.skip(1));
    }
}

/// The identity key of a byte sequence: the first 16 bytes of its digest,
/// read as a little-endian integer. The truncation always takes the same
/// fixed-position slice of the digest.
pub open spec fn identity_spec(input: Seq<u8>) -> u128 {
    le_val(blake3_digest(input).take(16)) as u128
}

/// Derives the identity key of the given bytes.
pub fn identity_of(input: &[u8]) -> (r: u128)
    ensures
        r == identity_spec(input@),
{
    let digest = blake3_hash32(input);
    let ghost head = blake3_digest(input@).take(16);
    let mut acc: u128 = 0;
    let mut i: usize = 16;
    proof {
        assert(head.subrange(16, 16) =~= Seq::<u8>::empty());
    }
    while i > 0
        invariant
            0 <= i <= 16,
            digest@ == blake3_digest(input@),
            digest@.len() == 32,
            head == blake3_digest(input@).take(16),
            acc == le_val(head.subrange(i as int, 16)),
        decreases i,
    {
        i = i - 1;
        let b = digest[i];
        proof {
            let tail = head.subrange(i as int, 16);
            assert(tail[0] == head[i as int]);
            assert(head[i as int] == digest@[i as int]);
            assert(tail.skip(1) =~= head.subrange(i as int + 1, 16));
            lemma_le_val_bound(head.subrange(i as int + 1, 16));
            lemma_pow256_increases((15 - i) as nat, 15);
            assert(256 * acc <= 256 * (pow256(15) - 1));
            assert(pow256(16) == 0x100000000000000000000000000000000) by {
                reveal_with_fuel(pow256, 17);
            }
        }
        acc = (b as u128) + 256 * acc;
    }
    proof {
        assert(head.subrange(0, 16) =~= head);
    }
    acc
}

/// A smaller byte count never admits more values.
proof fn lemma_pow256_increases(a: nat, b: nat)
    requires
        a <= b,
    ensures
        pow256(a) <= pow256(b),
    decreases b,
{
    if a < b {
        lemma_pow256_increases(a, (b - 1) as nat);
    }
}

/// Identity is a pure function of the input bytes: equal inputs always
/// derive equal keys, across repeated computations.
pub proof fn lemma_identity_deterministic(a: Seq<u8>, b: Seq<u8>)
    requires
        a == b,
    ensures
        identity_spec(a) == identity_spec(b),
{
}

} // verus!
