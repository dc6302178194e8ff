use vstd::prelude::*;

use crate::primitives::{AccountId, BountyId};

verus! {

/// The Blake2b 256-bit digest of `data`.
pub uninterp spec fn blake2_256_of(data: Seq<u8>) -> Seq<u8>;

/// Relies on sp_core's `Blake2Hasher::hash`: the Blake2b 256-bit digest of
/// the bytes, which depends on the bytes alone.
#[verifier::external_body]
fn blake2_256(data: &[u8]) -> (r: [u8; 32])
    ensures
        r@ == blake2_256_of(data@),
{
    <sp_core::Blake2Hasher as sp_core::Hasher>::hash(data).0
}

/// Byte `i` of `x`, least significant first.
pub open spec fn le_byte_u64(x: u64, i: nat) -> u8 {
    ((x >> (8 * i) as u64) & 0xff) as u8
}

/// Byte `i` of `x`, least significant first.
pub open spec fn le_byte_u32(x: u32, i: nat) -> u8 {
    ((x >> (8 * i) as u32) & 0xff) as u8
}

/// What the id of a bounty is hashed from: the creator's account, then its
/// nonce, both little-endian.
pub open spec fn id_preimage(origin: AccountId, nonce: u32) -> Seq<u8> {
    Seq::new(12, |i: int| if i < 8 { le_byte_u64(origin, i as nat) } else { le_byte_u32(nonce, (i - 8) as nat) })
}

/// The little-endian value of the `n` bytes of `d` from `start` on.
pub open spec fn le_range(d: Seq<u8>, start: int, n: nat) -> u128
    decreases n,
{
    if n == 0 {
        0
    } else {
        le_range(d, start, (n - 1) as nat) | ((d[start + n - 1] as u128) << (8 * (n - 1)) as u128)
    }
}

/// The id of the bounty that `origin` creates at account nonce `nonce`: the
/// Blake2b digest of the account and the nonce, as its low and high halves,
/// each little-endian.
pub open spec fn bounty_id_of(origin: AccountId, nonce: u32) -> BountyId {
    let d = blake2_256_of(id_preimage(origin, nonce));
    (le_range(d, 0, 16), le_range(d, 16, 16))
}

/// The little-endian value of the 16 bytes of `d` from `start` on.
fn half(d: &[u8; 32], start: usize) -> (r: u128)
    requires
        start == 0 || start == 16,
    ensures
        r == le_range(d@, start as int, 16),
{
    let mut acc: u128 = 0;
    let mut i: u128 = 0;
    while i < 16
        invariant
            i <= 16,
            start == 0 || start == 16,
            d@.len() == 32,
            acc == le_range(d@, start as int, i as nat),
        decreases 16 - i,
    {
        acc = acc | ((d[start + i as usize] as u128) << (8 * i));
        i = i + 1;
    }
    acc
}

fn preimage(origin: AccountId, nonce: u32) -> (r: Vec<u8>)
    ensures
        r@ == id_preimage(origin, nonce),
{
    let mut r: Vec<u8> = Vec::new();
    let mut i: u64 = 0;
    while i < 8
        invariant
            i <= 8,
            r@.len() == i,
            forall|j: int| 0 <= j < i ==> r@[j] == le_byte_u64(origin, j as nat),
        decreases 8 - i,
    {
        r.push(((origin >> (8 * i)) & 0xff) as u8);
        i = i + 1;
    }
    let mut k: u32 = 0;
    while k < 4
        invariant
            k <= 4,
            r@.len() == 8 + k,
            forall|j: int| 0 <= j < 8 ==> r@[j] == le_byte_u64(origin, j as nat),
            forall|j: int| 8 <= j < 8 + k ==> r@[j] == le_byte_u32(nonce, (j - 8) as nat),
        decreases 4 - k,
    {
        r.push(((nonce >> (8 * k)) & 0xff) as u8);
        k = k + 1;
    }
    proof {
        assert(r@ =~= id_preimage(origin, nonce));
    }
    r
}

/// Derives the id of the bounty that `origin` creates at account nonce `nonce`.
pub fn bounty_id_for(origin: AccountId, nonce: u32) -> (r: BountyId)
    ensures
        r == bounty_id_of(origin, nonce),
{
    let data = preimage(origin, nonce);
    let digest = blake2_256(data.as_slice());
    (half(&digest, 0), half(&digest, 16))
}

/// Byte `k` of `x`, least significant first.
pub open spec fn byte_of(x: u128, k: nat) -> u128 {
    (x >> (8 * k) as u128) & 0xff
}

proof fn lemma_le_range_bytes(d: Seq<u8>, start: int, n: nat)
    requires
        n <= 16,
        0 <= start,
        start + n <= d.len(),
    ensures
        forall|k: nat| k < n ==> #[trigger] byte_of(le_range(d, start, n), k) == d[start + k] as u128,
        n < 16 ==> le_range(d, start, n) >> (8 * n) as u128 == 0,
    decreases n,
{
    if n == 0 {
        assert(le_range(d, start, 0) == 0);
        assert(0u128 >> 0u128 == 0) by (bit_vector);
    } else {
        let m = (n - 1) as nat;
        lemma_le_range_bytes(d, start, m);
        let x = le_range(d, start, m);
        let b = d[start + m] as u128;
        let sh = (8 * m) as u128;
        assert(le_range(d, start, n) == x | (b << sh));
        assert(b <= 255);
        assert(sh <= 120);
        assert(x >> sh == 0) by {
            if m == 0 {
                assert(x == 0);
                assert(0u128 >> 0u128 == 0) by (bit_vector);
            }
        }
        assert forall|k: nat| k < n implies #[trigger] byte_of(le_range(d, start, n), k) == d[start + k] as u128 by {
            let kk = (8 * k) as u128;
            assert(kk == 8 * k);
            if k < m {
                assert(byte_of(x, k) == d[start + k] as u128);
                assert(((x | (b << sh)) >> kk) & 0xff == (x >> kk) & 0xff) by (bit_vector)
                    requires
                        x >> sh == 0,
                        b <= 255,
                        sh <= 120,
                        kk + 8 <= sh,
                ;
            } else {
                assert(kk == sh);
                assert(((x | (b << sh)) >> sh) & 0xff == b) by (bit_vector)
                    requires
                        x >> sh == 0,
                        b <= 255,
                        sh <= 120,
                ;
            }
        }
        if n < 16 {
            let sn = (8 * n) as u128;
            assert(sn == sh + 8);
            assert((x | (b << sh)) >> sn == 0) by (bit_vector)
                requires
                    x >> sh == 0,
                    b <= 255,
                    sh <= 120,
                    sn == sh + 8,
            ;
        }
    }
}

proof fn lemma_preimage_injective(a1: AccountId, n1: u32, a2: AccountId, n2: u32)
    requires
        id_preimage(a1, n1) == id_preimage(a2, n2),
    ensures
        a1 == a2 && n1 == n2,
{
    let p1 = id_preimage(a1, n1);
    let p2 = id_preimage(a2, n2);
    assert(p1.len() == 12 && p2.len() == 12);
    assert forall|i: nat| i < 8 implies le_byte_u64(a1, i) == le_byte_u64(a2, i) by {
        assert(p1[i as int] == le_byte_u64(a1, i));
        assert(p2[i as int] == le_byte_u64(a2, i));
        assert(p1[i as int] == p2[i as int]);
    }
    assert forall|i: nat| i < 4 implies le_byte_u32(n1, i) == le_byte_u32(n2, i) by {
        assert(p1[8 + i as int] == le_byte_u32(n1, i));
        assert(p2[8 + i as int] == le_byte_u32(n2, i));
        assert(p1[8 + i as int] == p2[8 + i as int]);
    }
    assert(le_byte_u64(a1, 0) == le_byte_u64(a2, 0) && le_byte_u64(a1, 1) == le_byte_u64(a2, 1));
    assert(le_byte_u64(a1, 2) == le_byte_u64(a2, 2) && le_byte_u64(a1, 3) == le_byte_u64(a2, 3));
    assert(le_byte_u64(a1, 4) == le_byte_u64(a2, 4) && le_byte_u64(a1, 5) == le_byte_u64(a2, 5));
    assert(le_byte_u64(a1, 6) == le_byte_u64(a2, 6) && le_byte_u64(a1, 7) == le_byte_u64(a2, 7));
    assert(le_byte_u32(n1, 0) == le_byte_u32(n2, 0) && le_byte_u32(n1, 1) == le_byte_u32(n2, 1));
    assert(le_byte_u32(n1, 2) == le_byte_u32(n2, 2) && le_byte_u32(n1, 3) == le_byte_u32(n2, 3));
    assert(a1 == a2) by (bit_vector)
        requires
            ((a1 >> 0u64) & 0xff) as u8 == ((a2 >> 0u64) & 0xff) as u8,
            ((a1 >> 8u64) & 0xff) as u8 == ((a2 >> 8u64) & 0xff) as u8,
            ((a1 >> 16u64) & 0xff) as u8 == ((a2 >> 16u64) & 0xff) as u8,
            ((a1 >> 24u64) & 0xff) as u8 == ((a2 >> 24u64) & 0xff) as u8,
            ((a1 >> 32u64) & 0xff) as u8 == ((a2 >> 32u64) & 0xff) as u8,
            ((a1 >> 40u64) & 0xff) as u8 == ((a2 >> 40u64) & 0xff) as u8,
            ((a1 >> 48u64) & 0xff) as u8 == ((a2 >> 48u64) & 0xff) as u8,
            ((a1 >> 56u64) & 0xff) as u8 == ((a2 >> 56u64) & 0xff) as u8,
    ;
    assert(n1 == n2) by (bit_vector)
        requires
            ((n1 >> 0u32) & 0xff) as u8 == ((n2 >> 0u32) & 0xff) as u8,
            ((n1 >> 8u32) & 0xff) as u8 == ((n2 >> 8u32) & 0xff) as u8,
            ((n1 >> 16u32) & 0xff) as u8 == ((n2 >> 16u32) & 0xff) as u8,
            ((n1 >> 24u32) & 0xff) as u8 == ((n2 >> 24u32) & 0xff) as u8,
    ;
}

/// Distinct (account, nonce) pairs get distinct bounty ids wherever the
/// hash gives their encodings distinct 32-byte digests.
pub proof fn lemma_bounty_ids_distinct(a1: AccountId, n1: u32, a2: AccountId, n2: u32)
    requires
        a1 != a2 || n1 != n2,
        blake2_256_of(id_preimage(a1, n1)).len() == 32,
        blake2_256_of(id_preimage(a2, n2)).len() == 32,
        id_preimage(a1, n1) != id_preimage(a2, n2) ==> blake2_256_of(id_preimage(a1, n1))
            != blake2_256_of(id_preimage(a2, n2)),
    ensures
        bounty_id_of(a1, n1) != bounty_id_of(a2, n2),
{
    let d1 = blake2_256_of(id_preimage(a1, n1));
    let d2 = blake2_256_of(id_preimage(a2, n2));
    if id_preimage(a1, n1) == id_preimage(a2, n2) {
        lemma_preimage_injective(a1, n1, a2, n2);
    }
    if bounty_id_of(a1, n1) == bounty_id_of(a2, n2) {
        lemma_le_range_bytes(d1, 0, 16);
        lemma_le_range_bytes(d2, 0, 16);
        lemma_le_range_bytes(d1, 16, 16);
        lemma_le_range_bytes(d2, 16, 16);
        assert forall|i: int| 0 <= i < 32 implies d1[i] == d2[i] by {
            if i < 16 {
                let k = i as nat;
                assert(byte_of(le_range(d1, 0, 16), k) == d1[0 + k as int] as u128);
                assert(byte_of(le_range(d2, 0, 16), k) == d2[0 + k as int] as u128);
            } else {
                let k = (i - 16) as nat;
                assert(byte_of(le_range(d1, 16, 16), k) == d1[16 + k as int] as u128);
                assert(byte_of(le_range(d2, 16, 16), k) == d2[16 + k as int] as u128);
            }
        }
        assert(d1 =~= d2);
    }
}

/// Something that names the bounty an account creates.
pub trait BountyIdFor {
    /// The id of the bounty that `origin` creates at account nonce `nonce`.
    fn bounty_id_for(origin: AccountId, nonce: u32) -> (r: BountyId)
        ensures
            r == bounty_id_of(origin, nonce),
    ;
}

/// Names bounties by hashing the creator's account and nonce.
pub struct SimpleBountyIdDeterminer;

impl BountyIdFor for SimpleBountyIdDeterminer {
    fn bounty_id_for(origin: AccountId, nonce: u32) -> (r: BountyId) {
        bounty_id_for(origin, nonce)
    }
}

} // verus!
