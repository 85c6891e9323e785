//! HMAC (RFC 2104), generic over the hash function, and its SHA-1 instance.
use vstd::prelude::*;
use crate::sha1::{hash, sha1, DIGEST_SIZE};

verus! {

/// Largest input length that the hash engines accept.
pub open spec fn max_input() -> nat {
    (usize::MAX - 128) as nat
}

/// A hash function with a fixed digest size, as HMAC needs it.
pub trait HashFunction {
    /// The digest of `m`.
    spec fn spec_digest(m: Seq<u8>) -> Seq<u8>;

    /// The digest size in bytes.
    spec fn spec_digest_size() -> nat;

    /// Every digest has the digest size.
    proof fn lemma_digest_size(m: Seq<u8>)
        ensures
            Self::spec_digest(m).len() == Self::spec_digest_size(),
    ;

    /// The digest size in bytes.
    fn digest_size() -> (r: usize)
        ensures
            r as nat == Self::spec_digest_size(),
    ;

    /// The digest of `m`.
    fn digest(m: &[u8]) -> (r: Vec<u8>)
        requires
            m@.len() <= max_input(),
        ensures
            r@ == Self::spec_digest(m@),
    ;
}

/// SHA-1 as a `HashFunction`.
pub struct Sha1;

impl HashFunction for Sha1 {
    open spec fn spec_digest(m: Seq<u8>) -> Seq<u8> {
        sha1(m)
    }

    open spec fn spec_digest_size() -> nat {
        DIGEST_SIZE as nat
    }

    proof fn lemma_digest_size(m: Seq<u8>) {
    }

    fn digest_size() -> (r: usize) {
        DIGEST_SIZE
    }

    fn digest(m: &[u8]) -> (r: Vec<u8>) {
        let d = hash(m);
        let mut r: Vec<u8> = Vec::new();
        append_bytes(&mut r, &d);
        r
    }
}

/// The key brought to exactly `block_size` bytes: hashed first when longer
/// than a block, then right-padded with zero bytes.
pub open spec fn sized_key<H: HashFunction>(key: Seq<u8>, block_size: nat) -> Seq<u8> {
    let k = if key.len() > block_size {
        H::spec_digest(key)
    } else {
        key
    };
    k + Seq::new((block_size - k.len()) as nat, |i: int| 0u8)
}

/// Each byte of `k` XOR-ed with `pad`.
pub open spec fn xor_pad(k: Seq<u8>, pad: u8) -> Seq<u8> {
    k.map_values(|b: u8| b ^ pad)
}

/// The HMAC tag of `message` under `key` with hash `H`:
/// `H((K ^ opad) ++ H((K ^ ipad) ++ message))`.
pub open spec fn hmac_of<H: HashFunction>(key: Seq<u8>, message: Seq<u8>, block_size: nat) -> Seq<
    u8,
> {
    let k = sized_key::<H>(key, block_size);
    H::spec_digest(xor_pad(k, 0x5c) + H::spec_digest(xor_pad(k, 0x36) + message))
}

/// The SHA-1 block-sized key.
pub open spec fn block_sized_key(key: Seq<u8>, block_size: nat) -> Seq<u8> {
    sized_key::<Sha1>(key, block_size)
}

/// The HMAC-SHA1 tag of `message` under `key`.
pub open spec fn hmac_sha1(key: Seq<u8>, message: Seq<u8>, block_size: nat) -> Seq<u8> {
    hmac_of::<Sha1>(key, message, block_size)
}

/// Appends `src` to `dst`.
fn append_bytes(dst: &mut Vec<u8>, src: &[u8])
    ensures
        final(dst)@ == old(dst)@ + src@,
{
    let n = src.len();
    let mut i: usize = 0;
    while i < n
        invariant
            i <= n,
            n == src@.len(),
            dst@ == old(dst)@ + src@.subrange(0, i as int),
        decreases n - i,
    {
        dst.push(src[i]);
        i += 1;
        assert(dst@ =~= old(dst)@ + src@.subrange(0, i as int));
    }
    assert(src@.subrange(0, n as int) =~= src@);
}

/// Brings `key` to exactly `block_size` bytes for hash `H` (see `sized_key`).
pub fn block_sized_key_with<H: HashFunction>(key: &[u8], block_size: usize) -> (r: Vec<u8>)
    requires
        H::spec_digest_size() <= block_size,
        key@.len() <= max_input(),
    ensures
        r@ == sized_key::<H>(key@, block_size as nat),
        r@.len() == block_size,
{
    let mut res: Vec<u8> = Vec::new();
    if key.len() > block_size {
        let d = H::digest(key);
        proof {
            H::lemma_digest_size(key@);
        }
        append_bytes(&mut res, d.as_slice());
    } else {
        append_bytes(&mut res, key);
    }
    let ghost k = res@;
    assert(k == (if key@.len() > block_size { H::spec_digest(key@) } else { key@ }));
    while res.len() < block_size
        invariant
            k == (if key@.len() > block_size { H::spec_digest(key@) } else { key@ }),
            k.len() <= res@.len() <= block_size,
            res@ == k + Seq::new((res@.len() - k.len()) as nat, |i: int| 0u8),
        decreases block_size - res@.len(),
    {
        res.push(0);
        assert(res@ =~= k + Seq::new((res@.len() - k.len()) as nat, |i: int| 0u8));
    }
    res
}

/// The HMAC tag of `message` under `key` with hash `H`, whose block size is
/// `block_size` bytes.
pub fn hmac_with<H: HashFunction>(key: &[u8], message: &[u8], block_size: usize) -> (r: Vec<u8>)
    requires
        H::spec_digest_size() <= block_size,
        key@.len() <= max_input(),
        message@.len() + block_size <= max_input(),
        block_size + H::spec_digest_size() <= max_input(),
    ensures
        r@ == hmac_of::<H>(key@, message@, block_size as nat),
{
    let key = block_sized_key_with::<H>(key, block_size);
    let mut inner: Vec<u8> = Vec::new();
    let mut outer: Vec<u8> = Vec::new();
    let mut i: usize = 0;
    while i < block_size
        invariant
            i <= block_size,
            key@.len() == block_size,
            inner@ == xor_pad(key@.subrange(0, i as int), 0x36),
            outer@ == xor_pad(key@.subrange(0, i as int), 0x5c),
        decreases block_size - i,
    {
        inner.push(key[i] ^ 0x36);
        outer.push(key[i] ^ 0x5c);
        i += 1;
        assert(inner@ =~= xor_pad(key@.subrange(0, i as int), 0x36));
        assert(outer@ =~= xor_pad(key@.subrange(0, i as int), 0x5c));
    }
    assert(key@.subrange(0, block_size as int) =~= key@);
    append_bytes(&mut inner, message);
    let inner_tag = H::digest(inner.as_slice());
    proof {
        H::lemma_digest_size(inner@);
    }
    append_bytes(&mut outer, inner_tag.as_slice());
    H::digest(outer.as_slice())
}

/// Brings `key` to exactly `block_size` bytes for SHA-1 (see `sized_key`).
pub fn compute_block_sized_key(key: &[u8], block_size: usize) -> (r: Vec<u8>)
    requires
        DIGEST_SIZE <= block_size,
        key@.len() <= max_input(),
    ensures
        r@ == block_sized_key(key@, block_size as nat),
        r@.len() == block_size,
{
    block_sized_key_with::<Sha1>(key, block_size)
}

/// The HMAC-SHA1 tag of `message` under `key`, for a hash block size of
/// `block_size` bytes (64 for SHA-1).
pub fn hmac(key: &[u8], message: &[u8], block_size: usize) -> (r: [u8; 20])
    requires
        DIGEST_SIZE <= block_size,
        key@.len() <= max_input(),
        message@.len() + block_size <= max_input(),
        block_size + DIGEST_SIZE <= max_input(),
    ensures
        r@ == hmac_sha1(key@, message@, block_size as nat),
{
    let tag = hmac_with::<Sha1>(key, message, block_size);
    let mut r = [0u8; 20];
    let mut i: usize = 0;
    while i < 20
        invariant
            i <= 20,
            tag@.len() == 20,
            r@.len() == 20,
            forall|j: int| 0 <= j < i ==> r@[j] == tag@[j],
        decreases 20 - i,
    {
        r[i] = tag[i];
        i += 1;
    }
    assert(r@ =~= tag@);
    r
}

/// Key sizing yields exactly `block_size` bytes for every key, so exactly
/// 64 bytes for SHA-1's block size.
pub proof fn lemma_block_sized_key_len(key: Seq<u8>, block_size: nat)
    requires
        DIGEST_SIZE <= block_size,
    ensures
        block_sized_key(key, block_size).len() == block_size,
{
}

/// The HMAC tag has the digest size of its hash, 20 bytes for SHA-1.
pub proof fn lemma_tag_len<H: HashFunction>(key: Seq<u8>, message: Seq<u8>, block_size: nat)
    ensures
        hmac_of::<H>(key, message, block_size).len() == H::spec_digest_size(),
{
    let k = sized_key::<H>(key, block_size);
    H::lemma_digest_size(xor_pad(k, 0x5c) + H::spec_digest(xor_pad(k, 0x36) + message));
}

} // verus!
