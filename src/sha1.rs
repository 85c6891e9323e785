//! SHA-1 (FIPS 180-1 / RFC 3174) as a pure function from bytes to a 20-byte digest.
use vstd::prelude::*;

verus! {

/// The five 32-bit words of the running hash state.
pub type Words = (u32, u32, u32, u32, u32);

/// Block size of SHA-1 in bytes.
pub const BLOCK_SIZE: usize = 64;

/// Digest size of SHA-1 in bytes.
pub const DIGEST_SIZE: usize = 20;

/// The standard initial hash state.
pub open spec fn initial_words() -> Words {
    (0x67452301u32, 0xEFCDAB89u32, 0x98BADCFEu32, 0x10325476u32, 0xC3D2E1F0u32)
}

/// Left rotation of a 32-bit word by `n` bits, `0 < n < 32`.
pub open spec fn rotl(x: u32, n: u32) -> u32 {
    (x << n) | (x >> ((32 - n) as u32))
}

/// The big-endian word formed by `b[i..i + 4]`.
pub open spec fn be_word(b: Seq<u8>, i: int) -> u32 {
    ((b[i] as u32) << 24u32) | ((b[i + 1] as u32) << 16u32) | ((b[i + 2] as u32) << 8u32) | (
    b[i + 3] as u32)
}

/// The four bytes of `x`, most significant first.
pub open spec fn be_u32_bytes(x: u32) -> Seq<u8> {
    seq![
        ((x >> 24u32) & 0xff) as u8,
        ((x >> 16u32) & 0xff) as u8,
        ((x >> 8u32) & 0xff) as u8,
        (x & 0xff) as u8,
    ]
}

/// The eight bytes of `x`, most significant first.
pub open spec fn be_u64_bytes(x: u64) -> Seq<u8> {
    seq![
        ((x >> 56u64) & 0xff) as u8,
        ((x >> 48u64) & 0xff) as u8,
        ((x >> 40u64) & 0xff) as u8,
        ((x >> 32u64) & 0xff) as u8,
        ((x >> 24u64) & 0xff) as u8,
        ((x >> 16u64) & 0xff) as u8,
        ((x >> 8u64) & 0xff) as u8,
        (x & 0xff) as u8,
    ]
}

/// Number of zero bytes placed between the `0x80` marker and the length,
/// so that a message of `n` bytes pads to a multiple of 64 bytes.
pub open spec fn zero_fill(n: nat) -> nat {
    ((119 - (n % 64) as int) % 64) as nat
}

/// The message length in bits, modulo 2^64.
pub open spec fn bit_length(n: nat) -> u64 {
    ((n * 8) % 0x1_0000_0000_0000_0000) as u64
}

/// The padded message: `m`, a `1` bit, zero bits, and the 64-bit length.
pub open spec fn pad(m: Seq<u8>) -> Seq<u8> {
    m + seq![0x80u8] + Seq::new(zero_fill(m.len()), |i: int| 0u8) + be_u64_bytes(
        bit_length(m.len()),
    )
}

/// The first `n` words of the message schedule of a 64-byte block.
pub open spec fn schedule(block: Seq<u8>, n: nat) -> Seq<u32>
    decreases n,
{
    if n == 0 {
        seq![]
    } else {
        let w = schedule(block, (n - 1) as nat);
        let t = n - 1;
        if t < 16 {
            w.push(be_word(block, 4 * t))
        } else {
            w.push(rotl(w[t - 3] ^ w[t - 8] ^ w[t - 14] ^ w[t - 16], 1))
        }
    }
}

/// The boolean function of round `t`.
pub open spec fn round_fn(t: int, b: u32, c: u32, d: u32) -> u32 {
    if t < 20 {
        (b & c) | (!b & d)
    } else if t < 40 {
        b ^ c ^ d
    } else if t < 60 {
        (b & c) | (b & d) | (c & d)
    } else {
        b ^ c ^ d
    }
}

/// The additive constant of round `t`.
pub open spec fn round_const(t: int) -> u32 {
    if t < 20 {
        0x5A827999u32
    } else if t < 40 {
        0x6ED9EBA1u32
    } else if t < 60 {
        0x8F1BBCDCu32
    } else {
        0xCA62C1D6u32
    }
}

/// One round of mixing with schedule word `wt`.
pub open spec fn round(s: Words, t: int, wt: u32) -> Words {
    let temp = rotl(s.0, 5).wrapping_add(round_fn(t, s.1, s.2, s.3)).wrapping_add(
        s.4,
    ).wrapping_add(round_const(t)).wrapping_add(wt);
    (temp, s.0, rotl(s.1, 30), s.2, s.3)
}

/// The state after the first `n` rounds over schedule `w`.
pub open spec fn rounds(s: Words, w: Seq<u32>, n: nat) -> Words
    decreases n,
{
    if n == 0 {
        s
    } else {
        round(rounds(s, w, (n - 1) as nat), n - 1, w[n - 1])
    }
}

/// The compression function: the state after absorbing one 64-byte block.
pub open spec fn compress(h: Words, block: Seq<u8>) -> Words {
    let m = rounds(h, schedule(block, 80), 80);
    (
        h.0.wrapping_add(m.0),
        h.1.wrapping_add(m.1),
        h.2.wrapping_add(m.2),
        h.3.wrapping_add(m.3),
        h.4.wrapping_add(m.4),
    )
}

/// The state after absorbing the first `n` blocks of `p`.
pub open spec fn absorb(h: Words, p: Seq<u8>, n: nat) -> Words
    decreases n,
{
    if n == 0 {
        h
    } else {
        compress(absorb(h, p, (n - 1) as nat), p.subrange(64 * (n - 1), 64 * n as int))
    }
}

/// The digest bytes of a final state.
pub open spec fn words_bytes(h: Words) -> Seq<u8> {
    be_u32_bytes(h.0) + be_u32_bytes(h.1) + be_u32_bytes(h.2) + be_u32_bytes(h.3)
        + be_u32_bytes(h.4)
}

/// The SHA-1 digest of `m`.
pub open spec fn sha1(m: Seq<u8>) -> Seq<u8> {
    let p = pad(m);
    words_bytes(absorb(initial_words(), p, p.len() / 64))
}

/// Padding always reaches a whole number of blocks.
pub proof fn lemma_pad_len(n: nat)
    ensures
        (n + 9 + zero_fill(n)) % 64 == 0,
        zero_fill(n) < 64,
{
}

fn rotl_word(x: u32, n: u32) -> (r: u32)
    requires
        0 < n < 32,
    ensures
        r == rotl(x, n),
{
    (x << n) | (x >> (32 - n))
}

fn round_fn_word(t: usize, b: u32, c: u32, d: u32) -> (r: u32)
    ensures
        r == round_fn(t as int, b, c, d),
{
    if t < 20 {
        (b & c) | (!b & d)
    } else if t < 40 {
        b ^ c ^ d
    } else if t < 60 {
        (b & c) | (b & d) | (c & d)
    } else {
        b ^ c ^ d
    }
}

fn round_const_word(t: usize) -> (r: u32)
    ensures
        r == round_const(t as int),
{
    if t < 20 {
        0x5A827999
    } else if t < 40 {
        0x6ED9EBA1
    } else if t < 60 {
        0x8F1BBCDC
    } else {
        0xCA62C1D6
    }
}

/// Absorbs the block `p[off..off + 64]` into the state `h`.
fn compress_block(h: Words, p: &Vec<u8>, off: usize) -> (r: Words)
    requires
        off + 64 <= p@.len(),
    ensures
        r == compress(h, p@.subrange(off as int, off + 64)),
{
    let ghost block = p@.subrange(off as int, off + 64);
    let len = p.len();
    let mut w: Vec<u32> = Vec::with_capacity(80);
    let mut t: usize = 0;
    while t < 16
        invariant
            t <= 16,
            off + 64 <= p@.len(),
            len == p@.len(),
            block == p@.subrange(off as int, off + 64),
            w@ == schedule(block, t as nat),
            w@.len() == t,
        decreases 16 - t,
    {
        let i = off + 4 * t;
        let x = ((p[i] as u32) << 24) | ((p[i + 1] as u32) << 16) | ((p[i + 2] as u32) << 8) | (p[i
            + 3] as u32);
        assert(x == be_word(block, 4 * t));
        w.push(x);
        t += 1;
    }
    while t < 80
        invariant
            16 <= t <= 80,
            w@ == schedule(block, t as nat),
            w@.len() == t,
        decreases 80 - t,
    {
        let x = rotl_word(w[t - 3] ^ w[t - 8] ^ w[t - 14] ^ w[t - 16], 1);
        w.push(x);
        t += 1;
    }
    let (mut a, mut b, mut c, mut d, mut e) = h;
    let mut t: usize = 0;
    while t < 80
        invariant
            t <= 80,
            w@ == schedule(block, 80),
            w@.len() == 80,
            (a, b, c, d, e) == rounds(h, w@, t as nat),
        decreases 80 - t,
    {
        let temp = rotl_word(a, 5).wrapping_add(round_fn_word(t, b, c, d)).wrapping_add(
            e,
        ).wrapping_add(round_const_word(t)).wrapping_add(w[t]);
        e = d;
        d = c;
        c = rotl_word(b, 30);
        b = a;
        a = temp;
        t += 1;
    }
    (h.0.wrapping_add(a), h.1.wrapping_add(b), h.2.wrapping_add(c), h.3.wrapping_add(d), h.4.wrapping_add(e))
}

/// Builds the padded message of `data`.
fn pad_message(data: &[u8]) -> (p: Vec<u8>)
    requires
        data@.len() <= usize::MAX - 128,
    ensures
        p@ == pad(data@),
{
    let n = data.len();
    let mut p: Vec<u8> = Vec::new();
    let mut i: usize = 0;
    while i < n
        invariant
            i <= n,
            n == data@.len(),
            p@ == data@.subrange(0, i as int),
        decreases n - i,
    {
        p.push(data[i]);
        i += 1;
    }
    assert(p@ =~= data@);
    p.push(0x80);
    let k: usize = (119 - n % 64) % 64;
    let mut j: usize = 0;
    while j < k
        invariant
            j <= k,
            k == zero_fill(n as nat),
            n == data@.len(),
            p@ == data@ + seq![0x80u8] + Seq::new(j as nat, |i: int| 0u8),
        decreases k - j,
    {
        p.push(0);
        j += 1;
        assert(p@ =~= data@ + seq![0x80u8] + Seq::new(j as nat, |i: int| 0u8));
    }
    let bits: u64 = (n as u64).wrapping_mul(8);
    assert(bits == bit_length(n as nat));
    p.push(((bits >> 56) & 0xff) as u8);
    p.push(((bits >> 48) & 0xff) as u8);
    p.push(((bits >> 40) & 0xff) as u8);
    p.push(((bits >> 32) & 0xff) as u8);
    p.push(((bits >> 24) & 0xff) as u8);
    p.push(((bits >> 16) & 0xff) as u8);
    p.push(((bits >> 8) & 0xff) as u8);
    p.push((bits & 0xff) as u8);
    assert(p@ =~= pad(data@));
    p
}

/// The digest bytes of the final state `h`.
fn words_to_digest(h: Words) -> (r: [u8; 20])
    ensures
        r@ == words_bytes(h),
{
    let r: [u8; 20] = [
        ((h.0 >> 24) & 0xff) as u8,
        ((h.0 >> 16) & 0xff) as u8,
        ((h.0 >> 8) & 0xff) as u8,
        (h.0 & 0xff) as u8,
        ((h.1 >> 24) & 0xff) as u8,
        ((h.1 >> 16) & 0xff) as u8,
        ((h.1 >> 8) & 0xff) as u8,
        (h.1 & 0xff) as u8,
        ((h.2 >> 24) & 0xff) as u8,
        ((h.2 >> 16) & 0xff) as u8,
        ((h.2 >> 8) & 0xff) as u8,
        (h.2 & 0xff) as u8,
        ((h.3 >> 24) & 0xff) as u8,
        ((h.3 >> 16) & 0xff) as u8,
        ((h.3 >> 8) & 0xff) as u8,
        (h.3 & 0xff) as u8,
        ((h.4 >> 24) & 0xff) as u8,
        ((h.4 >> 16) & 0xff) as u8,
        ((h.4 >> 8) & 0xff) as u8,
        (h.4 & 0xff) as u8,
    ];
    assert(r@ =~= words_bytes(h));
    r
}

/// The SHA-1 digest of `data`. A pure function of its input: every call
/// starts from the initial state, so nothing carries over between calls.
pub fn hash(data: &[u8]) -> (r: [u8; 20])
    requires
        data@.len() <= usize::MAX - 128,
    ensures
        r@ == sha1(data@),
        r@.len() == 20,
{
    let p = pad_message(data);
    let ghost total: nat = p@.len() / 64;
    proof {
        lemma_pad_len(data@.len());
    }
    assert(p@.len() == 64 * total);
    let len = p.len();
    let mut h: Words = (0x67452301, 0xEFCDAB89, 0x98BADCFE, 0x10325476, 0xC3D2E1F0);
    let mut off: usize = 0;
    let ghost mut nb: nat = 0;
    while off < len
        invariant
            len == p@.len(),
            p@.len() == 64 * total,
            off == 64 * nb,
            nb <= total,
            h == absorb(initial_words(), p@, nb),
        decreases total - nb,
    {
        h = compress_block(h, &p, off);
        off += 64;
        proof {
            nb = nb + 1;
        }
    }
    words_to_digest(h)
}

/// The digest is a function of the input alone, and always 20 bytes long:
/// equal inputs give equal digests, whatever else was hashed before.
pub proof fn lemma_digest_deterministic(x: Seq<u8>, y: Seq<u8>)
    requires
        x == y,
    ensures
        sha1(x) == sha1(y),
        sha1(x).len() == DIGEST_SIZE,
{
}

} // verus!
