use simtotp::hmac::{hmac_with, HashFunction, Sha1};
use simtotp::{
    code_digits, compute_block_sized_key, format_code, generate_totp, hash, hmac, hotp,
    hotp_from_hmac, totp_at, TOTPError,
};
use std::time::{SystemTime, UNIX_EPOCH};

fn hex(bytes: &[u8]) -> String {
    bytes.iter().map(|b| format!("{:02x}", b)).collect()
}

fn unhex(s: &str) -> Vec<u8> {
    (0..s.len())
        .step_by(2)
        .map(|i| u8::from_str_radix(&s[i..i + 2], 16).unwrap())
        .collect()
}

#[test]
fn sha1_empty() {
    assert_eq!(hex(&hash(b"")), "da39a3ee5e6b4b0d3255bfef95601890afd80709");
}

#[test]
fn sha1_abc() {
    assert_eq!(hex(&hash(b"abc")), "a9993e364706816aba3e25717850c26c9cd0d89d");
}

#[test]
fn sha1_two_blocks() {
    assert_eq!(
        hex(&hash(b"abcdbcdecdefdefgefghfghighijhijkijkljklmklmnlmnomnopnopq")),
        "84983e441c3bd26ebaae4aa1f95129e5e54670f1"
    );
}

#[test]
fn sha1_million_a() {
    let data = vec![b'a'; 1_000_000];
    assert_eq!(hex(&hash(&data)), "34aa973cd4c4daa4f61eeb2bdbad27316534016f");
}

#[test]
fn sha1_padding_boundaries() {
    // 55 bytes fit one block with the length; 56 and 64 need a second one.
    let a55 = vec![b'a'; 55];
    let a56 = vec![b'a'; 56];
    let a64 = vec![b'a'; 64];
    assert_eq!(hex(&hash(&a55)), "c1c8bbdc22796e28c0e15163d20899b65621d65a");
    assert_eq!(hex(&hash(&a56)), "c2db330f6083854c99d4b5bfb6e8f29f201be699");
    assert_eq!(hex(&hash(&a64)), "0098ba824b5c16427bd7a1122a5a442a25ec644d");
}

#[test]
fn sha1_repeatable_interleaved() {
    let x = b"The quick brown fox jumps over the lazy dog";
    let first = hash(x);
    let other = hash(b"something else entirely");
    let second = hash(x);
    assert_eq!(first, second);
    assert_ne!(first, other);
    assert_eq!(hex(&first), "2fd4e1c67a2d28fced849ee1bb76e7391b93eb12");
}

#[test]
fn hmac_quick_brown_fox() {
    let tag = hmac(b"key", b"The quick brown fox jumps over the lazy dog", 64);
    assert_eq!(hex(&tag), "de7c9b85b8b78aa6bc8a7a36f70a90701c9db4d9");
}

#[test]
fn hmac_empty_key_and_message() {
    assert_eq!(hex(&hmac(b"", b"", 64)), "fbdb1d1b18aa6c08324b7d64b71fb76370690e1d");
}

#[test]
fn hmac_long_key_is_hashed_first() {
    let key = vec![0xaau8; 80];
    let tag = hmac(&key, b"Test Using Larger Than Block-Size Key - Hash Key First", 64);
    assert_eq!(hex(&tag), "aa4ae5e15272d00e95705637ce8a3b55ed402112");
}

#[test]
fn block_sized_key_lengths() {
    let short = compute_block_sized_key(b"key", 64);
    assert_eq!(short.len(), 64);
    assert_eq!(&short[..3], b"key");
    assert!(short[3..].iter().all(|b| *b == 0));

    let exact = vec![7u8; 64];
    assert_eq!(compute_block_sized_key(&exact, 64), exact);

    let long = vec![0xaau8; 80];
    let sized = compute_block_sized_key(&long, 64);
    assert_eq!(sized.len(), 64);
    assert_eq!(&sized[..20], &hash(&long)[..]);
    assert!(sized[20..].iter().all(|b| *b == 0));
}

#[test]
fn hotp_rfc4226_vectors() {
    let secret = b"12345678901234567890";
    let expected: [u32; 10] = [
        755224, 287082, 359152, 969429, 338314, 254676, 287922, 162583, 399871, 520489,
    ];
    for (counter, code) in expected.iter().enumerate() {
        assert_eq!(hotp(secret, counter as u64, 6), *code);
    }
}

#[test]
fn truncation_of_rfc4226_example_tag() {
    let tag = unhex("1f8698690e02ca16618550ef7f19da8e945b555a");
    assert_eq!(hotp_from_hmac(&tag, 6), 872921);
    assert_eq!(hotp_from_hmac(&tag, 9), 357872921);
}

#[test]
fn truncation_masks_top_bit_and_reaches_last_bytes() {
    // offset 15: the last four bytes are read, and 0xff's top bit is cleared.
    let mut tag = vec![0u8; 20];
    tag[15] = 0xff;
    tag[16] = 0xff;
    tag[17] = 0xff;
    tag[18] = 0xff;
    tag[19] = 0xff;
    assert_eq!(hotp_from_hmac(&tag, 9), 0x7fff_ffff % 1_000_000_000);
    // offset 0
    let mut tag = vec![0u8; 20];
    tag[0] = 0x80;
    tag[3] = 0x05;
    tag[19] = 0x10;
    assert_eq!(hotp_from_hmac(&tag, 6), 5);
}

#[test]
fn totp_rfc6238_sha1_vectors() {
    let secret = b"12345678901234567890";
    let cases: [(u64, u32); 6] = [
        (59, 94287082),
        (1111111109, 7081804),
        (1111111111, 14050471),
        (1234567890, 89005924),
        (2000000000, 69279037),
        (20000000000, 65353130),
    ];
    for (t, code) in cases.iter() {
        assert_eq!(totp_at(secret, 8, 30, *t), *code);
    }
}

#[test]
fn totp_same_window_same_code() {
    let secret = b"12345678901234567890";
    assert_eq!(totp_at(secret, 6, 30, 60), totp_at(secret, 6, 30, 89));
    assert_eq!(totp_at(secret, 6, 30, 60), hotp(secret, 2, 6));
    assert_eq!(totp_at(secret, 6, 30, 90), hotp(secret, 3, 6));
}

#[test]
fn digit_count_bounds() {
    let secret = b"12345678901234567890";
    for counter in 0..50u64 {
        assert!(hotp(secret, counter, 1) <= 9);
        assert!(hotp(secret, counter, 8) <= 99_999_999);
        assert_eq!(format_code(hotp(secret, counter, 8), 8).len(), 8);
    }
}

#[test]
fn format_code_zero_pads() {
    assert_eq!(format_code(7081804, 8), "07081804");
    assert_eq!(format_code(5, 1), "5");
    assert_eq!(format_code(0, 6), "000000");
    assert_eq!(format_code(755224, 6), "755224");
    assert_eq!(code_digits(42, 4), b"0042".to_vec());
}

#[test]
fn generate_totp_matches_clock() {
    let secret = b"12345678901234567890";
    let before = SystemTime::now().duration_since(UNIX_EPOCH).unwrap().as_secs();
    let code = generate_totp(secret, 6, 30).expect("clock after the epoch");
    let after = SystemTime::now().duration_since(UNIX_EPOCH).unwrap().as_secs();
    assert!(code < 1_000_000);
    assert!(code == totp_at(secret, 6, 30, before) || code == totp_at(secret, 6, 30, after));
}

#[test]
fn totp_error_keeps_cause() {
    let e = TOTPError::new("corrupted DB".to_string());
    assert_eq!(e.cause, "corrupted DB");
}

#[test]
fn truncation_in_bounds_for_many_tags() {
    let mut state: u64 = 0x9e3779b97f4a7c15;
    for _ in 0..2000 {
        let mut tag = [0u8; 20];
        for b in tag.iter_mut() {
            state = state.wrapping_mul(6364136223846793005).wrapping_add(1442695040888963407);
            *b = (state >> 56) as u8;
        }
        let offset = (tag[19] & 0x0f) as usize;
        assert!(offset + 3 <= 19);
        let expected = (u32::from_be_bytes([tag[offset], tag[offset + 1], tag[offset + 2], tag[offset + 3]])
            & 0x7fff_ffff)
            % 1_000_000;
        assert_eq!(hotp_from_hmac(&tag, 6), expected);
    }
}

#[test]
fn generic_hmac_with_sha1() {
    assert_eq!(Sha1::digest_size(), 20);
    assert_eq!(Sha1::digest(b"abc"), hash(b"abc").to_vec());
    let msg = b"The quick brown fox jumps over the lazy dog";
    let tag = hmac_with::<Sha1>(b"key", msg, 64);
    assert_eq!(hex(&tag), "de7c9b85b8b78aa6bc8a7a36f70a90701c9db4d9");
    assert_eq!(tag, hmac(b"key", msg, 64).to_vec());
}
