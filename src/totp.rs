//! HOTP (RFC 4226) dynamic truncation and TOTP (RFC 6238) time stepping.
use vstd::prelude::*;
use crate::hmac::{hmac, hmac_sha1};
use crate::sha1::{be_u64_bytes, BLOCK_SIZE};
use std::time::{SystemTime, UNIX_EPOCH};

verus! {

/// `10^d`.
pub open spec fn pow10(d: nat) -> nat
    decreases d,
{
    if d == 0 {
        1
    } else {
        10 * pow10((d - 1) as nat)
    }
}

/// Offset of the four truncation bytes: the low nibble of the tag's byte 19.
pub open spec fn truncation_offset(tag: Seq<u8>) -> int {
    (tag[19] & 0x0f) as int
}

/// The 31-bit value read big-endian from the four bytes at the truncation
/// offset, with the top bit of the first byte cleared.
pub open spec fn truncated_value(tag: Seq<u8>) -> nat {
    let o = truncation_offset(tag);
    ((tag[o] & 0x7f) as nat) * 0x100_0000 + (tag[o + 1] as nat) * 0x1_0000 + (tag[o + 2] as nat)
        * 0x100 + tag[o + 3] as nat
}

/// The HOTP code of an HMAC tag: the truncated value modulo `10^digits`.
pub open spec fn code_of_tag(tag: Seq<u8>, digits: nat) -> nat {
    truncated_value(tag) % pow10(digits)
}

/// The HOTP code of `secret` at `counter`.
pub open spec fn hotp_code(secret: Seq<u8>, counter: u64, digits: nat) -> nat {
    code_of_tag(hmac_sha1(secret, be_u64_bytes(counter), BLOCK_SIZE as nat), digits)
}

/// The TOTP code of `secret` at `unix_seconds`, with time steps of `step_seconds`.
pub open spec fn totp_code(secret: Seq<u8>, digits: nat, step_seconds: u64, unix_seconds: u64) -> nat
    recommends
        step_seconds > 0,
{
    hotp_code(secret, (unix_seconds / step_seconds) as u64, digits)
}

/// Digit `j` (from the left) of `code` written with `width` decimal digits, as ASCII.
pub open spec fn digit_at(code: nat, width: nat, j: int) -> u8 {
    (48 + (code / pow10((width - 1 - j) as nat)) % 10) as u8
}

/// `code` written in decimal with exactly `width` digits, zero-padded on the left.
pub open spec fn decimal_ascii(code: nat, width: nat) -> Seq<u8> {
    Seq::new(width, |j: int| digit_at(code, width, j))
}

/// Error of the surrounding account store, with its cause in words.
pub struct TOTPError {
    pub cause: String,
}

impl TOTPError {
    /// An error with the given cause.
    pub fn new(cause: String) -> (r: TOTPError)
        ensures
            r.cause@ == cause@,
    {
        TOTPError { cause }
    }
}

proof fn lemma_truncation_bytes(b0: u8, b1: u8, b2: u8, b3: u8)
    by (bit_vector)
    ensures
        ((((b0 & 0x7f) as u32) << 24u32) | ((b1 as u32) << 16u32) | ((b2 as u32) << 8u32) | (
        b3 as u32)) == ((b0 & 0x7f) as u32) * 0x100_0000u32 + (b1 as u32) * 0x1_0000u32 + (
        b2 as u32) * 0x100u32 + (b3 as u32),
{
}

proof fn lemma_low_nibble(b: u8)
    by (bit_vector)
    ensures
        b & 0x0f < 16,
        b & 0x7f < 0x80,
{
}

/// Dynamic truncation stays inside a 20-byte tag: the offset is in `[0, 15]`,
/// so the last byte read is at most byte 19, and the value read fits in 31 bits.
pub proof fn lemma_truncation_in_bounds(tag: Seq<u8>)
    requires
        tag.len() == 20,
    ensures
        0 <= truncation_offset(tag) <= 15,
        truncation_offset(tag) + 3 <= 19,
        truncated_value(tag) < 0x8000_0000,
{
    lemma_low_nibble(tag[19]);
    let o = truncation_offset(tag);
    lemma_low_nibble(tag[o]);
}

/// `10^digits` as a machine integer.
fn pow10_u32(digits: u32) -> (r: u32)
    requires
        digits <= 9,
    ensures
        r as nat == pow10(digits as nat),
{
    let mut r: u32 = 1;
    let mut i: u32 = 0;
    while i < digits
        invariant
            i <= digits <= 9,
            r as nat == pow10(i as nat),
        decreases digits - i,
    {
        proof {
            lemma_pow10_bounded((i + 1) as nat);
        }
        r = r * 10;
        i += 1;
    }
    r
}

proof fn lemma_pow10_bounded(a: nat)
    requires
        a <= 9,
    ensures
        pow10(a) <= 1_000_000_000,
{
    lemma_pow10_grows(a, 9);
    lemma_pow10_positive((9 - a) as nat);
    reveal_with_fuel(pow10, 10);
    assert(pow10(a) <= pow10(a) * pow10((9 - a) as nat)) by (nonlinear_arith)
        requires
            pow10((9 - a) as nat) >= 1,
    ;
}

proof fn lemma_pow10_grows(a: nat, b: nat)
    requires
        a <= b,
    ensures
        pow10(a) * pow10((b - a) as nat) == pow10(b),
        pow10(a) >= 1,
    decreases b - a,
{
    lemma_pow10_positive(a);
    if a < b {
        lemma_pow10_grows(a, (b - 1) as nat);
        let x = pow10(a);
        let y = pow10((b - a - 1) as nat);
        assert(pow10((b - a) as nat) == 10 * y);
        assert(pow10(b) == 10 * pow10((b - 1) as nat));
        assert(pow10(((b - 1) as nat - a) as nat) == y);
        assert(x * y == pow10((b - 1) as nat));
        assert(x * (10 * y) == 10 * (x * y)) by (nonlinear_arith);
    } else {
        assert(pow10(0) == 1);
        assert(pow10((b - a) as nat) == 1);
    }
}

proof fn lemma_pow10_positive(a: nat)
    ensures
        pow10(a) >= 1,
    decreases a,
{
    if a > 0 {
        lemma_pow10_positive((a - 1) as nat);
    }
}

/// Extracts the HOTP code of `digits` decimal digits from an HMAC tag
/// by dynamic truncation.
pub fn hotp_from_hmac(hmac_result: &[u8], digits: u32) -> (r: u32)
    requires
        hmac_result@.len() >= 20,
        1 <= digits <= 9,
    ensures
        r as nat == code_of_tag(hmac_result@, digits as nat),
        (r as nat) < pow10(digits as nat),
{
    proof {
        lemma_truncation_in_bounds(hmac_result@.subrange(0, 20));
    }
    let offset = (hmac_result[19] & 0xf) as usize;
    let b0 = hmac_result[offset];
    let b1 = hmac_result[offset + 1];
    let b2 = hmac_result[offset + 2];
    let b3 = hmac_result[offset + 3];
    proof {
        lemma_truncation_bytes(b0, b1, b2, b3);
    }
    let otp = (((b0 & 0x7f) as u32) << 24) | ((b1 as u32) << 16) | ((b2 as u32) << 8) | (b3 as u32);
    let power_of_10 = pow10_u32(digits);
    proof {
        lemma_pow10_positive(digits as nat);
    }
    otp % power_of_10
}

/// The HOTP code of `secret` at `counter`: HMAC-SHA1 of the counter's eight
/// big-endian bytes, then dynamic truncation.
pub fn hotp(secret: &[u8], counter: u64, digits: u32) -> (r: u32)
    requires
        secret@.len() <= crate::hmac::max_input(),
        1 <= digits <= 9,
    ensures
        r as nat == hotp_code(secret@, counter, digits as nat),
        (r as nat) < pow10(digits as nat),
{
    let counter_bytes: [u8; 8] = [
        ((counter >> 56) & 0xff) as u8,
        ((counter >> 48) & 0xff) as u8,
        ((counter >> 40) & 0xff) as u8,
        ((counter >> 32) & 0xff) as u8,
        ((counter >> 24) & 0xff) as u8,
        ((counter >> 16) & 0xff) as u8,
        ((counter >> 8) & 0xff) as u8,
        (counter & 0xff) as u8,
    ];
    assert(counter_bytes@ =~= be_u64_bytes(counter));
    let tag = hmac(secret, &counter_bytes, BLOCK_SIZE);
    hotp_from_hmac(&tag, digits)
}

/// The TOTP code of `secret` at the given time: HOTP at counter
/// `unix_seconds / step_seconds`.
pub fn totp_at(secret: &[u8], digits: u32, step_seconds: u64, unix_seconds: u64) -> (r: u32)
    requires
        secret@.len() <= crate::hmac::max_input(),
        1 <= digits <= 9,
        step_seconds > 0,
    ensures
        r as nat == totp_code(secret@, digits as nat, step_seconds, unix_seconds),
        (r as nat) < pow10(digits as nat),
{
    hotp(secret, unix_seconds / step_seconds, digits)
}

/// Relies on `SystemTime::now` and `SystemTime::duration_since(UNIX_EPOCH)`:
/// whole seconds since the Unix epoch, or `None` when the clock reads a time
/// before it. Nothing is promised of the value.
#[verifier::external_body]
fn unix_time_seconds() -> (r: Option<u64>) {
    match SystemTime::now().duration_since(UNIX_EPOCH) {
        Ok(d) => Some(d.as_secs()),
        Err(_) => None,
    }
}

/// The TOTP code of `secret` for the current time, or `None` when the
/// system clock cannot be read as a time after the Unix epoch.
pub fn generate_totp(secret: &[u8], digits: u32, step_seconds: u64) -> (r: Option<u32>)
    requires
        secret@.len() <= crate::hmac::max_input(),
        1 <= digits <= 9,
        step_seconds > 0,
    ensures
        r matches Some(code) ==> exists|t: u64|
            code as nat == totp_code(secret@, digits as nat, step_seconds, t),
        r matches Some(code) ==> (code as nat) < pow10(digits as nat),
{
    match unix_time_seconds() {
        Some(now) => Some(totp_at(secret, digits, step_seconds, now)),
        None => None,
    }
}

/// Relies on `String::from_utf8`: ASCII bytes are valid UTF-8, and each
/// decodes to the character of the same code.
#[verifier::external_body]
fn ascii_string(bytes: Vec<u8>) -> (r: String)
    requires
        forall|i: int| 0 <= i < bytes@.len() ==> bytes@[i] < 0x80,
    ensures
        r@ == bytes@.map_values(|b: u8| b as char),
{
    String::from_utf8(bytes).unwrap()
}

/// The ASCII digits of `code`, zero-padded on the left to `digits` digits.
pub fn code_digits(code: u32, digits: u32) -> (r: Vec<u8>)
    requires
        1 <= digits <= 9,
    ensures
        r@ == decimal_ascii(code as nat, digits as nat),
        r@.len() == digits,
{
    let mut div: u32 = pow10_u32(digits - 1);
    proof {
        lemma_pow10_positive((digits - 1) as nat);
    }
    let mut r: Vec<u8> = Vec::new();
    let mut j: u32 = 0;
    while j < digits
        invariant
            j <= digits <= 9,
            j < digits ==> div as nat == pow10((digits - 1 - j) as nat),
            div >= 1,
            r@ == decimal_ascii(code as nat, digits as nat).subrange(0, j as int),
        decreases digits - j,
    {
        let d = ((code / div) % 10) as u8;
        r.push(48 + d);
        proof {
            if j + 1 < digits {
                lemma_pow10_positive((digits - 1 - (j + 1)) as nat);
                assert(pow10((digits - 1 - j) as nat) == 10 * pow10((digits - 1 - (j + 1)) as nat));
            }
        }
        if j + 1 < digits {
            div = div / 10;
        }
        j += 1;
        assert(r@ =~= decimal_ascii(code as nat, digits as nat).subrange(0, j as int));
    }
    assert(r@ =~= decimal_ascii(code as nat, digits as nat));
    r
}

/// `code` rendered as a decimal string of exactly `digits` characters,
/// zero-padded on the left.
pub fn format_code(code: u32, digits: u32) -> (r: String)
    requires
        1 <= digits <= 9,
    ensures
        r@ == decimal_ascii(code as nat, digits as nat).map_values(|b: u8| b as char),
        r@.len() == digits,
{
    let bytes = code_digits(code, digits);
    assert forall|i: int| 0 <= i < bytes@.len() implies bytes@[i] < 0x80 by {
        assert(bytes@[i] == digit_at(code as nat, digits as nat, i));
    }
    ascii_string(bytes)
}

/// Two instants in the same time window (same `t / step_seconds`) give the
/// same TOTP code.
pub proof fn lemma_same_window_same_code(
    secret: Seq<u8>,
    digits: nat,
    step_seconds: u64,
    t1: u64,
    t2: u64,
)
    requires
        step_seconds > 0,
        t1 / step_seconds == t2 / step_seconds,
    ensures
        totp_code(secret, digits, step_seconds, t1) == totp_code(secret, digits, step_seconds, t2),
{
}

/// A code of `digits` digits lies in `[0, 10^digits)` and renders to exactly
/// `digits` ASCII decimal characters; one digit gives codes in `[0, 9]`,
/// eight digits give codes in `[0, 99999999]`.
pub proof fn lemma_code_range(tag: Seq<u8>, digits: nat)
    requires
        tag.len() == 20,
        1 <= digits <= 9,
    ensures
        code_of_tag(tag, digits) < pow10(digits),
        digits == 1 ==> code_of_tag(tag, digits) <= 9,
        digits == 8 ==> code_of_tag(tag, digits) <= 99_999_999,
        decimal_ascii(code_of_tag(tag, digits), digits).len() == digits,
        forall|j: int|
            0 <= j < digits ==> 48 <= #[trigger] decimal_ascii(code_of_tag(tag, digits), digits)[j]
                <= 57,
{
    lemma_pow10_positive(digits);
    reveal_with_fuel(pow10, 9);
    let code = code_of_tag(tag, digits);
    assert forall|j: int| 0 <= j < digits implies 48 <= #[trigger] decimal_ascii(code, digits)[j]
        <= 57 by {
        lemma_pow10_positive((digits - 1 - j) as nat);
        assert((code / pow10((digits - 1 - j) as nat)) % 10 < 10);
    }
}

} // verus!
