//! Time-based one-time passwords: SHA-1, HMAC-SHA1 and HOTP/TOTP derivation,
//! each proved against a mathematical model of the algorithm.
pub mod hmac;
pub mod sha1;
pub mod store;
pub mod totp;

pub use hmac::{compute_block_sized_key, hmac};
pub use sha1::hash;
pub use totp::{code_digits, format_code, generate_totp, hotp, hotp_from_hmac, totp_at, TOTPError};
