//! Error types of the core.

use crate::crypto::pairing::{digit_char, digit_text};
use vstd::prelude::*;
use vstd::string::StringExecFns;

verus! {

/// Errors of the Realm Guard core. Each variant carries a human-readable
/// message.
#[derive(Debug)]
#[non_exhaustive]
pub enum Error {
    /// Invalid cryptographic operation (decryption, key wrapping…).
    Crypto(String),
    /// Invalid CRDT state or delta.
    Crdt(String),
    /// (De)serialisation.
    Serialization(String),
    /// OPAQUE authentication (register/login, invalid message, password…).
    Auth(String),
}

/// The text of an error: its kind, then its message.
pub open spec fn error_text(e: Error) -> Seq<char> {
    match e {
        Error::Crypto(m) => "crypto error: "@ + m@,
        Error::Crdt(m) => "crdt error: "@ + m@,
        Error::Serialization(m) => "serialization error: "@ + m@,
        Error::Auth(m) => "auth error: "@ + m@,
    }
}

impl Error {
    /// The text of the error, as displayed: its kind, then its message.
    pub fn to_text(&self) -> (r: String)
        ensures
            r@ == error_text(*self),
    {
        let (mut text, m) = match self {
            Error::Crypto(m) => (String::from_str("crypto error: "), m),
            Error::Crdt(m) => (String::from_str("crdt error: "), m),
            Error::Serialization(m) => (String::from_str("serialization error: "), m),
            Error::Auth(m) => (String::from_str("auth error: "), m),
        };
        text.append(m.as_str());
        text
    }

    /// A cryptographic error carrying `message`.
    pub(crate) fn crypto(message: &str) -> (e: Self)
        ensures
            e matches Error::Crypto(m) && m@ == message@,
    {
        Error::Crypto(String::from_str(message))
    }
}

/// The decimal text of `n`, without leading zeros.
pub open spec fn decimal_text(n: nat) -> Seq<char>
    decreases n,
{
    if n < 10 {
        seq![digit_char(n)]
    } else {
        decimal_text(n / 10) + seq![digit_char(n % 10)]
    }
}

/// Appends the decimal text of `n` to `s`.
fn append_decimal(s: &mut String, n: usize)
    ensures
        final(s)@ == old(s)@ + decimal_text(n as nat),
    decreases n,
{
    if n >= 10 {
        append_decimal(s, n / 10);
    }
    s.append(digit_text((n % 10) as u64));
    assert(s@ =~= old(s)@ + decimal_text(n as nat));
}

/// `prefix`, then the decimal text of `n`, then `suffix`.
pub(crate) fn message_with_number(prefix: &str, n: usize, suffix: &str) -> (r: String)
    ensures
        r@ == prefix@ + decimal_text(n as nat) + suffix@,
{
    let mut m = String::from_str(prefix);
    append_decimal(&mut m, n);
    m.append(suffix);
    m
}

/// Result type of the core.
pub type Result<T> = core::result::Result<T, Error>;

} // verus!
