//! Errors reported to clients.

use vstd::prelude::*;

use crate::auth::hex_digit;
use crate::text::push_char;

verus! {

/// A client-facing error.
#[derive(Debug, Clone, Copy, PartialEq, Eq, Structural)]
pub enum ClientError {
    NotSupported,
    LoginFailed,
    NotLoggedIn,
    AlreadyLoggedIn,
    MojangRequestMissing,
    NotPermitted,
    NotBanned,
    Banned,
    RateLimited,
    PrivateMessageNotAccepted,
    EmptyMessage,
    MessageTooLong,
    InvalidCharacter(char),
    InvalidId,
    Internal,
}

/// Lowercase hex digits of `n`, without leading zeros.
pub open spec fn hex_of(n: nat) -> Seq<char>
    decreases n,
{
    if n < 16 {
        seq![hex_digit(n as u8)]
    } else {
        hex_of(n / 16).push(hex_digit((n % 16) as u8))
    }
}

/// The escaped form of a character: tab, carriage return and line feed
/// as `\t`, `\r`, `\n`; a backslash or quote behind a backslash; other
/// printable ASCII as itself; anything else as `\u{...}` with the code
/// point in hex.
pub open spec fn escaped_char(c: char) -> Seq<char> {
    if c == '\t' {
        seq!['\\', 't']
    } else if c == '\r' {
        seq!['\\', 'r']
    } else if c == '\n' {
        seq!['\\', 'n']
    } else if c == '\\' || c == '\'' || c == '"' {
        seq!['\\', c]
    } else if ' ' <= c <= '~' {
        seq![c]
    } else {
        seq!['\\', 'u', '{'] + hex_of(c as nat) + seq!['}']
    }
}

/// Relies on `char::escape_default`, as its documentation describes it.
#[verifier::external_body]
fn escape_char(c: char) -> (r: String)
    ensures
        r@ == escaped_char(c),
{
    c.escape_default().to_string()
}

/// Human-readable text of an error.
pub open spec fn error_text(e: ClientError) -> Seq<char> {
    match e {
        ClientError::NotSupported => "method not supported"@,
        ClientError::LoginFailed => "login failed"@,
        ClientError::NotLoggedIn => "not logged in"@,
        ClientError::AlreadyLoggedIn => "already logged in"@,
        ClientError::MojangRequestMissing => "mojang request missing"@,
        ClientError::NotPermitted => "not permitted"@,
        ClientError::NotBanned => "not banned"@,
        ClientError::Banned => "banned"@,
        ClientError::RateLimited => "rate limited"@,
        ClientError::PrivateMessageNotAccepted => "private message not accepted"@,
        ClientError::EmptyMessage => "empty message"@,
        ClientError::MessageTooLong => "message was too long"@,
        ClientError::InvalidCharacter(c) => "message contained invalid character: `"@
            + escaped_char(c) + seq!['`'],
        ClientError::InvalidId => "invalid id"@,
        ClientError::Internal => "internal error"@,
    }
}

impl ClientError {
    /// The human-readable text of this error.
    pub fn to_string(&self) -> (r: String)
        ensures
            r@ == error_text(*self),
    {
        match self {
            ClientError::NotSupported => String::from_str("method not supported"),
            ClientError::LoginFailed => String::from_str("login failed"),
            ClientError::NotLoggedIn => String::from_str("not logged in"),
            ClientError::AlreadyLoggedIn => String::from_str("already logged in"),
            ClientError::MojangRequestMissing => String::from_str("mojang request missing"),
            ClientError::NotPermitted => String::from_str("not permitted"),
            ClientError::NotBanned => String::from_str("not banned"),
            ClientError::Banned => String::from_str("banned"),
            ClientError::RateLimited => String::from_str("rate limited"),
            ClientError::PrivateMessageNotAccepted => String::from_str(
                "private message not accepted",
            ),
            ClientError::EmptyMessage => String::from_str("empty message"),
            ClientError::MessageTooLong => String::from_str("message was too long"),
            ClientError::InvalidCharacter(c) => {
                let mut s = String::from_str("message contained invalid character: `");
                let e = escape_char(*c);
                s.append(e.as_str());
                push_char(&mut s, '`');
                s
            },
            ClientError::InvalidId => String::from_str("invalid id"),
            ClientError::Internal => String::from_str("internal error"),
        }
    }
}

} // verus!
