use vstd::prelude::*;

verus! {

/// Structural problems with a container, detected before any chunk is opened.
#[derive(Debug, Clone, Copy, PartialEq, Eq, Structural)]
pub enum FormatError {
    BadMagic,
    UnsupportedVersion,
    Truncated,
    Malformed,
    NoRecipients,
}

/// Problems with choosing a recipient or obtaining its symmetric key.
#[derive(Debug, Clone, Copy, PartialEq, Eq, Structural)]
pub enum KeyError {
    UnknownIdentity,
    Unavailable,
    Mismatch,
}

/// Evidence of tampering found while opening the chunk stream.
#[derive(Debug, Clone, Copy, PartialEq, Eq, Structural)]
pub enum AuthError {
    TagMismatch,
    TrailingData,
}

/// Every way an unseal operation can fail.
#[derive(Debug, Clone, Copy, PartialEq, Eq, Structural)]
pub enum UnsealError {
    Format(FormatError),
    Key(KeyError),
    Auth(AuthError),
}

} // verus!
