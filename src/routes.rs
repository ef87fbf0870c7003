use vstd::prelude::*;

verus! {

/// The pages of the web front end.
#[derive(Debug, PartialEq, Eq)]
pub enum AppRoute {
    Upload,
    Decrypt(String),
    Encrypt,
}

/// The root page, which lays out the routed pages.
#[derive(Debug, Clone, Copy, PartialEq, Eq, Structural)]
pub struct Index;

/// What the IRMA app is asked to disclose to obtain a user secret key.
pub struct IrmaSession {
    pub attribute_identifier: String,
    pub attribute_value: String,
    pub timestamp: u64,
}

} // verus!
