use vstd::prelude::*;

use ibe::kem::mkem::MultiRecipient;
use ibe::Compress;

use crate::container::{metadata_wf, MetadataView, Policy, PolicyView};
use crate::error::KeyError;

verus! {

/// Size of an encoded CGWKV user secret key.
pub const USK_LEN: usize = 576;
/// Size of one recipient's encapsulated key: a CGWKV ciphertext, the wrapped
/// message key, and the wrapping tag and nonce.
pub const CT_LEN: usize = 284;
/// Size of the shared secret, which is the message's symmetric key.
pub const SECRET_LEN: usize = 32;

/// The message key that multi-recipient CGWKV decapsulation recovers from an
/// encoded user secret key and an encapsulated key; `None` when an encoding is
/// invalid or the key does not unwrap.
pub uninterp spec fn mkem_decapsulate(usk: Seq<u8>, ct: Seq<u8>) -> Option<Seq<u8>>;

/// A user secret key, as issued for one identity and one validity timestamp.
pub struct UserSecretKey {
    pub identity: String,
    pub timestamp: u64,
    pub key: Vec<u8>,
}

/// The mathematical content of a [`UserSecretKey`].
pub struct UserSecretKeyView {
    pub identity: Seq<char>,
    pub timestamp: u64,
    pub key: Seq<u8>,
}

impl View for UserSecretKey {
    type V = UserSecretKeyView;

    open spec fn view(&self) -> UserSecretKeyView {
        UserSecretKeyView { identity: self.identity@, timestamp: self.timestamp, key: self.key@ }
    }
}

/// Relies on `MultiRecipient::multi_decaps` of ibe for CGWKV, after decoding
/// both inputs with `Compress::from_bytes`: deterministic, and it yields the
/// 32-byte shared secret or fails.
#[verifier::external_body]
fn mkem_decaps(usk: &[u8], ct: &[u8]) -> (r: Option<Vec<u8>>)
    requires
        usk@.len() == USK_LEN,
        ct@.len() == CT_LEN,
    ensures
        match r {
            Some(k) => mkem_decapsulate(usk@, ct@) == Some(k@) && k@.len() == SECRET_LEN,
            None => mkem_decapsulate(usk@, ct@) is None,
        },
{
    let usk: [u8; 576] = usk.try_into().ok()?;
    let ct: [u8; 284] = ct.try_into().ok()?;
    let usk = Option::from(ibe::kem::cgw_kv::UserSecretKey::from_bytes(&usk))?;
    let ct = Option::from(ibe::kem::mkem::Ciphertext::<ibe::kem::cgw_kv::CGWKV>::from_bytes(&ct))?;
    let ss = ibe::kem::cgw_kv::CGWKV::multi_decaps(None, &usk, &ct).ok()?;
    Some(ss.0.to_vec())
}

/// The symmetric key that `usk` yields for the recipient `identity` with `policy`.
pub open spec fn spec_resolve(identity: Seq<char>, policy: PolicyView, usk: UserSecretKeyView) -> Result<
    Seq<u8>,
    KeyError,
> {
    if usk.identity != identity || usk.timestamp != policy.timestamp {
        Err(KeyError::Mismatch)
    } else if usk.key.len() != USK_LEN || policy.encapsulated_key.len() != CT_LEN {
        Err(KeyError::Mismatch)
    } else {
        match mkem_decapsulate(usk.key, policy.encapsulated_key) {
            Some(k) => Ok(k),
            None => Err(KeyError::Mismatch),
        }
    }
}

/// Derives the message key for recipient `identity` from its policy and a user secret key.
/// A key bound to another identity or timestamp is rejected before any decapsulation.
pub fn resolve(identity: &String, policy: &Policy, usk: &UserSecretKey) -> (r: Result<Vec<u8>, KeyError>)
    ensures
        match r {
            Ok(k) => spec_resolve(identity@, policy@, usk@) == Ok::<Seq<u8>, KeyError>(k@)
                && k@.len() == SECRET_LEN,
            Err(e) => spec_resolve(identity@, policy@, usk@) == Err::<Seq<u8>, KeyError>(e),
        },
{
    if usk.identity != *identity || usk.timestamp != policy.timestamp {
        return Err(KeyError::Mismatch);
    }
    if usk.key.len() != USK_LEN || policy.encapsulated_key.len() != CT_LEN {
        return Err(KeyError::Mismatch);
    }
    match mkem_decaps(usk.key.as_slice(), policy.encapsulated_key.as_slice()) {
        Some(k) => Ok(k),
        None => Err(KeyError::Mismatch),
    }
}

/// A user secret key labelled with one recipient's identity is refused, before
/// any decapsulation, for every other recipient of the same container: the
/// identities of a container are distinct, and `resolve` compares the label.
/// Keys whose label is not to be trusted are caught later, by decapsulation
/// failing to unwrap the message key.
pub proof fn lemma_key_for_other_recipient_rejected(m: MetadataView, a: int, b: int, usk: UserSecretKeyView)
    requires
        metadata_wf(m),
        0 <= a < m.recipients.len(),
        0 <= b < m.recipients.len(),
        a != b,
        usk.identity == m.recipients[a].0,
    ensures
        spec_resolve(m.recipients[b].0, m.recipients[b].1, usk) == Err::<Seq<u8>, KeyError>(KeyError::Mismatch),
{
    if a < b {
        assert(m.recipients[a].0 != m.recipients[b].0);
    } else {
        assert(m.recipients[b].0 != m.recipients[a].0);
    }
}

} // verus!
