use vstd::prelude::*;

use crate::container::{metadata_wf, Metadata, MetadataView, Policy, PolicyView};
use crate::error::KeyError;

verus! {

/// Read-only index from recipient identity to policy, in container order.
pub struct PolicyRegistry {
    metadata: Metadata,
}

/// The identities of a recipient list, in order.
pub open spec fn identities_of(rs: Seq<(Seq<char>, PolicyView)>) -> Seq<Seq<char>> {
    rs.map_values(|r: (Seq<char>, PolicyView)| r.0)
}

/// Whether some recipient has identity `id`.
pub open spec fn has_identity(m: MetadataView, id: Seq<char>) -> bool {
    exists|k: int| 0 <= k < m.recipients.len() && #[trigger] m.recipients[k].0 == id
}

impl View for PolicyRegistry {
    type V = MetadataView;

    closed spec fn view(&self) -> MetadataView {
        self.metadata@
    }
}

impl PolicyRegistry {
    /// Registries are built from parsed metadata only.
    pub open spec fn wf(&self) -> bool {
        metadata_wf(self@) && self@.recipients.len() > 0
    }

    /// Takes ownership of parsed metadata.
    pub fn new(metadata: Metadata) -> (r: PolicyRegistry)
        requires
            metadata_wf(metadata@),
            metadata@.recipients.len() > 0,
        ensures
            r@ == metadata@,
            r.wf(),
    {
        PolicyRegistry { metadata }
    }

    /// Number of recipients.
    pub fn len(&self) -> (r: usize)
        ensures
            r == self@.recipients.len(),
    {
        self.metadata.recipients.len()
    }

    /// The per-message base value for chunk nonces.
    pub fn base_nonce(&self) -> (r: &Vec<u8>)
        ensures
            r@ == self@.base_nonce,
    {
        &self.metadata.base_nonce
    }

    /// The identity of recipient `k`.
    pub fn identity_at(&self, k: usize) -> (r: &String)
        requires
            k < self@.recipients.len(),
        ensures
            r@ == self@.recipients[k as int].0,
    {
        &self.metadata.recipients[k].identity
    }

    /// All recipient identities, in the order the container lists them.
    pub fn identities(&self) -> (r: Vec<String>)
        ensures
            r@.map_values(|s: String| s@) == identities_of(self@.recipients),
    {
        let rs = &self.metadata.recipients;
        let mut out: Vec<String> = Vec::new();
        let mut k: usize = 0;
        while k < rs.len()
            invariant
                k <= rs@.len(),
                self.metadata.recipients == *rs,
                out@.map_values(|s: String| s@) =~= identities_of(self@.recipients).subrange(0, k as int),
            decreases rs@.len() - k,
        {
            assert(self@.recipients[k as int] == rs@[k as int]@);
            let ghost before = out@;
            out.push(rs[k].identity.clone());
            assert(out@.map_values(|s: String| s@) =~= before.map_values(|s: String| s@).push(rs@[k as int].identity@));
            k = k + 1;
            assert(out@.map_values(|s: String| s@) =~= identities_of(self@.recipients).subrange(0, k as int));
        }
        out
    }

    /// The policy of `identity`.
    pub fn policy_for(&self, identity: &String) -> (r: Result<&Policy, KeyError>)
        ensures
            match r {
                Ok(p) => exists|k: int|
                    0 <= k < self@.recipients.len() && #[trigger] self@.recipients[k].0 == identity@
                        && self@.recipients[k].1 == p@,
                Err(e) => e == KeyError::UnknownIdentity && !has_identity(self@, identity@),
            },
    {
        let rs = &self.metadata.recipients;
        let mut k: usize = 0;
        while k < rs.len()
            invariant
                k <= rs@.len(),
                self.metadata.recipients == *rs,
                forall|j: int| 0 <= j < k ==> #[trigger] self@.recipients[j].0 != identity@,
            decreases rs@.len() - k,
        {
            if rs[k].identity == *identity {
                assert(self@.recipients[k as int].0 == identity@);
                return Ok(&rs[k].policy);
            }
            k = k + 1;
        }
        Err(KeyError::UnknownIdentity)
    }
}

} // verus!
