use vstd::prelude::*;

use crate::container::{
    attributes_view, metadata_wf, parse_header, spec_header, Attribute, MetadataView, PolicyView,
};
use crate::error::{KeyError, UnsealError};
use crate::registry::{has_identity, identities_of, PolicyRegistry};
use crate::resolver::{resolve, spec_resolve, UserSecretKey};
use crate::stream::{decrypt_chunks, spec_decrypt};

verus! {

/// Where an unseal session stands. Parsing, and streaming once begun, run to
/// completion within one call, so they are never observed as states.
#[derive(Debug, Clone, Copy, PartialEq, Eq, Structural)]
pub enum SessionState {
    AwaitingIdentitySelection,
    AwaitingSecretKey,
    Decapsulated,
    Completed,
    Failed(UnsealError),
}

/// What the key-issuance service is asked for: the chosen recipient's
/// attributes and its policy's timestamp.
pub struct KeyRequest {
    pub identity: String,
    pub attributes: Vec<Attribute>,
    pub timestamp: u64,
}

/// The policy of identity `id` (meaningful when `id` is a recipient).
pub open spec fn policy_of(m: MetadataView, id: Seq<char>) -> PolicyView {
    m.recipients[choose|k: int| 0 <= k < m.recipients.len() && #[trigger] m.recipients[k].0 == id].1
}

/// The chunk stream of a container: what follows its header.
pub open spec fn body_of(source: Seq<u8>) -> Seq<u8> {
    match spec_header(source) {
        Ok((_, q)) => source.subrange(q, source.len() as int),
        Err(_) => Seq::empty(),
    }
}

/// The metadata of a container whose header parses.
pub open spec fn metadata_of(source: Seq<u8>) -> MetadataView {
    spec_header(source)->Ok_0.0
}

/// With distinct identities, the policy of a recipient is the one listed with it.
proof fn lemma_policy_of(m: MetadataView, id: Seq<char>, k: int)
    requires
        metadata_wf(m),
        0 <= k < m.recipients.len(),
        m.recipients[k].0 == id,
    ensures
        policy_of(m, id) == m.recipients[k].1,
{
    let j = choose|j: int| 0 <= j < m.recipients.len() && #[trigger] m.recipients[j].0 == id;
    assert(m.recipients[j].0 == id);
    if j < k {
        assert(m.recipients[j].0 != m.recipients[k].0);
    } else if k < j {
        assert(m.recipients[k].0 != m.recipients[j].0);
    }
}

fn clone_attributes(v: &Vec<Attribute>) -> (r: Vec<Attribute>)
    ensures
        attributes_view(r@) == attributes_view(v@),
{
    let mut out: Vec<Attribute> = Vec::new();
    let mut k: usize = 0;
    while k < v.len()
        invariant
            k <= v@.len(),
            attributes_view(out@) =~= attributes_view(v@).subrange(0, k as int),
        decreases v@.len() - k,
    {
        let ghost before = out@;
        out.push(Attribute { kind: v[k].kind.clone(), value: v[k].value.clone() });
        assert(attributes_view(out@) =~= attributes_view(before).push(v@[k as int]@));
        k = k + 1;
    }
    out
}

/// One in-flight unseal operation over one container.
pub struct UnsealSession {
    source: Vec<u8>,
    body_start: usize,
    registry: Option<PolicyRegistry>,
    selected: Option<String>,
    key: Option<Vec<u8>>,
    state: SessionState,
}

impl UnsealSession {
    pub closed spec fn spec_state(&self) -> SessionState {
        self.state
    }

    pub closed spec fn source(&self) -> Seq<u8> {
        self.source@
    }

    /// The identity chosen, by the caller or automatically.
    pub closed spec fn selected(&self) -> Seq<char> {
        match self.selected {
            Some(s) => s@,
            None => Seq::empty(),
        }
    }

    /// The symmetric key, once decapsulated.
    pub closed spec fn key(&self) -> Seq<u8> {
        match self.key {
            Some(k) => k@,
            None => Seq::empty(),
        }
    }

    /// States in which the container's header has been parsed.
    pub open spec fn parsed(&self) -> bool {
        ||| self.spec_state() is AwaitingIdentitySelection
        ||| self.spec_state() is AwaitingSecretKey
        ||| self.spec_state() is Decapsulated
    }

    /// The session's internal invariant.
    pub closed spec fn wf(&self) -> bool {
        &&& self.parsed() ==> {
            &&& self.registry is Some
            &&& spec_header(self.source@) == Ok::<(MetadataView, int), crate::error::FormatError>(
                (self.registry->0@, self.body_start as int),
            )
            &&& self.registry->0.wf()
            &&& self.body_start <= self.source@.len()
        }
        &&& (self.spec_state() is AwaitingSecretKey || self.spec_state() is Decapsulated) ==> {
            &&& self.selected is Some
            &&& has_identity(self.registry->0@, self.selected())
        }
        &&& self.spec_state() is Decapsulated ==> self.key is Some && self.key()
            .len() == crate::stream::KEY_LEN
    }

    /// Starts a session: parses the header; a single recipient is chosen at once.
    pub fn open(source: Vec<u8>) -> (r: UnsealSession)
        ensures
            r.wf(),
            r.source() == source@,
            match spec_header(source@) {
                Err(e) => r.spec_state() == SessionState::Failed(UnsealError::Format(e)),
                Ok((m, _)) => if m.recipients.len() == 1 {
                    r.spec_state() == SessionState::AwaitingSecretKey && r.selected()
                        == m.recipients[0].0
                } else {
                    r.spec_state() == SessionState::AwaitingIdentitySelection
                },
            },
    {
        match parse_header(source.as_slice()) {
            Err(e) => UnsealSession {
                source,
                body_start: 0,
                registry: None,
                selected: None,
                key: None,
                state: SessionState::Failed(UnsealError::Format(e)),
            },
            Ok((metadata, body_start)) => {
                let registry = PolicyRegistry::new(metadata);
                if registry.len() == 1 {
                    let first = registry.identity_at(0).clone();
                    UnsealSession {
                        source,
                        body_start,
                        registry: Some(registry),
                        selected: Some(first),
                        key: None,
                        state: SessionState::AwaitingSecretKey,
                    }
                } else {
                    UnsealSession {
                        source,
                        body_start,
                        registry: Some(registry),
                        selected: None,
                        key: None,
                        state: SessionState::AwaitingIdentitySelection,
                    }
                }
            },
        }
    }

    /// The session's state.
    pub fn state(&self) -> (r: SessionState)
        ensures
            r == self.spec_state(),
    {
        self.state
    }

    /// The recipient identities to choose from, in container order; none
    /// before the header has parsed or after the session has ended.
    pub fn identities(&self) -> (r: Vec<String>)
        requires
            self.wf(),
        ensures
            self.parsed() ==> r@.map_values(|s: String| s@) == identities_of(metadata_of(self.source()).recipients),
            !self.parsed() ==> r@.len() == 0,
    {
        if self.state == SessionState::AwaitingIdentitySelection || self.state == SessionState::AwaitingSecretKey
            || self.state == SessionState::Decapsulated {
            match &self.registry {
                Some(reg) => reg.identities(),
                None => Vec::new(),
            }
        } else {
            Vec::new()
        }
    }

    /// Chooses the recipient to unseal as.
    pub fn select(&mut self, identity: &String) -> (r: Result<(), KeyError>)
        requires
            old(self).wf(),
            old(self).spec_state() == SessionState::AwaitingIdentitySelection,
        ensures
            final(self).wf(),
            final(self).source() == old(self).source(),
            has_identity(metadata_of(old(self).source()), identity@) ==> {
                &&& r is Ok
                &&& final(self).spec_state() == SessionState::AwaitingSecretKey
                &&& final(self).selected() == identity@
            },
            !has_identity(metadata_of(old(self).source()), identity@) ==> {
                &&& r == Err::<(), KeyError>(KeyError::UnknownIdentity)
                &&& final(self).spec_state() == SessionState::Failed(UnsealError::Key(KeyError::UnknownIdentity))
                &&& final(self).selected() == old(self).selected()
            },
    {
        let known = match &self.registry {
            Some(reg) => reg.policy_for(identity).is_ok(),
            None => false,
        };
        if known {
            self.selected = Some(identity.clone());
            self.state = SessionState::AwaitingSecretKey;
            Ok(())
        } else {
            self.state = SessionState::Failed(UnsealError::Key(KeyError::UnknownIdentity));
            Err(KeyError::UnknownIdentity)
        }
    }

    /// The request to send to the key-issuance service for the chosen recipient.
    pub fn key_request(&self) -> (r: KeyRequest)
        requires
            self.wf(),
            self.spec_state() == SessionState::AwaitingSecretKey,
        ensures
            r.identity@ == self.selected(),
            attributes_view(r.attributes@) == policy_of(metadata_of(self.source()), self.selected()).attributes,
            r.timestamp == policy_of(metadata_of(self.source()), self.selected()).timestamp,
    {
        let reg = self.registry.as_ref().unwrap();
        let id = self.selected.as_ref().unwrap();
        let policy = reg.policy_for(id).unwrap();
        proof {
            let k = choose|k: int| 0 <= k < reg@.recipients.len() && #[trigger] reg@.recipients[k].0 == id@
                && reg@.recipients[k].1 == policy@;
            lemma_policy_of(reg@, id@, k);
        }
        KeyRequest {
            identity: id.clone(),
            attributes: clone_attributes(&policy.attributes),
            timestamp: policy.timestamp,
        }
    }

    /// Hands over what the key-issuance service returned: `None` when it denied
    /// the request or could not be reached. Nothing is retried.
    pub fn supply_key(&mut self, issued: Option<UserSecretKey>) -> (r: Result<(), KeyError>)
        requires
            old(self).wf(),
            old(self).spec_state() == SessionState::AwaitingSecretKey,
        ensures
            final(self).wf(),
            final(self).source() == old(self).source(),
            final(self).selected() == old(self).selected(),
            match issued {
                None => r == Err::<(), KeyError>(KeyError::Unavailable)
                    && final(self).spec_state() == SessionState::Failed(UnsealError::Key(KeyError::Unavailable)),
                Some(u) => match spec_resolve(
                    old(self).selected(),
                    policy_of(metadata_of(old(self).source()), old(self).selected()),
                    u@,
                ) {
                    Ok(k) => r is Ok && final(self).spec_state() == SessionState::Decapsulated
                        && final(self).key() == k,
                    Err(e) => r == Err::<(), KeyError>(e)
                        && final(self).spec_state() == SessionState::Failed(UnsealError::Key(e)),
                },
            },
    {
        let usk = match issued {
            None => {
                self.state = SessionState::Failed(UnsealError::Key(KeyError::Unavailable));
                return Err(KeyError::Unavailable);
            },
            Some(u) => u,
        };
        let outcome = {
            let reg = self.registry.as_ref().unwrap();
            let id = self.selected.as_ref().unwrap();
            let policy = reg.policy_for(id).unwrap();
            proof {
                let k = choose|k: int| 0 <= k < reg@.recipients.len() && #[trigger] reg@.recipients[k].0 == id@
                    && reg@.recipients[k].1 == policy@;
                lemma_policy_of(reg@, id@, k);
            }
            resolve(id, policy, &usk)
        };
        match outcome {
            Ok(k) => {
                self.key = Some(k);
                self.state = SessionState::Decapsulated;
                Ok(())
            },
            Err(e) => {
                self.state = SessionState::Failed(UnsealError::Key(e));
                Err(e)
            },
        }
    }

    /// Decrypts the chunk stream with the decapsulated key. Plaintext comes
    /// back only when the whole stream verified; otherwise the session fails
    /// and no plaintext is returned.
    pub fn unseal(&mut self) -> (r: Result<Vec<u8>, UnsealError>)
        requires
            old(self).wf(),
            old(self).spec_state() == SessionState::Decapsulated,
        ensures
            final(self).wf(),
            final(self).source() == old(self).source(),
            match spec_decrypt(old(self).key(), metadata_of(old(self).source()).base_nonce, body_of(old(self).source())) {
                Ok(pt) => r matches Ok(p) && p@ == pt && final(self).spec_state() == SessionState::Completed,
                Err(e) => r == Err::<Vec<u8>, UnsealError>(e) && final(self).spec_state() == SessionState::Failed(e),
            },
    {
        let outcome = {
            let reg = self.registry.as_ref().unwrap();
            let key = self.key.as_ref().unwrap();
            let body = &self.source.as_slice()[self.body_start..self.source.len()];
            decrypt_chunks(key, reg.base_nonce(), body)
        };
        match outcome {
            Ok(pt) => {
                self.state = SessionState::Completed;
                Ok(pt)
            },
            Err(e) => {
                self.state = SessionState::Failed(e);
                Err(e)
            },
        }
    }
}

/// The identities a container offers for selection are its recipients'
/// identities, in container order, each exactly once.
pub proof fn lemma_offered_identities_unique(source: Seq<u8>)
    requires
        spec_header(source) is Ok,
    ensures
        identities_of(metadata_of(source).recipients).no_duplicates(),
        identities_of(metadata_of(source).recipients).len() == metadata_of(source).recipients.len(),
{
    let rs = metadata_of(source).recipients;
    let ids = identities_of(rs);
    assert forall|i: int, j: int| 0 <= i < ids.len() && 0 <= j < ids.len() && i != j implies ids[i] != ids[j] by {
        if i < j {
            assert(rs[i].0 != rs[j].0);
        } else {
            assert(rs[j].0 != rs[i].0);
        }
    }
}

} // verus!
