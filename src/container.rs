use vstd::prelude::*;

use crate::error::FormatError;
use crate::wire::{be16_at, be64_at, be32_at, spec_blob, spec_text, read_text, read_u16, read_u64, read_blob, read_u32};

verus! {

/// First byte of the marker that opens every container.
pub const MAGIC_0: u8 = 0x14;
/// Second byte of the marker.
pub const MAGIC_1: u8 = 0x8A;
/// Third byte of the marker.
pub const MAGIC_2: u8 = 0x8E;
/// Fourth byte of the marker.
pub const MAGIC_3: u8 = 0xA7;
/// The only container format version this library reads.
pub const FORMAT_VERSION: u16 = 1;
/// Marker, version and metadata length together.
pub const HEADER_LEN: usize = 10;
/// Length of the per-message base value that chunk nonces are derived from.
pub const BASE_NONCE_LEN: usize = 8;

/// One `(type, value)` pair that identifies a recipient.
pub struct Attribute {
    pub kind: String,
    pub value: String,
}

impl View for Attribute {
    type V = (Seq<char>, Seq<char>);

    open spec fn view(&self) -> (Seq<char>, Seq<char>) {
        (self.kind@, self.value@)
    }
}

/// The views of a sequence of attributes.
pub open spec fn attributes_view(s: Seq<Attribute>) -> Seq<(Seq<char>, Seq<char>)> {
    s.map_values(|a: Attribute| a@)
}

/// What a container says about one recipient.
pub struct Policy {
    pub attributes: Vec<Attribute>,
    pub timestamp: u64,
    pub encapsulated_key: Vec<u8>,
}

/// The mathematical content of a [`Policy`].
pub struct PolicyView {
    pub attributes: Seq<(Seq<char>, Seq<char>)>,
    pub timestamp: u64,
    pub encapsulated_key: Seq<u8>,
}

impl View for Policy {
    type V = PolicyView;

    open spec fn view(&self) -> PolicyView {
        PolicyView {
            attributes: attributes_view(self.attributes@),
            timestamp: self.timestamp,
            encapsulated_key: self.encapsulated_key@,
        }
    }
}

/// A recipient identity with its policy.
pub struct Recipient {
    pub identity: String,
    pub policy: Policy,
}

impl View for Recipient {
    type V = (Seq<char>, PolicyView);

    open spec fn view(&self) -> (Seq<char>, PolicyView) {
        (self.identity@, self.policy@)
    }
}

/// The views of a sequence of recipients.
pub open spec fn recipients_view(s: Seq<Recipient>) -> Seq<(Seq<char>, PolicyView)> {
    s.map_values(|r: Recipient| r@)
}

/// Parsed container metadata: recipients in container order.
pub struct Metadata {
    pub format_version: u16,
    pub base_nonce: Vec<u8>,
    pub recipients: Vec<Recipient>,
}

/// The mathematical content of [`Metadata`].
pub struct MetadataView {
    pub format_version: u16,
    pub base_nonce: Seq<u8>,
    pub recipients: Seq<(Seq<char>, PolicyView)>,
}

impl View for Metadata {
    type V = MetadataView;

    open spec fn view(&self) -> MetadataView {
        MetadataView {
            format_version: self.format_version,
            base_nonce: self.base_nonce@,
            recipients: recipients_view(self.recipients@),
        }
    }
}

/// No identity occurs twice.
pub open spec fn distinct_identities(rs: Seq<(Seq<char>, PolicyView)>) -> bool {
    forall|i: int, j: int| 0 <= i < j < rs.len() ==> #[trigger] rs[i].0 != #[trigger] rs[j].0
}

/// Metadata as a parse can produce it: distinct identities and a full base nonce.
pub open spec fn metadata_wf(m: MetadataView) -> bool {
    &&& distinct_identities(m.recipients)
    &&& m.base_nonce.len() == BASE_NONCE_LEN
}

pub open spec fn spec_attribute(b: Seq<u8>, p: int) -> Option<((Seq<char>, Seq<char>), int)> {
    match spec_text(b, p) {
        Some((k, q)) => match spec_text(b, q) {
            Some((v, s)) => Some(((k, v), s)),
            None => None,
        },
        None => None,
    }
}

/// The first `n` attributes from `p` on, and the position after them.
pub open spec fn spec_attributes(b: Seq<u8>, p: int, n: nat) -> Option<
    (Seq<(Seq<char>, Seq<char>)>, int),
>
    decreases n,
{
    if n == 0 {
        Some((Seq::empty(), p))
    } else {
        match spec_attributes(b, p, (n - 1) as nat) {
            Some((s, q)) => match spec_attribute(b, q) {
                Some((a, t)) => Some((s.push(a), t)),
                None => None,
            },
            None => None,
        }
    }
}

/// Identity, timestamp, attributes and encapsulated key of one recipient.
pub open spec fn spec_recipient(b: Seq<u8>, p: int) -> Option<((Seq<char>, PolicyView), int)> {
    match spec_text(b, p) {
        Some((id, q)) => if q + 10 <= b.len() {
            match spec_attributes(b, q + 10, be16_at(b, q + 8) as nat) {
                Some((attrs, s)) => match spec_blob(b, s) {
                    Some((key, t)) => Some(
                        (
                            (
                                id,
                                PolicyView {
                                    attributes: attrs,
                                    timestamp: be64_at(b, q) as u64,
                                    encapsulated_key: key,
                                },
                            ),
                            t,
                        ),
                    ),
                    None => None,
                },
                None => None,
            }
        } else {
            None
        },
        None => None,
    }
}

/// The first `n` recipients from `p` on, and the position after them.
pub open spec fn spec_recipients(b: Seq<u8>, p: int, n: nat) -> Option<
    (Seq<(Seq<char>, PolicyView)>, int),
>
    decreases n,
{
    if n == 0 {
        Some((Seq::empty(), p))
    } else {
        match spec_recipients(b, p, (n - 1) as nat) {
            Some((s, q)) => match spec_recipient(b, q) {
                Some((r, t)) => Some((s.push(r), t)),
                None => None,
            },
            None => None,
        }
    }
}

/// The metadata block: base nonce, recipient count and recipients, nothing after them,
/// and no identity twice.
pub open spec fn spec_metadata(block: Seq<u8>) -> Option<MetadataView> {
    if block.len() < BASE_NONCE_LEN + 2 {
        None
    } else {
        match spec_recipients(block, BASE_NONCE_LEN + 2, be16_at(block, BASE_NONCE_LEN as int) as nat) {
            Some((rs, end)) => if end == block.len() && distinct_identities(rs) {
                Some(
                    MetadataView {
                        format_version: FORMAT_VERSION,
                        base_nonce: block.subrange(0, BASE_NONCE_LEN as int),
                        recipients: rs,
                    },
                )
            } else {
                None
            },
            None => None,
        }
    }
}

/// Byte `k` of the marker.
pub open spec fn magic_byte(k: int) -> u8 {
    if k == 0 {
        MAGIC_0
    } else if k == 1 {
        MAGIC_1
    } else if k == 2 {
        MAGIC_2
    } else {
        MAGIC_3
    }
}

/// The bytes present among the first four agree with the marker.
pub open spec fn magic_ok(b: Seq<u8>) -> bool {
    forall|k: int| 0 <= k < 4 && k < b.len() ==> #[trigger] b[k] == magic_byte(k)
}

/// The header of a container: its metadata and the position of the first chunk.
pub open spec fn spec_header(b: Seq<u8>) -> Result<(MetadataView, int), FormatError> {
    if !magic_ok(b) {
        Err(FormatError::BadMagic)
    } else if b.len() < 6 {
        Err(FormatError::Truncated)
    } else if be16_at(b, 4) != FORMAT_VERSION {
        Err(FormatError::UnsupportedVersion)
    } else if b.len() < HEADER_LEN {
        Err(FormatError::Truncated)
    } else if HEADER_LEN + be32_at(b, 6) > b.len() {
        Err(FormatError::Truncated)
    } else {
        let end = HEADER_LEN + be32_at(b, 6);
        match spec_metadata(b.subrange(HEADER_LEN as int, end)) {
            None => Err(FormatError::Malformed),
            Some(m) => if m.recipients.len() == 0 {
                Err(FormatError::NoRecipients)
            } else {
                Ok((m, end))
            },
        }
    }
}

proof fn lemma_attributes_stay_none(b: Seq<u8>, p: int, i: nat, n: nat)
    requires
        i <= n,
        spec_attributes(b, p, i) is None,
    ensures
        spec_attributes(b, p, n) is None,
    decreases n - i,
{
    if i < n {
        lemma_attributes_stay_none(b, p, i + 1, n);
    }
}

proof fn lemma_recipients_stay_none(b: Seq<u8>, p: int, i: nat, n: nat)
    requires
        i <= n,
        spec_recipients(b, p, i) is None,
    ensures
        spec_recipients(b, p, n) is None,
    decreases n - i,
{
    if i < n {
        lemma_recipients_stay_none(b, p, i + 1, n);
    }
}

fn parse_attributes(b: &[u8], p: usize, n: u16) -> (r: Option<(Vec<Attribute>, usize)>)
    ensures
        match (r, spec_attributes(b@, p as int, n as nat)) {
            (Some((v, q)), Some((s, t))) => attributes_view(v@) == s && q == t,
            (None, None) => true,
            _ => false,
        },
{
    let mut out: Vec<Attribute> = Vec::new();
    let mut pos = p;
    let mut i: u16 = 0;
    while i < n
        invariant
            i <= n,
            spec_attributes(b@, p as int, i as nat) == Some((attributes_view(out@), pos as int)),
        decreases n - i,
    {
        let ghost before = out@;
        match read_text(b, pos) {
            Some((kind, q)) => match read_text(b, q) {
                Some((value, s)) => {
                    out.push(Attribute { kind, value });
                    assert(attributes_view(out@) =~= attributes_view(before).push(out@.last()@));
                    pos = s;
                },
                None => {
                    proof {
                        lemma_attributes_stay_none(b@, p as int, (i + 1) as nat, n as nat);
                    }
                    return None;
                },
            },
            None => {
                proof {
                    lemma_attributes_stay_none(b@, p as int, (i + 1) as nat, n as nat);
                }
                return None;
            },
        }
        i = i + 1;
    }
    Some((out, pos))
}

fn parse_recipient(b: &[u8], p: usize) -> (r: Option<(Recipient, usize)>)
    ensures
        match (r, spec_recipient(b@, p as int)) {
            (Some((v, q)), Some((s, t))) => v@ == s && q == t,
            (None, None) => true,
            _ => false,
        },
{
    let (identity, q) = match read_text(b, p) {
        Some(x) => x,
        None => return None,
    };
    let (timestamp, q1) = match read_u64(b, q) {
        Some(x) => x,
        None => return None,
    };
    let (count, q2) = match read_u16(b, q1) {
        Some(x) => x,
        None => return None,
    };
    let (attributes, s) = match parse_attributes(b, q2, count) {
        Some(x) => x,
        None => return None,
    };
    let (encapsulated_key, t) = match read_blob(b, s) {
        Some(x) => x,
        None => return None,
    };
    Some((Recipient { identity, policy: Policy { attributes, timestamp, encapsulated_key } }, t))
}

/// Whether `id` is already the identity of one of `rs`.
fn contains_identity(rs: &Vec<Recipient>, id: &String) -> (r: bool)
    ensures
        r <==> exists|k: int| 0 <= k < rs@.len() && #[trigger] rs@[k].identity@ == id@,
{
    let mut k: usize = 0;
    while k < rs.len()
        invariant
            k <= rs@.len(),
            forall|j: int| 0 <= j < k ==> #[trigger] rs@[j].identity@ != id@,
        decreases rs@.len() - k,
    {
        if rs[k].identity == *id {
            return true;
        }
        k = k + 1;
    }
    false
}

/// The recipients that `spec_recipients` finds, or none.
pub open spec fn recipients_run(b: Seq<u8>, p: int, n: nat) -> Seq<(Seq<char>, PolicyView)> {
    match spec_recipients(b, p, n) {
        Some((s, _)) => s,
        None => Seq::empty(),
    }
}

/// A longer run of recipients extends a shorter one.
proof fn lemma_recipients_prefix(b: Seq<u8>, p: int, i: nat, n: nat)
    requires
        i <= n,
        spec_recipients(b, p, n) is Some,
    ensures
        spec_recipients(b, p, i) is Some,
        recipients_run(b, p, n).len() == n,
        recipients_run(b, p, i) == recipients_run(b, p, n).subrange(0, i as int),
    decreases n,
{
    if n > 0 {
        if i < n {
            lemma_recipients_prefix(b, p, i, (n - 1) as nat);
            lemma_recipients_prefix(b, p, (n - 1) as nat, (n - 1) as nat);
            let s = recipients_run(b, p, n);
            let s1 = recipients_run(b, p, (n - 1) as nat);
            assert(s1 =~= s.subrange(0, n - 1));
            assert(s.subrange(0, i as int) =~= s1.subrange(0, i as int));
        } else {
            lemma_recipients_prefix(b, p, (n - 1) as nat, (n - 1) as nat);
            assert(recipients_run(b, p, n) =~= recipients_run(b, p, n).subrange(0, n as int));
        }
    } else {
        assert(recipients_run(b, p, n) =~= recipients_run(b, p, n).subrange(0, 0));
    }
}

/// Once an identity repeats, every longer run of recipients repeats it too.
proof fn lemma_recipients_grow_dup(b: Seq<u8>, p: int, i: nat, n: nat)
    requires
        i <= n,
        spec_recipients(b, p, i) is Some,
        !distinct_identities(recipients_run(b, p, i)),
    ensures
        spec_recipients(b, p, n) is Some ==> !distinct_identities(recipients_run(b, p, n)),
{
    if spec_recipients(b, p, n) is Some {
        lemma_recipients_prefix(b, p, i, n);
        let s0 = recipients_run(b, p, i);
        let s = recipients_run(b, p, n);
        let (j, k) = choose|j: int, k: int| 0 <= j < k < s0.len() && s0[j].0 == s0[k].0;
        assert(s[j] == s0[j] && s[k] == s0[k]);
    }
}

fn parse_recipients(b: &[u8], p: usize, n: u16) -> (r: Option<(Vec<Recipient>, usize)>)
    ensures
        match (r, spec_recipients(b@, p as int, n as nat)) {
            (Some((v, q)), Some((s, t))) => recipients_view(v@) == s && q == t
                && distinct_identities(s),
            (None, Some((s, t))) => !distinct_identities(s),
            (None, None) => true,
            _ => false,
        },
{
    let mut out: Vec<Recipient> = Vec::new();
    let mut pos = p;
    let mut i: u16 = 0;
    while i < n
        invariant
            i <= n,
            spec_recipients(b@, p as int, i as nat) == Some((recipients_view(out@), pos as int)),
            distinct_identities(recipients_view(out@)),
            out@.len() == i,
        decreases n - i,
    {
        let ghost before = out@;
        match parse_recipient(b, pos) {
            Some((rec, q)) => {
                if contains_identity(&out, &rec.identity) {
                    proof {
                        let s1 = recipients_view(out@).push(rec@);
                        let k = choose|k: int| 0 <= k < out@.len() && #[trigger] out@[k].identity@ == rec.identity@;
                        assert(s1[k].0 == s1[out@.len() as int].0);
                        lemma_recipients_grow_dup(b@, p as int, (i + 1) as nat, n as nat);
                    }
                    return None;
                }
                out.push(rec);
                assert(recipients_view(out@) =~= recipients_view(before).push(out@.last()@));
                pos = q;
            },
            None => {
                proof {
                    lemma_recipients_stay_none(b@, p as int, (i + 1) as nat, n as nat);
                }
                return None;
            },
        }
        i = i + 1;
    }
    Some((out, pos))
}

fn parse_metadata(block: &[u8]) -> (r: Option<Metadata>)
    ensures
        match (r, spec_metadata(block@)) {
            (Some(m), Some(v)) => m@ == v,
            (None, None) => true,
            _ => false,
        },
{
    if block.len() < BASE_NONCE_LEN + 2 {
        return None;
    }
    let base_nonce = vstd::slice::slice_to_vec(&block[0..BASE_NONCE_LEN]);
    let count = read_u16(block, BASE_NONCE_LEN).unwrap().0;
    match parse_recipients(block, BASE_NONCE_LEN + 2, count) {
        Some((recipients, end)) => if end == block.len() {
            Some(Metadata { format_version: FORMAT_VERSION, base_nonce, recipients })
        } else {
            None
        },
        None => None,
    }
}

/// Reads the marker, the version and the metadata block at the front of `source`.
/// On success, also returns the position of the first chunk.
pub fn parse_header(source: &[u8]) -> (r: Result<(Metadata, usize), FormatError>)
    ensures
        match r {
            Ok((m, q)) => spec_header(source@) == Ok::<(MetadataView, int), FormatError>((m@, q as int)),
            Err(e) => spec_header(source@) == Err::<(MetadataView, int), FormatError>(e),
        },
        r matches Ok((m, q)) ==> metadata_wf(m@) && m@.recipients.len() > 0 && HEADER_LEN <= q <= source@.len(),
{
    let mut k: usize = 0;
    while k < 4 && k < source.len()
        invariant
            k <= 4,
            forall|j: int| 0 <= j < k ==> #[trigger] source@[j] == magic_byte(j),
        decreases 4 - k,
    {
        let expected = if k == 0 {
            MAGIC_0
        } else if k == 1 {
            MAGIC_1
        } else if k == 2 {
            MAGIC_2
        } else {
            MAGIC_3
        };
        if source[k] != expected {
            return Err(FormatError::BadMagic);
        }
        k = k + 1;
    }
    let version = match read_u16(source, 4) {
        Some((v, _)) => v,
        None => return Err(FormatError::Truncated),
    };
    if version != FORMAT_VERSION {
        return Err(FormatError::UnsupportedVersion);
    }
    let len = match read_u32(source, 6) {
        Some((v, _)) => v as usize,
        None => return Err(FormatError::Truncated),
    };
    if len > source.len() - HEADER_LEN {
        return Err(FormatError::Truncated);
    }
    let end = HEADER_LEN + len;
    match parse_metadata(&source[HEADER_LEN..end]) {
        None => Err(FormatError::Malformed),
        Some(m) => {
            if m.recipients.len() == 0 {
                Err(FormatError::NoRecipients)
            } else {
                Ok((m, end))
            }
        },
    }
}

} // verus!
