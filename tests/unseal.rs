use aes_gcm::aead::{Aead, KeyInit, Payload};
use aes_gcm::Aes256Gcm;
use ibe::kem::cgw_kv::CGWKV;
use ibe::kem::mkem::{Ciphertext, MultiRecipient};
use ibe::kem::IBKEM;
use ibe::{Compress, Derive};

use unsealer::container::parse_header;
use unsealer::error::{AuthError, FormatError, KeyError, UnsealError};
use unsealer::resolver::{resolve, UserSecretKey};
use unsealer::session::{SessionState, UnsealSession};
use unsealer::stream::{decrypt_chunks, frame_end, open_frame, ChunkStep};

const BASE: [u8; 8] = [9, 8, 7, 6, 5, 4, 3, 2];

struct Pkg {
    pk: <CGWKV as IBKEM>::Pk,
    sk: <CGWKV as IBKEM>::Sk,
}

fn pkg() -> Pkg {
    let mut rng = rand::thread_rng();
    let (pk, sk) = CGWKV::setup(&mut rng);
    Pkg { pk, sk }
}

fn kem_id(identity: &str, timestamp: u64) -> <CGWKV as IBKEM>::Id {
    <CGWKV as IBKEM>::Id::derive_str(&format!("{identity}@{timestamp}"))
}

fn issue(pkg: &Pkg, identity: &str, timestamp: u64) -> UserSecretKey {
    let mut rng = rand::thread_rng();
    let usk = CGWKV::extract_usk(Some(&pkg.pk), &pkg.sk, &kem_id(identity, timestamp), &mut rng);
    UserSecretKey { identity: identity.to_string(), timestamp, key: usk.to_bytes().to_vec() }
}

fn push_text(out: &mut Vec<u8>, s: &str) {
    out.extend_from_slice(&(s.len() as u16).to_be_bytes());
    out.extend_from_slice(s.as_bytes());
}

fn push_blob(out: &mut Vec<u8>, b: &[u8]) {
    out.extend_from_slice(&(b.len() as u16).to_be_bytes());
    out.extend_from_slice(b);
}

struct Entry {
    identity: String,
    timestamp: u64,
    ct: Vec<u8>,
}

/// Encapsulates one message key for all recipients.
fn entries(pkg: &Pkg, recipients: &[(&str, u64)]) -> (Vec<Entry>, Vec<u8>) {
    let mut rng = rand::thread_rng();
    let ids: Vec<<CGWKV as IBKEM>::Id> = recipients.iter().map(|(id, ts)| kem_id(id, *ts)).collect();
    let (cts, ss) = CGWKV::multi_encaps(&pkg.pk, &ids, &mut rng);
    let cts: Vec<Ciphertext<CGWKV>> = cts.collect();
    let out = recipients
        .iter()
        .zip(cts.iter())
        .map(|((id, ts), ct)| Entry { identity: id.to_string(), timestamp: *ts, ct: ct.to_bytes().to_vec() })
        .collect();
    (out, ss.0.to_vec())
}

fn metadata_block(entries: &[Entry]) -> Vec<u8> {
    let mut m = BASE.to_vec();
    m.extend_from_slice(&(entries.len() as u16).to_be_bytes());
    for e in entries {
        push_text(&mut m, &e.identity);
        m.extend_from_slice(&e.timestamp.to_be_bytes());
        m.extend_from_slice(&1u16.to_be_bytes());
        push_text(&mut m, "pbdf.sidn-pbdf.email.email");
        push_text(&mut m, &e.identity);
        push_blob(&mut m, &e.ct);
    }
    m
}

fn header(block: &[u8]) -> Vec<u8> {
    let mut c = vec![0x14, 0x8A, 0x8E, 0xA7, 0, 1];
    c.extend_from_slice(&(block.len() as u32).to_be_bytes());
    c.extend_from_slice(block);
    c
}

fn seal_chunk(key: &[u8], i: u32, last: bool, pt: &[u8]) -> Vec<u8> {
    let cipher = Aes256Gcm::new_from_slice(key).unwrap();
    let mut nonce = BASE.to_vec();
    nonce.extend_from_slice(&i.to_be_bytes());
    let nonce = aes_gcm::aead::Nonce::<Aes256Gcm>::try_from(nonce.as_slice()).unwrap();
    let mut aad = i.to_be_bytes().to_vec();
    aad.push(if last { 1 } else { 0 });
    let sealed = cipher.encrypt(&nonce, Payload { msg: pt, aad: &aad }).unwrap();
    let mut frame = vec![if last { 1 } else { 0 }];
    frame.extend_from_slice(&(sealed.len() as u32).to_be_bytes());
    frame.extend_from_slice(&sealed);
    frame
}

fn body(key: &[u8], chunks: &[&[u8]]) -> Vec<u8> {
    let mut out = Vec::new();
    for (i, c) in chunks.iter().enumerate() {
        out.extend(seal_chunk(key, i as u32, i + 1 == chunks.len(), c));
    }
    out
}

fn container(entries: &[Entry], key: &[u8], chunks: &[&[u8]]) -> Vec<u8> {
    let mut c = header(&metadata_block(entries));
    c.extend(body(key, chunks));
    c
}

fn unseal_all(source: Vec<u8>, choice: Option<&str>, usk: Option<UserSecretKey>) -> (Result<Vec<u8>, UnsealError>, SessionState) {
    let mut s = UnsealSession::open(source);
    if let Some(id) = choice {
        if let Err(e) = s.select(&id.to_string()) {
            return (Err(UnsealError::Key(e)), s.state());
        }
    }
    if let Err(e) = s.supply_key(usk) {
        return (Err(UnsealError::Key(e)), s.state());
    }
    let r = s.unseal();
    (r, s.state())
}

#[test]
fn single_recipient_round_trip() {
    let pkg = pkg();
    let (es, key) = entries(&pkg, &[("alice@example.com", 1_650_000_000)]);
    let source = container(&es, &key, &[b"Subject: hi\r\n\r\nhello there"]);
    let s = UnsealSession::open(source.clone());
    assert_eq!(s.state(), SessionState::AwaitingSecretKey);
    let req = s.key_request();
    assert_eq!(req.identity, "alice@example.com");
    assert_eq!(req.timestamp, 1_650_000_000);
    assert_eq!(req.attributes.len(), 1);
    assert_eq!(req.attributes[0].kind, "pbdf.sidn-pbdf.email.email");
    let usk = issue(&pkg, "alice@example.com", 1_650_000_000);
    let (r, st) = unseal_all(source, None, Some(usk));
    assert_eq!(r.unwrap(), b"Subject: hi\r\n\r\nhello there".to_vec());
    assert_eq!(st, SessionState::Completed);
}

#[test]
fn multi_recipient_selection_and_round_trip() {
    let pkg = pkg();
    let (es, key) = entries(&pkg, &[("bob@example.com", 10), ("alice@example.com", 20), ("carol@example.com", 30)]);
    let source = container(&es, &key, &[b"first ", b"second"]);
    let s = UnsealSession::open(source.clone());
    assert_eq!(s.state(), SessionState::AwaitingIdentitySelection);
    assert_eq!(s.identities(), vec!["bob@example.com", "alice@example.com", "carol@example.com"]);
    let usk = issue(&pkg, "alice@example.com", 20);
    let (r, st) = unseal_all(source, Some("alice@example.com"), Some(usk));
    assert_eq!(r.unwrap(), b"first second".to_vec());
    assert_eq!(st, SessionState::Completed);
}

#[test]
fn flipped_bit_in_ciphertext_or_tag_fails() {
    let pkg = pkg();
    let (es, key) = entries(&pkg, &[("alice@example.com", 5)]);
    let clean = container(&es, &key, &[b"chunk zero", b"chunk one"]);
    let body_start = clean.len() - body(&key, &[b"chunk zero", b"chunk one"]).len();
    assert_eq!(clean[body_start], 0);
    // first byte of chunk 0's ciphertext, last byte of its tag, and a byte of chunk 1
    let first_frame = 5 + 10 + 16;
    for at in [body_start + 5, body_start + first_frame - 1, body_start + first_frame + 5 + 3] {
        let mut bad = clean.clone();
        bad[at] ^= 0x01;
        let usk = issue(&pkg, "alice@example.com", 5);
        let (r, st) = unseal_all(bad, None, Some(usk));
        assert_eq!(r, Err(UnsealError::Auth(AuthError::TagMismatch)));
        assert_eq!(st, SessionState::Failed(UnsealError::Auth(AuthError::TagMismatch)));
    }
}

#[test]
fn other_recipients_key_is_rejected() {
    let pkg = pkg();
    let (es, key) = entries(&pkg, &[("alice@example.com", 1), ("bob@example.com", 1)]);
    let source = container(&es, &key, &[b"for bob"]);
    let alice_key = issue(&pkg, "alice@example.com", 1);
    let (r, st) = unseal_all(source, Some("bob@example.com"), Some(alice_key));
    assert_eq!(r, Err(UnsealError::Key(KeyError::Mismatch)));
    assert_eq!(st, SessionState::Failed(UnsealError::Key(KeyError::Mismatch)));
}

#[test]
fn key_for_wrong_timestamp_is_rejected() {
    let pkg = pkg();
    let (es, key) = entries(&pkg, &[("alice@example.com", 100)]);
    let source = container(&es, &key, &[b"x"]);
    let usk = issue(&pkg, "alice@example.com", 101);
    let (r, _) = unseal_all(source, None, Some(usk));
    assert_eq!(r, Err(UnsealError::Key(KeyError::Mismatch)));
}

#[test]
fn one_chunk_and_many_chunks_agree() {
    let pkg = pkg();
    let (es, key) = entries(&pkg, &[("alice@example.com", 7)]);
    let one = container(&es, &key, &[b"abcdefghij"]);
    let many = container(&es, &key, &[b"abc", b"", b"defg", b"hij"]);
    let a = unseal_all(one, None, Some(issue(&pkg, "alice@example.com", 7))).0.unwrap();
    let b = unseal_all(many, None, Some(issue(&pkg, "alice@example.com", 7))).0.unwrap();
    assert_eq!(a, b);
    assert_eq!(a, b"abcdefghij".to_vec());
}

#[test]
fn cut_after_non_final_chunk_is_truncated() {
    let pkg = pkg();
    let (es, key) = entries(&pkg, &[("alice@example.com", 7)]);
    let mut source = header(&metadata_block(&es));
    source.extend(seal_chunk(&key, 0, false, b"part one"));
    let (r, st) = unseal_all(source, None, Some(issue(&pkg, "alice@example.com", 7)));
    assert_eq!(r, Err(UnsealError::Format(FormatError::Truncated)));
    assert_eq!(st, SessionState::Failed(UnsealError::Format(FormatError::Truncated)));
}

#[test]
fn empty_chunk_stream_is_truncated() {
    let key = vec![1u8; 32];
    assert_eq!(decrypt_chunks(&key, &BASE.to_vec(), &[]), Err(UnsealError::Format(FormatError::Truncated)));
}

#[test]
fn bytes_after_final_chunk_are_trailing_data() {
    let pkg = pkg();
    let (es, key) = entries(&pkg, &[("alice@example.com", 7)]);
    let mut source = container(&es, &key, &[b"a", b"b"]);
    source.push(0);
    let (r, _) = unseal_all(source, None, Some(issue(&pkg, "alice@example.com", 7)));
    assert_eq!(r, Err(UnsealError::Auth(AuthError::TrailingData)));
}

#[test]
fn non_final_chunk_marked_final_fails() {
    let key = vec![3u8; 32];
    // chunk 0 sealed as non-final, but its flag byte claims it is final
    let mut b = seal_chunk(&key, 0, false, b"hello");
    b[0] = 1;
    assert_eq!(decrypt_chunks(&key, &BASE.to_vec(), &b), Err(UnsealError::Auth(AuthError::TagMismatch)));
}

#[test]
fn reordered_chunks_fail() {
    let key = vec![4u8; 32];
    let mut b = seal_chunk(&key, 1, false, b"second");
    b.extend(seal_chunk(&key, 0, false, b"first"));
    b.extend(seal_chunk(&key, 2, true, b"third"));
    assert_eq!(decrypt_chunks(&key, &BASE.to_vec(), &b), Err(UnsealError::Auth(AuthError::TagMismatch)));
}

#[test]
fn decrypt_chunks_exact_plaintext() {
    let key = vec![5u8; 32];
    let b = body(&key, &[b"xy", b"z"]);
    let pt = decrypt_chunks(&key, &BASE.to_vec(), &b).unwrap();
    assert_eq!(pt, b"xyz".to_vec());
    assert_ne!(pt, b[5..b.len()].to_vec());
}

#[test]
fn bad_flag_byte_is_malformed() {
    let key = vec![5u8; 32];
    let mut b = body(&key, &[b"xy"]);
    b[0] = 2;
    assert_eq!(decrypt_chunks(&key, &BASE.to_vec(), &b), Err(UnsealError::Format(FormatError::Malformed)));
}

#[test]
fn unknown_identity_fails_selection() {
    let pkg = pkg();
    let (es, key) = entries(&pkg, &[("a@x.nl", 1), ("b@x.nl", 1)]);
    let source = container(&es, &key, &[b"m"]);
    let mut s = UnsealSession::open(source);
    assert_eq!(s.select(&"c@x.nl".to_string()), Err(KeyError::UnknownIdentity));
    assert_eq!(s.state(), SessionState::Failed(UnsealError::Key(KeyError::UnknownIdentity)));
    assert!(s.identities().is_empty());
}

#[test]
fn denied_key_is_unavailable() {
    let pkg = pkg();
    let (es, key) = entries(&pkg, &[("a@x.nl", 1)]);
    let source = container(&es, &key, &[b"m"]);
    let (r, st) = unseal_all(source, None, None);
    assert_eq!(r, Err(UnsealError::Key(KeyError::Unavailable)));
    assert_eq!(st, SessionState::Failed(UnsealError::Key(KeyError::Unavailable)));
}

#[test]
fn resolve_yields_encapsulated_secret() {
    let pkg = pkg();
    let (es, key) = entries(&pkg, &[("a@x.nl", 1)]);
    let source = container(&es, &key, &[b"m"]);
    let (meta, _) = parse_header(&source).unwrap();
    let rec = &meta.recipients[0];
    let k = resolve(&rec.identity, &rec.policy, &issue(&pkg, "a@x.nl", 1)).unwrap();
    assert_eq!(k, key);
    assert_ne!(k, rec.policy.encapsulated_key);
}

#[test]
fn resolve_rejects_bad_key_length() {
    let pkg = pkg();
    let (es, _) = entries(&pkg, &[("a@x.nl", 1)]);
    let source = header(&metadata_block(&es));
    let (meta, _) = parse_header(&source).unwrap();
    let rec = &meta.recipients[0];
    let usk = UserSecretKey { identity: "a@x.nl".to_string(), timestamp: 1, key: vec![0u8; 10] };
    assert_eq!(resolve(&rec.identity, &rec.policy, &usk), Err(KeyError::Mismatch));
}

#[test]
fn header_errors() {
    assert_eq!(UnsealSession::open(vec![0x14, 0x8A]).state(), SessionState::Failed(UnsealError::Format(FormatError::Truncated)));
    assert_eq!(UnsealSession::open(vec![1, 2, 3, 4, 0, 1]).state(), SessionState::Failed(UnsealError::Format(FormatError::BadMagic)));
    assert_eq!(UnsealSession::open(vec![0x14, 0x8A, 0x8E, 0xA7, 0, 2, 0, 0, 0, 0]).state(), SessionState::Failed(UnsealError::Format(FormatError::UnsupportedVersion)));
    assert_eq!(parse_header(&[0x14, 0x8A, 0x8E, 0xA7, 0, 1, 0, 0, 0, 20, 1, 2]).err(), Some(FormatError::Truncated));
    // a block too short for base nonce and count
    assert_eq!(parse_header(&header(&[1, 2, 3])).err(), Some(FormatError::Malformed));
    // no recipients
    let mut empty = BASE.to_vec();
    empty.extend_from_slice(&[0, 0]);
    assert_eq!(parse_header(&header(&empty)).err(), Some(FormatError::NoRecipients));
    // bytes left over in the block
    let mut extra = empty.clone();
    extra.push(0);
    assert_eq!(parse_header(&header(&extra)).err(), Some(FormatError::Malformed));
}

#[test]
fn duplicate_identity_is_malformed() {
    let es = vec![
        Entry { identity: "a@x.nl".to_string(), timestamp: 1, ct: vec![1, 2] },
        Entry { identity: "a@x.nl".to_string(), timestamp: 2, ct: vec![3] },
    ];
    assert_eq!(parse_header(&header(&metadata_block(&es))).err(), Some(FormatError::Malformed));
}

#[test]
fn invalid_utf8_identity_is_malformed() {
    let mut m = BASE.to_vec();
    m.extend_from_slice(&[0, 1]);
    push_blob(&mut m, &[0xff, 0xfe]);
    m.extend_from_slice(&1u64.to_be_bytes());
    m.extend_from_slice(&[0, 0]);
    push_blob(&mut m, &[]);
    assert_eq!(parse_header(&header(&m)).err(), Some(FormatError::Malformed));
}

#[test]
fn header_parse_exact_metadata() {
    let es = vec![
        Entry { identity: "zoë@x.nl".to_string(), timestamp: 0x0102030405060708, ct: vec![1, 2, 3] },
        Entry { identity: "b@x.nl".to_string(), timestamp: 9, ct: vec![] },
    ];
    let block = metadata_block(&es);
    let mut source = header(&block);
    source.extend_from_slice(&[0xAA, 0xBB]);
    let (m, q) = parse_header(&source).unwrap();
    assert_eq!(q, 10 + block.len());
    assert_eq!(m.format_version, 1);
    assert_eq!(m.base_nonce, BASE.to_vec());
    assert_eq!(m.recipients.len(), 2);
    assert_eq!(m.recipients[0].identity, "zoë@x.nl");
    assert_eq!(m.recipients[0].policy.timestamp, 0x0102030405060708);
    assert_eq!(m.recipients[0].policy.encapsulated_key, vec![1, 2, 3]);
    assert_eq!(m.recipients[0].policy.attributes[0].value, "zoë@x.nl");
    assert_eq!(m.recipients[1].identity, "b@x.nl");
    assert_eq!(m.recipients[1].policy.timestamp, 9);
}

#[test]
fn every_recipient_recovers_the_same_key() {
    let pkg = pkg();
    let (es, key) = entries(&pkg, &[("a@x.nl", 1), ("b@x.nl", 2)]);
    let source = container(&es, &key, &[b"shared"]);
    for (id, ts) in [("a@x.nl", 1), ("b@x.nl", 2)] {
        let (r, _) = unseal_all(source.clone(), Some(id), Some(issue(&pkg, id, ts)));
        assert_eq!(r.unwrap(), b"shared".to_vec());
    }
}

#[test]
fn foreign_key_bytes_do_not_unwrap() {
    let pkg = pkg();
    let (es, key) = entries(&pkg, &[("a@x.nl", 1), ("b@x.nl", 1)]);
    let source = container(&es, &key, &[b"for b"]);
    // a key issued for a, presented under b's name
    let mut usk = issue(&pkg, "a@x.nl", 1);
    usk.identity = "b@x.nl".to_string();
    let (r, st) = unseal_all(source, Some("b@x.nl"), Some(usk));
    assert_eq!(r, Err(UnsealError::Key(KeyError::Mismatch)));
    assert_eq!(st, SessionState::Failed(UnsealError::Key(KeyError::Mismatch)));
}

#[test]
fn short_input_with_wrong_marker_is_bad_magic() {
    assert_eq!(parse_header(&[0, 0, 0]).err(), Some(FormatError::BadMagic));
    assert_eq!(parse_header(&[0x14, 0x00]).err(), Some(FormatError::BadMagic));
    assert_eq!(parse_header(&[0x14, 0x8A, 0x8E]).err(), Some(FormatError::Truncated));
    assert_eq!(parse_header(&[]).err(), Some(FormatError::Truncated));
    assert_eq!(parse_header(&[0x14, 0x8A, 0x8E, 0xA7, 0]).err(), Some(FormatError::Truncated));
}

#[test]
fn chunks_opened_as_bytes_arrive() {
    let key = vec![6u8; 32];
    let stream = body(&key, &[b"one ", b"two ", b"three"]);
    let base = BASE.to_vec();
    // bytes arrive seven at a time; a frame is opened once it is complete
    let mut buf: Vec<u8> = Vec::new();
    let mut fed = 0;
    let mut pos = 0;
    let mut i: u32 = 0;
    let mut out = Vec::new();
    loop {
        match frame_end(&buf, pos) {
            Ok(end) => {
                let at_end = end == stream.len();
                match open_frame(&key, &base, i, &buf, pos, at_end).unwrap() {
                    ChunkStep::More(pt) => out.extend(pt),
                    ChunkStep::Done(pt) => {
                        out.extend(pt);
                        break;
                    }
                }
                pos = end;
                i += 1;
            }
            Err(FormatError::Truncated) => {
                assert!(fed < stream.len());
                let next = (fed + 7).min(stream.len());
                buf.extend_from_slice(&stream[fed..next]);
                fed = next;
            }
            Err(e) => panic!("unexpected {:?}", e),
        }
    }
    assert_eq!(out, b"one two three".to_vec());
}

#[test]
fn open_frame_reports_each_outcome() {
    let key = vec![7u8; 32];
    let base = BASE.to_vec();
    let f = seal_chunk(&key, 0, true, b"end");
    assert!(matches!(open_frame(&key, &base, 0, &f, 0, true), Ok(ChunkStep::Done(ref v)) if v == b"end"));
    assert_eq!(open_frame(&key, &base, 0, &f, 0, false).err(), Some(UnsealError::Auth(AuthError::TrailingData)));
    assert_eq!(open_frame(&key, &base, 1, &f, 0, true).err(), Some(UnsealError::Auth(AuthError::TagMismatch)));
    assert_eq!(open_frame(&key, &base, 0, &f[..4], 0, true).err(), Some(UnsealError::Format(FormatError::Truncated)));
    assert_eq!(frame_end(&f, 0), Ok(f.len()));
}
