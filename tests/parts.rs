use unsealer::addresses::{convert_address, convert_list};
use unsealer::stream::{settle_chunk, ChunkStep};
use unsealer::error::AuthError;
use unsealer::upload::{DecryptError, Upload, UploadAction, UploadFormStatus, UploadMsg};
use unsealer::wire::{read_blob, read_text, read_u16, read_u32, read_u64};
use unsealer::registry::PolicyRegistry;
use unsealer::container::parse_header;

#[test]
fn wire_readers_exact_values() {
    let b = [0x01, 0x02, 0x03, 0x04, 0x05, 0x06, 0x07, 0x08, 0x09];
    assert_eq!(read_u16(&b, 0), Some((0x0102, 2)));
    assert_eq!(read_u32(&b, 1), Some((0x02030405, 5)));
    assert_eq!(read_u64(&b, 1), Some((0x0203040506070809, 9)));
    assert_eq!(read_u16(&b, 8), None);
    assert_eq!(read_u64(&b, 2), None);
    assert_eq!(read_blob(&[0, 2, 7, 8, 9], 0), Some((vec![7, 8], 4)));
    assert_eq!(read_blob(&[0, 4, 7, 8, 9], 0), None);
    assert_eq!(read_text(&[0, 2, b'h', b'i'], 0), Some(("hi".to_string(), 4)));
    assert_eq!(read_text(&[0, 1, 0xC3], 0), None);
}

#[test]
fn settle_chunk_outcomes() {
    assert!(matches!(settle_chunk(None, false, false), Err(AuthError::TagMismatch)));
    assert!(matches!(settle_chunk(Some(vec![1]), false, false), Ok(ChunkStep::More(v)) if v == vec![1]));
    assert!(matches!(settle_chunk(Some(vec![2]), true, true), Ok(ChunkStep::Done(v)) if v == vec![2]));
    assert!(matches!(settle_chunk(Some(vec![2]), true, false), Err(AuthError::TrailingData)));
}

#[test]
fn decrypt_error_descriptions() {
    assert_eq!(DecryptError::Deserialize.describe(), "failed to deserialize");
    assert_eq!(DecryptError::Failed.describe(), "failed to decrypt");
    assert_eq!(DecryptError::Unknown.describe(), "unknown file type");
}

#[test]
fn upload_single_recipient_selects_at_once() {
    let mut u = Upload::create();
    assert!(matches!(u.update(UploadMsg::AddFile), (true, UploadAction::ReadMetadata)));
    let (render, action) = u.update(UploadMsg::Selecting(vec!["a@x.nl".to_string()]));
    assert!(render);
    assert!(matches!(action, UploadAction::Select(ref id) if id == "a@x.nl"));
    assert_eq!(u.status, UploadFormStatus::Initial);
    let (_, action) = u.update(UploadMsg::Select("a@x.nl".to_string()));
    assert!(matches!(action, UploadAction::Decrypt(ref id) if id == "a@x.nl"));
    assert_eq!(u.status, UploadFormStatus::Decrypting);
    u.update(UploadMsg::Decrypted);
    assert_eq!(u.status, UploadFormStatus::Success);
    assert!(u.has_fields);
}

#[test]
fn upload_many_recipients_wait_for_choice() {
    let mut u = Upload::create();
    let (_, action) = u.update(UploadMsg::Selecting(vec!["a".to_string(), "b".to_string()]));
    assert!(matches!(action, UploadAction::Nothing));
    assert_eq!(u.status, UploadFormStatus::Selecting);
    assert_eq!(u.recipients, Some(vec!["a".to_string(), "b".to_string()]));
    u.update(UploadMsg::DecryptionFailed(DecryptError::Unknown));
    assert_eq!(u.status, UploadFormStatus::Error(DecryptError::Unknown));
    u.update(UploadMsg::Reset);
    assert_eq!(u.status, UploadFormStatus::Initial);
    assert_eq!(u.recipients, None);
    assert!(!u.has_fields);
}

fn push_text(out: &mut Vec<u8>, s: &str) {
    out.extend_from_slice(&(s.len() as u16).to_be_bytes());
    out.extend_from_slice(s.as_bytes());
}

#[test]
fn registry_lookup_and_order() {
    let mut m = vec![0u8; 8];
    m.extend_from_slice(&[0, 2]);
    for (id, ts) in [("q@x.nl", 3u64), ("p@x.nl", 4u64)] {
        push_text(&mut m, id);
        m.extend_from_slice(&ts.to_be_bytes());
        m.extend_from_slice(&[0, 0]);
        m.extend_from_slice(&[0, 1, ts as u8]);
    }
    let mut source = vec![0x14, 0x8A, 0x8E, 0xA7, 0, 1];
    source.extend_from_slice(&(m.len() as u32).to_be_bytes());
    source.extend_from_slice(&m);
    let (meta, _) = parse_header(&source).unwrap();
    let reg = PolicyRegistry::new(meta);
    assert_eq!(reg.len(), 2);
    assert_eq!(reg.identities(), vec!["q@x.nl", "p@x.nl"]);
    assert_eq!(reg.identity_at(1), "p@x.nl");
    assert_eq!(reg.policy_for(&"p@x.nl".to_string()).ok().map(|p| p.timestamp), Some(4));
    assert_eq!(reg.policy_for(&"p@x.nl".to_string()).ok().map(|p| p.encapsulated_key.clone()), Some(vec![4]));
    assert!(reg.policy_for(&"r@x.nl".to_string()).is_err());
    assert_eq!(reg.base_nonce(), &vec![0u8; 8]);
}

#[test]
fn address_list_joined() {
    let list = vec![Some("a@x.nl".to_string()), None, Some("b@x.nl".to_string()), Some("c@x.nl".to_string())];
    assert_eq!(convert_list(&list), "a@x.nl, b@x.nl, c@x.nl");
    assert_eq!(convert_list(&vec![None, Some("".to_string()), Some("d".to_string())]), ", d");
    assert_eq!(convert_list(&vec![]), "");
    assert_eq!(convert_address(&Some("e@x.nl".to_string())), "e@x.nl");
    assert_eq!(convert_address(&None), "");
}
