use vstd::prelude::*;

use aes_gcm::aead::{Aead, KeyInit};

use crate::container::BASE_NONCE_LEN;
use crate::error::{AuthError, FormatError, UnsealError};
use crate::wire::{be32_at, be32_bytes, read_u32};

verus! {

/// Length of a symmetric message key.
pub const KEY_LEN: usize = 32;
/// Length of an AES-GCM nonce.
pub const NONCE_LEN: usize = 12;
/// Length of an AES-GCM authentication tag.
pub const TAG_LEN: usize = 16;
/// Flag byte, then the sealed length as four big-endian bytes.
pub const FRAME_HEAD_LEN: usize = 5;

/// What AES-256-GCM decryption yields for a key, nonce, associated data and
/// ciphertext with its tag appended; `None` when the tag does not verify.
pub uninterp spec fn aes_gcm_open(key: Seq<u8>, nonce: Seq<u8>, aad: Seq<u8>, sealed: Seq<u8>) -> Option<Seq<u8>>;

/// Relies on `Aes256Gcm::decrypt` of aes-gcm: deterministic, and on success the
/// plaintext is the sealed input without its 16-byte tag.
#[verifier::external_body]
fn aes_gcm_decrypt(key: &[u8], nonce: &[u8], aad: &[u8], sealed: &[u8]) -> (r: Option<Vec<u8>>)
    requires
        key@.len() == KEY_LEN,
        nonce@.len() == NONCE_LEN,
    ensures
        match r {
            Some(pt) => aes_gcm_open(key@, nonce@, aad@, sealed@) == Some(pt@),
            None => aes_gcm_open(key@, nonce@, aad@, sealed@) is None,
        },
{
    let cipher = aes_gcm::Aes256Gcm::new_from_slice(key).ok()?;
    let nonce = aes_gcm::aead::Nonce::<aes_gcm::Aes256Gcm>::try_from(nonce).ok()?;
    cipher.decrypt(&nonce, aes_gcm::aead::Payload { msg: sealed, aad }).ok()
}

/// Nonce of chunk `i`: the base value, then the index as four big-endian bytes.
pub open spec fn chunk_nonce(base: Seq<u8>, i: u32) -> Seq<u8> {
    base + be32_bytes(i)
}

/// Associated data of chunk `i`: its index, then whether it is the final chunk.
pub open spec fn chunk_aad(i: u32, last: bool) -> Seq<u8> {
    be32_bytes(i) + seq![if last { 1u8 } else { 0u8 }]
}

/// The frame at `p`: final flag, sealed bytes, and the position after it.
pub open spec fn spec_frame(b: Seq<u8>, p: int) -> Result<(bool, Seq<u8>, int), FormatError> {
    if p + FRAME_HEAD_LEN > b.len() {
        Err(FormatError::Truncated)
    } else if b[p] > 1 {
        Err(FormatError::Malformed)
    } else if p + FRAME_HEAD_LEN + be32_at(b, p + 1) > b.len() {
        Err(FormatError::Truncated)
    } else {
        let end = p + FRAME_HEAD_LEN + be32_at(b, p + 1);
        Ok((b[p] == 1, b.subrange(p + FRAME_HEAD_LEN, end), end))
    }
}

/// Plaintext of the chunks from position `p` on, the first having index `i`.
pub open spec fn spec_chunks(key: Seq<u8>, base: Seq<u8>, b: Seq<u8>, p: int, i: nat) -> Result<
    Seq<u8>,
    UnsealError,
>
    decreases b.len() - p,
{
    if p < 0 || p >= b.len() {
        Err(UnsealError::Format(FormatError::Truncated))
    } else if i > u32::MAX {
        Err(UnsealError::Format(FormatError::Malformed))
    } else {
        match spec_frame(b, p) {
            Err(e) => Err(UnsealError::Format(e)),
            Ok((last, sealed, q)) => match aes_gcm_open(
                key,
                chunk_nonce(base, i as u32),
                chunk_aad(i as u32, last),
                sealed,
            ) {
                None => Err(UnsealError::Auth(AuthError::TagMismatch)),
                Some(pt) => if last {
                    if q == b.len() {
                        Ok(pt)
                    } else {
                        Err(UnsealError::Auth(AuthError::TrailingData))
                    }
                } else {
                    match spec_chunks(key, base, b, q, i + 1) {
                        Ok(rest) => Ok(pt + rest),
                        Err(e) => Err(e),
                    }
                },
            },
        }
    }
}

/// Plaintext of a whole chunk stream.
pub open spec fn spec_decrypt(key: Seq<u8>, base: Seq<u8>, b: Seq<u8>) -> Result<Seq<u8>, UnsealError> {
    spec_chunks(key, base, b, 0, 0)
}

/// `out` in front of a result's plaintext.
pub open spec fn after(out: Seq<u8>, r: Result<Seq<u8>, UnsealError>) -> Result<Seq<u8>, UnsealError> {
    match r {
        Ok(t) => Ok(out + t),
        Err(e) => Err(e),
    }
}

/// What opening one chunk means for the stream.
pub enum ChunkStep {
    /// Verified plaintext; more chunks follow.
    More(Vec<u8>),
    /// Verified plaintext of the final chunk; the stream is complete.
    Done(Vec<u8>),
}

/// Decides, from the result of opening one chunk, what the stream does next:
/// a chunk whose tag failed yields nothing, and a final chunk must end the input.
pub fn settle_chunk(opened: Option<Vec<u8>>, last: bool, at_end: bool) -> (r: Result<ChunkStep, AuthError>)
    ensures
        match opened {
            None => r == Err::<ChunkStep, AuthError>(AuthError::TagMismatch),
            Some(pt) => if !last {
                r matches Ok(ChunkStep::More(t)) && t@ == pt@
            } else if at_end {
                r matches Ok(ChunkStep::Done(t)) && t@ == pt@
            } else {
                r == Err::<ChunkStep, AuthError>(AuthError::TrailingData)
            },
        },
{
    match opened {
        None => Err(AuthError::TagMismatch),
        Some(pt) => if !last {
            Ok(ChunkStep::More(pt))
        } else if at_end {
            Ok(ChunkStep::Done(pt))
        } else {
            Err(AuthError::TrailingData)
        },
    }
}

/// The nonce bytes of chunk `i`.
fn make_nonce(base: &Vec<u8>, i: u32) -> (r: Vec<u8>)
    ensures
        r@ == chunk_nonce(base@, i),
{
    let mut r = base.clone();
    r.push((i / 0x100_0000) as u8);
    r.push(((i / 0x1_0000) % 0x100) as u8);
    r.push(((i / 0x100) % 0x100) as u8);
    r.push((i % 0x100) as u8);
    assert(r@ =~= chunk_nonce(base@, i));
    r
}

/// The associated data of chunk `i`.
fn make_aad(i: u32, last: bool) -> (r: Vec<u8>)
    ensures
        r@ == chunk_aad(i, last),
{
    let mut r: Vec<u8> = Vec::new();
    r.push((i / 0x100_0000) as u8);
    r.push(((i / 0x1_0000) % 0x100) as u8);
    r.push(((i / 0x100) % 0x100) as u8);
    r.push((i % 0x100) as u8);
    r.push(if last { 1u8 } else { 0u8 });
    assert(r@ =~= chunk_aad(i, last));
    r
}

/// Where the frame at `pos` ends, or why it cannot be read. A pull-based
/// reader uses this to know how many bytes it needs before the frame can be opened.
pub fn frame_end(buf: &[u8], pos: usize) -> (r: Result<usize, FormatError>)
    requires
        pos <= buf@.len(),
    ensures
        match spec_frame(buf@, pos as int) {
            Ok((_, _, q)) => r == Ok::<usize, FormatError>(q as usize) && q <= buf@.len(),
            Err(e) => r == Err::<usize, FormatError>(e),
        },
{
    if buf.len() - pos < FRAME_HEAD_LEN {
        return Err(FormatError::Truncated);
    }
    if buf[pos] > 1 {
        return Err(FormatError::Malformed);
    }
    let len = read_u32(buf, pos + 1).unwrap().0 as usize;
    if len > buf.len() - (pos + FRAME_HEAD_LEN) {
        return Err(FormatError::Truncated);
    }
    Ok(pos + FRAME_HEAD_LEN + len)
}

/// Opens chunk `i`, whose frame starts at `pos` in `buf`. `at_end` says that
/// nothing follows the frame in the stream. Plaintext is handed out only
/// after the chunk's tag verified.
pub fn open_frame(key: &Vec<u8>, base_nonce: &Vec<u8>, i: u32, buf: &[u8], pos: usize, at_end: bool) -> (r:
    Result<ChunkStep, UnsealError>)
    requires
        key@.len() == KEY_LEN,
        base_nonce@.len() == BASE_NONCE_LEN,
        pos <= buf@.len(),
    ensures
        match spec_frame(buf@, pos as int) {
            Err(e) => r == Err::<ChunkStep, UnsealError>(UnsealError::Format(e)),
            Ok((last, sealed, _)) => match aes_gcm_open(key@, chunk_nonce(base_nonce@, i), chunk_aad(i, last), sealed) {
                None => r == Err::<ChunkStep, UnsealError>(UnsealError::Auth(AuthError::TagMismatch)),
                Some(pt) => if !last {
                    r matches Ok(ChunkStep::More(t)) && t@ == pt
                } else if at_end {
                    r matches Ok(ChunkStep::Done(t)) && t@ == pt
                } else {
                    r == Err::<ChunkStep, UnsealError>(UnsealError::Auth(AuthError::TrailingData))
                },
            },
        },
{
    let end = match frame_end(buf, pos) {
        Ok(q) => q,
        Err(e) => return Err(UnsealError::Format(e)),
    };
    let last = buf[pos] == 1;
    let nonce = make_nonce(base_nonce, i);
    let aad = make_aad(i, last);
    let opened = aes_gcm_decrypt(key.as_slice(), nonce.as_slice(), aad.as_slice(), &buf[pos + FRAME_HEAD_LEN..end]);
    match settle_chunk(opened, last, at_end) {
        Ok(step) => Ok(step),
        Err(e) => Err(UnsealError::Auth(e)),
    }
}

/// Decrypts the chunk stream `body` with the message key and base nonce,
/// one frame at a time. Plaintext is returned only when every chunk verified
/// and the final chunk ended the input; on any failure nothing is returned.
pub fn decrypt_chunks(key: &Vec<u8>, base_nonce: &Vec<u8>, body: &[u8]) -> (r: Result<Vec<u8>, UnsealError>)
    requires
        key@.len() == KEY_LEN,
        base_nonce@.len() == BASE_NONCE_LEN,
    ensures
        match r {
            Ok(pt) => spec_decrypt(key@, base_nonce@, body@) == Ok::<Seq<u8>, UnsealError>(pt@),
            Err(e) => spec_decrypt(key@, base_nonce@, body@) == Err::<Seq<u8>, UnsealError>(e),
        },
{
    let mut out: Vec<u8> = Vec::new();
    let mut pos: usize = 0;
    let mut i: u32 = 0;
    loop
        invariant
            key@.len() == KEY_LEN,
            base_nonce@.len() == BASE_NONCE_LEN,
            pos <= body@.len(),
            spec_decrypt(key@, base_nonce@, body@) == after(out@, spec_chunks(key@, base_nonce@, body@, pos as int, i as nat)),
        decreases body@.len() - pos,
    {
        if pos >= body.len() {
            return Err(UnsealError::Format(FormatError::Truncated));
        }
        let end = match frame_end(body, pos) {
            Ok(q) => q,
            Err(e) => return Err(UnsealError::Format(e)),
        };
        match open_frame(key, base_nonce, i, body, pos, end == body.len()) {
            Err(e) => return Err(e),
            Ok(ChunkStep::Done(pt)) => {
                let ghost before = out@;
                let mut pt = pt;
                out.append(&mut pt);
                assert(out@ =~= before + spec_chunks(key@, base_nonce@, body@, pos as int, i as nat)->Ok_0);
                return Ok(out);
            },
            Ok(ChunkStep::More(pt)) => {
                if i == u32::MAX {
                    if end >= body.len() {
                        assert(spec_chunks(key@, base_nonce@, body@, end as int, (i + 1) as nat) == Err::<Seq<u8>, UnsealError>(UnsealError::Format(FormatError::Truncated)));
                        return Err(UnsealError::Format(FormatError::Truncated));
                    }
                    assert(spec_chunks(key@, base_nonce@, body@, end as int, (i + 1) as nat) == Err::<Seq<u8>, UnsealError>(UnsealError::Format(FormatError::Malformed)));
                    return Err(UnsealError::Format(FormatError::Malformed));
                }
                let ghost before = out@;
                let ghost chunk = pt@;
                let mut pt = pt;
                out.append(&mut pt);
                assert(out@ =~= before + chunk);
                assert forall|t: Seq<u8>| (before + chunk) + t =~= before + (chunk + t) by {}
                pos = end;
                i = i + 1;
            },
        }
    }
}

/// A frame that parses in `b` parses the same in `b` with bytes appended.
proof fn lemma_frame_extends(b: Seq<u8>, x: Seq<u8>, p: int)
    requires
        0 <= p,
        spec_frame(b, p) is Ok,
    ensures
        spec_frame(b + x, p) == spec_frame(b, p),
{
    let y = b + x;
    assert(y[p] == b[p]);
    assert(be32_at(y, p + 1) == be32_at(b, p + 1)) by {
        assert(y[p + 1] == b[p + 1] && y[p + 2] == b[p + 2] && y[p + 3] == b[p + 3] && y[p + 4] == b[p + 4]);
    }
    let end = p + FRAME_HEAD_LEN + be32_at(b, p + 1);
    assert(y.subrange(p + FRAME_HEAD_LEN, end) =~= b.subrange(p + FRAME_HEAD_LEN, end));
}

/// Bytes appended after the final chunk of a stream that decrypts are
/// reported as trailing data, and no plaintext is returned.
pub proof fn lemma_trailing_bytes_rejected(key: Seq<u8>, base: Seq<u8>, b: Seq<u8>, x: Seq<u8>, p: int, i: nat)
    requires
        spec_chunks(key, base, b, p, i) is Ok,
        x.len() > 0,
    ensures
        spec_chunks(key, base, b + x, p, i) == Err::<Seq<u8>, UnsealError>(
            UnsealError::Auth(AuthError::TrailingData),
        ),
    decreases b.len() - p,
{
    lemma_frame_extends(b, x, p);
    let (last, sealed, q) = spec_frame(b, p)->Ok_0;
    if !last {
        lemma_trailing_bytes_rejected(key, base, b, x, q, i + 1);
    }
}

/// Whole-stream form: a chunk stream that decrypts, followed by any bytes,
/// fails with trailing data.
pub proof fn lemma_appended_bytes_rejected(key: Seq<u8>, base: Seq<u8>, body: Seq<u8>, extra: Seq<u8>)
    requires
        spec_decrypt(key, base, body) is Ok,
        extra.len() > 0,
    ensures
        spec_decrypt(key, base, body + extra) == Err::<Seq<u8>, UnsealError>(
            UnsealError::Auth(AuthError::TrailingData),
        ),
{
    lemma_trailing_bytes_rejected(key, base, body, extra, 0, 0);
}

/// A stream that ends right after a chunk that is not final never succeeds:
/// it fails as truncated once that chunk verifies, and as tampered otherwise.
pub proof fn lemma_cut_after_non_final_chunk(key: Seq<u8>, base: Seq<u8>, b: Seq<u8>, p: int, i: nat)
    requires
        0 <= p < b.len(),
        i < u32::MAX,
        spec_frame(b, p) matches Ok((last, _, q)) && !last && q == b.len(),
    ensures
        spec_chunks(key, base, b, p, i) is Err,
        aes_gcm_open(key, chunk_nonce(base, i as u32), chunk_aad(i as u32, false), spec_frame(b, p)->Ok_0.1) is Some
            ==> spec_chunks(key, base, b, p, i) == Err::<Seq<u8>, UnsealError>(
            UnsealError::Format(FormatError::Truncated),
        ),
{
    let q = spec_frame(b, p)->Ok_0.2;
    assert(spec_chunks(key, base, b, q, i + 1) == Err::<Seq<u8>, UnsealError>(
        UnsealError::Format(FormatError::Truncated),
    ));
}

/// The frame of one sealed chunk.
pub open spec fn frame_of(last: bool, sealed: Seq<u8>) -> Seq<u8> {
    seq![if last { 1u8 } else { 0u8 }] + be32_bytes(sealed.len() as u32) + sealed
}

/// The frames of sealed chunks `i..`, the last one marked final.
pub open spec fn frames_from(sealed: Seq<Seq<u8>>, i: nat) -> Seq<u8>
    decreases sealed.len() - i,
{
    if i >= sealed.len() {
        Seq::empty()
    } else {
        frame_of(i + 1 == sealed.len(), sealed[i as int]) + frames_from(sealed, i + 1)
    }
}

/// The plaintexts `i..`, concatenated.
pub open spec fn concat_from(pts: Seq<Seq<u8>>, i: nat) -> Seq<u8>
    decreases pts.len() - i,
{
    if i >= pts.len() {
        Seq::empty()
    } else {
        pts[i as int] + concat_from(pts, i + 1)
    }
}

/// Chunk `i` of `sealed` opens to `pts[i]` under its own nonce and associated data.
pub open spec fn sealed_chunks(key: Seq<u8>, base: Seq<u8>, sealed: Seq<Seq<u8>>, pts: Seq<Seq<u8>>) -> bool {
    &&& sealed.len() == pts.len()
    &&& 0 < sealed.len() <= u32::MAX
    &&& forall|i: int|
        0 <= i < sealed.len() ==> {
            &&& #[trigger] sealed[i].len() <= u32::MAX
            &&& aes_gcm_open(key, chunk_nonce(base, i as u32), chunk_aad(i as u32, i + 1 == sealed.len()), sealed[i])
                == Some(pts[i])
        }
}

proof fn lemma_be32_round_trip(v: u32)
    ensures
        be32_at(be32_bytes(v), 0) == v,
{
    let n = v as int;
    vstd::arithmetic::div_mod::lemma_fundamental_div_mod(n, 0x100);
    vstd::arithmetic::div_mod::lemma_fundamental_div_mod(n / 0x100, 0x100);
    vstd::arithmetic::div_mod::lemma_fundamental_div_mod(n / 0x1_0000, 0x100);
    vstd::arithmetic::div_mod::lemma_div_denominator(n, 0x100, 0x100);
    vstd::arithmetic::div_mod::lemma_div_denominator(n, 0x1_0000, 0x100);
    vstd::arithmetic::div_mod::lemma_div_pos_is_pos(n, 0x100_0000);
    vstd::arithmetic::div_mod::lemma_div_is_ordered(n, 0xffff_ffff, 0x100_0000);
}

proof fn lemma_frame_of_parses(last: bool, sealed: Seq<u8>, rest: Seq<u8>)
    requires
        sealed.len() <= u32::MAX,
    ensures
        spec_frame(frame_of(last, sealed) + rest, 0) == Ok::<(bool, Seq<u8>, int), FormatError>(
            (last, sealed, frame_of(last, sealed).len() as int),
        ),
{
    let f = frame_of(last, sealed);
    let b = f + rest;
    lemma_be32_round_trip(sealed.len() as u32);
    let h = be32_bytes(sealed.len() as u32);
    assert(be32_at(b, 1) == be32_at(h, 0)) by {
        assert(b[1] == h[0] && b[2] == h[1] && b[3] == h[2] && b[4] == h[3]);
    }
    assert(b.subrange(FRAME_HEAD_LEN as int, f.len() as int) =~= sealed);
}

/// A frame parses the same with bytes put in front of the stream.
proof fn lemma_frame_shift(x: Seq<u8>, b: Seq<u8>, p: int)
    requires
        0 <= p,
    ensures
        match spec_frame(b, p) {
            Ok((last, sealed, q)) => spec_frame(x + b, x.len() + p) == Ok::<(bool, Seq<u8>, int), FormatError>(
                (last, sealed, x.len() + q),
            ),
            Err(e) => spec_frame(x + b, x.len() + p) == Err::<(bool, Seq<u8>, int), FormatError>(e),
        },
{
    let y = x + b;
    let o = x.len() as int;
    if p + FRAME_HEAD_LEN <= b.len() {
        assert(y[o + p] == b[p]);
        assert(be32_at(y, o + p + 1) == be32_at(b, p + 1)) by {
            assert(y[o + p + 1] == b[p + 1] && y[o + p + 2] == b[p + 2] && y[o + p + 3] == b[p + 3] && y[o + p + 4]
                == b[p + 4]);
        }
        let end = p + FRAME_HEAD_LEN + be32_at(b, p + 1);
        if end <= b.len() {
            assert(y.subrange(o + p + FRAME_HEAD_LEN, o + end) =~= b.subrange(p + FRAME_HEAD_LEN, end));
        }
    }
}

/// Decryption of a stream does not depend on bytes in front of it.
proof fn lemma_chunks_shift(key: Seq<u8>, base: Seq<u8>, x: Seq<u8>, b: Seq<u8>, p: int, i: nat)
    requires
        0 <= p,
    ensures
        spec_chunks(key, base, x + b, x.len() + p, i) == spec_chunks(key, base, b, p, i),
    decreases b.len() - p,
{
    if p < b.len() && i <= u32::MAX {
        lemma_frame_shift(x, b, p);
        if let Ok((last, sealed, q)) = spec_frame(b, p) {
            if !last && q < b.len() {
                lemma_chunks_shift(key, base, x, b, q, i + 1);
            }
        }
    }
}

proof fn lemma_frames_decrypt(key: Seq<u8>, base: Seq<u8>, sealed: Seq<Seq<u8>>, pts: Seq<Seq<u8>>, i: nat)
    requires
        sealed_chunks(key, base, sealed, pts),
        i < sealed.len(),
    ensures
        spec_chunks(key, base, frames_from(sealed, i), 0, i) == Ok::<Seq<u8>, UnsealError>(concat_from(pts, i)),
    decreases sealed.len() - i,
{
    let last = i + 1 == sealed.len();
    let f = frame_of(last, sealed[i as int]);
    let rest = frames_from(sealed, i + 1);
    assert(frames_from(sealed, i) == f + rest);
    lemma_frame_of_parses(last, sealed[i as int], rest);
    assert(sealed[i as int].len() <= u32::MAX);
    if last {
        assert(rest.len() == 0);
        assert(concat_from(pts, i + 1).len() == 0);
        assert(concat_from(pts, i) =~= pts[i as int]);
    } else {
        lemma_frames_decrypt(key, base, sealed, pts, i + 1);
        lemma_chunks_shift(key, base, f, rest, 0, i + 1);
        assert(f + rest == frames_from(sealed, i));
        assert(f.len() + 0 == f.len());
    }
}

/// Decrypting the frames of sealed chunks yields their plaintexts concatenated.
pub proof fn lemma_stream_is_concatenation(key: Seq<u8>, base: Seq<u8>, sealed: Seq<Seq<u8>>, pts: Seq<Seq<u8>>)
    requires
        sealed_chunks(key, base, sealed, pts),
    ensures
        spec_decrypt(key, base, frames_from(sealed, 0)) == Ok::<Seq<u8>, UnsealError>(concat_from(pts, 0)),
{
    lemma_frames_decrypt(key, base, sealed, pts, 0);
}

/// How a plaintext is split into chunks does not change what decryption yields:
/// two well-sealed streams with the same total plaintext decrypt to the same bytes.
pub proof fn lemma_chunking_invisible(
    key: Seq<u8>,
    base: Seq<u8>,
    sealed_a: Seq<Seq<u8>>,
    pts_a: Seq<Seq<u8>>,
    sealed_b: Seq<Seq<u8>>,
    pts_b: Seq<Seq<u8>>,
)
    requires
        sealed_chunks(key, base, sealed_a, pts_a),
        sealed_chunks(key, base, sealed_b, pts_b),
        concat_from(pts_a, 0) == concat_from(pts_b, 0),
    ensures
        spec_decrypt(key, base, frames_from(sealed_a, 0)) == spec_decrypt(key, base, frames_from(sealed_b, 0)),
        spec_decrypt(key, base, frames_from(sealed_a, 0)) is Ok,
{
    lemma_stream_is_concatenation(key, base, sealed_a, pts_a);
    lemma_stream_is_concatenation(key, base, sealed_b, pts_b);
}

/// A chunk whose tag does not verify ends the stream with a tag mismatch;
/// since decryption returns plaintext only on success, none is released.
pub proof fn lemma_unverified_chunk_fails(key: Seq<u8>, base: Seq<u8>, b: Seq<u8>, p: int, i: nat)
    requires
        0 <= p < b.len(),
        i <= u32::MAX,
        spec_frame(b, p) matches Ok((last, sealed, _)) && aes_gcm_open(
            key,
            chunk_nonce(base, i as u32),
            chunk_aad(i as u32, last),
            sealed,
        ) is None,
    ensures
        spec_chunks(key, base, b, p, i) == Err::<Seq<u8>, UnsealError>(UnsealError::Auth(AuthError::TagMismatch)),
{
}

/// An error anywhere in the stream is the error of the whole stream: chunks
/// that verified before it contribute no plaintext.
pub proof fn lemma_later_error_is_final(key: Seq<u8>, base: Seq<u8>, b: Seq<u8>, p: int, i: nat)
    requires
        0 <= p < b.len(),
        i < u32::MAX,
        spec_frame(b, p) matches Ok((last, sealed, q)) && !last && aes_gcm_open(
            key,
            chunk_nonce(base, i as u32),
            chunk_aad(i as u32, last),
            sealed,
        ) is Some && spec_chunks(key, base, b, q, i + 1) is Err,
    ensures
        spec_chunks(key, base, b, p, i) == spec_chunks(key, base, b, spec_frame(b, p)->Ok_0.2, i + 1),
{
}

/// The frames of sealed chunks `i..`, none of them marked final: what is
/// left of a stream cut right after a chunk that is not final.
pub open spec fn open_frames_from(sealed: Seq<Seq<u8>>, i: nat) -> Seq<u8>
    decreases sealed.len() - i,
{
    if i >= sealed.len() {
        Seq::empty()
    } else {
        frame_of(false, sealed[i as int]) + open_frames_from(sealed, i + 1)
    }
}

/// Chunk `i` of `sealed` opens as a non-final chunk.
pub open spec fn opens_as_non_final(key: Seq<u8>, base: Seq<u8>, sealed: Seq<Seq<u8>>) -> bool {
    forall|i: int|
        0 <= i < sealed.len() ==> (#[trigger] aes_gcm_open(
            key,
            chunk_nonce(base, i as u32),
            chunk_aad(i as u32, false),
            sealed[i],
        )) is Some
}

proof fn lemma_open_frames_fail(key: Seq<u8>, base: Seq<u8>, sealed: Seq<Seq<u8>>, i: nat)
    requires
        forall|k: int| 0 <= k < sealed.len() ==> #[trigger] sealed[k].len() <= u32::MAX,
        sealed.len() <= u32::MAX,
    ensures
        spec_chunks(key, base, open_frames_from(sealed, i), 0, i) is Err,
        opens_as_non_final(key, base, sealed) ==> spec_chunks(key, base, open_frames_from(sealed, i), 0, i)
            == Err::<Seq<u8>, UnsealError>(UnsealError::Format(FormatError::Truncated)),
    decreases sealed.len() - i,
{
    if i < sealed.len() {
        let f = frame_of(false, sealed[i as int]);
        let rest = open_frames_from(sealed, i + 1);
        assert(open_frames_from(sealed, i) == f + rest);
        lemma_frame_of_parses(false, sealed[i as int], rest);
        lemma_open_frames_fail(key, base, sealed, i + 1);
        lemma_chunks_shift(key, base, f, rest, 0, i + 1);
        assert(f.len() + 0 == f.len());
        if opens_as_non_final(key, base, sealed) {
            assert(aes_gcm_open(key, chunk_nonce(base, i as u32), chunk_aad(i as u32, false), sealed[i as int]) is Some);
        }
    }
}

/// A stream made only of chunks that are not final, as a container cut right
/// after such a chunk is, never decrypts: when its chunks verify it fails as
/// truncated, and it never yields the plaintext of the chunks it holds.
pub proof fn lemma_cut_stream_never_decrypts(key: Seq<u8>, base: Seq<u8>, sealed: Seq<Seq<u8>>)
    requires
        forall|k: int| 0 <= k < sealed.len() ==> #[trigger] sealed[k].len() <= u32::MAX,
        sealed.len() <= u32::MAX,
    ensures
        spec_decrypt(key, base, open_frames_from(sealed, 0)) is Err,
        opens_as_non_final(key, base, sealed) ==> spec_decrypt(key, base, open_frames_from(sealed, 0))
            == Err::<Seq<u8>, UnsealError>(UnsealError::Format(FormatError::Truncated)),
{
    lemma_open_frames_fail(key, base, sealed, 0);
}

/// The frames of a sealed stream are those of its first `m` chunks, none
/// final, followed by the frames of the rest.
proof fn lemma_frames_split(sealed: Seq<Seq<u8>>, m: nat, i: nat)
    requires
        i <= m < sealed.len(),
    ensures
        frames_from(sealed, i) == open_frames_from(sealed.subrange(0, m as int), i) + frames_from(sealed, m),
    decreases m - i,
{
    let p = sealed.subrange(0, m as int);
    if i < m {
        lemma_frames_split(sealed, m, i + 1);
        assert(p[i as int] == sealed[i as int]);
        let f = frame_of(false, sealed[i as int]);
        assert(frames_from(sealed, i) == f + frames_from(sealed, i + 1));
        assert(open_frames_from(p, i) == f + open_frames_from(p, i + 1));
        assert(frames_from(sealed, i) =~= open_frames_from(p, i) + frames_from(sealed, m));
    } else {
        assert(open_frames_from(p, i) =~= Seq::<u8>::empty());
        assert(frames_from(sealed, i) =~= open_frames_from(p, i) + frames_from(sealed, m));
    }
}

/// A well-sealed stream cut right after chunk `m - 1`, which is not its final
/// chunk, fails as truncated: the plaintext of the chunks before the cut is
/// never returned as success.
pub proof fn lemma_sealed_stream_cut_is_truncated(
    key: Seq<u8>,
    base: Seq<u8>,
    sealed: Seq<Seq<u8>>,
    pts: Seq<Seq<u8>>,
    m: nat,
)
    requires
        sealed_chunks(key, base, sealed, pts),
        0 < m < sealed.len(),
    ensures
        spec_decrypt(
            key,
            base,
            frames_from(sealed, 0).subrange(0, open_frames_from(sealed.subrange(0, m as int), 0).len() as int),
        ) == Err::<Seq<u8>, UnsealError>(UnsealError::Format(FormatError::Truncated)),
{
    let p = sealed.subrange(0, m as int);
    lemma_frames_split(sealed, m, 0);
    let cut = open_frames_from(p, 0);
    assert(frames_from(sealed, 0).subrange(0, cut.len() as int) =~= cut);
    assert forall|k: int| 0 <= k < p.len() implies #[trigger] p[k].len() <= u32::MAX by {
        assert(p[k] == sealed[k]);
        assert(sealed[k].len() <= u32::MAX);
    }
    assert forall|k: int| 0 <= k < p.len() implies (#[trigger] aes_gcm_open(
        key,
        chunk_nonce(base, k as u32),
        chunk_aad(k as u32, false),
        p[k],
    )) is Some by {
        assert(p[k] == sealed[k]);
        assert(sealed[k].len() <= u32::MAX);
    }
    lemma_cut_stream_never_decrypts(key, base, p);
}

} // verus!
