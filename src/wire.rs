use vstd::prelude::*;
use vstd::utf8::*;

verus! {

/// Big-endian value of the two bytes at `p`.
pub open spec fn be16_at(b: Seq<u8>, p: int) -> int {
    b[p] as int * 0x100 + b[p + 1] as int
}

/// Big-endian value of the four bytes at `p`.
pub open spec fn be32_at(b: Seq<u8>, p: int) -> int {
    be16_at(b, p) * 0x10000 + be16_at(b, p + 2)
}

/// Big-endian value of the eight bytes at `p`.
pub open spec fn be64_at(b: Seq<u8>, p: int) -> int {
    be32_at(b, p) * 0x1_0000_0000 + be32_at(b, p + 4)
}

/// The four big-endian bytes of `v`.
pub open spec fn be32_bytes(v: u32) -> Seq<u8> {
    seq![(v / 0x100_0000) as u8, ((v / 0x1_0000) % 0x100) as u8, ((v / 0x100) % 0x100) as u8, (v % 0x100) as u8]
}

/// A field of `n` bytes at `p`, and the position after it.
pub open spec fn spec_take(b: Seq<u8>, p: int, n: int) -> Option<(Seq<u8>, int)> {
    if 0 <= p && 0 <= n && p + n <= b.len() {
        Some((b.subrange(p, p + n), p + n))
    } else {
        None
    }
}

/// A byte field prefixed by its length as two big-endian bytes.
pub open spec fn spec_blob(b: Seq<u8>, p: int) -> Option<(Seq<u8>, int)> {
    if 0 <= p && p + 2 <= b.len() {
        spec_take(b, p + 2, be16_at(b, p))
    } else {
        None
    }
}

/// A length-prefixed field that holds UTF-8 text, decoded.
pub open spec fn spec_text(b: Seq<u8>, p: int) -> Option<(Seq<char>, int)> {
    match spec_blob(b, p) {
        Some((raw, q)) => if valid_utf8(raw) {
            Some((decode_utf8(raw), q))
        } else {
            None
        },
        None => None,
    }
}

/// Relies on `String::from_utf8`: it succeeds exactly on valid UTF-8 and keeps the bytes.
#[verifier::external_body]
fn utf8_string(raw: Vec<u8>) -> (r: Option<String>)
    ensures
        r is Some <==> valid_utf8(raw@),
        r matches Some(s) ==> encode_utf8(s@) == raw@,
{
    String::from_utf8(raw).ok()
}

/// Reads a big-endian `u16` at `p`.
pub fn read_u16(b: &[u8], p: usize) -> (r: Option<(u16, usize)>)
    ensures
        match r {
            Some((v, q)) => p + 2 <= b@.len() && v == be16_at(b@, p as int) && q == p + 2,
            None => p + 2 > b@.len(),
        },
{
    if p <= b.len() && b.len() - p >= 2 {
        let v: u16 = (b[p] as u16) * 0x100 + (b[p + 1] as u16);
        Some((v, p + 2))
    } else {
        None
    }
}

/// Reads a big-endian `u32` at `p`.
pub fn read_u32(b: &[u8], p: usize) -> (r: Option<(u32, usize)>)
    ensures
        match r {
            Some((v, q)) => p + 4 <= b@.len() && v == be32_at(b@, p as int) && q == p + 4,
            None => p + 4 > b@.len(),
        },
{
    if p <= b.len() && b.len() - p >= 4 {
        let hi = read_u16(b, p).unwrap().0;
        let lo = read_u16(b, p + 2).unwrap().0;
        let v: u32 = (hi as u32) * 0x10000 + (lo as u32);
        Some((v, p + 4))
    } else {
        None
    }
}

/// Reads a big-endian `u64` at `p`.
pub fn read_u64(b: &[u8], p: usize) -> (r: Option<(u64, usize)>)
    ensures
        match r {
            Some((v, q)) => p + 8 <= b@.len() && v == be64_at(b@, p as int) && q == p + 8,
            None => p + 8 > b@.len(),
        },
{
    if p <= b.len() && b.len() - p >= 8 {
        let hi = read_u32(b, p).unwrap().0;
        let lo = read_u32(b, p + 4).unwrap().0;
        let v: u64 = (hi as u64) * 0x1_0000_0000 + (lo as u64);
        Some((v, p + 8))
    } else {
        None
    }
}

/// Copies the `n` bytes at `p`.
pub fn read_take(b: &[u8], p: usize, n: usize) -> (r: Option<(Vec<u8>, usize)>)
    ensures
        match (r, spec_take(b@, p as int, n as int)) {
            (Some((v, q)), Some((w, s))) => v@ == w && q == s,
            (None, None) => true,
            _ => false,
        },
{
    if p <= b.len() && b.len() - p >= n {
        let v = vstd::slice::slice_to_vec(&b[p..p + n]);
        Some((v, p + n))
    } else {
        None
    }
}

/// Reads a length-prefixed byte field at `p`.
pub fn read_blob(b: &[u8], p: usize) -> (r: Option<(Vec<u8>, usize)>)
    ensures
        match (r, spec_blob(b@, p as int)) {
            (Some((v, q)), Some((w, s))) => v@ == w && q == s,
            (None, None) => true,
            _ => false,
        },
{
    match read_u16(b, p) {
        Some((n, q)) => read_take(b, q, n as usize),
        None => None,
    }
}

/// Reads a length-prefixed UTF-8 text field at `p`.
pub fn read_text(b: &[u8], p: usize) -> (r: Option<(String, usize)>)
    ensures
        match (r, spec_text(b@, p as int)) {
            (Some((v, q)), Some((w, s))) => v@ == w && q == s,
            (None, None) => true,
            _ => false,
        },
{
    match read_blob(b, p) {
        Some((raw, q)) => {
            match utf8_string(raw) {
                Some(s) => {
                    proof {
                        encode_utf8_decode_utf8(s@);
                    }
                    Some((s, q))
                },
                None => None,
            }
        },
        None => None,
    }
}

} // verus!
