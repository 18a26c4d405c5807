//! Byte-level framing shared by every message of the transfer protocol:
//! big-endian integers and length-prefixed UTF-8 strings.
use vstd::prelude::*;
use vstd::slice::*;
use vstd::utf8::*;

verus! {

/// Why a buffer could not be decoded (yet).
#[derive(Debug, Clone, Copy, PartialEq, Eq, Structural)]
pub enum DecodeError {
    /// The buffer ends early: at least this many bytes (counted from the
    /// start of the buffer) are needed before decoding can go on.
    NeedMore(u64),
    /// A length-prefixed string is not valid UTF-8.
    InvalidUtf8,
    /// A connection opened with a mode byte that the protocol does not know.
    UnknownMode(u8),
    /// A folder or batch entry carries a kind that the protocol does not know.
    UnknownEntryKind(u8),
}

/// `NeedMore` with a byte count, saturated at `u64::MAX`.
pub open spec fn need_more(total: int) -> DecodeError {
    DecodeError::NeedMore(if total > u64::MAX { u64::MAX } else { total as u64 })
}

// ---------- big-endian integers ----------

pub open spec fn be_u16_bytes(x: u16) -> Seq<u8> {
    seq![(x >> 8u16) as u8, x as u8]
}

pub open spec fn be_u32_bytes(x: u32) -> Seq<u8> {
    seq![(x >> 24u32) as u8, (x >> 16u32) as u8, (x >> 8u32) as u8, x as u8]
}

pub open spec fn be_u64_bytes(x: u64) -> Seq<u8> {
    seq![
        (x >> 56u64) as u8,
        (x >> 48u64) as u8,
        (x >> 40u64) as u8,
        (x >> 32u64) as u8,
        (x >> 24u64) as u8,
        (x >> 16u64) as u8,
        (x >> 8u64) as u8,
        x as u8,
    ]
}

pub open spec fn u16_from_be(b0: u8, b1: u8) -> u16 {
    ((b0 as u16) << 8u16) | (b1 as u16)
}

pub open spec fn u32_from_be(b0: u8, b1: u8, b2: u8, b3: u8) -> u32 {
    ((b0 as u32) << 24u32) | ((b1 as u32) << 16u32) | ((b2 as u32) << 8u32) | (b3 as u32)
}

pub open spec fn u64_from_be(
    b0: u8,
    b1: u8,
    b2: u8,
    b3: u8,
    b4: u8,
    b5: u8,
    b6: u8,
    b7: u8,
) -> u64 {
    ((b0 as u64) << 56u64) | ((b1 as u64) << 48u64) | ((b2 as u64) << 40u64) | ((b3 as u64)
        << 32u64) | ((b4 as u64) << 24u64) | ((b5 as u64) << 16u64) | ((b6 as u64) << 8u64) | (
    b7 as u64)
}

/// The big-endian `u16` at byte offset `p`.
pub open spec fn be_u16_at(b: Seq<u8>, p: int) -> u16 {
    u16_from_be(b[p], b[p + 1])
}

/// The big-endian `u32` at byte offset `p`.
pub open spec fn be_u32_at(b: Seq<u8>, p: int) -> u32 {
    u32_from_be(b[p], b[p + 1], b[p + 2], b[p + 3])
}

/// The big-endian `u64` at byte offset `p`.
pub open spec fn be_u64_at(b: Seq<u8>, p: int) -> u64 {
    u64_from_be(b[p], b[p + 1], b[p + 2], b[p + 3], b[p + 4], b[p + 5], b[p + 6], b[p + 7])
}

pub proof fn lemma_u16_roundtrip(x: u16)
    ensures
        u16_from_be((x >> 8u16) as u8, x as u8) == x,
{
    assert(((((x >> 8u16) as u8) as u16) << 8u16) | ((x as u8) as u16) == x) by (bit_vector);
}

pub proof fn lemma_u32_roundtrip(x: u32)
    ensures
        u32_from_be((x >> 24u32) as u8, (x >> 16u32) as u8, (x >> 8u32) as u8, x as u8) == x,
{
    assert(((((x >> 24u32) as u8) as u32) << 24u32) | ((((x >> 16u32) as u8) as u32) << 16u32)
        | ((((x >> 8u32) as u8) as u32) << 8u32) | ((x as u8) as u32) == x) by (bit_vector);
}

pub proof fn lemma_u64_roundtrip(x: u64)
    ensures
        u64_from_be(
            (x >> 56u64) as u8,
            (x >> 48u64) as u8,
            (x >> 40u64) as u8,
            (x >> 32u64) as u8,
            (x >> 24u64) as u8,
            (x >> 16u64) as u8,
            (x >> 8u64) as u8,
            x as u8,
        ) == x,
{
    assert(((((x >> 56u64) as u8) as u64) << 56u64) | ((((x >> 48u64) as u8) as u64) << 48u64)
        | ((((x >> 40u64) as u8) as u64) << 40u64) | ((((x >> 32u64) as u8) as u64) << 32u64)
        | ((((x >> 24u64) as u8) as u64) << 24u64) | ((((x >> 16u64) as u8) as u64) << 16u64)
        | ((((x >> 8u64) as u8) as u64) << 8u64) | ((x as u8) as u64) == x) by (bit_vector);
}

/// Appends `x` in big-endian order (`u16::to_be_bytes`).
pub fn push_u16_be(out: &mut Vec<u8>, x: u16)
    ensures
        final(out)@ == old(out)@ + be_u16_bytes(x),
{
    out.push((x >> 8u16) as u8);
    out.push(x as u8);
    assert(final(out)@ =~= old(out)@ + be_u16_bytes(x));
}

/// Appends `x` in big-endian order (`u32::to_be_bytes`).
pub fn push_u32_be(out: &mut Vec<u8>, x: u32)
    ensures
        final(out)@ == old(out)@ + be_u32_bytes(x),
{
    out.push((x >> 24u32) as u8);
    out.push((x >> 16u32) as u8);
    out.push((x >> 8u32) as u8);
    out.push(x as u8);
    assert(final(out)@ =~= old(out)@ + be_u32_bytes(x));
}

/// Appends `x` in big-endian order (`u64::to_be_bytes`).
pub fn push_u64_be(out: &mut Vec<u8>, x: u64)
    ensures
        final(out)@ == old(out)@ + be_u64_bytes(x),
{
    out.push((x >> 56u64) as u8);
    out.push((x >> 48u64) as u8);
    out.push((x >> 40u64) as u8);
    out.push((x >> 32u64) as u8);
    out.push((x >> 24u64) as u8);
    out.push((x >> 16u64) as u8);
    out.push((x >> 8u64) as u8);
    out.push(x as u8);
    assert(final(out)@ =~= old(out)@ + be_u64_bytes(x));
}

/// Appends all of `bytes`.
pub fn push_bytes(out: &mut Vec<u8>, bytes: &[u8])
    ensures
        final(out)@ == old(out)@ + bytes@,
{
    let n = bytes.len();
    let mut i: usize = 0;
    while i < n
        invariant
            n == bytes@.len(),
            i <= n,
            out@ == old(out)@ + bytes@.take(i as int),
        decreases n - i,
    {
        out.push(bytes[i]);
        assert(bytes@.take(i + 1) =~= bytes@.take(i as int).push(bytes@[i as int]));
        i = i + 1;
    }
    assert(bytes@.take(n as int) =~= bytes@);
}

/// Reads a byte, or asks for more input.
#[verifier::opaque]
pub open spec fn u8_at(b: Seq<u8>, p: int) -> Result<(u8, int), DecodeError> {
    if b.len() < p + 1 {
        Err(need_more(p + 1))
    } else {
        Ok((b[p], p + 1))
    }
}

/// Reads a big-endian `u16`, or asks for more input.
#[verifier::opaque]
pub open spec fn u16_at(b: Seq<u8>, p: int) -> Result<(u16, int), DecodeError> {
    if b.len() < p + 2 {
        Err(need_more(p + 2))
    } else {
        Ok((be_u16_at(b, p), p + 2))
    }
}

/// Reads a big-endian `u32`, or asks for more input.
#[verifier::opaque]
pub open spec fn u32_at(b: Seq<u8>, p: int) -> Result<(u32, int), DecodeError> {
    if b.len() < p + 4 {
        Err(need_more(p + 4))
    } else {
        Ok((be_u32_at(b, p), p + 4))
    }
}

/// Reads a big-endian `u64`, or asks for more input.
#[verifier::opaque]
pub open spec fn u64_at(b: Seq<u8>, p: int) -> Result<(u64, int), DecodeError> {
    if b.len() < p + 8 {
        Err(need_more(p + 8))
    } else {
        Ok((be_u64_at(b, p), p + 8))
    }
}

/// Reads a frame: a big-endian `u32` length and that many bytes.
#[verifier::opaque]
pub open spec fn frame_at(b: Seq<u8>, p: int) -> Result<(Seq<u8>, int), DecodeError> {
    if b.len() < p + 4 {
        Err(need_more(p + 4))
    } else {
        let n = be_u32_at(b, p) as int;
        if b.len() < p + 4 + n {
            Err(need_more(p + 4 + n))
        } else {
            Ok((b.subrange(p + 4, p + 4 + n), p + 4 + n))
        }
    }
}

/// Reads a length-prefixed UTF-8 string.
#[verifier::opaque]
pub open spec fn string_at(b: Seq<u8>, p: int) -> Result<(Seq<char>, int), DecodeError> {
    match frame_at(b, p) {
        Ok((bytes, q)) => if valid_utf8(bytes) {
            Ok((decode_utf8(bytes), q))
        } else {
            Err(DecodeError::InvalidUtf8)
        },
        Err(e) => Err(e),
    }
}

/// The frame that carries `bytes`: its length as a big-endian `u32`
/// (truncated as `len as u32` does), then the bytes.
pub open spec fn frame_bytes(bytes: Seq<u8>) -> Seq<u8> {
    be_u32_bytes(bytes.len() as u32) + bytes
}

/// The frame that carries a string's UTF-8 encoding.
pub open spec fn string_bytes(s: Seq<char>) -> Seq<u8> {
    frame_bytes(encode_utf8(s))
}

/// Whether a string fits in a frame (its UTF-8 length fits in a `u32`).
pub open spec fn fits_frame(s: Seq<char>) -> bool {
    encode_utf8(s).len() <= u32::MAX
}

/// `String::from_utf8`.
#[verifier::external_body]
fn string_from_utf8(v: Vec<u8>) -> (res: Option<String>)
    ensures
        res is Some <==> valid_utf8(v@),
        res matches Some(s) ==> s@ == decode_utf8(v@),
{
    String::from_utf8(v).ok()
}

/// `String::from_utf8_lossy`: on valid UTF-8 it gives back the decoded text.
#[verifier::external_body]
fn string_from_utf8_lossy(v: &[u8]) -> (res: String)
    ensures
        valid_utf8(v@) ==> res@ == decode_utf8(v@),
{
    String::from_utf8_lossy(v).to_string()
}

/// Reads one byte at offset `p`.
pub fn read_u8_at(b: &[u8], p: usize) -> (res: Result<(u8, usize), DecodeError>)
    ensures
        match u8_at(b@, p as int) {
            Ok((v, q)) => res matches Ok((w, r)) && w == v && r == q,
            Err(e) => res == Err::<(u8, usize), DecodeError>(e),
        },
{
    reveal(u8_at);
    if b.len() < 1 || p > b.len() - 1 {
        Err(DecodeError::NeedMore(if p as u64 == u64::MAX { u64::MAX } else { p as u64 + 1 }))
    } else {
        Ok((b[p], p + 1))
    }
}

/// Reads a big-endian `u16` at offset `p`.
pub fn read_u16_at(b: &[u8], p: usize) -> (res: Result<(u16, usize), DecodeError>)
    ensures
        match u16_at(b@, p as int) {
            Ok((v, q)) => res matches Ok((w, r)) && w == v && r == q,
            Err(e) => res == Err::<(u16, usize), DecodeError>(e),
        },
{
    reveal(u16_at);
    if b.len() < 2 || p > b.len() - 2 {
        Err(DecodeError::NeedMore(if p as u64 > u64::MAX - 2 { u64::MAX } else { p as u64 + 2 }))
    } else {
        Ok((((b[p] as u16) << 8u16) | (b[p + 1] as u16), p + 2))
    }
}

/// Reads a big-endian `u32` at offset `p`.
pub fn read_u32_at(b: &[u8], p: usize) -> (res: Result<(u32, usize), DecodeError>)
    ensures
        match u32_at(b@, p as int) {
            Ok((v, q)) => res matches Ok((w, r)) && w == v && r == q,
            Err(e) => res == Err::<(u32, usize), DecodeError>(e),
        },
{
    reveal(u32_at);
    if b.len() < 4 || p > b.len() - 4 {
        Err(DecodeError::NeedMore(if p as u64 > u64::MAX - 4 { u64::MAX } else { p as u64 + 4 }))
    } else {
        let v = ((b[p] as u32) << 24u32) | ((b[p + 1] as u32) << 16u32) | ((b[p + 2] as u32)
            << 8u32) | (b[p + 3] as u32);
        Ok((v, p + 4))
    }
}

/// Reads a big-endian `u64` at offset `p`.
pub fn read_u64_at(b: &[u8], p: usize) -> (res: Result<(u64, usize), DecodeError>)
    ensures
        match u64_at(b@, p as int) {
            Ok((v, q)) => res matches Ok((w, r)) && w == v && r == q,
            Err(e) => res == Err::<(u64, usize), DecodeError>(e),
        },
{
    reveal(u64_at);
    if b.len() < 8 || p > b.len() - 8 {
        Err(DecodeError::NeedMore(if p as u64 > u64::MAX - 8 { u64::MAX } else { p as u64 + 8 }))
    } else {
        let v = ((b[p] as u64) << 56u64) | ((b[p + 1] as u64) << 48u64) | ((b[p + 2] as u64)
            << 40u64) | ((b[p + 3] as u64) << 32u64) | ((b[p + 4] as u64) << 24u64) | ((b[p
            + 5] as u64) << 16u64) | ((b[p + 6] as u64) << 8u64) | (b[p + 7] as u64);
        Ok((v, p + 8))
    }
}

/// Reads a frame at offset `p`: a big-endian `u32` length, then that many bytes.
pub fn read_frame_at(b: &[u8], p: usize) -> (res: Result<(Vec<u8>, usize), DecodeError>)
    ensures
        match frame_at(b@, p as int) {
            Ok((v, q)) => res matches Ok((w, r)) && w@ == v && r == q,
            Err(e) => res == Err::<(Vec<u8>, usize), DecodeError>(e),
        },
{
    reveal(frame_at);
    reveal(u32_at);
    let (n, q) = match read_u32_at(b, p) {
        Ok(x) => x,
        Err(e) => {
            return Err(e);
        },
    };
    let n = n as usize;
    if b.len() - q < n {
        let total: u64 = if q as u64 > u64::MAX - n as u64 {
            u64::MAX
        } else {
            q as u64 + n as u64
        };
        return Err(DecodeError::NeedMore(total));
    }
    let body = slice_to_vec(slice_subrange(b, q, q + n));
    Ok((body, q + n))
}

/// Reads a length-prefixed UTF-8 string at offset `p`.
pub fn read_string_at(b: &[u8], p: usize) -> (res: Result<(String, usize), DecodeError>)
    ensures
        match string_at(b@, p as int) {
            Ok((s, q)) => res matches Ok((t, r)) && t@ == s && r == q,
            Err(e) => res == Err::<(String, usize), DecodeError>(e),
        },
{
    reveal(string_at);
    let (bytes, q) = match read_frame_at(b, p) {
        Ok(x) => x,
        Err(e) => {
            return Err(e);
        },
    };
    match string_from_utf8(bytes) {
        Some(s) => Ok((s, q)),
        None => Err(DecodeError::InvalidUtf8),
    }
}

/// Reads a length-prefixed string at offset `p`, replacing invalid UTF-8
/// (`String::from_utf8_lossy`).
pub fn read_string_lossy_at(b: &[u8], p: usize) -> (res: Result<(String, usize), DecodeError>)
    ensures
        match frame_at(b@, p as int) {
            Ok((v, q)) => res matches Ok((t, r)) && r == q && (valid_utf8(v) ==> t@
                == decode_utf8(v)),
            Err(e) => res == Err::<(String, usize), DecodeError>(e),
        },
{
    let (bytes, q) = match read_frame_at(b, p) {
        Ok(x) => x,
        Err(e) => {
            return Err(e);
        },
    };
    Ok((string_from_utf8_lossy(bytes.as_slice()), q))
}

/// Appends a frame that carries `bytes` (length as `u32`, then the bytes).
pub fn push_frame(out: &mut Vec<u8>, bytes: &[u8])
    ensures
        final(out)@ == old(out)@ + frame_bytes(bytes@),
{
    push_u32_be(out, bytes.len() as u32);
    push_bytes(out, bytes);
    assert(final(out)@ =~= old(out)@ + frame_bytes(bytes@));
}

/// Appends a length-prefixed string: its UTF-8 length as a big-endian
/// `u32`, then its UTF-8 bytes.
pub fn write_string(out: &mut Vec<u8>, s: &str)
    ensures
        final(out)@ == old(out)@ + string_bytes(s@),
{
    push_frame(out, s.as_bytes());
}

/// Reads a length-prefixed UTF-8 string from the start of `buf`; returns it
/// with the number of bytes it took.
pub fn read_string(buf: &[u8]) -> (res: Result<(String, usize), DecodeError>)
    ensures
        match string_at(buf@, 0) {
            Ok((s, q)) => res matches Ok((t, r)) && t@ == s && r == q,
            Err(e) => res == Err::<(String, usize), DecodeError>(e),
        },
{
    read_string_at(buf, 0)
}

// ---------- framing laws ----------

/// A frame is read back from any buffer that starts with it.
pub proof fn lemma_frame_roundtrip(pre: Seq<u8>, bytes: Seq<u8>, rest: Seq<u8>)
    requires
        bytes.len() <= u32::MAX,
    ensures
        frame_at(pre + frame_bytes(bytes) + rest, pre.len() as int) == Ok::<
            (Seq<u8>, int),
            DecodeError,
        >((bytes, (pre.len() + 4 + bytes.len()) as int)),
{
    reveal(frame_at);
    let n = bytes.len() as u32;
    let b = pre + frame_bytes(bytes) + rest;
    let p = pre.len() as int;
    lemma_u32_roundtrip(n);
    assert(b[p] == (n >> 24u32) as u8);
    assert(b[p + 1] == (n >> 16u32) as u8);
    assert(b[p + 2] == (n >> 8u32) as u8);
    assert(b[p + 3] == n as u8);
    assert(be_u32_at(b, p) == n);
    assert(b.subrange(p + 4, p + 4 + n as int) =~= bytes);
}

/// A string is read back from any buffer that starts with its frame.
#[verifier::spinoff_prover]
pub proof fn lemma_string_roundtrip(pre: Seq<u8>, s: Seq<char>, rest: Seq<u8>)
    requires
        fits_frame(s),
    ensures
        string_at(pre + string_bytes(s) + rest, pre.len() as int) == Ok::<
            (Seq<char>, int),
            DecodeError,
        >((s, (pre.len() + string_bytes(s).len()) as int)),
{
    reveal(string_at);
    let e = encode_utf8(s);
    let b = pre + string_bytes(s) + rest;
    let p = pre.len() as int;
    lemma_frame_roundtrip(pre, e, rest);
    assert(frame_at(b, p) == Ok::<(Seq<u8>, int), DecodeError>((e, p + 4 + e.len())));
    assert(valid_utf8(e)) by {
        encode_utf8_valid_utf8(s);
    }
    assert(decode_utf8(e) == s) by {
        encode_utf8_decode_utf8(s);
    }
    assert(string_bytes(s).len() == 4 + e.len());
    assert(string_at(b, p) == Ok::<(Seq<char>, int), DecodeError>((s, p + 4 + e.len())));
}

/// A big-endian `u64` is read back from any buffer that starts with it.
pub proof fn lemma_u64_at_roundtrip(pre: Seq<u8>, x: u64, rest: Seq<u8>)
    ensures
        u64_at(pre + be_u64_bytes(x) + rest, pre.len() as int) == Ok::<(u64, int), DecodeError>(
            (x, pre.len() + 8int),
        ),
{
    reveal(u64_at);
    let b = pre + be_u64_bytes(x) + rest;
    let p = pre.len() as int;
    lemma_u64_roundtrip(x);
    assert(b[p] == (x >> 56u64) as u8);
    assert(b[p + 1] == (x >> 48u64) as u8);
    assert(b[p + 2] == (x >> 40u64) as u8);
    assert(b[p + 3] == (x >> 32u64) as u8);
    assert(b[p + 4] == (x >> 24u64) as u8);
    assert(b[p + 5] == (x >> 16u64) as u8);
    assert(b[p + 6] == (x >> 8u64) as u8);
    assert(b[p + 7] == x as u8);
}

/// A big-endian `u32` is read back from any buffer that starts with it.
pub proof fn lemma_u32_at_roundtrip(pre: Seq<u8>, x: u32, rest: Seq<u8>)
    ensures
        u32_at(pre + be_u32_bytes(x) + rest, pre.len() as int) == Ok::<(u32, int), DecodeError>(
            (x, pre.len() + 4int),
        ),
{
    reveal(u32_at);
    let b = pre + be_u32_bytes(x) + rest;
    let p = pre.len() as int;
    lemma_u32_roundtrip(x);
    assert(b[p] == (x >> 24u32) as u8);
    assert(b[p + 1] == (x >> 16u32) as u8);
    assert(b[p + 2] == (x >> 8u32) as u8);
    assert(b[p + 3] == x as u8);
}

/// A big-endian `u16` is read back from any buffer that starts with it.
pub proof fn lemma_u16_at_roundtrip(pre: Seq<u8>, x: u16, rest: Seq<u8>)
    ensures
        u16_at(pre + be_u16_bytes(x) + rest, pre.len() as int) == Ok::<(u16, int), DecodeError>(
            (x, pre.len() + 2int),
        ),
{
    reveal(u16_at);
    let b = pre + be_u16_bytes(x) + rest;
    let p = pre.len() as int;
    lemma_u16_roundtrip(x);
    assert(b[p] == (x >> 8u16) as u8);
    assert(b[p + 1] == x as u8);
}

} // verus!
