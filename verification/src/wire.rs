//! The handshake wire format.
//!
//! A handshake is one frame: a 4-byte big-endian version, a 4-byte big-endian
//! payload length, and the payload. The payload is the sender's token, one
//! separator byte, and the decimal text of the sender's ring value.

use byteorder::{BigEndian, ByteOrder};
use vstd::prelude::*;

verus! {

/// Version that this generation of the protocol writes and accepts.
pub const CURRENT_API_VERSION: u32 = 1;

/// The byte between token and value in a handshake payload (`|`).
pub const TOKEN_VALUE_SEP: u8 = 0x7c;

/// Width of the version field and of the length field.
pub const FIELD_LEN: usize = 4;

/// Width of the two header fields together.
pub const HEADER_LEN: usize = 8;

/// The four bytes that stand for `n`, most significant first.
pub open spec fn be_bytes(n: u32) -> Seq<u8> {
    seq![
        (n / 0x100_0000) as u8,
        (n / 0x1_0000 % 0x100) as u8,
        (n / 0x100 % 0x100) as u8,
        (n % 0x100) as u8,
    ]
}

/// The number that the first four bytes of `bytes` stand for, most
/// significant first.
pub open spec fn be_value(bytes: Seq<u8>) -> int
    recommends
        bytes.len() >= 4,
{
    bytes[0] * 0x100_0000 + bytes[1] * 0x1_0000 + bytes[2] * 0x100 + bytes[3]
}

/// `be_value` undoes `be_bytes`.
pub proof fn lemma_be_value_of_bytes(n: u32)
    ensures
        be_bytes(n).len() == 4,
        be_value(be_bytes(n)) == n,
{
    let b0 = n as int / 0x100_0000;
    let b1 = n as int / 0x1_0000 % 0x100;
    let b2 = n as int / 0x100 % 0x100;
    let b3 = n as int % 0x100;
    assert(0 <= b0 < 256);
    assert(n as int / 0x100 == (n as int / 0x1_0000) * 0x100 + b2);
    assert(n as int / 0x1_0000 == b0 * 0x100 + b1);
    assert(n == ((b0 * 0x100 + b1) * 0x100 + b2) * 0x100 + b3);
}

/// `be_bytes` undoes `be_value`, and `be_value` stays within `u32`.
pub proof fn lemma_be_bytes_of_value(bytes: Seq<u8>)
    requires
        bytes.len() == 4,
    ensures
        0 <= be_value(bytes) <= u32::MAX,
        be_bytes(be_value(bytes) as u32) == bytes,
{
    let b0 = bytes[0] as int;
    let b1 = bytes[1] as int;
    let b2 = bytes[2] as int;
    let b3 = bytes[3] as int;
    let n = be_value(bytes);
    assert(n == ((b0 * 0x100 + b1) * 0x100 + b2) * 0x100 + b3);
    assert(n % 0x100 == b3);
    assert(n / 0x100 == (b0 * 0x100 + b1) * 0x100 + b2);
    assert(n / 0x100 % 0x100 == b2);
    assert(n / 0x1_0000 == b0 * 0x100 + b1);
    assert(n / 0x1_0000 % 0x100 == b1);
    assert(n / 0x100_0000 == b0);
    assert(be_bytes(n as u32) =~= bytes);
}

/// Calls `byteorder::BigEndian::write_u32` on a fresh 4-byte buffer. The
/// contract claims that the buffer then holds `n` most significant byte
/// first, which is what the crate documents for the big-endian order.
#[verifier::external_body]
fn write_u32_be(n: u32) -> (out: [u8; 4])
    ensures
        out@ == be_bytes(n),
{
    let mut out: [u8; 4] = [0; 4];
    BigEndian::write_u32(&mut out, n);
    out
}

/// Calls `byteorder::BigEndian::read_u32`, which panics on a buffer of fewer
/// than four bytes and otherwise reads the first four, most significant byte
/// first.
#[verifier::external_body]
fn read_u32_be(buf: &[u8]) -> (n: u32)
    requires
        buf@.len() >= 4,
    ensures
        n == be_value(buf@),
{
    BigEndian::read_u32(buf)
}

/// Appends the big-endian form of `n` to `out`.
pub fn put_u32(out: &mut Vec<u8>, n: u32)
    ensures
        final(out)@ == old(out)@ + be_bytes(n),
{
    let field = write_u32_be(n);
    let ghost before = out@;
    let mut i: usize = 0;
    while i < 4
        invariant
            i <= 4,
            field@ == be_bytes(n),
            out@ == before + be_bytes(n).subrange(0, i as int),
        decreases 4 - i,
    {
        out.push(field[i]);
        i = i + 1;
    }
}

/// Reads the big-endian number held in `buf[at..at + 4]`.
pub fn get_u32(buf: &[u8], at: usize) -> (n: u32)
    requires
        at + 4 <= buf@.len(),
    ensures
        n == be_value(buf@.subrange(at as int, at + 4)),
{
    let end: usize = buf.len();
    assert(at + 4 <= end);
    let field = vstd::slice::slice_subrange(buf, at, at + 4);
    read_u32_be(field)
}

/// The payload that carries `token` and `value`: the token, the separator,
/// the value.
pub open spec fn payload_of(token: Seq<u8>, value: Seq<u8>) -> Seq<u8> {
    token + seq![TOKEN_VALUE_SEP] + value
}

/// The frame that carries `payload` under `version`.
pub open spec fn frame_of(version: u32, payload: Seq<u8>) -> Seq<u8>
    recommends
        payload.len() <= u32::MAX,
{
    be_bytes(version) + be_bytes(payload.len() as u32) + payload
}

/// `at` is the place of the first separator in `bytes`.
pub open spec fn first_sep_at(bytes: Seq<u8>, at: int) -> bool {
    &&& 0 <= at < bytes.len()
    &&& bytes[at] == TOKEN_VALUE_SEP
    &&& forall|j: int| 0 <= j < at ==> bytes[j] != TOKEN_VALUE_SEP
}

/// `bytes` holds no separator.
pub open spec fn sep_free(bytes: Seq<u8>) -> bool {
    forall|j: int| 0 <= j < bytes.len() ==> bytes[j] != TOKEN_VALUE_SEP
}

/// What a payload splits into: the bytes before its first separator and the
/// bytes after it; `None` for a payload without a separator.
pub open spec fn split_payload(bytes: Seq<u8>) -> Option<(Seq<u8>, Seq<u8>)> {
    if sep_free(bytes) {
        None
    } else {
        let at = choose|at: int| first_sep_at(bytes, at);
        Some((bytes.subrange(0, at), bytes.subrange(at + 1, bytes.len() as int)))
    }
}

/// A payload whose first separator stands at `at` splits there.
pub proof fn lemma_split_at(bytes: Seq<u8>, at: int)
    requires
        first_sep_at(bytes, at),
    ensures
        split_payload(bytes) == Some(
            (bytes.subrange(0, at), bytes.subrange(at + 1, bytes.len() as int)),
        ),
{
    let chosen = choose|k: int| first_sep_at(bytes, k);
    assert(first_sep_at(bytes, chosen));
    assert(chosen == at) by {
        if chosen < at {
            assert(bytes[chosen] != TOKEN_VALUE_SEP);
        }
        if at < chosen {
            assert(bytes[at] != TOKEN_VALUE_SEP);
        }
    }
}

/// Splitting undoes `payload_of` for every token that holds no separator,
/// whatever the value holds.
pub proof fn lemma_payload_round_trip(token: Seq<u8>, value: Seq<u8>)
    requires
        sep_free(token),
    ensures
        split_payload(payload_of(token, value)) == Some((token, value)),
{
    let bytes = payload_of(token, value);
    let at = token.len() as int;
    assert(first_sep_at(bytes, at));
    lemma_split_at(bytes, at);
    assert(bytes.subrange(0, at) =~= token);
    assert(bytes.subrange(at + 1, bytes.len() as int) =~= value);
}

/// A frame starts with its version and its payload length, and the payload
/// follows the header.
pub proof fn lemma_frame_fields(version: u32, payload: Seq<u8>)
    requires
        payload.len() <= u32::MAX,
    ensures
        frame_of(version, payload).len() == HEADER_LEN + payload.len(),
        be_value(frame_of(version, payload).subrange(0, 4)) == version,
        be_value(frame_of(version, payload).subrange(4, 8)) == payload.len(),
        frame_of(version, payload).subrange(8, 8 + payload.len() as int) == payload,
{
    let frame = frame_of(version, payload);
    assert(frame.subrange(0, 4) =~= be_bytes(version));
    assert(frame.subrange(4, 8) =~= be_bytes(payload.len() as u32));
    assert(frame.subrange(8, 8 + payload.len() as int) =~= payload);
    lemma_be_value_of_bytes(version);
    lemma_be_value_of_bytes(payload.len() as u32);
}

/// The place of the first separator in `bytes`, if there is one.
pub fn find_sep(bytes: &[u8]) -> (found: Option<usize>)
    ensures
        match found {
            Some(at) => first_sep_at(bytes@, at as int),
            None => sep_free(bytes@),
        },
{
    let mut i: usize = 0;
    while i < bytes.len()
        invariant
            i <= bytes@.len(),
            forall|j: int| 0 <= j < i ==> bytes@[j] != TOKEN_VALUE_SEP,
        decreases bytes@.len() - i,
    {
        if bytes[i] == TOKEN_VALUE_SEP {
            return Some(i);
        }
        i = i + 1;
    }
    None
}

/// Copies `bytes[from..to]` into a vector of its own.
pub fn copy_range(bytes: &[u8], from: usize, to: usize) -> (out: Vec<u8>)
    requires
        from <= to <= bytes@.len(),
    ensures
        out@ == bytes@.subrange(from as int, to as int),
{
    let mut out: Vec<u8> = Vec::new();
    let mut i: usize = from;
    while i < to
        invariant
            from <= i <= to <= bytes@.len(),
            out@ == bytes@.subrange(from as int, i as int),
        decreases to - i,
    {
        out.push(bytes[i]);
        i = i + 1;
    }
    out
}

/// Appends `bytes` to `out`.
pub fn append_bytes(out: &mut Vec<u8>, bytes: &[u8])
    ensures
        final(out)@ == old(out)@ + bytes@,
{
    let ghost before = out@;
    let mut i: usize = 0;
    while i < bytes.len()
        invariant
            i <= bytes@.len(),
            out@ == before + bytes@.subrange(0, i as int),
        decreases bytes@.len() - i,
    {
        out.push(bytes[i]);
        i = i + 1;
    }
    assert(bytes@.subrange(0, bytes@.len() as int) =~= bytes@);
}

/// Splits a payload at its first separator into token bytes and value bytes.
pub fn decode_payload(bytes: &[u8]) -> (parts: Option<(Vec<u8>, Vec<u8>)>)
    ensures
        match parts {
            Some((token, value)) => split_payload(bytes@) == Some((token@, value@)),
            None => split_payload(bytes@) is None,
        },
{
    match find_sep(bytes) {
        None => None,
        Some(at) => {
            proof {
                lemma_split_at(bytes@, at as int);
            }
            let end: usize = bytes.len();
            let token = copy_range(bytes, 0, at);
            let value = copy_range(bytes, at + 1, end);
            Some((token, value))
        },
    }
}

/// Whether the payload that carries `token` and `value` fits the length
/// field of a frame.
pub fn payload_fits(token: &[u8], value: &[u8]) -> (fits: bool)
    ensures
        fits == (payload_of(token@, value@).len() <= u32::MAX),
{
    let limit: u64 = 0xffff_ffff;
    token.len() as u64 <= limit && value.len() as u64 <= limit && token.len() as u64 + 1
        + value.len() as u64 <= limit
}

/// Builds the frame that carries `token` and `value` under the current
/// version. `None` when the payload is too long for the length field.
pub fn encode_frame(token: &[u8], value: &[u8]) -> (frame: Option<Vec<u8>>)
    ensures
        match frame {
            Some(bytes) => payload_of(token@, value@).len() <= u32::MAX && bytes@ == frame_of(
                CURRENT_API_VERSION,
                payload_of(token@, value@),
            ),
            None => payload_of(token@, value@).len() > u32::MAX,
        },
{
    if !payload_fits(token, value) {
        return None;
    }
    let total: u64 = token.len() as u64 + 1 + value.len() as u64;
    let mut out: Vec<u8> = Vec::new();
    put_u32(&mut out, CURRENT_API_VERSION);
    put_u32(&mut out, total as u32);
    append_bytes(&mut out, token);
    out.push(TOKEN_VALUE_SEP);
    append_bytes(&mut out, value);
    assert(out@ =~= frame_of(CURRENT_API_VERSION, payload_of(token@, value@)));
    Some(out)
}

} // verus!
