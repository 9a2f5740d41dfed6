//! The identity that two nodes exchange in a handshake: a token and a ring
//! value, the value being carried as the decimal text of an
//! arbitrary-precision integer.

use crate::wire::{
    decode_payload, encode_frame, frame_of, lemma_payload_round_trip, payload_fits, payload_of,
    sep_free, split_payload, CURRENT_API_VERSION,
};
use num::BigInt;
use std::str::FromStr;
use vstd::prelude::*;
use vstd::string::StrSliceExecFns;
use vstd::utf8::{
    char_u32_cast, decode_utf8, encode_scalar, encode_utf8, encode_utf8_decode_utf8,
    encode_utf8_valid_utf8, valid_utf8,
};

verus! {

/// Why a node identity was refused at construction.
#[derive(Debug, Clone, Copy, PartialEq, Eq)]
pub enum SetupError {
    /// The value is not the decimal text of an integer.
    MalformedValue,
    /// The value is the decimal text of a negative integer.
    NegativeValue,
    /// Token and value together do not fit the length field of a frame.
    IdentityTooLong,
    /// The pool of workers is empty.
    NoWorkers,
}

/// Why a received handshake was refused.
#[derive(Debug, Clone, Copy, PartialEq, Eq)]
pub enum DecodeError {
    /// The version field holds 0 or a version newer than this node writes.
    UnsupportedVersion,
    /// The payload holds no separator.
    MissingSeparator,
    /// The bytes before the separator are not UTF-8.
    InvalidToken,
    /// The bytes after the separator are not UTF-8.
    InvalidValue,
}

/// The identity that a peer sent: its token and the text of its value.
#[derive(Debug, Clone, PartialEq, Eq)]
pub struct PeerIdentity {
    pub token: String,
    pub value: String,
}

/// The decimal text that `num` prints for the integer that it reads from
/// `text`; `None` where it reads none.
pub uninterp spec fn decimal_text(text: Seq<char>) -> Option<Seq<char>>;

/// Calls `num::BigInt::from_str` and, on the integer it gives, `to_str_radix`
/// with radix 10. The contract claims only that the outcome is a function of
/// the text: both calls compute from their argument alone.
#[verifier::external_body]
fn canonical_decimal(text: &str) -> (out: Option<String>)
    ensures
        match out {
            Some(printed) => decimal_text(text@) == Some(printed@),
            None => decimal_text(text@) is None,
        },
{
    match BigInt::from_str(text) {
        Ok(n) => Some(n.to_str_radix(10)),
        Err(_) => None,
    }
}

/// Calls `String::from_utf8`, which gives a string that holds exactly the
/// bytes when they are UTF-8, and an error otherwise.
#[verifier::external_body]
fn string_from_utf8(bytes: Vec<u8>) -> (out: Option<String>)
    ensures
        match out {
            Some(text) => valid_utf8(bytes@) && encode_utf8(text@) == bytes@,
            None => !valid_utf8(bytes@),
        },
{
    match String::from_utf8(bytes) {
        Ok(text) => Some(text),
        Err(_) => None,
    }
}

/// A text as its characters, where there is one.
pub open spec fn text_view(text: Option<String>) -> Option<Seq<char>> {
    match text {
        Some(s) => Some(s@),
        None => None,
    }
}

/// The text starts with a minus sign.
pub open spec fn is_negative_text(text: Seq<char>) -> bool {
    text.len() > 0 && text[0] == '-'
}

/// The payload that carries `token` and `value`.
pub open spec fn identity_payload(token: Seq<char>, value: Seq<char>) -> Seq<u8> {
    payload_of(encode_utf8(token), encode_utf8(value))
}

/// The handshake frame of a node with this token and value.
pub open spec fn identity_frame(token: Seq<char>, value: Seq<char>) -> Seq<u8> {
    frame_of(CURRENT_API_VERSION, identity_payload(token, value))
}

/// What a received payload decodes to: token and value as text, or the
/// reason why it is refused.
pub open spec fn parse_identity(payload: Seq<u8>) -> Result<(Seq<char>, Seq<char>), DecodeError> {
    match split_payload(payload) {
        None => Err(DecodeError::MissingSeparator),
        Some((token, value)) => {
            if !valid_utf8(token) {
                Err(DecodeError::InvalidToken)
            } else if !valid_utf8(value) {
                Err(DecodeError::InvalidValue)
            } else {
                Ok((decode_utf8(token), decode_utf8(value)))
            }
        },
    }
}

/// The separator as a character.
pub open spec fn sep_char() -> char {
    '|'
}

/// No byte of the UTF-8 form of a scalar other than the separator equals the
/// separator byte.
proof fn lemma_scalar_sep_free(scalar: u32)
    requires
        scalar != 0x7c,
    ensures
        sep_free(encode_scalar(scalar)),
{
    assert((scalar & 0x7F) as u8 != 0x7cu8 || scalar > 0x7f) by (bit_vector)
        requires
            scalar != 0x7c,
    ;
    assert((0xC0u8 | ((scalar >> 6) & 0x1F) as u8) != 0x7cu8) by (bit_vector);
    assert((0xE0u8 | ((scalar >> 12) & 0x0F) as u8) != 0x7cu8) by (bit_vector);
    assert((0xF0u8 | ((scalar >> 18) & 0x7) as u8) != 0x7cu8) by (bit_vector);
    assert((0x80u8 | (scalar & 0x3F) as u8) != 0x7cu8) by (bit_vector);
    assert((0x80u8 | ((scalar >> 6) & 0x3F) as u8) != 0x7cu8) by (bit_vector);
    assert((0x80u8 | ((scalar >> 12) & 0x3F) as u8) != 0x7cu8) by (bit_vector);
}

/// Text without the separator character encodes to bytes without the
/// separator byte.
pub proof fn lemma_text_sep_free(text: Seq<char>)
    requires
        !text.contains(sep_char()),
    ensures
        sep_free(encode_utf8(text)),
    decreases text.len(),
{
    if text.len() > 0 {
        let rest = text.drop_first();
        assert(text[0] != sep_char()) by {
            assert(text.contains(text[0]));
        }
        assert(!rest.contains(sep_char())) by {
            if rest.contains(sep_char()) {
                let k = choose|k: int| 0 <= k < rest.len() && rest[k] == sep_char();
                assert(text[k + 1] == sep_char());
            }
        }
        lemma_text_sep_free(rest);
        assert(text[0] as u32 != 0x7c) by {
            if text[0] as u32 == 0x7c {
                char_u32_cast(text[0], 0x7c);
                char_u32_cast(sep_char(), 0x7c);
            }
        }
        lemma_scalar_sep_free(text[0] as u32);
    }
}

/// Round trip of the wire format: for every token without the separator
/// character and every value, decoding the encoded payload gives the pair
/// back.
pub proof fn lemma_identity_round_trip(token: Seq<char>, value: Seq<char>)
    requires
        !token.contains(sep_char()),
    ensures
        parse_identity(identity_payload(token, value)) == Ok::<_, DecodeError>((token, value)),
{
    lemma_text_sep_free(token);
    lemma_payload_round_trip(encode_utf8(token), encode_utf8(value));
    encode_utf8_valid_utf8(token);
    encode_utf8_valid_utf8(value);
    encode_utf8_decode_utf8(token);
    encode_utf8_decode_utf8(value);
}

/// Decodes a received payload into the identity that it carries.
pub fn decode_identity(payload: &[u8]) -> (out: Result<PeerIdentity, DecodeError>)
    ensures
        match (out, parse_identity(payload@)) {
            (Ok(peer), Ok(parsed)) => (peer.token@, peer.value@) == parsed,
            (Err(e), Err(refusal)) => e == refusal,
            _ => false,
        },
{
    match decode_payload(payload) {
        None => Err(DecodeError::MissingSeparator),
        Some((token_bytes, value_bytes)) => {
            match string_from_utf8(token_bytes) {
                None => Err(DecodeError::InvalidToken),
                Some(token) => match string_from_utf8(value_bytes) {
                    None => Err(DecodeError::InvalidValue),
                    Some(value) => {
                        proof {
                            encode_utf8_decode_utf8(token@);
                            encode_utf8_decode_utf8(value@);
                        }
                        Ok(PeerIdentity { token, value })
                    },
                },
            }
        },
    }
}

/// The identity of this node: its token and the decimal text of its ring
/// value, which together fit one handshake frame.
pub struct NodeIdentity {
    token: String,
    value: String,
}

impl NodeIdentity {
    /// The payload of this identity fits the length field of a frame.
    #[verifier::type_invariant]
    pub closed spec fn wf(&self) -> bool {
        identity_payload(self.token@, self.value@).len() <= u32::MAX
    }

    /// The token of this node.
    pub closed spec fn token_text(&self) -> Seq<char> {
        self.token@
    }

    /// The decimal text of this node's value.
    pub closed spec fn value_text(&self) -> Seq<char> {
        self.value@
    }

    /// What `from_canonical` answers for a token and the outcome of reading
    /// the value.
    pub open spec fn checked(token: Seq<char>, canonical: Option<Seq<char>>) -> Result<
        (Seq<char>, Seq<char>),
        SetupError,
    > {
        match canonical {
            None => Err(SetupError::MalformedValue),
            Some(value) => {
                if is_negative_text(value) {
                    Err(SetupError::NegativeValue)
                } else if identity_payload(token, value).len() > u32::MAX {
                    Err(SetupError::IdentityTooLong)
                } else {
                    Ok((token, value))
                }
            },
        }
    }

    /// Reads `value` as a decimal integer and keeps the text that the integer
    /// prints as. Refuses text that is no integer, a negative integer, and an
    /// identity too long for one frame.
    pub fn new(token: String, value: &str) -> (out: Result<NodeIdentity, SetupError>)
        ensures
            match (out, Self::checked(token@, decimal_text(value@))) {
                (Ok(id), Ok(kept)) => (id.token_text(), id.value_text()) == kept,
                (Err(e), Err(refusal)) => e == refusal,
                _ => false,
            },
    {
        let canonical = canonical_decimal(value);
        Self::from_canonical(token, canonical)
    }

    /// Builds the identity from a token and the outcome of reading the value:
    /// `None` for text that was no integer, else the text that the integer
    /// prints as.
    pub fn from_canonical(token: String, canonical: Option<String>) -> (out: Result<
        NodeIdentity,
        SetupError,
    >)
        ensures
            match (out, Self::checked(token@, text_view(canonical))) {
                (Ok(id), Ok(kept)) => (id.token_text(), id.value_text()) == kept,
                (Err(e), Err(refusal)) => e == refusal,
                _ => false,
            },
    {
        match canonical {
            None => Err(SetupError::MalformedValue),
            Some(value) => {
                if !value.as_str().is_empty() && value.as_str().get_char(0) == '-' {
                    return Err(SetupError::NegativeValue);
                }
                if !payload_fits(token.as_str().as_bytes(), value.as_str().as_bytes()) {
                    return Err(SetupError::IdentityTooLong);
                }
                Ok(NodeIdentity { token, value })
            },
        }
    }

    /// The token of this node.
    pub fn token(&self) -> (out: &String)
        ensures
            out@ == self.token_text(),
    {
        &self.token
    }

    /// The decimal text of this node's value.
    pub fn value(&self) -> (out: &String)
        ensures
            out@ == self.value_text(),
    {
        &self.value
    }

    /// The handshake frame that this node sends.
    pub fn handshake(&self) -> (frame: Vec<u8>)
        ensures
            frame@ == identity_frame(self.token_text(), self.value_text()),
    {
        proof {
            use_type_invariant(self);
        }
        match encode_frame(self.token.as_str().as_bytes(), self.value.as_str().as_bytes()) {
            Some(frame) => frame,
            None => Vec::new(),
        }
    }
}

} // verus!
