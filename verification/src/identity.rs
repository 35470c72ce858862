//! The x0x identity that x0x-compute reuses, as full lowercase hexadecimal.

use vstd::prelude::*;

use crate::error::{ComputeError, IdentityEncodingIssue};
use crate::text::{decimal_digits, digit_char, push_zero_padded, zero_padded};
use vstd::utf8::encode_utf8;

verus! {

/// The lowercase hexadecimal digit for `v`, which is below sixteen.
pub open spec fn nibble_char(v: int) -> char {
    if v < 10 {
        digit_char(v)
    } else if v == 10 {
        'a'
    } else if v == 11 {
        'b'
    } else if v == 12 {
        'c'
    } else if v == 13 {
        'd'
    } else if v == 14 {
        'e'
    } else {
        'f'
    }
}

/// Two lowercase hexadecimal digits per byte, high nibble first.
pub open spec fn hex_lower(bytes: Seq<u8>) -> Seq<char> {
    Seq::new(
        2 * bytes.len(),
        |i: int|
            if i % 2 == 0 {
                nibble_char((bytes[i / 2] / 16) as int)
            } else {
                nibble_char((bytes[i / 2] % 16) as int)
            },
    )
}

/// The value of one hexadecimal digit byte; both cases are digits.
pub open spec fn hex_value(b: u8) -> Option<u8> {
    if 65 <= b <= 70 {
        Some((b - 55) as u8)
    } else if 97 <= b <= 102 {
        Some((b - 87) as u8)
    } else if 48 <= b <= 57 {
        Some((b - 48) as u8)
    } else {
        None
    }
}

/// Whether every byte of `s` is a hexadecimal digit.
pub open spec fn all_hex(s: Seq<u8>) -> bool {
    forall|i: int| 0 <= i < s.len() ==> (#[trigger] hex_value(s[i])) is Some
}

/// The bytes that the digit pairs of `s` stand for.
pub open spec fn hex_decoded(s: Seq<u8>) -> Seq<u8> {
    Seq::new(
        s.len() / 2,
        |i: int| (hex_value(s[2 * i])->0 * 16 + hex_value(s[2 * i + 1])->0) as u8,
    )
}

/// Whether `s` decodes as hexadecimal: an even number of digit bytes.
pub open spec fn is_hex(s: Seq<u8>) -> bool {
    s.len() % 2 == 0 && all_hex(s)
}

/// The refusal for `s`, which is no hexadecimal: an odd length comes first,
/// then the first byte that is no digit, with its position.
pub open spec fn hex_refusal(s: Seq<u8>, issue: IdentityEncodingIssue) -> bool {
    if s.len() % 2 == 1 {
        issue == IdentityEncodingIssue::OddLength
    } else {
        issue matches IdentityEncodingIssue::InvalidHexCharacter { c, index } && {
            &&& index < s.len()
            &&& hex_value(s[index as int]) is None
            &&& c == s[index as int] as char
            &&& forall|j: int| 0 <= j < index ==> (#[trigger] hex_value(s[j])) is Some
        }
    }
}

/// What decoding `s` as hexadecimal gives.
pub open spec fn hex_decode_outcome(s: Seq<u8>, r: Result<Vec<u8>, IdentityEncodingIssue>) -> bool {
    if is_hex(s) {
        r matches Ok(v) && v@ == hex_decoded(s)
    } else {
        r matches Err(issue) && hex_refusal(s, issue)
    }
}

/// What parsing `s` as a 32-byte identifier for `field` gives: the hex
/// refusal, a wrong length, or the 32 decoded bytes.
pub open spec fn hex32_outcome(
    s: Seq<u8>,
    field: &'static str,
    r: Result<[u8; 32], ComputeError>,
) -> bool {
    if !is_hex(s) {
        r matches Err(ComputeError::InvalidIdentityEncoding { field: f, details }) && f == field
            && hex_refusal(s, details)
    } else if s.len() != 64 {
        r == Err::<[u8; 32], ComputeError>(
            ComputeError::InvalidIdentityEncoding {
                field,
                details: IdentityEncodingIssue::WrongByteLength { got: (s.len() / 2) as usize },
            },
        )
    } else {
        r matches Ok(a) && a@ == hex_decoded(s)
    }
}

/// Calls `hex::encode`, which writes each byte as two lowercase hexadecimal
/// digits, high nibble first (`BytesToHexChars` over `HEX_CHARS_LOWER`).
#[verifier::external_body]
fn hex_encode(bytes: &[u8]) -> (r: String)
    ensures
        r@ == hex_lower(bytes@),
{
    hex::encode(bytes)
}

/// Calls `hex::decode`, which refuses an odd number of bytes, then reads the
/// bytes pairwise and stops at the first byte that is no digit of either
/// case, and otherwise gives one byte per pair.
#[verifier::external_body]
fn hex_decode(data: &[u8]) -> (r: Result<Vec<u8>, IdentityEncodingIssue>)
    ensures
        hex_decode_outcome(data@, r),
{
    match hex::decode(data) {
        Ok(bytes) => Ok(bytes),
        Err(hex::FromHexError::InvalidHexCharacter { c, index }) => Err(
            IdentityEncodingIssue::InvalidHexCharacter { c, index },
        ),
        Err(hex::FromHexError::OddLength) => Err(IdentityEncodingIssue::OddLength),
        Err(hex::FromHexError::InvalidStringLength) => Err(
            IdentityEncodingIssue::InvalidStringLength,
        ),
    }
}

/// The text that `hex` gives a `FromHexError::InvalidHexCharacter` for the
/// byte `c` at position `index`.
pub uninterp spec fn invalid_character_text(c: char, index: usize) -> Seq<char>;

/// Calls `to_string` on `hex::FromHexError::InvalidHexCharacter { c, index }`,
/// whose `Display` writes the character in its debug form and the position.
#[verifier::external_body]
fn hex_invalid_character_text(c: char, index: usize) -> (r: String)
    ensures
        r@ == invalid_character_text(c, index),
{
    hex::FromHexError::InvalidHexCharacter { c, index }.to_string()
}

/// Calls `to_string` on `hex::FromHexError::OddLength`, whose `Display`
/// writes `Odd number of digits`.
#[verifier::external_body]
fn hex_odd_length_text() -> (r: String)
    ensures
        r@ == "Odd number of digits"@,
{
    hex::FromHexError::OddLength.to_string()
}

/// Calls `to_string` on `hex::FromHexError::InvalidStringLength`, whose
/// `Display` writes `Invalid string length`.
#[verifier::external_body]
fn hex_invalid_string_length_text() -> (r: String)
    ensures
        r@ == "Invalid string length"@,
{
    hex::FromHexError::InvalidStringLength.to_string()
}

/// The text that describes an identity encoding issue.
pub open spec fn issue_text(issue: IdentityEncodingIssue) -> Seq<char> {
    match issue {
        IdentityEncodingIssue::InvalidHexCharacter { c, index } => invalid_character_text(c, index),
        IdentityEncodingIssue::OddLength => "Odd number of digits"@,
        IdentityEncodingIssue::InvalidStringLength => "Invalid string length"@,
        IdentityEncodingIssue::WrongByteLength { got } => "expected 32 bytes, got "@
            + decimal_digits(got as nat),
    }
}

impl IdentityEncodingIssue {
    /// The details of the issue as text: `hex`'s own message for a refusal
    /// of the hexadecimal, and `expected 32 bytes, got n` for valid
    /// hexadecimal of the wrong length.
    pub fn details_text(&self) -> (r: String)
        ensures
            r@ == issue_text(*self),
    {
        match *self {
            IdentityEncodingIssue::InvalidHexCharacter { c, index } => hex_invalid_character_text(
                c,
                index,
            ),
            IdentityEncodingIssue::OddLength => hex_odd_length_text(),
            IdentityEncodingIssue::InvalidStringLength => hex_invalid_string_length_text(),
            IdentityEncodingIssue::WrongByteLength { got } => {
                let mut out = String::from_str("expected 32 bytes, got ");
                push_zero_padded(&mut out, got as u64, 0);
                proof {
                    assert(zero_padded(got as nat, 0) =~= decimal_digits(got as nat));
                }
                out
            },
        }
    }
}

/// Encodes an x0x `MachineId` as full lowercase hexadecimal.
pub fn encode_machine_id(machine_id: &[u8; 32]) -> (r: String)
    ensures
        r@ == hex_lower(machine_id@),
{
    hex_encode(machine_id.as_slice())
}

/// Encodes an x0x `AgentId` as full lowercase hexadecimal.
pub fn encode_agent_id(agent_id: &[u8; 32]) -> (r: String)
    ensures
        r@ == hex_lower(agent_id@),
{
    hex_encode(agent_id.as_slice())
}

/// Encodes an x0x `UserId` as full lowercase hexadecimal.
pub fn encode_user_id(user_id: &[u8; 32]) -> (r: String)
    ensures
        r@ == hex_lower(user_id@),
{
    hex_encode(user_id.as_slice())
}

fn parse_hex_32(value: &str, field: &'static str) -> (r: Result<[u8; 32], ComputeError>)
    ensures
        hex32_outcome(encode_utf8(value@), field, r),
{
    let decoded = match hex_decode(value.as_bytes()) {
        Ok(bytes) => bytes,
        Err(issue) => {
            return Err(ComputeError::InvalidIdentityEncoding { field, details: issue });
        },
    };
    if decoded.len() != 32 {
        return Err(
            ComputeError::InvalidIdentityEncoding {
                field,
                details: IdentityEncodingIssue::WrongByteLength { got: decoded.len() },
            },
        );
    }
    let mut out = [0u8; 32];
    let mut i: usize = 0;
    while i < 32
        invariant
            i <= 32,
            decoded@.len() == 32,
            forall|j: int| 0 <= j < i ==> out@[j] == decoded@[j],
        decreases 32 - i,
    {
        out[i] = decoded[i];
        i = i + 1;
    }
    assert(out@ =~= decoded@);
    Ok(out)
}

/// Parses a full hexadecimal agent id string into the 32 bytes of an x0x
/// `AgentId`; both cases of digits are accepted.
pub fn parse_agent_id_hex(value: &str) -> (r: Result<[u8; 32], ComputeError>)
    ensures
        hex32_outcome(encode_utf8(value@), "agent_id", r),
{
    parse_hex_32(value, "agent_id")
}

/// Parses a full hexadecimal machine id string into the 32 bytes of an x0x
/// `MachineId`; both cases of digits are accepted.
pub fn parse_machine_id_hex(value: &str) -> (r: Result<[u8; 32], ComputeError>)
    ensures
        hex32_outcome(encode_utf8(value@), "machine_id", r),
{
    parse_hex_32(value, "machine_id")
}

proof fn lemma_nibble_round_trip(v: int)
    requires
        0 <= v < 16,
    ensures
        '\0' <= nibble_char(v) <= '\u{7f}',
        hex_value(nibble_char(v) as u8) == Some(v as u8),
{
}

/// The lowercase hexadecimal text of any bytes is ASCII.
pub proof fn lemma_hex_lower_is_ascii(bytes: Seq<u8>)
    ensures
        vstd::utf8::is_ascii_chars(hex_lower(bytes)),
{
    assert forall|i: int| 0 <= i < hex_lower(bytes).len() implies '\0' <= #[trigger] hex_lower(
        bytes,
    )[i] <= '\u{7f}' by {
        lemma_nibble_round_trip((bytes[i / 2] / 16) as int);
        lemma_nibble_round_trip((bytes[i / 2] % 16) as int);
    }
}

/// Decoding the UTF-8 bytes of the lowercase hexadecimal text of `bytes`
/// gives `bytes` back, and nothing in that text is refused.
pub proof fn lemma_hex_round_trip(bytes: Seq<u8>)
    ensures
        is_hex(encode_utf8(hex_lower(bytes))),
        hex_decoded(encode_utf8(hex_lower(bytes))) == bytes,
        encode_utf8(hex_lower(bytes)).len() == 2 * bytes.len(),
{
    let text = hex_lower(bytes);
    lemma_hex_lower_is_ascii(bytes);
    vstd::utf8::is_ascii_chars_encode_utf8(text);
    let enc = encode_utf8(text);
    assert forall|i: int| 0 <= i < enc.len() implies (#[trigger] hex_value(enc[i])) is Some by {
        assert(text[i] as u8 == enc[i]);
        if i % 2 == 0 {
            lemma_nibble_round_trip((bytes[i / 2] / 16) as int);
        } else {
            lemma_nibble_round_trip((bytes[i / 2] % 16) as int);
        }
    }
    assert forall|k: int| 0 <= k < bytes.len() implies #[trigger] hex_decoded(enc)[k]
        == bytes[k] by {
        assert(text[2 * k] as u8 == enc[2 * k]);
        assert(text[2 * k + 1] as u8 == enc[2 * k + 1]);
        lemma_nibble_round_trip((bytes[k] / 16) as int);
        lemma_nibble_round_trip((bytes[k] % 16) as int);
    }
    assert(hex_decoded(enc) =~= bytes);
}

/// Encoding a 32-byte identifier as hexadecimal and parsing the text back
/// gives the identifier, whichever field it is parsed for.
pub proof fn lemma_identity_round_trip(
    id: [u8; 32],
    text: String,
    field: &'static str,
    r: Result<[u8; 32], ComputeError>,
)
    requires
        text@ == hex_lower(id@),
        hex32_outcome(encode_utf8(text@), field, r),
    ensures
        r == Ok::<[u8; 32], ComputeError>(id),
{
    lemma_hex_round_trip(id@);
    let a = r->Ok_0;
    assert(a =~= id);
}

/// Every encoded 32-byte identifier is 64 lowercase hexadecimal digits.
pub proof fn lemma_encoded_id_is_full_hex(id: [u8; 32])
    ensures
        hex_lower(id@).len() == 64,
        forall|i: int|
            0 <= i < 64 ==> ('0' <= #[trigger] hex_lower(id@)[i] <= '9' || 'a' <= hex_lower(id@)[i]
                <= 'f'),
{
    assert forall|i: int| 0 <= i < 64 implies ('0' <= #[trigger] hex_lower(id@)[i] <= '9' || 'a'
        <= hex_lower(id@)[i] <= 'f') by {
        lemma_nibble_round_trip((id@[i / 2] / 16) as int);
        lemma_nibble_round_trip((id@[i / 2] % 16) as int);
    }
}

/// Whether `s` is lowercase hexadecimal text: an even number of the digits
/// `0`-`9` and `a`-`f`.
pub open spec fn is_lower_hex_text(s: Seq<char>) -> bool {
    &&& s.len() % 2 == 0
    &&& forall|i: int|
        0 <= i < s.len() ==> ('0' <= #[trigger] s[i] <= '9' || 'a' <= s[i] <= 'f')
}

proof fn lemma_lower_hex_char(c: char)
    requires
        '0' <= c <= '9' || 'a' <= c <= 'f',
    ensures
        c as u8 as int == c as int,
        hex_value(c as u8) is Some,
        hex_value(c as u8)->0 < 16,
        nibble_char(hex_value(c as u8)->0 as int) == c,
{
    if '0' <= c <= '9' {
        assert(c == '0' || c == '1' || c == '2' || c == '3' || c == '4' || c == '5' || c == '6'
            || c == '7' || c == '8' || c == '9');
    } else {
        assert(c == 'a' || c == 'b' || c == 'c' || c == 'd' || c == 'e' || c == 'f');
    }
}

/// Decoding lowercase hexadecimal text and encoding the bytes again gives
/// back the same text.
pub proof fn lemma_hex_text_round_trip(s: Seq<char>)
    requires
        is_lower_hex_text(s),
    ensures
        is_hex(encode_utf8(s)),
        hex_lower(hex_decoded(encode_utf8(s))) == s,
{
    assert forall|i: int| 0 <= i < s.len() implies '\0' <= #[trigger] s[i] <= '\u{7f}' by {
        lemma_lower_hex_char(s[i]);
    }
    assert(vstd::utf8::is_ascii_chars(s));
    vstd::utf8::is_ascii_chars_encode_utf8(s);
    let enc = encode_utf8(s);
    assert forall|i: int| 0 <= i < enc.len() implies (#[trigger] hex_value(enc[i])) is Some by {
        assert(s[i] as u8 == enc[i]);
        lemma_lower_hex_char(s[i]);
    }
    let bytes = hex_decoded(enc);
    assert forall|i: int| 0 <= i < s.len() implies #[trigger] hex_lower(bytes)[i] == s[i] by {
        let k = i / 2;
        assert(s[2 * k] as u8 == enc[2 * k]);
        assert(s[2 * k + 1] as u8 == enc[2 * k + 1]);
        lemma_lower_hex_char(s[2 * k]);
        lemma_lower_hex_char(s[2 * k + 1]);
        let hi = hex_value(enc[2 * k])->0;
        let lo = hex_value(enc[2 * k + 1])->0;
        assert(bytes[k] == hi * 16 + lo);
        assert((hi * 16 + lo) / 16 == hi && (hi * 16 + lo) % 16 == lo) by (nonlinear_arith)
            requires
                hi < 16,
                lo < 16,
        ;
    }
    assert(hex_lower(bytes) =~= s);
}

/// Parsing 64 lowercase hexadecimal digits as an identifier succeeds, and
/// encoding the identifier again gives back the same text.
pub proof fn lemma_full_hex_id_round_trip(
    s: Seq<char>,
    field: &'static str,
    r: Result<[u8; 32], ComputeError>,
)
    requires
        is_lower_hex_text(s),
        s.len() == 64,
        hex32_outcome(encode_utf8(s), field, r),
    ensures
        r is Ok,
        hex_lower(r->Ok_0@) == s,
{
    lemma_hex_text_round_trip(s);
    vstd::utf8::is_ascii_chars_encode_utf8(s);
}

/// Snapshot of the x0x identity that x0x-compute reuses.
///
/// All identifiers are encoded as full lowercase hexadecimal so they can be
/// compared, serialized, and round-tripped without losing information.
#[derive(Debug, PartialEq, Eq)]
pub struct AgentIdentitySnapshot {
    pub machine_id: String,
    pub agent_id: String,
    pub user_id: Option<String>,
}

impl Clone for AgentIdentitySnapshot {
    fn clone(&self) -> (res: Self)
        ensures
            res == *self,
    {
        AgentIdentitySnapshot {
            machine_id: self.machine_id.clone(),
            agent_id: self.agent_id.clone(),
            user_id: self.user_id.clone(),
        }
    }
}

impl AgentIdentitySnapshot {
    /// Builds an identity snapshot from the 32-byte machine, agent and
    /// optional user identifiers of an x0x agent.
    pub fn from_ids(machine_id: &[u8; 32], agent_id: &[u8; 32], user_id: Option<&[u8; 32]>) -> (r:
        Self)
        ensures
            r.machine_id@ == hex_lower(machine_id@),
            r.agent_id@ == hex_lower(agent_id@),
            r.user_id is Some <==> user_id is Some,
            user_id matches Some(u) ==> r.user_id->0@ == hex_lower(u@),
    {
        AgentIdentitySnapshot {
            machine_id: encode_machine_id(machine_id),
            agent_id: encode_agent_id(agent_id),
            user_id: match user_id {
                Some(u) => Some(encode_user_id(u)),
                None => None,
            },
        }
    }
}

} // verus!
