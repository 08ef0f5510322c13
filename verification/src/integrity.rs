//! Immutable user-supplied SHA-256 expectations.
use vstd::prelude::*;
use crate::text::push_char;
use vstd::string::StringSliceAdditionalSpecFns;
use vstd::utf8::{encode_utf8, is_ascii_chars, is_ascii_chars_encode_utf8};

verus! {

/// Whether a byte is an ASCII hexadecimal digit.
pub open spec fn is_hex_byte(b: u8) -> bool {
    (0x30 <= b <= 0x39) || (0x41 <= b <= 0x46) || (0x61 <= b <= 0x66)
}

/// The value of an ASCII hexadecimal digit.
pub open spec fn hex_value(b: u8) -> u8 {
    if 0x30 <= b <= 0x39 { (b - 0x30) as u8 } else if 0x41 <= b <= 0x46 { (b - 0x41 + 10) as u8 } else { (b - 0x61 + 10) as u8 }
}

/// The lowercase hexadecimal digit for a value below sixteen.
pub open spec fn hex_digit(v: u8) -> char {
    if v < 10 { (v + 0x30) as char } else { (v - 10 + 0x61) as char }
}

/// Whether text is exactly 64 hexadecimal digits (of either case).
pub open spec fn is_digest_text(bytes: Seq<u8>) -> bool {
    bytes.len() == 64 && forall|i: int| 0 <= i < 64 ==> is_hex_byte(#[trigger] bytes[i])
}

/// The 32 digest bytes spelled by 64 hexadecimal digits, high nibble first.
pub open spec fn decode_digest(bytes: Seq<u8>) -> Seq<u8> {
    Seq::new(32, |i: int| (hex_value(bytes[2 * i]) * 16 + hex_value(bytes[2 * i + 1])) as u8)
}

/// The canonical lowercase spelling of digest bytes.
pub open spec fn encode_digest(digest: Seq<u8>) -> Seq<char> {
    Seq::new(2 * digest.len(), |i: int| if i % 2 == 0 { hex_digit(digest[i / 2] / 16) } else { hex_digit(digest[i / 2] % 16) })
}

/// ASCII lowercase of a character.
pub open spec fn ascii_lower(c: char) -> char {
    if 'A' <= c <= 'Z' { ((c as u32) + 32) as char } else { c }
}

/// A syntactically valid SHA-256 digest; deliberately not generic data.
#[derive(Debug, Clone, Copy, PartialEq, Eq)]
pub struct ExpectedSha256 {
    digest: [u8; 32],
}

impl View for ExpectedSha256 {
    type V = Seq<u8>;

    closed spec fn view(&self) -> Seq<u8> {
        self.digest@
    }
}

impl ExpectedSha256 {
    /// Accepts exactly 64 hexadecimal characters, case-insensitively.
    pub fn parse(value: &str) -> (digest: Option<ExpectedSha256>)
        ensures
            digest is Some <==> is_digest_text(value.spec_bytes()),
            digest matches Some(d) ==> d@ == decode_digest(value.spec_bytes()),
    {
        let bytes = value.as_bytes();
        if bytes.len() != 64 {
            return None;
        }
        let mut index: usize = 0;
        while index < 64
            invariant
                bytes@ == value.spec_bytes(),
                bytes@.len() == 64,
                0 <= index <= 64,
                forall|i: int| 0 <= i < index ==> is_hex_byte(#[trigger] bytes@[i]),
            decreases 64 - index,
        {
            if !is_hex(bytes[index]) {
                return None;
            }
            index += 1;
        }
        let mut digest = [0u8; 32];
        let mut out: usize = 0;
        while out < 32
            invariant
                bytes@ == value.spec_bytes(),
                is_digest_text(bytes@),
                0 <= out <= 32,
                digest@.len() == 32,
                forall|i: int| 0 <= i < out ==> #[trigger] digest@[i] == decode_digest(bytes@)[i],
            decreases 32 - out,
        {
            let high = hex(bytes[2 * out]);
            let low = hex(bytes[2 * out + 1]);
            digest[out] = high * 16 + low;
            out += 1;
        }
        proof {
            assert(digest@ =~= decode_digest(bytes@));
        }
        Some(ExpectedSha256 { digest })
    }

    /// Canonical lowercase representation for protected task metadata.
    pub fn to_hex(self) -> (text: String)
        ensures
            text@ == encode_digest(self@),
    {
        let mut text = String::new();
        let mut index: usize = 0;
        while index < 32
            invariant
                0 <= index <= 32,
                self.digest@.len() == 32,
                text@ =~= encode_digest(self.digest@).take(2 * index),
            decreases 32 - index,
        {
            let byte = self.digest[index];
            push_char(&mut text, digit(byte / 16));
            push_char(&mut text, digit(byte % 16));
            proof {
                assert(encode_digest(self.digest@).take(2 * index + 2) =~= encode_digest(self.digest@).take(2 * index)
                    .push(hex_digit(byte / 16)).push(hex_digit(byte % 16)));
            }
            index += 1;
        }
        proof {
            assert(encode_digest(self.digest@).take(64) =~= encode_digest(self.digest@));
        }
        text
    }

    /// The 32 digest bytes.
    pub fn bytes(self) -> (digest: [u8; 32])
        ensures
            digest@ == self@,
    {
        self.digest
    }
}

pub(crate) fn is_hex(b: u8) -> (hex: bool)
    ensures
        hex == is_hex_byte(b),
{
    (0x30 <= b && b <= 0x39) || (0x41 <= b && b <= 0x46) || (0x61 <= b && b <= 0x66)
}

pub(crate) fn hex(b: u8) -> (v: u8)
    requires
        is_hex_byte(b),
    ensures
        v == hex_value(b),
        v < 16,
{
    if b <= 0x39 { b - 0x30 } else if b <= 0x46 { b - 0x41 + 10 } else { b - 0x61 + 10 }
}

fn digit(v: u8) -> (c: char)
    requires
        v < 16,
    ensures
        c == hex_digit(v),
{
    if v < 10 { (v + 0x30) as char } else { (v - 10 + 0x61) as char }
}

/// Spelling a parsed digest back out yields the input text in lowercase:
/// the canonical form differs from the input only in letter case.
pub proof fn lemma_digest_text_roundtrip(bytes: Seq<u8>)
    requires
        is_digest_text(bytes),
    ensures
        encode_digest(decode_digest(bytes)).len() == 64,
        forall|i: int| 0 <= i < 64 ==> #[trigger] encode_digest(decode_digest(bytes))[i] == ascii_lower(bytes[i] as char),
{
    let d = decode_digest(bytes);
    assert forall|i: int| 0 <= i < 64 implies #[trigger] encode_digest(d)[i] == ascii_lower(bytes[i] as char) by {
        let k = i / 2;
        assert(is_hex_byte(bytes[2 * k]) && is_hex_byte(bytes[2 * k + 1]));
        let hi = hex_value(bytes[2 * k]);
        let lo = hex_value(bytes[2 * k + 1]);
        assert(d[k] == (hi * 16 + lo) as u8);
        assert(hi < 16 && lo < 16);
        assert((hi * 16 + lo) / 16 == hi && (hi * 16 + lo) % 16 == lo) by (nonlinear_arith)
            requires hi < 16, lo < 16, hi >= 0, lo >= 0;
    }
}

/// Parsing the canonical spelling of a digest gives back the same digest.
pub proof fn lemma_digest_bytes_roundtrip(digest: Seq<u8>, text: Seq<u8>)
    requires
        digest.len() == 32,
        text.len() == 64,
        forall|i: int| 0 <= i < 64 ==> #[trigger] text[i] as char == encode_digest(digest)[i],
    ensures
        is_digest_text(text),
        decode_digest(text) == digest,
{
    assert forall|i: int| 0 <= i < 64 implies is_hex_byte(#[trigger] text[i]) by {
        assert(text[i] as char == encode_digest(digest)[i]);
        let v = if i % 2 == 0 { digest[i / 2] / 16 } else { digest[i / 2] % 16 };
        assert(v < 16);
    }
    assert forall|k: int| 0 <= k < 32 implies #[trigger] decode_digest(text)[k] == digest[k] by {
        assert(text[2 * k] as char == encode_digest(digest)[2 * k]);
        assert(text[2 * k + 1] as char == encode_digest(digest)[2 * k + 1]);
        assert((2 * k) / 2 == k && (2 * k + 1) / 2 == k && (2 * k) % 2 == 0 && (2 * k + 1) % 2 == 1);
        let b = digest[k];
        assert(hex_value(text[2 * k]) == b / 16);
        assert(hex_value(text[2 * k + 1]) == b % 16);
        assert((b / 16) * 16 + b % 16 == b) by (nonlinear_arith);
    }
    assert(decode_digest(text) =~= digest);
}

/// A digest text that parses prints back as its own lowercase spelling, and
/// that printed text parses again as the same digest: for text `v` that
/// [`ExpectedSha256::parse`] accepts (its UTF-8 bytes `b` are 64 hexadecimal
/// digits), `to_hex` of the result is `b` lowercased character by
/// character, and `parse` of that accepts it with the same digest bytes.
pub proof fn lemma_digest_parse_print(input: Seq<char>)
    requires
        is_digest_text(encode_utf8(input)),
    ensures
        encode_digest(decode_digest(encode_utf8(input))) == Seq::new(
            64,
            |i: int| ascii_lower(encode_utf8(input)[i] as char),
        ),
        is_digest_text(encode_utf8(encode_digest(decode_digest(encode_utf8(input))))),
        decode_digest(encode_utf8(encode_digest(decode_digest(encode_utf8(input))))) == decode_digest(
            encode_utf8(input),
        ),
{
    let bytes = encode_utf8(input);
    let d = decode_digest(bytes);
    lemma_digest_text_roundtrip(bytes);
    let printed = encode_digest(d);
    assert(printed =~= Seq::new(64, |i: int| ascii_lower(bytes[i] as char)));
    assert(d.len() == 32);
    assert(is_ascii_chars(printed)) by {
        assert forall|i: int| 0 <= i < printed.len() implies '\0' <= #[trigger] printed[i] <= '\u{7f}' by {
            let v = if i % 2 == 0 { d[i / 2] / 16 } else { d[i / 2] % 16 };
            assert(v < 16);
        }
    }
    is_ascii_chars_encode_utf8(printed);
    let text = encode_utf8(printed);
    assert forall|i: int| 0 <= i < 64 implies #[trigger] text[i] as char == encode_digest(d)[i] by {
        let v = if i % 2 == 0 { d[i / 2] / 16 } else { d[i / 2] % 16 };
        assert(v < 16);
        assert(printed[i] as u8 == text[i]);
    }
    lemma_digest_bytes_roundtrip(d, text);
}

} // verus!

verus! {

/// A running SHA-256 computation. `sha2::Sha256` is a type alias of a
/// generic core wrapper that cannot be declared as an outside type, so the
/// hasher is held in a private field of this opaque struct.
#[verifier::external_body]
pub struct Sha256State {
    hasher: sha2::Sha256,
}

/// The bytes fed to a SHA-256 computation so far.
pub uninterp spec fn sha256_input(state: Sha256State) -> Seq<u8>;

/// The SHA-256 digest of a byte sequence, as the `sha2` crate computes it.
pub uninterp spec fn sha256_of(data: Seq<u8>) -> Seq<u8>;

/// Calls `sha2::Sha256::new`: a computation that has seen no bytes.
#[verifier::external_body]
pub(crate) fn sha256_new() -> (state: Sha256State)
    ensures
        sha256_input(state) == Seq::<u8>::empty(),
{
    Sha256State { hasher: <sha2::Sha256 as sha2::Digest>::new() }
}

/// Calls `Digest::update`: the bytes are appended to what the computation saw.
#[verifier::external_body]
pub(crate) fn sha256_update(state: &mut Sha256State, data: &[u8])
    ensures
        sha256_input(*final(state)) == sha256_input(*old(state)) + data@,
{
    sha2::Digest::update(&mut state.hasher, data);
}

/// Calls `Digest::finalize`: the digest of everything the computation saw.
#[verifier::external_body]
pub(crate) fn sha256_finalize(state: Sha256State) -> (digest: [u8; 32])
    ensures
        digest@ == sha256_of(sha256_input(state)),
{
    sha2::Digest::finalize(state.hasher).into()
}

} // verus!
