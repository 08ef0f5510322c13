//! Strict HTTP response metadata: byte-range assignments, `Content-Range`,
//! entity tags and validators, single-header extraction, `Retry-After`, and
//! untrusted filename candidates from `Content-Disposition` or URL paths.
use vstd::prelude::*;
use vstd::utf8::{decode_utf8, encode_utf8, valid_utf8};
use crate::filename::{is_control, is_control_char};
use crate::integrity::{hex, hex_value, is_hex, is_hex_byte};
use crate::admission::AdmissionError;
use crate::clock::{Instant, NANOS_PER_SEC};
use crate::auth::ContextError;
use crate::text::{
    after_last, after_last_char, chars_of, copy_range, decimal_from_chars, decimal_u64, eq_ignore_ascii_case, eq_ignore_case, parse_u64,
    push_char, split_first, split_first_pair, split_once_char, split_once_pair, string_from_chars, trim_chars,
    trim_ws, utf8_len, utf8_len_within,
};

verus! {

/// Strict ranged-response failure.
#[derive(Debug, Clone, Copy, PartialEq, Eq, Structural)]
pub enum RangeValidationError {
    /// Assignment itself is reversed, empty, or out of bounds.
    InvalidAssignment,
    /// Status must be exactly `206` for a ranged assignment.
    WrongStatus,
    /// A required header is absent.
    MissingHeader,
    /// A singleton header occurred more than once.
    DuplicateHeader,
    /// A header could not be represented as bounded visible text.
    InvalidHeader,
    /// `Content-Range` syntax is invalid or uses an unknown total.
    MalformedContentRange,
    /// Parsed range does not exactly equal the assignment.
    ContentRangeMismatch,
    /// Parsed complete length conflicts with the accepted resource.
    TotalMismatch,
    /// Declared body length does not equal the assignment length.
    ContentLengthMismatch,
    /// The server transformed bytes despite requesting identity encoding.
    UnexpectedContentEncoding,
    /// An expected validator is absent.
    ValidatorMissing,
    /// A returned validator conflicts with accepted resource identity.
    ValidatorChanged,
}

/// Probe operation failure with no URL or response text.
#[derive(Debug, Clone, Copy, PartialEq, Eq, Structural)]
pub enum ProbeError {
    /// Shared request admission rejected this operation.
    Admission(AdmissionError),
    /// Invalid or expired memory-only session.
    Context(ContextError),
    /// URL syntax is invalid.
    InvalidUrl,
    /// Only direct HTTP and HTTPS are accepted.
    UnsupportedScheme,
    /// URL user-info could expose credentials.
    UserInfoForbidden,
    /// The HTTP client could not be constructed.
    ClientSetup,
    /// Network request failed.
    Request,
    /// Redirect policy rejected a target, downgrade, loop, or depth.
    RedirectRejected,
    /// Server returned a non-probe status.
    HttpStatus { status: u16, retry_after_seconds: Option<u64> },
    /// Strict ranged-response metadata failed validation.
    InvalidRange(RangeValidationError),
    /// Probe body was shorter or longer than its exact assignment.
    BodyLengthMismatch,
}

/// The failure reported for a request the client could not complete: a
/// redirect the client's policy refused is `RedirectRejected`, anything else
/// is `Request`.
pub fn request_failure(redirect_refused: bool) -> (error: ProbeError)
    ensures
        error == (if redirect_refused { ProbeError::RedirectRejected } else { ProbeError::Request }),
{
    if redirect_refused {
        ProbeError::RedirectRejected
    } else {
        ProbeError::Request
    }
}

} // verus!

verus! {

/// Largest accepted header value, in bytes.
pub const MAX_METADATA_BYTES: usize = 8 * 1024;
/// Largest accepted filename candidate, in UTF-8 bytes.
pub const MAX_FILENAME_BYTES: usize = 1024;

/// A validated inclusive assignment within a known resource.
#[derive(Debug, Clone, Copy, PartialEq, Eq, Structural)]
pub struct RangeAssignment {
    start: u64,
    end: u64,
    total: u64,
}

impl RangeAssignment {
    #[verifier::type_invariant]
    spec fn in_bounds(self) -> bool {
        self.start <= self.end && self.end < self.total
    }

    pub closed spec fn spec_start(self) -> u64 {
        self.start
    }

    pub closed spec fn spec_end(self) -> u64 {
        self.end
    }

    pub closed spec fn spec_total(self) -> u64 {
        self.total
    }

    /// Creates an in-bounds assignment; rejects an empty resource, a reversed
    /// range, or an endpoint at or beyond the expected total.
    pub fn new(start: u64, end: u64, total: u64) -> (assignment: Result<RangeAssignment, RangeValidationError>)
        ensures
            assignment is Ok <==> (total > 0 && start <= end && end < total),
            assignment matches Ok(a) ==> a.spec_start() == start && a.spec_end() == end && a.spec_total() == total,
            assignment matches Err(e) ==> e == RangeValidationError::InvalidAssignment,
    {
        if total == 0 {
            return Err(RangeValidationError::InvalidAssignment);
        }
        if start > end || end >= total {
            return Err(RangeValidationError::InvalidAssignment);
        }
        Ok(RangeAssignment { start, end, total })
    }

    /// First assigned byte.
    pub fn start(self) -> (start: u64)
        ensures
            start == self.spec_start(),
            start <= self.spec_end(),
    {
        proof { use_type_invariant(&self); }
        self.start
    }

    /// Last assigned byte, inclusive.
    pub fn end(self) -> (end: u64)
        ensures
            end == self.spec_end(),
            end < self.spec_total(),
    {
        proof { use_type_invariant(&self); }
        self.end
    }

    /// Expected complete-resource size.
    pub fn total(self) -> (total: u64)
        ensures
            total == self.spec_total(),
            total > 0,
    {
        proof { use_type_invariant(&self); }
        self.total
    }

    /// Number of assigned bytes.
    pub fn len(self) -> (len: u64)
        ensures
            len == self.spec_end() - self.spec_start() + 1,
            len >= 1,
    {
        proof { use_type_invariant(&self); }
        self.end - self.start + 1
    }

    /// Assignments are never empty after construction.
    pub fn is_empty(self) -> (empty: bool)
        ensures
            !empty,
    {
        false
    }
}

/// Parsed strong or weak HTTP entity tag.
#[derive(PartialEq, Eq)]
pub struct EntityTag {
    weak: bool,
    opaque: String,
}

impl Clone for EntityTag {
    fn clone(&self) -> (copy: Self)
        ensures
            copy == *self,
    {
        proof { use_type_invariant(self); }
        EntityTag { weak: self.weak, opaque: self.opaque.clone() }
    }
}

/// Whether a character may not appear inside an entity tag's quotes.
pub open spec fn is_forbidden_etag_char(c: char) -> bool {
    c <= ' ' || c == '\x7f' || c == '"'
}

/// Whether an `ETag` value carries the weak prefix `W/`.
pub open spec fn etag_is_weak(value: Seq<char>) -> bool {
    value.len() >= 2 && value[0] == 'W' && value[1] == '/'
}

/// The quoted part of an `ETag` value, after any weak prefix.
pub open spec fn etag_quoted(value: Seq<char>) -> Seq<char> {
    if etag_is_weak(value) { value.skip(2) } else { value }
}

/// The `(weak, opaque)` reading of a complete `ETag` value, if it is one.
pub open spec fn etag_parts(value: Seq<char>) -> Option<(bool, Seq<char>)> {
    let quoted = etag_quoted(value);
    if quoted.len() >= 2 && quoted[0] == '"' && quoted.last() == '"' {
        let opaque = quoted.subrange(1, quoted.len() - 1);
        if opaque.len() > 0 && forall|i: int| 0 <= i < opaque.len() ==> !is_forbidden_etag_char(#[trigger] opaque[i]) {
            Some((etag_is_weak(value), opaque))
        } else {
            None
        }
    } else {
        None
    }
}

/// Whether text can be the opaque part of an entity tag: non-empty, with no
/// quote, control or space character.
pub open spec fn is_opaque_tag(opaque: Seq<char>) -> bool {
    opaque.len() > 0 && forall|i: int| 0 <= i < opaque.len() ==> !is_forbidden_etag_char(#[trigger] opaque[i])
}

/// The header text of an entity tag: `W/` for a weak one, then the opaque
/// part in quotes.
pub open spec fn entity_tag_text(weak: bool, opaque: Seq<char>) -> Seq<char> {
    (if weak { seq!['W', '/'] } else { Seq::<char>::empty() }) + seq!['"'] + opaque + seq!['"']
}

impl EntityTag {
    #[verifier::type_invariant]
    spec fn opaque_ok(self) -> bool {
        is_opaque_tag(self.opaque@)
    }

    pub closed spec fn spec_weak(&self) -> bool {
        self.weak
    }

    pub closed spec fn spec_opaque(&self) -> Seq<char> {
        self.opaque@
    }

    /// Parses one complete `ETag` header value without normalizing identity;
    /// rejects malformed, empty, or unsafe values with `InvalidHeader`.
    pub fn parse(value: &str) -> (tag: Result<EntityTag, RangeValidationError>)
        ensures
            tag is Ok <==> etag_parts(value@) is Some,
            tag matches Ok(t) ==> etag_parts(value@) == Some((t.spec_weak(), t.spec_opaque())),
            tag matches Err(e) ==> e == RangeValidationError::InvalidHeader,
    {
        parse_etag(value)
    }

    /// Whether this is a weak validator.
    pub fn is_weak(&self) -> (weak: bool)
        ensures
            weak == self.spec_weak(),
    {
        self.weak
    }

    /// Opaque tag contents without quotes or the weak prefix.
    pub fn opaque(&self) -> (opaque: &str)
        ensures
            opaque@ == self.spec_opaque(),
            is_opaque_tag(opaque@),
    {
        proof { use_type_invariant(self); }
        self.opaque.as_str()
    }

    /// Whether two tags are identical, weakness included.
    pub fn same_as(&self, other: &EntityTag) -> (same: bool)
        ensures
            same == (self.spec_weak() == other.spec_weak() && self.spec_opaque() == other.spec_opaque()),
    {
        self.weak == other.weak && self.opaque == other.opaque
    }
}

/// Formatting a parsed entity tag and parsing the text again gives back the
/// same tag: parsing never normalizes identity.
pub proof fn lemma_etag_text_roundtrip(weak: bool, opaque: Seq<char>)
    requires
        is_opaque_tag(opaque),
    ensures
        etag_parts(entity_tag_text(weak, opaque)) == Some((weak, opaque)),
{
    let text = entity_tag_text(weak, opaque);
    if weak {
        assert(etag_is_weak(text));
        assert(etag_quoted(text) =~= seq!['"'] + opaque + seq!['"']);
    } else {
        assert(!etag_is_weak(text)) by {
            if text.len() >= 2 {
                assert(text[0] == '"');
            }
        }
        assert(etag_quoted(text) =~= seq!['"'] + opaque + seq!['"']);
    }
    let quoted = etag_quoted(text);
    assert(quoted.subrange(1, quoted.len() - 1) =~= opaque);
}

/// Whenever the header text of a tag parses at all, it parses as that tag.
pub proof fn lemma_etag_text_parses_back(weak: bool, opaque: Seq<char>)
    ensures
        etag_parts(entity_tag_text(weak, opaque)) is Some ==> etag_parts(entity_tag_text(weak, opaque)) == Some((
            weak,
            opaque,
        )),
{
    let text = entity_tag_text(weak, opaque);
    if weak {
        assert(etag_is_weak(text));
        assert(etag_quoted(text) =~= seq!['"'] + opaque + seq!['"']);
    } else {
        assert(!etag_is_weak(text)) by {
            if text.len() >= 2 {
                assert(text[0] == '"');
            }
        }
        assert(etag_quoted(text) =~= seq!['"'] + opaque + seq!['"']);
    }
    let quoted = etag_quoted(text);
    assert(quoted.subrange(1, quoted.len() - 1) =~= opaque);
}

/// The header text of an entity tag, as it is persisted.
pub fn format_entity_tag(tag: &EntityTag) -> (text: String)
    ensures
        text@ == entity_tag_text(tag.spec_weak(), tag.spec_opaque()),
{
    let mut chars: Vec<char> = Vec::new();
    if tag.is_weak() {
        chars.push('W');
        chars.push('/');
    }
    chars.push('"');
    let opaque = chars_of(tag.opaque());
    let ghost prefix = chars@;
    let mut k: usize = 0;
    while k < opaque.len()
        invariant
            0 <= k <= opaque@.len(),
            chars@ == prefix + opaque@.take(k as int),
        decreases opaque@.len() - k,
    {
        chars.push(opaque[k]);
        proof {
            assert(opaque@.take(k + 1) =~= opaque@.take(k as int).push(opaque@[k as int]));
        }
        k += 1;
    }
    chars.push('"');
    proof {
        assert(opaque@.take(opaque@.len() as int) =~= opaque@);
        assert(chars@ =~= entity_tag_text(tag.spec_weak(), tag.spec_opaque()));
    }
    string_from_chars(chars.as_slice())
}

/// Parses one `ETag` value (see [`EntityTag::parse`]).
#[verifier::loop_isolation(false)]
pub fn parse_etag(value: &str) -> (tag: Result<EntityTag, RangeValidationError>)
    ensures
        tag is Ok <==> etag_parts(value@) is Some,
        tag matches Ok(t) ==> etag_parts(value@) == Some((t.spec_weak(), t.spec_opaque())),
        tag matches Err(e) ==> e == RangeValidationError::InvalidHeader,
{
    let chars = chars_of(value);
    let n = chars.len();
    let weak = n >= 2 && chars[0] == 'W' && chars[1] == '/';
    let start: usize = if weak { 2 } else { 0 };
    if n - start < 2 || chars[start] != '"' || chars[n - 1] != '"' {
        proof {
            let quoted = etag_quoted(value@);
            if quoted.len() >= 2 {
                assert(quoted[0] == chars@[start as int]);
                assert(quoted.last() == chars@[n - 1]);
            }
        }
        return Err(RangeValidationError::InvalidHeader);
    }
    let mut opaque: Vec<char> = Vec::new();
    let mut k: usize = start + 1;
    while k < n - 1
        invariant
            start + 1 <= k <= n - 1,
            opaque@ =~= chars@.subrange(start + 1, k as int),
            forall|i: int| 0 <= i < opaque@.len() ==> !is_forbidden_etag_char(#[trigger] opaque@[i]),
        decreases n - 1 - k,
    {
        let c = chars[k];
        if c <= ' ' || c == '\x7f' || c == '"' {
            proof {
                let quoted = etag_quoted(value@);
                assert(quoted =~= chars@.skip(start as int));
                let inner = quoted.subrange(1, quoted.len() - 1);
                assert(inner[k - start - 1] == chars@[k as int]);
                assert(is_forbidden_etag_char(inner[k - start - 1]));
            }
            return Err(RangeValidationError::InvalidHeader);
        }
        opaque.push(c);
        k += 1;
    }
    if opaque.len() == 0 {
        proof {
            let quoted = etag_quoted(value@);
            assert(quoted =~= chars@.skip(start as int));
            assert(quoted.subrange(1, quoted.len() - 1).len() == 0);
        }
        return Err(RangeValidationError::InvalidHeader);
    }
    proof {
        let quoted = etag_quoted(value@);
        assert(quoted =~= chars@.skip(start as int));
        assert(quoted[0] == chars@[start as int]);
        assert(quoted.subrange(1, quoted.len() - 1) =~= opaque@);
    }
    Ok(EntityTag { weak, opaque: string_from_chars(opaque.as_slice()) })
}

/// Resource validators accepted during probing.
#[derive(Default, PartialEq, Eq)]
pub struct Validators {
    /// Parsed `ETag`, when valid and present.
    pub etag: Option<EntityTag>,
    /// Canonical header text for a valid `Last-Modified` date.
    pub last_modified: Option<String>,
}

/// Only a strong entity tag establishes byte identity.
pub open spec fn strong_identity(validators: Validators) -> bool {
    validators.etag matches Some(tag) && !tag.spec_weak()
}

impl Clone for Validators {
    fn clone(&self) -> (copy: Self)
        ensures
            copy == *self,
    {
        let etag = match &self.etag {
            Some(tag) => Some(tag.clone()),
            None => None,
        };
        let last_modified = match &self.last_modified {
            Some(date) => Some(date.clone()),
            None => None,
        };
        Validators { etag, last_modified }
    }
}

impl Validators {
    /// Only a strong `ETag` establishes byte identity for segmentation/reuse.
    pub fn has_strong_identity(&self) -> (strong: bool)
        ensures
            strong == strong_identity(*self),
    {
        match &self.etag {
            Some(tag) => !tag.is_weak(),
            None => false,
        }
    }
}

/// Why the helper selected a safe single stream.
#[derive(Debug, Clone, Copy, PartialEq, Eq, Structural)]
pub enum FallbackReason {
    /// The server ignored the small ranged `GET` and returned `200`.
    RangeIgnored,
    /// The ignored-range response did not declare a resource length.
    UnknownLength,
    /// No strong `ETag` proves byte identity across independent requests.
    InsufficientIdentity,
}

/// Transfer mode established by a probe.
#[derive(Debug, Clone, Copy, PartialEq, Eq, Structural)]
pub enum ProbeMode {
    /// A known-size resource proved exact byte-range behavior.
    Segmented,
    /// The resource must use one sequential stream.
    SingleStream(FallbackReason),
    /// A valid zero-length resource.
    Empty,
}

/// Successful validation details for a worker response.
#[derive(Clone, PartialEq, Eq)]
pub struct ValidatedRange {
    /// The exact assignment proven by status and `Content-Range`.
    pub assignment: RangeAssignment,
    /// Validators returned with this response.
    pub validators: Validators,
}

/// The `If-Range` value: a strong entity tag in quotes, else the
/// `Last-Modified` date; weak tags are never used.
pub open spec fn if_range_text(validators: Validators) -> Option<Seq<char>> {
    match validators.etag {
        Some(tag) if !tag.spec_weak() => Some(seq!['"'] + tag.spec_opaque() + seq!['"']),
        _ => match validators.last_modified {
            Some(date) => Some(date@),
            None => None,
        },
    }
}

/// The `If-Range` request value for resuming against known validators.
pub fn if_range_value(validators: &Validators) -> (value: Option<String>)
    ensures
        value matches Some(v) ==> if_range_text(*validators) == Some(v@),
        value is None ==> if_range_text(*validators) is None,
{
    if let Some(tag) = &validators.etag {
        if !tag.is_weak() {
            let mut text = String::new();
            push_char(&mut text, '"');
            let opaque = chars_of(tag.opaque());
            let mut k: usize = 0;
            while k < opaque.len()
                invariant
                    0 <= k <= opaque@.len(),
                    text@ =~= seq!['"'] + opaque@.take(k as int),
                decreases opaque@.len() - k,
            {
                push_char(&mut text, opaque[k]);
                proof {
                    assert(opaque@.take(k + 1) =~= opaque@.take(k as int).push(opaque@[k as int]));
                }
                k += 1;
            }
            push_char(&mut text, '"');
            proof {
                assert(opaque@.take(opaque@.len() as int) =~= opaque@);
            }
            return Some(text);
        }
    }
    match &validators.last_modified {
        Some(date) => Some(date.clone()),
        None => None,
    }
}

/// The plain reading of validators: `(weak, opaque)` of the entity tag and
/// the `Last-Modified` text.
pub open spec fn validators_view(validators: Validators) -> (Option<(bool, Seq<char>)>, Option<Seq<char>>) {
    (
        match validators.etag {
            Some(tag) => Some((tag.spec_weak(), tag.spec_opaque())),
            None => None,
        },
        match validators.last_modified {
            Some(date) => Some(date@),
            None => None,
        },
    )
}

/// How known validators compare with the ones a response returned: each
/// expected validator must be present and identical.
pub open spec fn validators_check(
    expected: (Option<(bool, Seq<char>)>, Option<Seq<char>>),
    actual: (Option<(bool, Seq<char>)>, Option<Seq<char>>),
) -> Result<(), RangeValidationError> {
    let etag_check = match expected.0 {
        Some(e) => match actual.0 {
            Some(a) => if a == e { Ok(()) } else { Err(RangeValidationError::ValidatorChanged) },
            None => Err(RangeValidationError::ValidatorMissing),
        },
        None => Ok(()),
    };
    if etag_check is Err {
        etag_check
    } else {
        match expected.1 {
            Some(e) => match actual.1 {
                Some(a) => if a == e { Ok(()) } else { Err(RangeValidationError::ValidatorChanged) },
                None => Err(RangeValidationError::ValidatorMissing),
            },
            None => Ok(()),
        }
    }
}

/// Every known validator must be returned unchanged.
pub fn validate_expected_validators(expected: &Validators, actual: &Validators) -> (result: Result<(), RangeValidationError>)
    ensures
        result == validators_check(validators_view(*expected), validators_view(*actual)),
{
    if let Some(expected_etag) = &expected.etag {
        match &actual.etag {
            Some(actual_etag) => {
                if !actual_etag.same_as(expected_etag) {
                    return Err(RangeValidationError::ValidatorChanged);
                }
            }
            None => return Err(RangeValidationError::ValidatorMissing),
        }
    }
    if let Some(expected_date) = &expected.last_modified {
        match &actual.last_modified {
            Some(actual_date) => {
                if !(*actual_date == *expected_date) {
                    return Err(RangeValidationError::ValidatorChanged);
                }
            }
            None => return Err(RangeValidationError::ValidatorMissing),
        }
    }
    Ok(())
}

} // verus!

verus! {

/// One response header field: its name and raw value bytes.
#[derive(Debug, Clone, PartialEq, Eq)]
pub struct HeaderField {
    /// Field name; compared ASCII case-insensitively.
    pub name: String,
    /// Raw field value as received.
    pub value: Vec<u8>,
}

/// The header fields of one response, in arrival order, duplicates kept.
#[derive(Debug, Clone, Default, PartialEq, Eq)]
pub struct ResponseHeaders {
    /// Every field of the response.
    pub fields: Vec<HeaderField>,
}

/// Whether a field carries the given name.
pub open spec fn field_named(field: HeaderField, name: Seq<char>) -> bool {
    eq_ignore_case(field.name@, name)
}

/// Whether a raw value is visible ASCII text of at most [`MAX_METADATA_BYTES`].
pub open spec fn is_metadata_text(value: Seq<u8>) -> bool {
    value.len() <= MAX_METADATA_BYTES && forall|i: int| 0 <= i < value.len() ==> 0x20 <= #[trigger] value[i] <= 0x7e
}

/// Visible ASCII bytes read as characters.
pub open spec fn ascii_chars(value: Seq<u8>) -> Seq<char> {
    Seq::new(value.len(), |i: int| value[i] as char)
}

/// What one singleton header yields: absent, duplicated, unusable, or its
/// text.
pub open spec fn single_header_of(fields: Seq<HeaderField>, name: Seq<char>) -> Result<Option<Seq<char>>, RangeValidationError> {
    if !exists|i: int| 0 <= i < fields.len() && field_named(#[trigger] fields[i], name) {
        Ok(None)
    } else if exists|i: int, j: int| 0 <= i < j < fields.len() && field_named(#[trigger] fields[i], name) && field_named(#[trigger] fields[j], name) {
        Err(RangeValidationError::DuplicateHeader)
    } else {
        let i = choose|i: int| 0 <= i < fields.len() && field_named(#[trigger] fields[i], name);
        if is_metadata_text(fields[i].value@) {
            Ok(Some(ascii_chars(fields[i].value@)))
        } else {
            Err(RangeValidationError::InvalidHeader)
        }
    }
}

impl ResponseHeaders {
    /// An empty header set.
    pub fn new() -> (headers: ResponseHeaders)
        ensures
            headers.fields@.len() == 0,
    {
        ResponseHeaders { fields: Vec::new() }
    }

    /// Appends one field after the existing ones.
    pub fn append(&mut self, name: &str, value: &[u8])
        ensures
            final(self).fields@.len() == old(self).fields@.len() + 1,
            forall|i: int| 0 <= i < old(self).fields@.len() ==> final(self).fields@[i] == old(self).fields@[i],
            final(self).fields@.last().name@ == name@,
            final(self).fields@.last().value@ == value@,
    {
        let field = HeaderField { name: name.to_owned(), value: vstd::slice::slice_to_vec(value) };
        self.fields.push(field);
    }
}

/// Reads a header value that must be visible ASCII within the size bound.
fn metadata_text(value: &[u8]) -> (text: Option<String>)
    ensures
        text is Some <==> is_metadata_text(value@),
        text matches Some(t) ==> t@ == ascii_chars(value@),
{
    if value.len() > MAX_METADATA_BYTES {
        return None;
    }
    let mut out = String::new();
    let mut k: usize = 0;
    while k < value.len()
        invariant
            value@.len() <= MAX_METADATA_BYTES,
            0 <= k <= value@.len(),
            forall|i: int| 0 <= i < k ==> 0x20 <= #[trigger] value@[i] <= 0x7e,
            out@ == ascii_chars(value@.take(k as int)),
        decreases value@.len() - k,
    {
        let b = value[k];
        if b < 0x20 || b > 0x7e {
            return None;
        }
        push_char(&mut out, b as char);
        proof {
            assert(ascii_chars(value@.take(k + 1)) =~= ascii_chars(value@.take(k as int)).push(b as char));
        }
        k += 1;
    }
    proof {
        assert(value@.take(value@.len() as int) =~= value@);
    }
    Some(out)
}

/// The one value of a singleton header, if present; a duplicate, non-visible
/// ASCII, control character or oversized value is rejected.
pub fn single_header(headers: &ResponseHeaders, name: &str) -> (value: Result<Option<String>, RangeValidationError>)
    ensures
        value matches Ok(Some(v)) ==> single_header_of(headers.fields@, name@) == Ok::<Option<Seq<char>>, RangeValidationError>(Some(v@)),
        value matches Ok(None) ==> single_header_of(headers.fields@, name@) == Ok::<Option<Seq<char>>, RangeValidationError>(None),
        value matches Err(e) ==> single_header_of(headers.fields@, name@) == Err::<Option<Seq<char>>, RangeValidationError>(e),
{
    let wanted = chars_of(name);
    let fields = &headers.fields;
    let n = fields.len();
    let mut found: Option<usize> = None;
    let mut k: usize = 0;
    while k < n
        invariant
            n == fields@.len(),
            fields@ == headers.fields@,
            wanted@ == name@,
            0 <= k <= n,
            found matches Some(f) ==> f < k && field_named(fields@[f as int], name@)
                && forall|j: int| 0 <= j < k && j != f ==> !field_named(#[trigger] fields@[j], name@),
            found is None ==> forall|j: int| 0 <= j < k ==> !field_named(#[trigger] fields@[j], name@),
        decreases n - k,
    {
        let field_name = chars_of(fields[k].name.as_str());
        if eq_ignore_ascii_case(field_name.as_slice(), wanted.as_slice()) {
            match found {
                Some(first) => {
                    proof {
                        let f = first as int;
                        let g = k as int;
                        assert(field_named(fields@[f], name@) && field_named(fields@[g], name@));
                        assert(exists|i: int| 0 <= i < fields@.len() && field_named(#[trigger] fields@[i], name@));
                        assert(exists|i: int, j: int| 0 <= i < j < fields@.len() && field_named(#[trigger] fields@[i], name@) && field_named(#[trigger] fields@[j], name@));
                    }
                    return Err(RangeValidationError::DuplicateHeader);
                }
                None => {
                    found = Some(k);
                }
            }
        }
        k += 1;
    }
    match found {
        None => Ok(None),
        Some(index) => {
            proof {
                assert(field_named(headers.fields@[index as int], name@));
                assert(!exists|i: int, j: int| 0 <= i < j < fields@.len() && field_named(#[trigger] fields@[i], name@) && field_named(#[trigger] fields@[j], name@));
                let i = choose|i: int| 0 <= i < fields@.len() && field_named(#[trigger] fields@[i], name@);
                assert(i == index);
            }
            match metadata_text(fields[index].value.as_slice()) {
                Some(text) => Ok(Some(text)),
                None => Err(RangeValidationError::InvalidHeader),
            }
        }
    }
}

} // verus!

verus! {

/// The seconds after the Unix epoch that an HTTP date denotes, as
/// `httpdate::parse_http_date` reads it; `None` where that function rejects
/// the text.
pub uninterp spec fn http_date_seconds(text: Seq<char>) -> Option<u64>;

/// Calls `httpdate::parse_http_date` and measures the resulting time from
/// the Unix epoch in whole seconds (the crate builds every date as the epoch
/// plus whole seconds, never earlier). Claimed: the result is the named
/// reading of the text, nothing more.
#[verifier::external_body]
pub(crate) fn parse_http_date_seconds(text: &str) -> (seconds: Option<u64>)
    ensures
        seconds == http_date_seconds(text@),
{
    httpdate::parse_http_date(text)
        .ok()
        .and_then(|time| time.duration_since(std::time::UNIX_EPOCH).ok())
        .map(|elapsed| elapsed.as_secs())
}

/// `content-range`
pub open spec fn content_range_name() -> Seq<char> {
    seq!['c', 'o', 'n', 't', 'e', 'n', 't', '-', 'r', 'a', 'n', 'g', 'e']
}

/// `content-length`
pub open spec fn content_length_name() -> Seq<char> {
    seq!['c', 'o', 'n', 't', 'e', 'n', 't', '-', 'l', 'e', 'n', 'g', 't', 'h']
}

/// `content-encoding`
pub open spec fn content_encoding_name() -> Seq<char> {
    seq!['c', 'o', 'n', 't', 'e', 'n', 't', '-', 'e', 'n', 'c', 'o', 'd', 'i', 'n', 'g']
}

/// `etag`
pub open spec fn etag_name() -> Seq<char> {
    seq!['e', 't', 'a', 'g']
}

/// `last-modified`
pub open spec fn last_modified_name() -> Seq<char> {
    seq!['l', 'a', 's', 't', '-', 'm', 'o', 'd', 'i', 'f', 'i', 'e', 'd']
}

/// `retry-after`
pub open spec fn retry_after_name() -> Seq<char> {
    seq!['r', 'e', 't', 'r', 'y', '-', 'a', 'f', 't', 'e', 'r']
}

/// `content-disposition`
pub open spec fn content_disposition_name() -> Seq<char> {
    seq!['c', 'o', 'n', 't', 'e', 'n', 't', '-', 'd', 'i', 's', 'p', 'o', 's', 'i', 't', 'i', 'o', 'n']
}

/// `identity`
pub open spec fn identity_coding() -> Seq<char> {
    seq!['i', 'd', 'e', 'n', 't', 'i', 't', 'y']
}

fn content_range_header() -> (name: &'static str)
    ensures
        name@ == content_range_name(),
{
    proof { reveal_strlit("content-range"); }
    "content-range"
}

pub(crate) fn content_length_header() -> (name: &'static str)
    ensures
        name@ == content_length_name(),
{
    proof { reveal_strlit("content-length"); }
    "content-length"
}

fn content_encoding_header() -> (name: &'static str)
    ensures
        name@ == content_encoding_name(),
{
    proof { reveal_strlit("content-encoding"); }
    "content-encoding"
}

fn etag_header() -> (name: &'static str)
    ensures
        name@ == etag_name(),
{
    proof { reveal_strlit("etag"); }
    "etag"
}

fn last_modified_header() -> (name: &'static str)
    ensures
        name@ == last_modified_name(),
{
    proof { reveal_strlit("last-modified"); }
    "last-modified"
}

fn retry_after_header() -> (name: &'static str)
    ensures
        name@ == retry_after_name(),
{
    proof { reveal_strlit("retry-after"); }
    "retry-after"
}

fn content_disposition_header() -> (name: &'static str)
    ensures
        name@ == content_disposition_name(),
{
    proof { reveal_strlit("content-disposition"); }
    "content-disposition"
}

/// A parsed satisfied `Content-Range`: inclusive bounds and complete length.
#[derive(Debug, Clone, Copy, PartialEq, Eq, Structural)]
pub struct ContentRange {
    /// First byte sent.
    pub start: u64,
    /// Last byte sent, inclusive.
    pub end: u64,
    /// Complete resource length.
    pub total: u64,
}

/// Whether `s` begins with `prefix`.
pub open spec fn has_prefix(s: Seq<char>, prefix: Seq<char>) -> bool {
    s.len() >= prefix.len() && s.take(prefix.len() as int) == prefix
}

/// `bytes ` (with the space).
pub open spec fn bytes_unit_prefix() -> Seq<char> {
    seq!['b', 'y', 't', 'e', 's', ' ']
}

/// `bytes */`, the prefix of an unsatisfied range.
pub open spec fn unsatisfied_prefix() -> Seq<char> {
    seq!['b', 'y', 't', 'e', 's', ' ', '*', '/']
}

/// The strict reading of `bytes START-END/TOTAL`: decimal numbers only, a
/// known non-zero total, and `START <= END < TOTAL`.
pub open spec fn content_range_of(value: Seq<char>) -> Option<ContentRange> {
    if has_prefix(value, bytes_unit_prefix()) {
        match split_first(value.skip(6), '/') {
            Some((bounds, total)) => match split_first(bounds, '-') {
                Some((first, last)) => match (decimal_u64(first), decimal_u64(last), decimal_u64(total)) {
                    (Some(start), Some(end), Some(total)) => if total == 0 || start > end || end >= total {
                        None
                    } else {
                        Some(ContentRange { start, end, total })
                    },
                    _ => None,
                },
                None => None,
            },
            None => None,
        }
    } else {
        None
    }
}

/// Whether a character slice begins with the given characters.
fn starts_with_chars(s: &[char], prefix: &[char]) -> (starts: bool)
    ensures
        starts == has_prefix(s@, prefix@),
{
    if s.len() < prefix.len() {
        return false;
    }
    let mut k: usize = 0;
    while k < prefix.len()
        invariant
            s@.len() >= prefix@.len(),
            0 <= k <= prefix@.len(),
            forall|i: int| 0 <= i < k ==> s@[i] == prefix@[i],
        decreases prefix@.len() - k,
    {
        if s[k] != prefix[k] {
            proof {
                assert(s@.take(prefix@.len() as int)[k as int] != prefix@[k as int]);
            }
            return false;
        }
        k += 1;
    }
    proof {
        assert(s@.take(prefix@.len() as int) =~= prefix@);
    }
    true
}

/// Parses a strict satisfied `Content-Range` value.
pub fn parse_content_range(value: &str) -> (parsed: Result<ContentRange, RangeValidationError>)
    ensures
        parsed is Ok <==> content_range_of(value@) is Some,
        parsed matches Ok(range) ==> content_range_of(value@) == Some(range),
        parsed matches Err(e) ==> e == RangeValidationError::MalformedContentRange,
{
    let chars = chars_of(value);
    let prefix: Vec<char> = vec!['b', 'y', 't', 'e', 's', ' '];
    proof {
        assert(prefix@ =~= bytes_unit_prefix());
    }
    if !starts_with_chars(chars.as_slice(), prefix.as_slice()) {
        return Err(RangeValidationError::MalformedContentRange);
    }
    let rest = copy_range(chars.as_slice(), 6, chars.len());
    proof {
        assert(rest@ =~= value@.skip(6));
    }
    let (bounds, total) = match split_once_char(rest.as_slice(), '/') {
        Some(parts) => parts,
        None => return Err(RangeValidationError::MalformedContentRange),
    };
    let (first, last) = match split_once_char(bounds.as_slice(), '-') {
        Some(parts) => parts,
        None => return Err(RangeValidationError::MalformedContentRange),
    };
    let start = decimal_from_chars(first.as_slice());
    let end = decimal_from_chars(last.as_slice());
    let size = decimal_from_chars(total.as_slice());
    match (start, end, size) {
        (Some(start), Some(end), Some(total)) => {
            if total == 0 || start > end || end >= total {
                Err(RangeValidationError::MalformedContentRange)
            } else {
                Ok(ContentRange { start, end, total })
            }
        }
        _ => Err(RangeValidationError::MalformedContentRange),
    }
}

/// The required `Content-Range` of a ranged response.
pub open spec fn required_content_range_of(fields: Seq<HeaderField>) -> Result<ContentRange, RangeValidationError> {
    match single_header_of(fields, content_range_name()) {
        Err(e) => Err(e),
        Ok(None) => Err(RangeValidationError::MissingHeader),
        Ok(Some(value)) => match content_range_of(value) {
            Some(range) => Ok(range),
            None => Err(RangeValidationError::MalformedContentRange),
        },
    }
}

/// Reads and parses the required singleton `Content-Range`.
pub fn required_content_range(headers: &ResponseHeaders) -> (parsed: Result<ContentRange, RangeValidationError>)
    ensures
        parsed == required_content_range_of(headers.fields@),
{
    match single_header(headers, content_range_header()) {
        Err(e) => Err(e),
        Ok(None) => Err(RangeValidationError::MissingHeader),
        Ok(Some(value)) => parse_content_range(value.as_str()),
    }
}

/// The complete length an unsatisfiable-range response declares with
/// `bytes */TOTAL`, if it declares a decimal one.
pub open spec fn unsatisfied_total_of(fields: Seq<HeaderField>) -> Result<Option<u64>, RangeValidationError> {
    match single_header_of(fields, content_range_name()) {
        Err(e) => Err(e),
        Ok(None) => Ok(None),
        Ok(Some(value)) => if has_prefix(value, unsatisfied_prefix()) {
            Ok(decimal_u64(value.skip(8)))
        } else {
            Err(RangeValidationError::MalformedContentRange)
        },
    }
}

/// Reads `Content-Range: bytes */TOTAL` from a `416` response.
pub fn unsatisfied_total(headers: &ResponseHeaders) -> (total: Result<Option<u64>, RangeValidationError>)
    ensures
        total == unsatisfied_total_of(headers.fields@),
{
    match single_header(headers, content_range_header()) {
        Err(e) => Err(e),
        Ok(None) => Ok(None),
        Ok(Some(value)) => {
            let chars = chars_of(value.as_str());
            let prefix: Vec<char> = vec!['b', 'y', 't', 'e', 's', ' ', '*', '/'];
            proof {
                assert(prefix@ =~= unsatisfied_prefix());
            }
            if !starts_with_chars(chars.as_slice(), prefix.as_slice()) {
                return Err(RangeValidationError::MalformedContentRange);
            }
            let rest = copy_range(chars.as_slice(), 8, chars.len());
            proof {
                assert(rest@ =~= value@.skip(8));
            }
            Ok(decimal_from_chars(rest.as_slice()))
        }
    }
}

/// An optional singleton decimal header.
pub open spec fn optional_u64_of(fields: Seq<HeaderField>, name: Seq<char>) -> Result<Option<u64>, RangeValidationError> {
    match single_header_of(fields, name) {
        Err(e) => Err(e),
        Ok(None) => Ok(None),
        Ok(Some(value)) => match decimal_u64(value) {
            Some(n) => Ok(Some(n)),
            None => Err(RangeValidationError::InvalidHeader),
        },
    }
}

/// Reads an optional singleton header holding a decimal `u64`.
pub fn optional_u64_header(headers: &ResponseHeaders, name: &str) -> (parsed: Result<Option<u64>, RangeValidationError>)
    ensures
        parsed == optional_u64_of(headers.fields@, name@),
{
    match single_header(headers, name) {
        Err(e) => Err(e),
        Ok(None) => Ok(None),
        Ok(Some(value)) => match parse_u64(value.as_str()) {
            Some(n) => Ok(Some(n)),
            None => Err(RangeValidationError::InvalidHeader),
        },
    }
}

/// Only identity (or no) content coding is accepted.
pub open spec fn encoding_check(fields: Seq<HeaderField>) -> Result<(), RangeValidationError> {
    match single_header_of(fields, content_encoding_name()) {
        Err(e) => Err(e),
        Ok(Some(value)) => if eq_ignore_case(value, identity_coding()) {
            Ok(())
        } else {
            Err(RangeValidationError::UnexpectedContentEncoding)
        },
        Ok(None) => Ok(()),
    }
}

/// Rejects any `Content-Encoding` other than `identity`.
pub fn reject_unexpected_encoding(headers: &ResponseHeaders) -> (result: Result<(), RangeValidationError>)
    ensures
        result == encoding_check(headers.fields@),
{
    match single_header(headers, content_encoding_header()) {
        Err(e) => Err(e),
        Ok(Some(value)) => {
            let chars = chars_of(value.as_str());
            let identity: Vec<char> = vec!['i', 'd', 'e', 'n', 't', 'i', 't', 'y'];
            proof {
                assert(identity@ =~= identity_coding());
            }
            if eq_ignore_ascii_case(chars.as_slice(), identity.as_slice()) {
                Ok(())
            } else {
                Err(RangeValidationError::UnexpectedContentEncoding)
            }
        }
        Ok(None) => Ok(()),
    }
}

/// The validators a response carries: a well-formed singleton `ETag` and a
/// singleton `Last-Modified` that is a valid HTTP date (kept as sent).
pub open spec fn validators_of(fields: Seq<HeaderField>) -> Result<(Option<(bool, Seq<char>)>, Option<Seq<char>>), RangeValidationError> {
    let etag = match single_header_of(fields, etag_name()) {
        Err(e) => Err(e),
        Ok(None) => Ok(None),
        Ok(Some(value)) => match etag_parts(value) {
            Some(parts) => Ok(Some(parts)),
            None => Err(RangeValidationError::InvalidHeader),
        },
    };
    match etag {
        Err(e) => Err(e),
        Ok(tag) => match single_header_of(fields, last_modified_name()) {
            Err(e) => Err(e),
            Ok(None) => Ok((tag, None)),
            Ok(Some(value)) => if http_date_seconds(value) is Some {
                Ok((tag, Some(value)))
            } else {
                Err(RangeValidationError::InvalidHeader)
            },
        },
    }
}

/// Parses the response's validators.
pub fn parse_validators(headers: &ResponseHeaders) -> (validators: Result<Validators, RangeValidationError>)
    ensures
        validators is Ok <==> validators_of(headers.fields@) is Ok,
        validators matches Ok(v) ==> validators_of(headers.fields@) == Ok::<(Option<(bool, Seq<char>)>, Option<Seq<char>>), RangeValidationError>(validators_view(v)),
        validators matches Err(e) ==> validators_of(headers.fields@) == Err::<(Option<(bool, Seq<char>)>, Option<Seq<char>>), RangeValidationError>(e),
{
    let etag = match single_header(headers, etag_header()) {
        Err(e) => return Err(e),
        Ok(None) => None,
        Ok(Some(value)) => match parse_etag(value.as_str()) {
            Ok(tag) => Some(tag),
            Err(e) => return Err(e),
        },
    };
    let last_modified = match single_header(headers, last_modified_header()) {
        Err(e) => return Err(e),
        Ok(None) => None,
        Ok(Some(value)) => match parse_http_date_seconds(value.as_str()) {
            Some(_) => Some(value),
            None => return Err(RangeValidationError::InvalidHeader),
        },
    };
    Ok(Validators { etag, last_modified })
}

} // verus!

verus! {

/// `206 Partial Content`
pub const PARTIAL_CONTENT: u16 = 206;

/// Everything a ranged response must satisfy before its body may be written,
/// checked in order: status, encoding, `Content-Range` against the
/// assignment, `Content-Length`, validators, and known validators. The value
/// is the response's validators.
pub open spec fn range_response_check(
    status: u16,
    fields: Seq<HeaderField>,
    assignment: RangeAssignment,
    expected: Validators,
) -> Result<(Option<(bool, Seq<char>)>, Option<Seq<char>>), RangeValidationError> {
    if status != PARTIAL_CONTENT {
        Err(RangeValidationError::WrongStatus)
    } else if encoding_check(fields) is Err {
        Err(encoding_check(fields)->Err_0)
    } else {
        match required_content_range_of(fields) {
            Err(e) => Err(e),
            Ok(range) => if range.start != assignment.spec_start() || range.end != assignment.spec_end() {
                Err(RangeValidationError::ContentRangeMismatch)
            } else if range.total != assignment.spec_total() {
                Err(RangeValidationError::TotalMismatch)
            } else {
                match optional_u64_of(fields, content_length_name()) {
                    Err(e) => Err(e),
                    Ok(length) => if length matches Some(n) && n != assignment.spec_end() - assignment.spec_start() + 1 {
                        Err(RangeValidationError::ContentLengthMismatch)
                    } else {
                        match validators_of(fields) {
                            Err(e) => Err(e),
                            Ok(actual) => match validators_check(validators_view(expected), actual) {
                                Err(e) => Err(e),
                                Ok(_) => Ok(actual),
                            },
                        }
                    },
                }
            },
        }
    }
}

/// Validates all metadata required before a ranged body may be written.
/// Body streaming must separately enforce that exactly `assignment.len()`
/// bytes arrive; only status and headers are checked here.
pub fn validate_range_response(
    status: u16,
    headers: &ResponseHeaders,
    assignment: RangeAssignment,
    expected_validators: &Validators,
) -> (validated: Result<ValidatedRange, RangeValidationError>)
    ensures
        validated is Ok <==> range_response_check(status, headers.fields@, assignment, *expected_validators) is Ok,
        validated matches Ok(v) ==> v.assignment == assignment
            && range_response_check(status, headers.fields@, assignment, *expected_validators)
                == Ok::<(Option<(bool, Seq<char>)>, Option<Seq<char>>), RangeValidationError>(validators_view(v.validators)),
        validated matches Err(e) ==> range_response_check(status, headers.fields@, assignment, *expected_validators)
            == Err::<(Option<(bool, Seq<char>)>, Option<Seq<char>>), RangeValidationError>(e),
{
    if status != PARTIAL_CONTENT {
        return Err(RangeValidationError::WrongStatus);
    }
    match reject_unexpected_encoding(headers) {
        Err(e) => return Err(e),
        Ok(()) => {}
    }
    let parsed = match required_content_range(headers) {
        Err(e) => return Err(e),
        Ok(range) => range,
    };
    if parsed.start != assignment.start() || parsed.end != assignment.end() {
        return Err(RangeValidationError::ContentRangeMismatch);
    }
    if parsed.total != assignment.total() {
        return Err(RangeValidationError::TotalMismatch);
    }
    match optional_u64_header(headers, content_length_header()) {
        Err(e) => return Err(e),
        Ok(Some(length)) => {
            if length != assignment.len() {
                return Err(RangeValidationError::ContentLengthMismatch);
            }
        }
        Ok(None) => {}
    }
    let validators = match parse_validators(headers) {
        Err(e) => return Err(e),
        Ok(v) => v,
    };
    match validate_expected_validators(expected_validators, &validators) {
        Err(e) => return Err(e),
        Ok(()) => {}
    }
    Ok(ValidatedRange { assignment, validators })
}

/// Whole seconds from `now_nanos` (nanoseconds after the epoch) until
/// `target_seconds` after the epoch, rounded up; zero once it has passed.
pub open spec fn seconds_until(target_seconds: u64, now_nanos: u128) -> nat {
    let target = target_seconds * NANOS_PER_SEC;
    if target > now_nanos {
        let delay = (target - now_nanos) as nat;
        (delay / (NANOS_PER_SEC as nat) + if delay % (NANOS_PER_SEC as nat) != 0 { 1nat } else { 0nat }) as nat
    } else {
        0
    }
}

/// Server retry guidance: a singleton `Retry-After` of decimal seconds, or an
/// HTTP date turned into whole seconds from `now`, rounded up so a retry
/// never precedes the deadline. An absent or unusable header gives `None`.
pub open spec fn retry_after_of(fields: Seq<HeaderField>, now: Instant) -> Option<u64> {
    match single_header_of(fields, retry_after_name()) {
        Ok(Some(value)) => match decimal_u64(value) {
            Some(seconds) => Some(seconds),
            None => match http_date_seconds(value) {
                Some(target) => Some(
                    if seconds_until(target, now.nanos) > u64::MAX { u64::MAX } else { seconds_until(target, now.nanos) as u64 },
                ),
                None => None,
            },
        },
        _ => None,
    }
}

/// Retry guidance from `Retry-After`, measured from `now`.
pub fn retry_after_at(headers: &ResponseHeaders, now: Instant) -> (seconds: Option<u64>)
    ensures
        seconds == retry_after_of(headers.fields@, now),
{
    let value = match single_header(headers, retry_after_header()) {
        Ok(Some(value)) => value,
        _ => return None,
    };
    if let Some(seconds) = parse_u64(value.as_str()) {
        return Some(seconds);
    }
    let target = match parse_http_date_seconds(value.as_str()) {
        Some(target) => target,
        None => return None,
    };
    assert(target * NANOS_PER_SEC <= u64::MAX * NANOS_PER_SEC) by (nonlinear_arith);
    let target_nanos = target as u128 * NANOS_PER_SEC;
    let delay: u128 = if target_nanos > now.nanos { target_nanos - now.nanos } else { 0 };
    let whole = delay / NANOS_PER_SEC;
    let partial: u128 = if delay % NANOS_PER_SEC != 0 { 1 } else { 0 };
    let rounded = whole + partial;
    if rounded > u64::MAX as u128 {
        Some(u64::MAX)
    } else {
        Some(rounded as u64)
    }
}

/// Retry guidance from `Retry-After`, measured from the system clock.
pub fn retry_after_seconds(headers: &ResponseHeaders) -> (seconds: Option<u64>)
    ensures
        exists|now: Instant| seconds == retry_after_of(headers.fields@, now),
{
    let now = Instant::now();
    let seconds = retry_after_at(headers, now);
    assert(seconds == retry_after_of(headers.fields@, now));
    seconds
}

} // verus!

verus! {

/// An acceptable filename candidate: non-empty, at most
/// [`MAX_FILENAME_BYTES`] UTF-8 bytes, no control characters.
pub open spec fn valid_candidate_of(value: Seq<char>) -> Option<Seq<char>> {
    if value.len() > 0 && utf8_len(value) <= MAX_FILENAME_BYTES
        && forall|i: int| 0 <= i < value.len() ==> !is_control_char(#[trigger] value[i]) {
        Some(value)
    } else {
        None
    }
}

/// Keeps a filename candidate only when it passes [`valid_candidate_of`].
pub fn valid_filename_candidate(value: String) -> (candidate: Option<String>)
    ensures
        candidate is Some <==> valid_candidate_of(value@) is Some,
        candidate matches Some(c) ==> valid_candidate_of(value@) == Some(c@),
{
    let chars = chars_of(value.as_str());
    if chars.len() == 0 {
        return None;
    }
    match utf8_len_within(chars.as_slice(), MAX_FILENAME_BYTES) {
        None => return None,
        Some(_) => {}
    }
    let mut k: usize = 0;
    while k < chars.len()
        invariant
            chars@ == value@,
            0 <= k <= chars@.len(),
            forall|i: int| 0 <= i < k ==> !is_control_char(#[trigger] chars@[i]),
        decreases chars@.len() - k,
    {
        if is_control(chars[k]) {
            return None;
        }
        k += 1;
    }
    Some(value)
}

} // verus!

verus! {

/// Percent-decoding of raw bytes: `%HH` with two hexadecimal digits becomes
/// one byte, other bytes stay; a truncated or non-hex escape fails.
pub open spec fn percent_bytes(bytes: Seq<u8>) -> Option<Seq<u8>>
    decreases bytes.len(),
{
    if bytes.len() == 0 {
        Some(Seq::<u8>::empty())
    } else if bytes[0] == 0x25 {
        if bytes.len() >= 3 && is_hex_byte(bytes[1]) && is_hex_byte(bytes[2]) {
            match percent_bytes(bytes.skip(3)) {
                Some(rest) => Some(seq![(hex_value(bytes[1]) * 16 + hex_value(bytes[2])) as u8] + rest),
                None => None,
            }
        } else {
            None
        }
    } else {
        match percent_bytes(bytes.skip(1)) {
            Some(rest) => Some(seq![bytes[0]] + rest),
            None => None,
        }
    }
}

/// Percent-decoding of text: its UTF-8 bytes decoded, then read back as
/// UTF-8 text; `None` when an escape is malformed or the bytes are not UTF-8.
pub open spec fn percent_decode_of(value: Seq<char>) -> Option<Seq<char>> {
    match percent_bytes(encode_utf8(value)) {
        Some(decoded) => if valid_utf8(decoded) { Some(decode_utf8(decoded)) } else { None },
        None => None,
    }
}

/// Calls `String::from_utf8`, which accepts exactly the valid UTF-8 byte
/// sequences and then holds the characters they encode.
#[verifier::external_body]
fn string_from_utf8(bytes: Vec<u8>) -> (text: Option<String>)
    ensures
        text is Some <==> valid_utf8(bytes@),
        text matches Some(t) ==> t@ == decode_utf8(bytes@),
{
    String::from_utf8(bytes).ok()
}

/// Decodes `%HH` escapes in text and requires the result to be UTF-8.
pub fn percent_decode(value: &str) -> (decoded: Option<String>)
    ensures
        decoded is Some <==> percent_decode_of(value@) is Some,
        decoded matches Some(d) ==> percent_decode_of(value@) == Some(d@),
{
    let bytes = value.as_bytes();
    let ghost all = bytes@;
    let mut out: Vec<u8> = Vec::new();
    let mut index: usize = 0;
    proof {
        assert(all.skip(0) =~= all);
        match percent_bytes(all) {
            Some(r) => {
                assert(out@ + r =~= r);
            }
            None => {}
        }
    }
    while index < bytes.len()
        invariant
            bytes@ == all,
            all == encode_utf8(value@),
            0 <= index <= all.len(),
            percent_bytes(all) == (match percent_bytes(all.skip(index as int)) {
                Some(rest) => Some(out@ + rest),
                None => None::<Seq<u8>>,
            }),
        decreases all.len() - index,
    {
        let ghost tail = all.skip(index as int);
        if bytes[index] == 0x25 {
            if bytes.len() - index < 3 || !is_hex(bytes[index + 1]) || !is_hex(bytes[index + 2]) {
                return None;
            }
            let high = hex(bytes[index + 1]);
            let low = hex(bytes[index + 2]);
            let byte = high * 16 + low;
            proof {
                assert(tail.skip(3) =~= all.skip(index + 3));
                match percent_bytes(tail.skip(3)) {
                    Some(rest) => {
                        assert(out@ + (seq![byte] + rest) =~= out@.push(byte) + rest);
                    }
                    None => {}
                }
            }
            out.push(byte);
            index += 3;
        } else {
            let byte = bytes[index];
            proof {
                assert(tail.skip(1) =~= all.skip(index + 1));
                match percent_bytes(tail.skip(1)) {
                    Some(rest) => {
                        assert(out@ + (seq![byte] + rest) =~= out@.push(byte) + rest);
                    }
                    None => {}
                }
            }
            out.push(byte);
            index += 1;
        }
    }
    proof {
        assert(all.skip(index as int) =~= Seq::<u8>::empty());
        assert(out@ + Seq::<u8>::empty() =~= out@);
    }
    string_from_utf8(out)
}

/// Backslash escapes inside a quoted string: `\x` stands for `x`; a final
/// lone backslash fails.
pub open spec fn unescape(s: Seq<char>) -> Option<Seq<char>>
    decreases s.len(),
{
    if s.len() == 0 {
        Some(Seq::<char>::empty())
    } else if s[0] == '\\' {
        if s.len() == 1 {
            None
        } else {
            match unescape(s.skip(2)) {
                Some(rest) => Some(seq![s[1]] + rest),
                None => None,
            }
        }
    } else {
        match unescape(s.skip(1)) {
            Some(rest) => Some(seq![s[0]] + rest),
            None => None,
        }
    }
}

/// A `filename` parameter value: a quoted string is unescaped, a token is
/// taken as is; either must be an acceptable candidate.
pub open spec fn unquote_of(value: Seq<char>) -> Option<Seq<char>> {
    if value.len() >= 2 && value[0] == '"' && value.last() == '"' {
        match unescape(value.subrange(1, value.len() - 1)) {
            Some(inner) => valid_candidate_of(inner),
            None => None,
        }
    } else {
        valid_candidate_of(value)
    }
}

/// Reads a `filename` parameter value (see [`unquote_of`]).
pub fn unquote(value: &[char]) -> (unquoted: Option<String>)
    ensures
        unquoted is Some <==> unquote_of(value@) is Some,
        unquoted matches Some(u) ==> unquote_of(value@) == Some(u@),
{
    let n = value.len();
    if n < 2 || value[0] != '"' || value[n - 1] != '"' {
        return valid_filename_candidate(string_from_chars(value));
    }
    let ghost inner = value@.subrange(1, n - 1);
    let mut out: Vec<char> = Vec::new();
    let mut index: usize = 1;
    proof {
        match unescape(inner) {
            Some(r) => {
                assert(out@ + r =~= r);
            }
            None => {}
        }
    }
    while index < n - 1
        invariant
            n == value@.len(),
            n >= 2,
            value@[0] == '"' && value@[n - 1] == '"',
            inner == value@.subrange(1, n - 1),
            1 <= index <= n - 1,
            unescape(inner) == (match unescape(value@.subrange(index as int, n - 1)) {
                Some(rest) => Some(out@ + rest),
                None => None::<Seq<char>>,
            }),
        decreases n - index,
    {
        let ghost tail = value@.subrange(index as int, n - 1);
        let c = value[index];
        if c == '\\' {
            if index + 1 == n - 1 {
                assert(tail.len() == 1 && tail[0] == '\\');
                assert(unescape(tail) is None);
                assert(unescape(inner) is None);
                return None;
            }
            let next = value[index + 1];
            proof {
                assert(tail.skip(2) =~= value@.subrange(index + 2, n - 1));
                match unescape(tail.skip(2)) {
                    Some(rest) => {
                        assert(out@ + (seq![next] + rest) =~= out@.push(next) + rest);
                    }
                    None => {}
                }
            }
            out.push(next);
            index += 2;
        } else {
            proof {
                assert(tail.skip(1) =~= value@.subrange(index + 1, n - 1));
                match unescape(tail.skip(1)) {
                    Some(rest) => {
                        assert(out@ + (seq![c] + rest) =~= out@.push(c) + rest);
                    }
                    None => {}
                }
            }
            out.push(c);
            index += 1;
        }
    }
    proof {
        assert(value@.subrange(index as int, n - 1) =~= Seq::<char>::empty());
        assert(out@ + Seq::<char>::empty() =~= out@);
    }
    valid_filename_candidate(string_from_chars(out.as_slice()))
}

} // verus!

verus! {

/// Parameter bounds of a header value split on `;` outside quoted strings
/// (a backslash inside quotes escapes the next character), scanned from
/// position `i` with the current parameter starting at `start`.
pub open spec fn parameter_bounds_from(
    s: Seq<char>,
    i: int,
    start: int,
    quoted: bool,
    escaped: bool,
    found: Seq<(int, int)>,
) -> Seq<(int, int)>
    decreases s.len() - i,
{
    if i >= s.len() {
        found.push((start, s.len() as int))
    } else if escaped {
        parameter_bounds_from(s, i + 1, start, quoted, false, found)
    } else if quoted && s[i] == '\\' {
        parameter_bounds_from(s, i + 1, start, quoted, true, found)
    } else if s[i] == '"' {
        parameter_bounds_from(s, i + 1, start, !quoted, false, found)
    } else if s[i] == ';' && !quoted {
        parameter_bounds_from(s, i + 1, i + 1, quoted, false, found.push((start, i)))
    } else {
        parameter_bounds_from(s, i + 1, start, quoted, false, found)
    }
}

/// The `;`-separated parameters of a header value, quoted strings kept whole.
pub open spec fn parameters_of(s: Seq<char>) -> Seq<Seq<char>> {
    let bounds = parameter_bounds_from(s, 0, 0, false, false, Seq::empty());
    Seq::new(bounds.len(), |k: int| s.subrange(bounds[k].0, bounds[k].1))
}

/// Splits a header value into its parameters (see [`parameters_of`]).
pub fn split_parameters(s: &[char]) -> (parameters: Vec<Vec<char>>)
    ensures
        parameters@.len() == parameters_of(s@).len(),
        forall|k: int| 0 <= k < parameters@.len() ==> #[trigger] parameters@[k]@ == parameters_of(s@)[k],
{
    let n = s.len();
    let ghost all = parameter_bounds_from(s@, 0, 0, false, false, Seq::empty());
    let mut bounds: Vec<(usize, usize)> = Vec::new();
    let mut start: usize = 0;
    let mut quoted = false;
    let mut escaped = false;
    let mut i: usize = 0;
    proof {
        assert(Seq::new(bounds@.len(), |k: int| (bounds@[k].0 as int, bounds@[k].1 as int)) =~= Seq::<(int, int)>::empty());
    }
    while i < n
        invariant
            n == s@.len(),
            0 <= start <= i <= n,
            forall|k: int| 0 <= k < bounds@.len() ==> #[trigger] bounds@[k].0 <= bounds@[k].1 <= n,
            all == parameter_bounds_from(
                s@,
                i as int,
                start as int,
                quoted,
                escaped,
                Seq::new(bounds@.len(), |k: int| (bounds@[k].0 as int, bounds@[k].1 as int)),
            ),
        decreases n - i,
    {
        let ghost before = Seq::new(bounds@.len(), |k: int| (bounds@[k].0 as int, bounds@[k].1 as int));
        let c = s[i];
        if escaped {
            escaped = false;
        } else if quoted && c == '\\' {
            escaped = true;
        } else if c == '"' {
            quoted = !quoted;
        } else if c == ';' && !quoted {
            bounds.push((start, i));
            proof {
                assert(Seq::new(bounds@.len(), |k: int| (bounds@[k].0 as int, bounds@[k].1 as int))
                    =~= before.push((start as int, i as int)));
            }
            start = i + 1;
        }
        i += 1;
    }
    bounds.push((start, n));
    let ghost last = Seq::new(bounds@.len(), |k: int| (bounds@[k].0 as int, bounds@[k].1 as int));
    proof {
        assert(last =~= all);
    }
    let mut parameters: Vec<Vec<char>> = Vec::new();
    let mut k: usize = 0;
    while k < bounds.len()
        invariant
            n == s@.len(),
            all.len() == bounds@.len(),
            forall|j: int| 0 <= j < bounds@.len() ==> #[trigger] bounds@[j].0 <= bounds@[j].1 <= n,
            forall|j: int| 0 <= j < bounds@.len() ==> (#[trigger] bounds@[j].0 as int, bounds@[j].1 as int) == all[j],
            0 <= k <= bounds@.len(),
            parameters@.len() == k,
            forall|j: int| 0 <= j < k ==> #[trigger] parameters@[j]@ == s@.subrange(all[j].0, all[j].1),
        decreases bounds@.len() - k,
    {
        let (a, b) = bounds[k];
        parameters.push(copy_range(s, a, b));
        k += 1;
    }
    parameters
}

/// `filename*`
pub open spec fn extended_filename_name() -> Seq<char> {
    seq!['f', 'i', 'l', 'e', 'n', 'a', 'm', 'e', '*']
}

/// `filename`
pub open spec fn filename_name() -> Seq<char> {
    seq!['f', 'i', 'l', 'e', 'n', 'a', 'm', 'e']
}

/// `utf-8`
pub open spec fn utf8_label() -> Seq<char> {
    seq!['u', 't', 'f', '-', '8']
}

/// The filename a `filename*=UTF-8''…` parameter yields, if it is one and
/// decodes to an acceptable candidate.
pub open spec fn extended_candidate_of(parameter: Seq<char>) -> Option<Seq<char>> {
    match split_first(parameter, '=') {
        Some((name, raw)) => if eq_ignore_case(trim_ws(name), extended_filename_name()) {
            match split_first_pair(trim_ws(raw), '\'') {
                Some((charset, encoded)) => if eq_ignore_case(charset, utf8_label()) {
                    match percent_decode_of(encoded) {
                        Some(decoded) => valid_candidate_of(decoded),
                        None => None,
                    }
                } else {
                    None
                },
                None => None,
            }
        } else {
            None
        },
        None => None,
    }
}

/// For a `filename=` parameter, what it yields (an acceptable candidate or
/// nothing); `None` when the parameter is not `filename`.
pub open spec fn plain_candidate_of(parameter: Seq<char>) -> Option<Option<Seq<char>>> {
    match split_first(parameter, '=') {
        Some((name, raw)) => if eq_ignore_case(trim_ws(name), filename_name()) {
            Some(unquote_of(trim_ws(raw)))
        } else {
            None
        },
        None => None,
    }
}

/// Position `i` (after the disposition type) holds the first usable
/// `filename*` parameter.
pub open spec fn is_first_extended(parameters: Seq<Seq<char>>, i: int) -> bool {
    1 <= i < parameters.len() && extended_candidate_of(parameters[i]) is Some
        && forall|j: int| 1 <= j < i ==> extended_candidate_of(#[trigger] parameters[j]) is None
}

/// Position `i` (after the disposition type) holds the first `filename`
/// parameter.
pub open spec fn is_first_plain(parameters: Seq<Seq<char>>, i: int) -> bool {
    1 <= i < parameters.len() && plain_candidate_of(parameters[i]) is Some
        && forall|j: int| 1 <= j < i ==> plain_candidate_of(#[trigger] parameters[j]) is None
}

/// The filename a `Content-Disposition` value names: the first usable UTF-8
/// `filename*`, else what the first `filename` parameter yields.
pub open spec fn disposition_filename_of(value: Seq<char>) -> Option<Seq<char>> {
    let parameters = parameters_of(value);
    if exists|i: int| is_first_extended(parameters, i) {
        extended_candidate_of(parameters[choose|i: int| is_first_extended(parameters, i)])
    } else if exists|i: int| is_first_plain(parameters, i) {
        plain_candidate_of(parameters[choose|i: int| is_first_plain(parameters, i)])->Some_0
    } else {
        None
    }
}

/// Reads one `filename*=` parameter (see [`extended_candidate_of`]).
fn extended_candidate(parameter: &[char]) -> (candidate: Option<String>)
    ensures
        candidate is Some <==> extended_candidate_of(parameter@) is Some,
        candidate matches Some(c) ==> extended_candidate_of(parameter@) == Some(c@),
{
    let (name, raw) = match split_once_char(parameter, '=') {
        Some(parts) => parts,
        None => return None,
    };
    let label: Vec<char> = vec!['f', 'i', 'l', 'e', 'n', 'a', 'm', 'e', '*'];
    proof {
        assert(label@ =~= extended_filename_name());
    }
    let trimmed_name = trim_chars(name.as_slice());
    if !eq_ignore_ascii_case(trimmed_name.as_slice(), label.as_slice()) {
        return None;
    }
    let trimmed_raw = trim_chars(raw.as_slice());
    let (charset, encoded) = match split_once_pair(trimmed_raw.as_slice(), '\'') {
        Some(parts) => parts,
        None => return None,
    };
    let utf8: Vec<char> = vec!['u', 't', 'f', '-', '8'];
    proof {
        assert(utf8@ =~= utf8_label());
    }
    if !eq_ignore_ascii_case(charset.as_slice(), utf8.as_slice()) {
        return None;
    }
    let encoded_text = string_from_chars(encoded.as_slice());
    match percent_decode(encoded_text.as_str()) {
        Some(decoded) => valid_filename_candidate(decoded),
        None => None,
    }
}

/// Reads one `filename=` parameter (see [`plain_candidate_of`]).
fn plain_candidate(parameter: &[char]) -> (candidate: Option<Option<String>>)
    ensures
        candidate is Some <==> plain_candidate_of(parameter@) is Some,
        candidate matches Some(inner) ==> (inner is Some <==> plain_candidate_of(parameter@)->Some_0 is Some),
        candidate matches Some(Some(c)) ==> plain_candidate_of(parameter@)->Some_0 == Some(c@),
{
    let (name, raw) = match split_once_char(parameter, '=') {
        Some(parts) => parts,
        None => return None,
    };
    let label: Vec<char> = vec!['f', 'i', 'l', 'e', 'n', 'a', 'm', 'e'];
    proof {
        assert(label@ =~= filename_name());
    }
    let trimmed_name = trim_chars(name.as_slice());
    if !eq_ignore_ascii_case(trimmed_name.as_slice(), label.as_slice()) {
        return None;
    }
    let trimmed_raw = trim_chars(raw.as_slice());
    match unquote(trimmed_raw.as_slice()) {
        Some(value) => Some(valid_filename_candidate(value)),
        None => Some(None),
    }
}

/// The filename named by a `Content-Disposition` value (see
/// [`disposition_filename_of`]).
pub fn filename_from_content_disposition(value: &str) -> (filename: Option<String>)
    ensures
        filename is Some <==> disposition_filename_of(value@) is Some,
        filename matches Some(f) ==> disposition_filename_of(value@) == Some(f@),
{
    let chars = chars_of(value);
    let parameters = split_parameters(chars.as_slice());
    let ghost ps = parameters_of(value@);
    let mut k: usize = 1;
    while k < parameters.len()
        invariant
            chars@ == value@,
            ps == parameters_of(value@),
            parameters@.len() == ps.len(),
            forall|j: int| 0 <= j < parameters@.len() ==> #[trigger] parameters@[j]@ == ps[j],
            1 <= k,
            forall|j: int| 1 <= j < k && j < ps.len() ==> extended_candidate_of(#[trigger] ps[j]) is None,
        decreases parameters@.len() - k,
    {
        let found = extended_candidate(parameters[k].as_slice());
        match found {
            Some(name) => {
                proof {
                    assert(parameters@[k as int]@ == ps[k as int]);
                    assert(is_first_extended(ps, k as int));
                    let i = choose|i: int| is_first_extended(ps, i);
                    if i < k {
                        assert(extended_candidate_of(ps[i]) is None);
                    } else if i > k {
                        assert(extended_candidate_of(ps[k as int]) is None);
                    }
                }
                return Some(name);
            }
            None => {
                proof {
                    assert(parameters@[k as int]@ == ps[k as int]);
                }
            }
        }
        k += 1;
    }
    proof {
        assert forall|i: int| !is_first_extended(ps, i) by {
            if 1 <= i < ps.len() {
                assert(extended_candidate_of(ps[i]) is None);
            }
        }
    }
    let mut k: usize = 1;
    while k < parameters.len()
        invariant
            chars@ == value@,
            ps == parameters_of(value@),
            parameters@.len() == ps.len(),
            forall|j: int| 0 <= j < parameters@.len() ==> #[trigger] parameters@[j]@ == ps[j],
            forall|i: int| !is_first_extended(ps, i),
            1 <= k,
            forall|j: int| 1 <= j < k && j < ps.len() ==> plain_candidate_of(#[trigger] ps[j]) is None,
        decreases parameters@.len() - k,
    {
        let found = plain_candidate(parameters[k].as_slice());
        proof {
            assert(parameters@[k as int]@ == ps[k as int]);
        }
        match found {
            Some(result) => {
                proof {
                    assert(is_first_plain(ps, k as int));
                    let i = choose|i: int| is_first_plain(ps, i);
                    if i < k {
                        assert(plain_candidate_of(ps[i]) is None);
                    } else if i > k {
                        assert(plain_candidate_of(ps[k as int]) is None);
                    }
                }
                return result;
            }
            None => {}
        }
        k += 1;
    }
    proof {
        assert forall|i: int| !is_first_plain(ps, i) by {
            if 1 <= i < ps.len() {
                assert(plain_candidate_of(ps[i]) is None);
            }
        }
    }
    None
}

} // verus!

verus! {

/// The path of a URL as `reqwest::Url` parses and serializes it; `None`
/// where the text is not a URL.
pub uninterp spec fn url_path_of(url: Seq<char>) -> Option<Seq<char>>;

/// Calls `reqwest::Url::parse` and returns `Url::path` of the result.
/// Claimed: the result is the named path of the text, nothing more.
#[verifier::external_body]
fn parse_url_path(url: &str) -> (path: Option<String>)
    ensures
        path matches Some(p) ==> url_path_of(url@) == Some(p@),
        path is None ==> url_path_of(url@) is None,
{
    reqwest::Url::parse(url).ok().map(|parsed| parsed.path().to_owned())
}

/// The last path segment of a URL, as `Url::path_segments` ends: only a
/// path that starts with `/` has segments.
pub open spec fn last_path_segment_of(url: Seq<char>) -> Option<Seq<char>> {
    match url_path_of(url) {
        Some(path) => if path.len() > 0 && path[0] == '/' { Some(after_last(path, '/')) } else { None },
        None => None,
    }
}

/// The filename suggested by the response: a `Content-Disposition` filename,
/// else the percent-decoded last segment of the final URL's path, when it is
/// an acceptable candidate.
pub open spec fn suggested_filename_of(fields: Seq<HeaderField>, final_url: Seq<char>) -> Option<Seq<char>> {
    let from_header = match single_header_of(fields, content_disposition_name()) {
        Ok(Some(value)) => disposition_filename_of(value),
        _ => None,
    };
    match from_header {
        Some(name) => Some(name),
        None => match last_path_segment_of(final_url) {
            Some(segment) => match percent_decode_of(segment) {
                Some(decoded) => valid_candidate_of(decoded),
                None => None,
            },
            None => None,
        },
    }
}

/// Untrusted filename candidate from `Content-Disposition` or the URL path.
pub fn filename_from_headers_or_url(headers: &ResponseHeaders, final_url: &str) -> (filename: Option<String>)
    ensures
        filename is Some <==> suggested_filename_of(headers.fields@, final_url@) is Some,
        filename matches Some(f) ==> suggested_filename_of(headers.fields@, final_url@) == Some(f@),
{
    if let Ok(Some(value)) = single_header(headers, content_disposition_header()) {
        if let Some(name) = filename_from_content_disposition(value.as_str()) {
            return Some(name);
        }
    }
    let path = match parse_url_path(final_url) {
        Some(path) => path,
        None => return None,
    };
    let chars = chars_of(path.as_str());
    if chars.len() == 0 || chars[0] != '/' {
        return None;
    }
    let segment = after_last_char(chars.as_slice(), '/');
    let segment_text = string_from_chars(segment.as_slice());
    match percent_decode(segment_text.as_str()) {
        Some(decoded) => valid_filename_candidate(decoded),
        None => None,
    }
}

} // verus!

verus! {

/// What `reqwest::Url::parse` makes of a text: its scheme, its user name,
/// whether it has a password, and its serialization without a fragment;
/// `None` where the text is not a URL.
pub uninterp spec fn url_parts_of(text: Seq<char>) -> Option<(Seq<char>, Seq<char>, bool, Seq<char>)>;

/// Calls `reqwest::Url::parse`, reads `scheme`, `username` and `password`,
/// clears the fragment with `set_fragment(None)` and serializes the URL.
/// Claimed: the result is the named reading of the text, nothing more.
#[verifier::external_body]
pub(crate) fn parse_url_parts(text: &str) -> (parts: Option<(String, String, bool, String)>)
    ensures
        parts is Some <==> url_parts_of(text@) is Some,
        parts matches Some(p) ==> url_parts_of(text@) == Some((p.0@, p.1@, p.2, p.3@)),
{
    let mut url = reqwest::Url::parse(text).ok()?;
    let scheme = url.scheme().to_owned();
    let username = url.username().to_owned();
    let has_password = url.password().is_some();
    url.set_fragment(None);
    Some((scheme, username, has_password, url.to_string()))
}

/// `http`
pub open spec fn http_scheme() -> Seq<char> {
    seq!['h', 't', 't', 'p']
}

/// `https`
pub open spec fn https_scheme() -> Seq<char> {
    seq!['h', 't', 't', 'p', 's']
}

/// Whether a scheme is one of the two direct web schemes.
pub fn is_web_scheme(scheme: &str) -> (web: bool)
    ensures
        web == (scheme@ == http_scheme() || scheme@ == https_scheme()),
{
    let chars = chars_of(scheme);
    let http: Vec<char> = vec!['h', 't', 't', 'p'];
    let https: Vec<char> = vec!['h', 't', 't', 'p', 's'];
    proof {
        assert(http@ =~= http_scheme());
        assert(https@ =~= https_scheme());
    }
    crate::filename::same_chars(chars.as_slice(), http.as_slice())
        || crate::filename::same_chars(chars.as_slice(), https.as_slice())
}

/// How a probe treats its input URL: it must parse, use HTTP(S), and carry
/// no user information; the fragment is dropped.
pub open spec fn probe_url_of(input: Seq<char>) -> Result<Seq<char>, ProbeError> {
    match url_parts_of(input) {
        None => Err(ProbeError::InvalidUrl),
        Some((scheme, username, has_password, without_fragment)) => if !(scheme == http_scheme() || scheme == https_scheme()) {
            Err(ProbeError::UnsupportedScheme)
        } else if username.len() > 0 || has_password {
            Err(ProbeError::UserInfoForbidden)
        } else {
            Ok(without_fragment)
        },
    }
}

/// Validates the URL a probe starts from (see [`probe_url_of`]).
pub fn validate_probe_url(input: &str) -> (url: Result<String, ProbeError>)
    ensures
        url is Ok <==> probe_url_of(input@) is Ok,
        url matches Ok(u) ==> probe_url_of(input@) == Ok::<Seq<char>, ProbeError>(u@),
        url matches Err(e) ==> probe_url_of(input@) == Err::<Seq<char>, ProbeError>(e),
{
    let (scheme, username, has_password, without_fragment) = match parse_url_parts(input) {
        Some(parts) => parts,
        None => return Err(ProbeError::InvalidUrl),
    };
    if !is_web_scheme(scheme.as_str()) {
        return Err(ProbeError::UnsupportedScheme);
    }
    if username.as_str().unicode_len() > 0 || has_password {
        return Err(ProbeError::UserInfoForbidden);
    }
    Ok(without_fragment)
}

} // verus!

verus! {

/// Safe metadata learned from a probe.
#[derive(Clone, PartialEq, Eq)]
pub struct ResourceProbe {
    final_url: String,
    size: Option<u64>,
    filename: Option<String>,
    validators: Validators,
    mode: ProbeMode,
    has_context: bool,
}

impl ResourceProbe {
    pub closed spec fn spec_final_url(&self) -> Seq<char> {
        self.final_url@
    }

    pub closed spec fn spec_size(&self) -> Option<u64> {
        self.size
    }

    pub closed spec fn spec_filename(&self) -> Option<Seq<char>> {
        match self.filename {
            Some(f) => Some(f@),
            None => None,
        }
    }

    pub closed spec fn spec_validators(&self) -> Validators {
        self.validators
    }

    pub closed spec fn spec_mode(&self) -> ProbeMode {
        self.mode
    }

    pub closed spec fn spec_has_context(&self) -> bool {
        self.has_context
    }

    /// Final URL after the bounded redirect policy.
    pub fn final_url(&self) -> (url: &str)
        ensures
            url@ == self.spec_final_url(),
    {
        self.final_url.as_str()
    }

    /// Known resource size, or `None` for an unknown-length single stream.
    pub fn size(&self) -> (size: Option<u64>)
        ensures
            size == self.spec_size(),
    {
        self.size
    }

    /// Untrusted filename candidate from `Content-Disposition` or URL path.
    pub fn filename(&self) -> (filename: Option<&str>)
        ensures
            filename matches Some(f) ==> self.spec_filename() == Some(f@),
            filename is None ==> self.spec_filename() is None,
    {
        match &self.filename {
            Some(f) => Some(f.as_str()),
            None => None,
        }
    }

    /// Parsed resource validators.
    pub fn validators(&self) -> (validators: &Validators)
        ensures
            *validators == self.spec_validators(),
    {
        &self.validators
    }

    /// Validated transfer capability.
    pub fn mode(&self) -> (mode: ProbeMode)
        ensures
            mode == self.spec_mode(),
    {
        self.mode
    }

    /// A probe made with a session treats `401` and `403` as an expired
    /// session.
    pub fn check_session_status(&self, status: u16) -> (checked: Result<(), ContextError>)
        ensures
            checked is Err <==> self.spec_has_context() && (status == 401 || status == 403),
            checked matches Err(e) ==> e == ContextError::Expired,
    {
        session_status(self.has_context, status)
    }
}

/// A request made with a session treats `401` and `403` as an expired
/// session.
pub fn session_status(has_context: bool, status: u16) -> (checked: Result<(), ContextError>)
    ensures
        checked is Err <==> has_context && (status == 401 || status == 403),
        checked matches Err(e) ==> e == ContextError::Expired,
{
    if has_context && (status == 401 || status == 403) {
        Err(ContextError::Expired)
    } else {
        Ok(())
    }
}

/// What a probe does after its first response.
#[derive(Clone, PartialEq, Eq)]
pub enum ProbeStep {
    /// The probe is complete.
    Done(ResourceProbe),
    /// Read exactly the first assigned byte; then, when `last` is given,
    /// request and validate that byte too; then the probe is complete.
    Ranged { probe: ResourceProbe, first: RangeAssignment, last: Option<RangeAssignment> },
}

/// `200 OK`
pub const OK_STATUS: u16 = 200;
/// `416 Range Not Satisfiable`
pub const RANGE_NOT_SATISFIABLE: u16 = 416;

/// The transfer mode a ranged probe establishes: segmented only with a
/// strong entity tag.
pub open spec fn ranged_mode(validators: Validators) -> ProbeMode {
    if strong_identity(validators) { ProbeMode::Segmented } else { ProbeMode::SingleStream(FallbackReason::InsufficientIdentity) }
}

/// What the first response of a probe decides: redirects, transformed
/// bodies and invalid validators are rejected; `206` must prove byte zero of
/// a known total (and the last byte is checked next when the total exceeds
/// one); `200` gives a single stream whose length may be known; `416` with
/// total zero is an empty resource; any other status fails with its code
/// and retry guidance. The value is the step's shape: the size, the mode,
/// and for a ranged step the total.
pub open spec fn probe_response_check(status: u16, fields: Seq<HeaderField>, now: Instant)
    -> Result<(Option<u64>, ProbeMode, Option<u64>), ProbeError> {
    if 300 <= status <= 399 {
        Err(ProbeError::RedirectRejected)
    } else if encoding_check(fields) is Err {
        Err(ProbeError::InvalidRange(encoding_check(fields)->Err_0))
    } else if validators_of(fields) is Err {
        Err(ProbeError::InvalidRange(validators_of(fields)->Err_0))
    } else if status == PARTIAL_CONTENT {
        match required_content_range_of(fields) {
            Err(e) => Err(ProbeError::InvalidRange(e)),
            Ok(range) => {
                let first = RangeAssignment::spec_make(0, 0, range.total);
                match range_response_check(status, fields, first, Validators::default_spec()) {
                    Err(e) => Err(ProbeError::InvalidRange(e)),
                    Ok(actual) => Ok((Some(range.total), if actual.0 matches Some((weak, _)) && !weak {
                        ProbeMode::Segmented
                    } else {
                        ProbeMode::SingleStream(FallbackReason::InsufficientIdentity)
                    }, Some(range.total))),
                }
            },
        }
    } else if status == OK_STATUS {
        match optional_u64_of(fields, content_length_name()) {
            Err(e) => Err(ProbeError::InvalidRange(e)),
            Ok(size) => Ok((size, ProbeMode::SingleStream(
                if size is Some { FallbackReason::RangeIgnored } else { FallbackReason::UnknownLength }), None)),
        }
    } else if status == RANGE_NOT_SATISFIABLE && unsatisfied_total_of(fields) is Err {
        Err(ProbeError::InvalidRange(unsatisfied_total_of(fields)->Err_0))
    } else if status == RANGE_NOT_SATISFIABLE && unsatisfied_total_of(fields) == Ok::<Option<u64>, RangeValidationError>(Some(0u64)) {
        Ok((Some(0u64), ProbeMode::Empty, None))
    } else {
        Err(ProbeError::HttpStatus { status, retry_after_seconds: retry_after_of(fields, now) })
    }
}

impl RangeAssignment {
    /// The assignment with these bounds.
    pub closed spec fn spec_make(start: u64, end: u64, total: u64) -> RangeAssignment {
        RangeAssignment { start, end, total }
    }

    /// What [`RangeAssignment::spec_make`] holds.
    pub proof fn lemma_make(start: u64, end: u64, total: u64)
        ensures
            RangeAssignment::spec_make(start, end, total).spec_start() == start,
            RangeAssignment::spec_make(start, end, total).spec_end() == end,
            RangeAssignment::spec_make(start, end, total).spec_total() == total,
    {
    }
}

impl Validators {
    /// No validators.
    pub open spec fn default_spec() -> Validators {
        Validators { etag: None, last_modified: None }
    }
}

} // verus!

verus! {

/// The probe a step carries.
pub open spec fn step_probe(step: ProbeStep) -> ResourceProbe {
    match step {
        ProbeStep::Done(probe) => probe,
        ProbeStep::Ranged { probe, .. } => probe,
    }
}

/// Decides what the first probe response means (see
/// [`probe_response_check`]); `final_url` is where redirects ended.
pub fn probe_first_response(status: u16, headers: &ResponseHeaders, final_url: &str, has_context: bool, now: Instant)
    -> (step: Result<ProbeStep, ProbeError>)
    ensures
        step is Ok <==> probe_response_check(status, headers.fields@, now) is Ok,
        step matches Err(e) ==> probe_response_check(status, headers.fields@, now)
            == Err::<(Option<u64>, ProbeMode, Option<u64>), ProbeError>(e),
        step matches Ok(s) ==> {
            let (size, mode, ranged_total) = probe_response_check(status, headers.fields@, now)->Ok_0;
            let probe = step_probe(s);
            &&& probe.spec_size() == size
            &&& probe.spec_mode() == mode
            &&& probe.spec_final_url() == final_url@
            &&& probe.spec_filename() == suggested_filename_of(headers.fields@, final_url@)
            &&& validators_of(headers.fields@) == Ok::<(Option<(bool, Seq<char>)>, Option<Seq<char>>), RangeValidationError>(
                    validators_view(probe.spec_validators()))
            &&& probe.spec_has_context() == has_context
            &&& match ranged_total {
                None => s is Done,
                Some(total) => s matches ProbeStep::Ranged { first, last, .. } && first.spec_start() == 0
                    && first.spec_end() == 0 && first.spec_total() == total
                    && (total > 1 ==> (last matches Some(l) && l.spec_start() == total - 1 && l.spec_end() == total - 1
                        && l.spec_total() == total))
                    && (total <= 1 ==> last is None),
            }
        },
{
    if 300 <= status && status <= 399 {
        return Err(ProbeError::RedirectRejected);
    }
    match reject_unexpected_encoding(headers) {
        Err(e) => return Err(ProbeError::InvalidRange(e)),
        Ok(()) => {}
    }
    let filename = filename_from_headers_or_url(headers, final_url);
    let validators = match parse_validators(headers) {
        Err(e) => return Err(ProbeError::InvalidRange(e)),
        Ok(v) => v,
    };
    if status == PARTIAL_CONTENT {
        let parsed = match required_content_range(headers) {
            Err(e) => return Err(ProbeError::InvalidRange(e)),
            Ok(range) => range,
        };
        let first = match RangeAssignment::new(0, 0, parsed.total) {
            Ok(a) => a,
            Err(e) => return Err(ProbeError::InvalidRange(e)),
        };
        proof {
            RangeAssignment::lemma_make(0, 0, parsed.total);
            assert(first == RangeAssignment::spec_make(0, 0, parsed.total));
        }
        let expected = Validators { etag: None, last_modified: None };
        match validate_range_response(status, headers, first, &expected) {
            Err(e) => return Err(ProbeError::InvalidRange(e)),
            Ok(_) => {}
        }
        let last = if parsed.total > 1 {
            match RangeAssignment::new(parsed.total - 1, parsed.total - 1, parsed.total) {
                Ok(a) => Some(a),
                Err(e) => return Err(ProbeError::InvalidRange(e)),
            }
        } else {
            None
        };
        let mode = if validators.has_strong_identity() {
            ProbeMode::Segmented
        } else {
            ProbeMode::SingleStream(FallbackReason::InsufficientIdentity)
        };
        let probe = ResourceProbe {
            final_url: final_url.to_owned(),
            size: Some(parsed.total),
            filename,
            validators,
            mode,
            has_context,
        };
        return Ok(ProbeStep::Ranged { probe, first, last });
    }
    if status == OK_STATUS {
        let size = match optional_u64_header(headers, content_length_header()) {
            Err(e) => return Err(ProbeError::InvalidRange(e)),
            Ok(size) => size,
        };
        let mode = match size {
            Some(_) => ProbeMode::SingleStream(FallbackReason::RangeIgnored),
            None => ProbeMode::SingleStream(FallbackReason::UnknownLength),
        };
        return Ok(ProbeStep::Done(ResourceProbe {
            final_url: final_url.to_owned(),
            size,
            filename,
            validators,
            mode,
            has_context,
        }));
    }
    if status == RANGE_NOT_SATISFIABLE {
        match unsatisfied_total(headers) {
            Err(e) => return Err(ProbeError::InvalidRange(e)),
            Ok(Some(0)) => {
                return Ok(ProbeStep::Done(ResourceProbe {
                    final_url: final_url.to_owned(),
                    size: Some(0),
                    filename,
                    validators,
                    mode: ProbeMode::Empty,
                    has_context,
                }));
            }
            Ok(_) => {}
        }
    }
    Err(ProbeError::HttpStatus { status, retry_after_seconds: retry_after_at(headers, now) })
}

/// Checks the response to the last-byte verification request of a ranged
/// probe: it must come from the probe's final URL and prove the assignment
/// with the validators the first response returned.
pub fn check_probe_verification(
    status: u16,
    headers: &ResponseHeaders,
    same_url: bool,
    assignment: RangeAssignment,
    validators: &Validators,
) -> (checked: Result<(), ProbeError>)
    ensures
        !same_url ==> checked == Err::<(), ProbeError>(ProbeError::RedirectRejected),
        same_url ==> (checked is Ok <==> range_response_check(status, headers.fields@, assignment, *validators) is Ok),
        same_url && checked is Err ==> checked == Err::<(), ProbeError>(ProbeError::InvalidRange(
            range_response_check(status, headers.fields@, assignment, *validators)->Err_0)),
{
    if !same_url {
        return Err(ProbeError::RedirectRejected);
    }
    match validate_range_response(status, headers, assignment, validators) {
        Err(e) => Err(ProbeError::InvalidRange(e)),
        Ok(_) => Ok(()),
    }
}

/// Counts one received body chunk: a probe body may never exceed its
/// assignment.
pub fn count_body_chunk(received: u64, chunk_len: usize, expected: u64) -> (total: Result<u64, ProbeError>)
    ensures
        total is Ok <==> received + chunk_len <= expected,
        total matches Ok(t) ==> t == received + chunk_len,
        total matches Err(e) ==> e == ProbeError::BodyLengthMismatch,
{
    let length = chunk_len as u64;
    if chunk_len as u128 > u64::MAX as u128 {
        return Err(ProbeError::BodyLengthMismatch);
    }
    match received.checked_add(length) {
        None => Err(ProbeError::BodyLengthMismatch),
        Some(total) => if total > expected { Err(ProbeError::BodyLengthMismatch) } else { Ok(total) },
    }
}

/// A probe body must end exactly at its assignment's length.
pub fn finish_body(received: u64, expected: u64) -> (finished: Result<(), ProbeError>)
    ensures
        finished is Ok <==> received == expected,
        finished matches Err(e) ==> e == ProbeError::BodyLengthMismatch,
{
    if received != expected {
        return Err(ProbeError::BodyLengthMismatch);
    }
    Ok(())
}

} // verus!

verus! {

/// Most redirects a probe follows.
pub const MAX_REDIRECTS: usize = 10;

/// What resolving a reference against a base URL gives, as
/// `reqwest::Url::parse` then `Url::join` make it: the target's scheme,
/// user name, whether it has a password, and its serialization without a
/// fragment; `None` where either step fails.
pub uninterp spec fn url_join_of(base: Seq<char>, reference: Seq<char>) -> Option<(Seq<char>, Seq<char>, bool, Seq<char>)>;

/// Calls `reqwest::Url::parse` on the base and `Url::join` with the
/// reference, then reads the target as [`parse_url_parts`] does. Claimed:
/// the result is the named reading, nothing more.
#[verifier::external_body]
pub(crate) fn join_url_parts(base: &str, reference: &str) -> (parts: Option<(String, String, bool, String)>)
    ensures
        parts is Some <==> url_join_of(base@, reference@) is Some,
        parts matches Some(p) ==> url_join_of(base@, reference@) == Some((p.0@, p.1@, p.2, p.3@)),
{
    let mut next = reqwest::Url::parse(base).ok()?.join(reference).ok()?;
    let scheme = next.scheme().to_owned();
    let username = next.username().to_owned();
    let has_password = next.password().is_some();
    next.set_fragment(None);
    Some((scheme, username, has_password, next.to_string()))
}

/// The ASCII serialization of a URL's origin, as `reqwest::Url::parse` and
/// `Url::origin` give it; `None` where the text is not a URL.
pub uninterp spec fn url_origin_of(url: Seq<char>) -> Option<Seq<char>>;

/// Calls `reqwest::Url::parse`, then `origin().ascii_serialization()`.
/// Claimed: the result is the named origin, nothing more.
#[verifier::external_body]
pub(crate) fn url_origin(url: &str) -> (origin: Option<String>)
    ensures
        origin matches Some(o) ==> url_origin_of(url@) == Some(o@),
        origin is None ==> url_origin_of(url@) is None,
{
    reqwest::Url::parse(url).ok().map(|parsed| parsed.origin().ascii_serialization())
}

/// `location`
pub open spec fn location_name() -> Seq<char> {
    seq!['l', 'o', 'c', 'a', 't', 'i', 'o', 'n']
}

fn location_header() -> (name: &'static str)
    ensures
        name@ == location_name(),
{
    proof { reveal_strlit("location"); }
    "location"
}

/// Whether a status is one of the followed redirects.
pub open spec fn is_followed_redirect(status: u16) -> bool {
    status == 301 || status == 302 || status == 303 || status == 307 || status == 308
}

/// Where a redirect response may lead: only when following, below the hop
/// limit, for 301/302/303/307/308, to a singleton `Location` that resolves
/// to an HTTP(S) URL without user information, never downgrading HTTPS to
/// HTTP and, with a session, never leaving the origin. The fragment is
/// dropped.
pub open spec fn redirect_of(current: Seq<char>, status: u16, fields: Seq<HeaderField>, follow: bool, depth: usize, has_context: bool)
    -> Result<Seq<char>, ProbeError> {
    if !follow || depth == MAX_REDIRECTS || !is_followed_redirect(status) {
        Err(ProbeError::RedirectRejected)
    } else {
        match single_header_of(fields, location_name()) {
            Err(e) => Err(ProbeError::InvalidRange(e)),
            Ok(None) => Err(ProbeError::RedirectRejected),
            Ok(Some(location)) => match (url_join_of(current, location), url_parts_of(current)) {
                (Some((scheme, username, has_password, next)), Some((current_scheme, _, _, _))) =>
                    if !(scheme == http_scheme() || scheme == https_scheme()) || username.len() > 0 || has_password
                        || (current_scheme == https_scheme() && scheme == http_scheme())
                        || (has_context && url_origin_of(next) != url_origin_of(current)) {
                        Err(ProbeError::RedirectRejected)
                    } else {
                        Ok(next)
                    },
                _ => Err(ProbeError::RedirectRejected),
            },
        }
    }
}

/// The five redirect statuses 301, 302, 303, 307 and 308 are followed
/// alike: for any of them the hop leads where a 301 would, and every other
/// status is refused whatever the response holds.
pub proof fn lemma_followed_redirect_statuses(
    current: Seq<char>,
    status: u16,
    fields: Seq<HeaderField>,
    follow: bool,
    depth: usize,
    has_context: bool,
)
    ensures
        (status == 301 || status == 302 || status == 303 || status == 307 || status == 308) ==> redirect_of(current, status, fields, follow, depth, has_context)
            == redirect_of(current, 301, fields, follow, depth, has_context),
        !(status == 301 || status == 302 || status == 303 || status == 307 || status == 308) ==> redirect_of(current, status, fields, follow, depth, has_context)
            == Err::<Seq<char>, ProbeError>(ProbeError::RedirectRejected),
{
}

/// Any of 301, 302, 303, 307 and 308, while following and below the hop
/// limit, leads to the URL that a single `Location` resolves to when that
/// target is an HTTPS URL without user information on the current URL's
/// origin and the current URL is HTTPS too.
pub proof fn lemma_redirect_reaches_allowed_target(
    current: Seq<char>,
    status: u16,
    fields: Seq<HeaderField>,
    depth: usize,
    has_context: bool,
    location: Seq<char>,
    next: Seq<char>,
)
    requires
        status == 301 || status == 302 || status == 303 || status == 307 || status == 308,
        depth < MAX_REDIRECTS,
        single_header_of(fields, location_name()) == Ok::<Option<Seq<char>>, RangeValidationError>(Some(location)),
        url_join_of(current, location) == Some((seq!['h', 't', 't', 'p', 's'], Seq::<char>::empty(), false, next)),
        url_parts_of(current) matches Some((scheme, _, _, _)) && scheme == seq!['h', 't', 't', 'p', 's'],
        url_origin_of(next) == url_origin_of(current),
    ensures
        redirect_of(current, status, fields, true, depth, has_context) == Ok::<Seq<char>, ProbeError>(next),
{
    assert(https_scheme() =~= seq!['h', 't', 't', 'p', 's']);
    assert(http_scheme() != https_scheme()) by {
        assert(http_scheme().len() != https_scheme().len());
    }
}

/// The next URL of a redirect hop (see [`redirect_of`]).
pub fn redirect_target(current: &str, status: u16, headers: &ResponseHeaders, follow: bool, depth: usize, has_context: bool)
    -> (next: Result<String, ProbeError>)
    ensures
        next is Ok <==> redirect_of(current@, status, headers.fields@, follow, depth, has_context) is Ok,
        next matches Ok(u) ==> redirect_of(current@, status, headers.fields@, follow, depth, has_context)
            == Ok::<Seq<char>, ProbeError>(u@),
        next matches Err(e) ==> redirect_of(current@, status, headers.fields@, follow, depth, has_context)
            == Err::<Seq<char>, ProbeError>(e),
        (status == 301 || status == 302 || status == 303 || status == 307 || status == 308) ==> redirect_of(current@, status, headers.fields@, follow, depth, has_context)
            == redirect_of(current@, 301, headers.fields@, follow, depth, has_context),
        !(status == 301 || status == 302 || status == 303 || status == 307 || status == 308) ==> next == Err::<String, ProbeError>(ProbeError::RedirectRejected),
{
    proof {
        lemma_followed_redirect_statuses(current@, status, headers.fields@, follow, depth, has_context);
    }
    let followed = status == 301 || status == 302 || status == 303 || status == 307 || status == 308;
    if !follow || depth == MAX_REDIRECTS || !followed {
        return Err(ProbeError::RedirectRejected);
    }
    let location = match single_header(headers, location_header()) {
        Err(e) => return Err(ProbeError::InvalidRange(e)),
        Ok(None) => return Err(ProbeError::RedirectRejected),
        Ok(Some(location)) => location,
    };
    let joined = join_url_parts(current, location.as_str());
    let own = parse_url_parts(current);
    let ((scheme, username, has_password, next), current_scheme) = match (joined, own) {
        (Some(parts), Some((current_scheme, _, _, _))) => (parts, current_scheme),
        _ => return Err(ProbeError::RedirectRejected),
    };
    let https: Vec<char> = vec!['h', 't', 't', 'p', 's'];
    let http: Vec<char> = vec!['h', 't', 't', 'p'];
    proof {
        assert(https@ =~= https_scheme());
        assert(http@ =~= http_scheme());
    }
    let scheme_chars = chars_of(scheme.as_str());
    let current_chars = chars_of(current_scheme.as_str());
    let downgrade = crate::filename::same_chars(current_chars.as_slice(), https.as_slice())
        && crate::filename::same_chars(scheme_chars.as_slice(), http.as_slice());
    if !is_web_scheme(scheme.as_str()) || username.as_str().unicode_len() > 0 || has_password || downgrade {
        return Err(ProbeError::RedirectRejected);
    }
    if has_context {
        let a = url_origin(next.as_str());
        let b = url_origin(current);
        let same = match (a, b) {
            (Some(x), Some(y)) => {
                let xc = chars_of(x.as_str());
                let yc = chars_of(y.as_str());
                crate::filename::same_chars(xc.as_slice(), yc.as_slice())
            }
            (None, None) => true,
            _ => false,
        };
        if !same {
            return Err(ProbeError::RedirectRejected);
        }
    }
    Ok(next)
}

} // verus!
